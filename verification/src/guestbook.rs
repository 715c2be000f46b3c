//! What visitors leave behind: hearts, messages, and the count of their visits.

use vstd::hash_map::StringHashMap;
use vstd::prelude::*;
use crate::json::{lemma_filter_take, text_member, text_or, views, Duplicate, Json, JsonV};
use crate::model::{
    find_key, find_place, index_of, keys, lemma_index_of, opt_index, place_ids, ById,
    GuestMessage, GuestMessageV, Keyed, LikeCount, LikeCountV, Store, StoreV,
};
use crate::names::{clean_text, sanitize_text};
use crate::reply::Refusal;
use crate::table::{recent, Mark, Table};
use crate::text::{join2, join3, same, trim, trimmed};

verus! {

/// The number of remembered hearts from which on they are all forgotten.
pub const LIKE_MEMORY: usize = 200_000;

/// A visitor may leave a message every so many seconds.
pub const MESSAGE_PAUSE: u64 = 20;

/// The number of visitors from which on those of more than an hour ago are forgotten.
pub const MESSAGE_TABLE_LIMIT: usize = 50_000;

/// How long a visitor is remembered then, in seconds.
pub const MESSAGE_MEMORY: u64 = 3600;

/// The most messages that are kept.
pub const MAX_MESSAGES: usize = 5000;

/// The most messages that are shown.
pub const SHOWN_MESSAGES: usize = 500;

/// The places that have a count of hearts.
pub open spec fn liked_ids(s: Seq<LikeCountV>) -> Seq<Seq<char>> {
    Seq::new(s.len(), |i: int| s[i].place_id)
}

/// The hearts of a place.
pub open spec fn hearts(s: Seq<LikeCountV>, id: Seq<char>) -> u32 {
    match index_of(liked_ids(s), id) {
        Some(i) => s[i].count,
        None => 0,
    }
}

/// The counts with one more heart for a place.
pub open spec fn one_more_heart(s: Seq<LikeCountV>, id: Seq<char>) -> Seq<LikeCountV> {
    match index_of(liked_ids(s), id) {
        Some(i) => s.update(i, LikeCountV { place_id: id, count: (s[i].count + 1) as u32 }),
        None => s.push(LikeCountV { place_id: id, count: 1 }),
    }
}

impl Keyed<ById> for LikeCount {
    open spec fn key(&self) -> Seq<char> {
        self.place_id@
    }

    fn key_text(&self) -> (r: &str) {
        self.place_id.as_str()
    }
}

/// Where the count of a place stands.
fn find_like(v: &Vec<LikeCount>, id: &str) -> (r: Option<usize>)
    ensures
        opt_index(r) == index_of(liked_ids(views(v@)), id@),
        r matches Some(i) ==> i < v@.len() && v@[i as int]@.place_id == id@,
{
    assert(keys::<ById, LikeCount>(v@) =~= liked_ids(views(v@)));
    find_key::<ById, LikeCount>(v, id)
}

/// Who gave a heart to what, as far as it is remembered.
pub struct LikeGuard {
    seen: StringHashMap<()>,
}

/// A visitor and a place.
pub open spec fn like_key(ip: Seq<char>, id: Seq<char>) -> Seq<char> {
    ip + "|"@ + id
}

/// The hearts remembered after one more.
pub open spec fn remembering(seen: Set<Seq<char>>, key: Seq<char>) -> Set<Seq<char>> {
    if seen.contains(key) {
        seen
    } else if seen.insert(key).len() > LIKE_MEMORY {
        Set::empty()
    } else {
        seen.insert(key)
    }
}

impl View for LikeGuard {
    type V = Set<Seq<char>>;

    closed spec fn view(&self) -> Set<Seq<char>> {
        self.seen@.dom()
    }
}

impl LikeGuard {
    /// Nothing is remembered.
    pub fn new() -> (r: Self)
        ensures
            r@ == Set::<Seq<char>>::empty(),
    {
        let r = LikeGuard { seen: StringHashMap::new() };
        assert(r@ =~= Set::empty());
        r
    }

    /// Remembers a heart, and says whether it was remembered already.
    fn note(&mut self, key: String) -> (already: bool)
        ensures
            already == old(self)@.contains(key@),
            final(self)@ == remembering(old(self)@, key@),
    {
        let ghost before = self@;
        if self.seen.contains_key(key.as_str()) {
            return true;
        }
        self.seen.insert(key, ());
        assert(self@ =~= before.insert(key@));
        if self.seen.len() > LIKE_MEMORY {
            self.seen.clear();
            assert(self@ =~= Set::empty());
        }
        false
    }

    /// Whether a heart of this visitor for this place is remembered.
    pub fn remembers(&self, ip: &str, id: &str) -> (r: bool)
        ensures
            r == self@.contains(like_key(ip@, id@)),
    {
        self.seen.contains_key(join3(ip, "|", id).as_str())
    }

    /// Forgets a heart.
    pub fn forget(&mut self, ip: &str, id: &str)
        ensures
            final(self)@ == old(self)@.remove(like_key(ip@, id@)),
    {
        let ghost before = self@;
        self.seen.remove(join3(ip, "|", id).as_str());
        assert(self@ =~= before.remove(like_key(ip@, id@)));
    }
}

/// What a heart comes to: the hearts of the place, and whether the visitor had given one before.
#[derive(Clone, Copy, Debug, PartialEq, Eq, Structural)]
pub struct Liked {
    pub likes: u32,
    pub already: bool,
}

/// The store and the answer after a visitor gave a place a heart.
pub open spec fn after_like(s: StoreV, seen: Set<Seq<char>>, ip: Seq<char>, id: Seq<char>) -> (
    StoreV,
    Result<Liked, Refusal>,
) {
    if index_of(place_ids(s.places), id) is None {
        (s, Err(Refusal::LikedPlaceNotFound))
    } else if seen.contains(like_key(ip, id)) {
        (s, Ok(Liked { likes: hearts(s.likes, id), already: true }))
    } else {
        (
            StoreV { likes: one_more_heart(s.likes, id), ..s },
            Ok(Liked { likes: (hearts(s.likes, id) + 1) as u32, already: false }),
        )
    }
}

/// A visitor gives a place a heart: one for each visitor and place. The store is to be written
/// where the answer is a heart that was not given before.
pub fn like_place(store: &mut Store, guard: &mut LikeGuard, ip: &str, id: &str) -> (r: Result<
    Liked,
    Refusal,
>)
    requires
        hearts(old(store)@.likes, id@) < u32::MAX || old(guard)@.contains(like_key(ip@, id@))
            || index_of(place_ids(old(store)@.places), id@) is None,
    ensures
        final(guard)@ == remembering(old(guard)@, like_key(ip@, id@)),
        (final(store)@, r) == after_like(old(store)@, old(guard)@, ip@, id@),
{
    let already = guard.note(join3(ip, "|", id));
    if find_place(&store.places, id).is_none() {
        return Err(Refusal::LikedPlaceNotFound);
    }
    let ghost before = store@;
    let at: Option<usize> = find_like(&store.likes, id);
    let count: u32 = match at {
        Some(i) => {
            assert(before.likes[i as int] == store.likes@[i as int]@);
            store.likes[i].count
        },
        None => 0,
    };
    assert(count == hearts(before.likes, id@));
    if already {
        return Ok(Liked { likes: count, already: true });
    }
    let entry = LikeCount { place_id: id.to_owned(), count: count + 1 };
    let ghost meaning = entry@;
    match at {
        Some(i) => {
            store.likes.set(i, entry);
            assert(views(store.likes@) =~= before.likes.update(i as int, meaning));
        },
        None => {
            store.likes.push(entry);
            assert(views(store.likes@) =~= before.likes.push(meaning));
        },
    }
    assert(store@ =~= StoreV { likes: one_more_heart(before.likes, id@), ..before });
    Ok(Liked { likes: count + 1, already: false })
}

/// A second heart of the same visitor for the same place changes nothing, and the answer says the
/// same number again.
pub proof fn law_one_heart_each(s: StoreV, seen: Set<Seq<char>>, ip: Seq<char>, id: Seq<char>)
    requires
        index_of(place_ids(s.places), id) is Some,
        hearts(s.likes, id) < u32::MAX,
        seen.finite(),
        seen.len() < LIKE_MEMORY,
    ensures
        ({
            let (once, first) = after_like(s, seen, ip, id);
            let (twice, second) = after_like(
                once,
                remembering(seen, like_key(ip, id)),
                ip,
                id,
            );
            &&& first is Ok
            &&& twice == once
            &&& second == Ok::<Liked, Refusal>(Liked { likes: first->Ok_0.likes, already: true })
        }),
{
    let key = like_key(ip, id);
    let (once, first) = after_like(s, seen, ip, id);
    assert(remembering(seen, key).contains(key));
    if !seen.contains(key) {
        lemma_heart_counts(s.likes, id, id);
    }
}

/// One more heart is counted for the place it was given to, and for no other.
pub proof fn lemma_heart_counts(s: Seq<LikeCountV>, id: Seq<char>, other: Seq<char>)
    requires
        hearts(s, id) < u32::MAX,
    ensures
        hearts(one_more_heart(s, id), id) == hearts(s, id) + 1,
        other != id ==> hearts(one_more_heart(s, id), other) == hearts(s, other),
{
    let after = one_more_heart(s, id);
    lemma_index_of(liked_ids(s), id);
    lemma_index_of(liked_ids(s), other);
    lemma_index_of(liked_ids(after), id);
    lemma_index_of(liked_ids(after), other);
    match index_of(liked_ids(s), id) {
        Some(i) => {
            assert(liked_ids(after) =~= liked_ids(s));
        },
        None => {
            assert(liked_ids(after) =~= liked_ids(s).push(id));
            let n = s.len() as int;
            assert(liked_ids(after)[n] == id);
            assert forall|j: int| 0 <= j < n implies liked_ids(after)[j] == liked_ids(s)[j] by {}
            match index_of(liked_ids(after), id) {
                Some(k) => {
                    if k < n {
                        assert(liked_ids(s)[k] == id);
                        assert(liked_ids(s).contains(id));
                    }
                },
                None => {
                    assert(liked_ids(after).contains(id));
                },
            }
            if other != id {
                match index_of(liked_ids(s), other) {
                    Some(k) => {
                        assert(liked_ids(after)[k] == other);
                        assert(liked_ids(after).contains(other));
                    },
                    None => {
                        match index_of(liked_ids(after), other) {
                            Some(k) => {
                                assert(k < n);
                                assert(liked_ids(s)[k] == other);
                                assert(liked_ids(s).contains(other));
                            },
                            None => {},
                        }
                    },
                }
            }
        },
    }
}

/// The messages with one more put behind all that are as new or newer.
pub open spec fn put_by_age(s: Seq<GuestMessageV>, m: GuestMessageV) -> Seq<GuestMessageV>
    decreases s.len(),
{
    if s.len() == 0 || s.last().ts >= m.ts {
        s.push(m)
    } else {
        put_by_age(s.drop_last(), m).push(s.last())
    }
}

/// The messages from the newest to the oldest; of two of the same second, the one that came first
/// comes first.
pub open spec fn newest_first(s: Seq<GuestMessageV>) -> Seq<GuestMessageV>
    decreases s.len(),
{
    if s.len() == 0 {
        Seq::empty()
    } else {
        put_by_age(newest_first(s.drop_last()), s.last())
    }
}

/// The messages that are shown.
pub open spec fn shown_messages(s: Seq<GuestMessageV>) -> Seq<GuestMessageV> {
    let all = newest_first(s);
    if all.len() > SHOWN_MESSAGES {
        all.take(SHOWN_MESSAGES as int)
    } else {
        all
    }
}

/// Where a message belongs among those that are as new or newer, taken from the end.
proof fn lemma_put_by_age(s: Seq<GuestMessageV>, m: GuestMessageV, i: int)
    requires
        0 <= i <= s.len(),
        i > 0 ==> s[i - 1].ts >= m.ts,
        forall|k: int| i <= k < s.len() ==> s[k].ts < m.ts,
    ensures
        put_by_age(s, m) == s.insert(i, m),
    decreases s.len(),
{
    if s.len() == 0 || s.last().ts >= m.ts {
        assert(i == s.len());
        assert(s.insert(i, m) =~= s.push(m));
    } else {
        assert(i < s.len());
        lemma_put_by_age(s.drop_last(), m, i);
        assert(s.drop_last().insert(i, m).push(s.last()) =~= s.insert(i, m));
    }
}

/// The messages that are shown: from the newest to the oldest, a limited number.
pub fn list_messages(store: &Store) -> (r: Vec<GuestMessage>)
    ensures
        views(r@) == shown_messages(store@.messages),
{
    let ghost all = views(store.messages@);
    let mut out: Vec<GuestMessage> = Vec::new();
    let mut n: usize = 0;
    assert(views(out@) =~= newest_first(all.take(0)));
    while n < store.messages.len()
        invariant
            n <= store.messages.len(),
            all == views(store.messages@),
            views(out@) == newest_first(all.take(n as int)),
        decreases store.messages.len() - n,
    {
        let m = &store.messages[n];
        let mut i: usize = out.len();
        while i > 0 && out[i - 1].ts < m.ts
            invariant
                i <= out.len(),
                forall|k: int| i <= k < out@.len() ==> (#[trigger] out@[k]).ts < m.ts,
            decreases i,
        {
            i = i - 1;
        }
        let ghost before = views(out@);
        proof {
            assert forall|k: int| i <= k < before.len() implies before[k].ts < m@.ts by {
                assert(before[k] == out@[k]@);
            }
            if i > 0 {
                assert(before[i - 1] == out@[i - 1]@);
            }
            lemma_put_by_age(before, m@, i as int);
        }
        out.insert(i, m.copy());
        assert(views(out@) =~= before.insert(i as int, m@));
        assert(all.take(n + 1).drop_last() == all.take(n as int));
        assert(all.take(n + 1).last() == m@);
        n = n + 1;
    }
    assert(all.take(n as int) == all);
    let ghost sorted = views(out@);
    if out.len() > SHOWN_MESSAGES {
        out.truncate(SHOWN_MESSAGES);
        assert(views(out@) =~= sorted.take(SHOWN_MESSAGES as int));
    }
    out
}

/// Whether no message is newer than one before it.
pub open spec fn newest_lead(s: Seq<GuestMessageV>) -> bool {
    forall|i: int, j: int| #![trigger s[i], s[j]] 0 <= i < j < s.len() ==> s[i].ts >= s[j].ts
}

/// The messages are shown from the newest to the oldest, and putting them in order loses none and
/// invents none.
pub proof fn law_messages_are_ordered(s: Seq<GuestMessageV>)
    ensures
        newest_lead(newest_first(s)),
        newest_lead(shown_messages(s)),
        newest_first(s).to_multiset() == s.to_multiset(),
        shown_messages(s).len() == (if s.len() > SHOWN_MESSAGES {
            SHOWN_MESSAGES as nat
        } else {
            s.len()
        }),
    decreases s.len(),
{
    if s.len() > 0 {
        let before = s.drop_last();
        law_messages_are_ordered(before);
        lemma_put_keeps_order(newest_first(before), s.last());
        assert(before.push(s.last()) =~= s);
        before.to_multiset_ensures();
        newest_first(before).to_multiset_ensures();
        assert(s.to_multiset() =~= before.to_multiset().insert(s.last()));
    }
    s.to_multiset_ensures();
    newest_first(s).to_multiset_ensures();
    assert(newest_first(s).len() == s.len());
}

proof fn lemma_put_keeps_order(s: Seq<GuestMessageV>, m: GuestMessageV)
    requires
        newest_lead(s),
    ensures
        newest_lead(put_by_age(s, m)),
        put_by_age(s, m).to_multiset() =~= s.to_multiset().insert(m),
        put_by_age(s, m).len() == s.len() + 1,
        forall|i: int|
            0 <= i < put_by_age(s, m).len() ==> (#[trigger] put_by_age(s, m)[i]) == m || s.contains(
                put_by_age(s, m)[i],
            ),
    decreases s.len(),
{
    s.to_multiset_ensures();
    let r = put_by_age(s, m);
    if s.len() == 0 || s.last().ts >= m.ts {
        assert forall|i: int| 0 <= i < r.len() implies (#[trigger] r[i]) == m || s.contains(
            r[i],
        ) by {
            if i < s.len() {
                assert(r[i] == s[i]);
            }
        }
    } else {
        let t = s.drop_last();
        let p = put_by_age(t, m);
        lemma_put_keeps_order(t, m);
        t.to_multiset_ensures();
        p.to_multiset_ensures();
        assert(t.push(s.last()) =~= s);
        assert forall|i: int| 0 <= i < r.len() implies (#[trigger] r[i]) == m || s.contains(
            r[i],
        ) by {
            if i < p.len() {
                assert(r[i] == p[i]);
                if p[i] != m {
                    let k = choose|k: int| 0 <= k < t.len() && t[k] == p[i];
                    assert(s[k] == p[i]);
                }
            } else {
                assert(r[i] == s[s.len() - 1]);
            }
        }
        assert forall|i: int, j: int|
            #![trigger r[i], r[j]]
            0 <= i < j < r.len() implies r[i].ts >= r[j].ts by {
            if j < p.len() {
                assert(p[i].ts >= p[j].ts);
            } else {
                assert(r[j] == s.last());
                assert(r[i] == p[i]);
                if p[i] != m {
                    let k = choose|k: int| 0 <= k < t.len() && t[k] == p[i];
                    assert(s[k].ts >= s[s.len() - 1].ts);
                }
            }
        }
    }
}

/// Whether a visitor left a message a moment ago.
pub open spec fn too_soon(m: Map<Seq<char>, Mark>, ip: Seq<char>, now: int) -> bool {
    m.contains_key(ip) && now < m[ip].time + MESSAGE_PAUSE
}

/// What is remembered of the visitors after one of them asked to leave a message.
pub open spec fn visitor_noted(m: Map<Seq<char>, Mark>, ip: Seq<char>, now: int) -> Map<
    Seq<char>,
    Mark,
> {
    if too_soon(m, ip, now) {
        m
    } else {
        let noted = m.insert(ip, Mark { count: 0, time: now as u64 });
        if noted.dom().len() > MESSAGE_TABLE_LIMIT {
            recent(noted, MESSAGE_MEMORY as int, now)
        } else {
            noted
        }
    }
}

/// The message that a request asks to leave.
pub open spec fn message_of(body: JsonV, now: u64, stamp: Seq<char>) -> GuestMessageV {
    let name = clean_text(text_or(body, "name"@, Seq::empty()), 20);
    GuestMessageV {
        id: "m_"@ + stamp,
        name: if name.len() > 0 {
            name
        } else {
            "访客"@
        },
        text: clean_text(text_or(body, "text"@, Seq::empty()), 500),
        ts: now,
        place_id: match text_member(body, "placeId"@) {
            Some(p) => if trimmed(p).len() > 0 {
                Some(trimmed(p))
            } else {
                None
            },
            None => None,
        },
    }
}

/// The messages with one more; of too many, the first go.
pub open spec fn with_message(s: Seq<GuestMessageV>, m: GuestMessageV) -> Seq<GuestMessageV> {
    let all = s.push(m);
    if all.len() > MAX_MESSAGES {
        all.skip(all.len() - MAX_MESSAGES)
    } else {
        all
    }
}

/// A visitor leaves a message. `stamp` makes its id. Where the answer is a message, the store is
/// to be written.
pub fn post_message(
    store: &mut Store,
    table: &mut Table,
    ip: &str,
    now: u64,
    body: &Json,
    stamp: &str,
) -> (r: Result<GuestMessage, Refusal>)
    requires
        old(table).wf(),
    ensures
        final(table).wf(),
        final(table)@ == visitor_noted(old(table)@, ip@, now as int),
        match r {
            Ok(m) => !too_soon(old(table)@, ip@, now as int) && m@ == message_of(
                body@,
                now,
                stamp@,
            ) && m@.text.len() > 0 && final(store)@ == (StoreV {
                messages: with_message(old(store)@.messages, m@),
                ..old(store)@
            }),
            Err(e) => final(store)@ == old(store)@ && e == (if too_soon(
                old(table)@,
                ip@,
                now as int,
            ) {
                Refusal::MessageTooSoon
            } else {
                Refusal::MessageEmpty
            }) && (!too_soon(old(table)@, ip@, now as int) ==> message_of(
                body@,
                now,
                stamp@,
            ).text.len() == 0),
        },
{
    match table.get(ip) {
        Some(m) => {
            if (now as u128) < m.time as u128 + MESSAGE_PAUSE as u128 {
                return Err(Refusal::MessageTooSoon);
            }
        },
        None => {},
    }
    table.insert(ip, Mark { count: 0, time: now });
    if table.len() > MESSAGE_TABLE_LIMIT {
        table.retain(MESSAGE_MEMORY, now);
    }
    proof {
        reveal_strlit("");
        assert(""@ =~= Seq::<char>::empty());
    }
    let name = sanitize_text(body.get_str_or("name", ""), 20);
    let name = if name.as_str().is_empty() {
        "访客".to_owned()
    } else {
        name
    };
    let text = sanitize_text(body.get_str_or("text", ""), 500);
    if text.as_str().is_empty() {
        return Err(Refusal::MessageEmpty);
    }
    let place_id: Option<String> = match body.get_str("placeId") {
        Some(p) => {
            let p = trim(p);
            if p.as_str().is_empty() {
                None
            } else {
                Some(p)
            }
        },
        None => None,
    };
    let m = GuestMessage { id: join2("m_", stamp), name, text, ts: now, place_id };
    assert(m@ =~= message_of(body@, now, stamp@));
    let ghost before = store@;
    store.messages.push(m.copy());
    assert(views(store.messages@) =~= before.messages.push(m@));
    if store.messages.len() > MAX_MESSAGES {
        let ghost all = views(store.messages@);
        let over: usize = store.messages.len() - MAX_MESSAGES;
        let kept = store.messages.split_off(over);
        store.messages = kept;
        assert(views(store.messages@) =~= all.skip(over as int));
    }
    assert(store@ =~= StoreV { messages: with_message(before.messages, m@), ..before });
    Ok(m)
}

/// The guest book never holds more messages than it may, if it did not before; the newest is
/// always the one just left.
pub proof fn law_guest_book_is_bounded(s: Seq<GuestMessageV>, m: GuestMessageV)
    ensures
        with_message(s, m).len() <= MAX_MESSAGES,
        with_message(s, m).last() == m,
{
}

/// Whatever a visitor sends, the name and the text of a message keep within their limits, and the
/// name is never empty.
pub proof fn law_messages_are_short(body: JsonV, now: u64, stamp: Seq<char>)
    ensures
        message_of(body, now, stamp).text.len() <= 500,
        0 < message_of(body, now, stamp).name.len() <= 20,
{
    reveal_strlit("访客");
    crate::names::law_clean_text_is_harmless(text_or(body, "name"@, Seq::empty()), 20);
    crate::names::law_clean_text_is_harmless(text_or(body, "text"@, Seq::empty()), 500);
}

/// A visitor who has just left a message has to wait.
pub proof fn law_messages_are_spaced(
    m: Map<Seq<char>, Mark>,
    ip: Seq<char>,
    now: int,
    then: int,
)
    requires
        0 <= now <= u64::MAX,
        !too_soon(m, ip, now),
        now <= then < now + MESSAGE_PAUSE,
    ensures
        too_soon(visitor_noted(m, ip, now), ip, then),
{
}

/// The messages with other ids than the given one.
pub open spec fn other_than(id: Seq<char>) -> spec_fn(GuestMessageV) -> bool {
    |m: GuestMessageV| m.id != id
}

/// The owner deletes a message. Says whether there was one, that is, whether the store is to be
/// written.
pub fn delete_message(store: &mut Store, owner: bool, id: &str) -> (r: Result<bool, Refusal>)
    ensures
        r is Err <==> !owner,
        r is Err ==> r == Err::<bool, Refusal>(Refusal::Unauthorized),
        r matches Ok(changed) ==> changed == (old(store)@.messages.filter(other_than(id@)).len()
            != old(store)@.messages.len()),
        final(store)@ == (if owner {
            StoreV {
                messages: old(store)@.messages.filter(other_than(id@)),
                ..old(store)@
            }
        } else {
            old(store)@
        }),
{
    if !owner {
        return Err(Refusal::Unauthorized);
    }
    let ghost before = store@;
    let ghost all = views(store.messages@);
    let mut kept: Vec<GuestMessage> = Vec::new();
    let mut i: usize = 0;
    assert(views(kept@) =~= all.take(0).filter(other_than(id@))) by {
        reveal(Seq::filter);
    }
    while i < store.messages.len()
        invariant
            i <= store.messages.len(),
            all == views(store.messages@),
            store@ == before,
            views(kept@) == all.take(i as int).filter(other_than(id@)),
        decreases store.messages.len() - i,
    {
        let ghost so_far = views(kept@);
        proof {
            lemma_filter_take(all, other_than(id@), i as int);
        }
        if !same(store.messages[i].id.as_str(), id) {
            kept.push(store.messages[i].copy());
            assert(views(kept@) =~= so_far.push(all[i as int]));
        }
        i = i + 1;
    }
    assert(all.take(i as int) == all);
    assert(views(kept@).len() == kept@.len());
    let changed: bool = kept.len() != store.messages.len();
    store.messages = kept;
    assert(store@ =~= StoreV {
        messages: before.messages.filter(other_than(id@)),
        ..before
    });
    Ok(changed)
}

/// What a visit comes to.
#[derive(Clone, Copy, Debug, PartialEq, Eq, Structural)]
pub enum Visited {
    /// The owner's own visits do not count.
    Skipped,
    /// The visit was counted; `save` says whether the store is to be written, which is so every
    /// fifth time.
    Counted { save: bool },
}

/// Counts a visit.
pub fn track_view(store: &mut Store, owner: bool) -> (r: Visited)
    requires
        owner || old(store)@.views < u64::MAX,
    ensures
        r == (if owner {
            Visited::Skipped
        } else {
            Visited::Counted { save: (old(store)@.views + 1) % 5 == 0 }
        }),
        final(store)@ == (if owner {
            old(store)@
        } else {
            StoreV { views: (old(store)@.views + 1) as u64, ..old(store)@ }
        }),
{
    if owner {
        return Visited::Skipped;
    }
    store.views = store.views + 1;
    Visited::Counted { save: store.views % 5 == 0 }
}

/// The numbers that the guest book goes by: a message each 20 seconds, 5000 messages at most, of
/// which 500 are shown.
pub proof fn law_the_measures_of_the_guest_book()
    ensures
        MESSAGE_PAUSE == 20,
        MESSAGE_MEMORY == 3600,
        MESSAGE_TABLE_LIMIT == 50_000,
        MAX_MESSAGES == 5000,
        SHOWN_MESSAGES == 500,
        LIKE_MEMORY == 200_000,
{
}

/// A visitor has to wait until 20 seconds have passed since the last message, and no longer.
pub proof fn law_how_long_to_wait(m: Map<Seq<char>, Mark>, ip: Seq<char>, other: Seq<char>, now: int)
    requires
        0 <= now <= u64::MAX,
    ensures
        too_soon(m, ip, now) <==> m.contains_key(ip) && now < m[ip].time + 20,
        !too_soon(m, ip, now) ==> visitor_noted(m, ip, now).contains_key(ip) && visitor_noted(
            m,
            ip,
            now,
        )[ip].time == now,
        too_soon(m, ip, now) ==> visitor_noted(m, ip, now) == m,
        other != ip && m.contains_key(other) && m[other].time + 3600 > now ==> visitor_noted(
            m,
            ip,
            now,
        ).contains_key(other) && visitor_noted(m, ip, now)[other] == m[other],
        other != ip && !m.contains_key(other) ==> !visitor_noted(m, ip, now).contains_key(other),
{
}

/// A message says what the visitor wrote, made harmless and cut to 20 and 500 characters, at the
/// moment it came, under the place it was left at. Who gives no name is a visitor.
pub proof fn law_messages_say_what_was_written(body: JsonV, now: u64, stamp: Seq<char>)
    ensures
        ({
            let m = message_of(body, now, stamp);
            &&& m.id == "m_"@ + stamp
            &&& m.ts == now
            &&& match crate::json::member(body, "text"@) {
                Some(JsonV::Text(s)) => m.text == clean_text(s, 500),
                _ => m.text.len() == 0,
            }
            &&& match crate::json::member(body, "name"@) {
                Some(JsonV::Text(s)) => m.name == if clean_text(s, 20).len() > 0 {
                    clean_text(s, 20)
                } else {
                    "访客"@
                },
                _ => m.name == "访客"@,
            }
            &&& match crate::json::member(body, "placeId"@) {
                Some(JsonV::Text(s)) => if trimmed(s).len() > 0 {
                    m.place_id == Some(trimmed(s))
                } else {
                    m.place_id is None
                },
                _ => m.place_id is None,
            }
        }),
{
    crate::names::law_clean_text_is_harmless(Seq::empty(), 500);
    crate::names::law_clean_text_is_harmless(Seq::empty(), 20);
    reveal(Seq::filter);
    crate::text::law_trimming(Seq::empty(), ' ');
    assert(clean_text(Seq::empty(), 500).len() == 0);
    assert(clean_text(Seq::empty(), 20).len() == 0);
}

/// A new message stands behind all others; only of more than 5000 does the oldest go.
pub proof fn law_messages_are_kept(s: Seq<GuestMessageV>, m: GuestMessageV)
    ensures
        s.len() < 5000 ==> with_message(s, m) == s.push(m),
        s.len() == 5000 ==> with_message(s, m) == s.skip(1).push(m),
{
    if s.len() == 5000 {
        assert(s.push(m).skip(1) =~= s.skip(1).push(m));
    }
}

/// Deleting a message takes away all that have its id, and no others.
pub proof fn law_deleted_messages_are_gone(
    front: Seq<GuestMessageV>,
    m: GuestMessageV,
    id: Seq<char>,
)
    ensures
        m.id == id ==> front.push(m).filter(other_than(id)) == front.filter(other_than(id)),
        m.id != id ==> front.push(m).filter(other_than(id)) == front.filter(other_than(id)).push(m),
{
    reveal(Seq::filter);
    assert(front.push(m).drop_last() =~= front);
}

/// A heart is answered with the number of hearts that the place has from now on. A visitor who has
/// given one before, and a place that there is not, change nothing.
pub proof fn law_hearts_are_answered(s: StoreV, seen: Set<Seq<char>>, ip: Seq<char>, id: Seq<char>)
    requires
        hearts(s.likes, id) < u32::MAX,
    ensures
        ({
            let (t, r) = after_like(s, seen, ip, id);
            let known = exists|i: int| 0 <= i < s.places.len() && (#[trigger] s.places[i]).id == id;
            &&& !known ==> t == s && r == Err::<Liked, Refusal>(Refusal::LikedPlaceNotFound)
            &&& known && !seen.contains(ip + "|"@ + id) ==> {
                &&& r matches Ok(l)
                &&& !l.already
                &&& l.likes == hearts(s.likes, id) + 1
                &&& hearts(t.likes, id) == hearts(s.likes, id) + 1
                &&& t.places == s.places && t.trips == s.trips && t.messages == s.messages
                &&& t.unplaced == s.unplaced && t.views == s.views && t.profile == s.profile
            }
            &&& known && seen.contains(ip + "|"@ + id) ==> {
                &&& t == s
                &&& r matches Ok(l)
                &&& l.already
                &&& l.likes == hearts(s.likes, id)
            }
        }),
{
    let ids = place_ids(s.places);
    lemma_index_of(ids, id);
    assert forall|i: int| 0 <= i < s.places.len() && (#[trigger] s.places[i]).id == id implies
        ids.contains(id) by {
        assert(ids[i] == id);
    }
    if index_of(ids, id) is Some {
        let k = index_of(ids, id)->0;
        assert(ids[k] == s.places[k].id);
    }
    lemma_heart_counts(s.likes, id, id);
}

/// A place has as many hearts as the first count for it says.
pub proof fn law_hearts_are_those_counted(s: Seq<LikeCountV>, id: Seq<char>, i: int)
    requires
        0 <= i <= s.len(),
        forall|j: int| 0 <= j < i ==> (#[trigger] s[j]).place_id != id,
        i < s.len() ==> s[i].place_id == id,
    ensures
        i < s.len() ==> hearts(s, id) == s[i].count,
        i == s.len() ==> hearts(s, id) == 0,
{
    let ids = liked_ids(s);
    lemma_index_of(ids, id);
    if i < s.len() {
        assert(ids[i] == id);
        assert(ids.contains(id));
    }
    if index_of(ids, id) is Some {
        let k = index_of(ids, id)->0;
        assert(ids[k] == s[k].place_id);
    }
}

/// A heart that was given is remembered, until there are too many of them to remember any.
pub proof fn law_hearts_are_remembered(seen: Set<Seq<char>>, key: Seq<char>)
    requires
        seen.finite(),
    ensures
        seen.len() < 200_000 || seen.contains(key) ==> remembering(seen, key) == seen.insert(key),
        seen.len() >= 200_000 && !seen.contains(key) ==> remembering(seen, key).len() == 0,
{
    if seen.contains(key) {
        assert(seen.insert(key) =~= seen);
    }
}

/// The messages of one moment.
pub open spec fn of_moment(ts: u64) -> spec_fn(GuestMessageV) -> bool {
    |m: GuestMessageV| m.ts == ts
}

/// Messages of the same second are shown in the order in which they came.
pub proof fn law_messages_of_one_second_keep_their_order(s: Seq<GuestMessageV>, ts: u64)
    ensures
        newest_first(s).filter(of_moment(ts)) == s.filter(of_moment(ts)),
    decreases s.len(),
{
    reveal(Seq::filter);
    if s.len() > 0 {
        law_messages_of_one_second_keep_their_order(s.drop_last(), ts);
        lemma_put_among_equals(newest_first(s.drop_last()), s.last(), ts);
    }
}

/// A message is put behind those of its own second.
proof fn lemma_put_among_equals(s: Seq<GuestMessageV>, m: GuestMessageV, ts: u64)
    ensures
        m.ts == ts ==> put_by_age(s, m).filter(of_moment(ts)) == s.filter(of_moment(ts)).push(m),
        m.ts != ts ==> put_by_age(s, m).filter(of_moment(ts)) == s.filter(of_moment(ts)),
    decreases s.len(),
{
    reveal(Seq::filter);
    if s.len() == 0 || s.last().ts >= m.ts {
        assert(s.push(m).drop_last() =~= s);
    } else {
        let rest = s.drop_last();
        let put = put_by_age(rest, m);
        lemma_put_among_equals(rest, m, ts);
        assert(put.push(s.last()).drop_last() =~= put);
        if m.ts != ts && s.last().ts == ts {
            assert(put.push(s.last()).filter(of_moment(ts)) == put.filter(of_moment(ts)).push(
                s.last(),
            ));
        }
    }
}

} // verus!
