//! Who is asking: the owner's session, and the address of a visitor.

use vstd::prelude::*;
use vstd::utf8::encode_utf8;
use crate::codes::{hex_text, sha256, sha256_hex};
use crate::json::{lemma_filter_take, text_or, views, Duplicate, Json};
use crate::model::{SessionEntry, SessionEntryV};
use crate::table::{recent, Mark, Table};
use crate::text::{
    after_prefix, chars_of, join3, lemma_single_piece, lemma_utf8_injective,
    opt_str, opt_text, pieces, same, split, split_at_any, strip_prefix, text_of, trim, trim_start,
    trimmed, white_space,
};

verus! {

/// How long a session lasts, in seconds: thirty days.
pub const SESSION_MAX_AGE: u64 = 2_592_000;

/// After this many failures in a row an address is locked out.
pub const MAX_FAILS: u32 = 8;

/// How long an address is locked out, in seconds.
pub const LOCK_SECS: u64 = 900;

/// The number of addresses from which on those whose time has passed are forgotten.
pub const LOGIN_TABLE_LIMIT: usize = 10_000;

/// The value of the first part that is a non-empty session cookie.
pub open spec fn session_in(parts: Seq<Seq<char>>) -> Option<Seq<char>>
    decreases parts.len(),
{
    if parts.len() == 0 {
        None
    } else {
        match after_prefix(trimmed(parts[0]), "session="@) {
            Some(v) => if v.len() > 0 {
                Some(v)
            } else {
                session_in(parts.drop_first())
            },
            None => session_in(parts.drop_first()),
        }
    }
}

/// The session token in a `Cookie` header.
pub open spec fn token_in(raw: Option<Seq<char>>) -> Option<Seq<char>> {
    match raw {
        Some(s) => session_in(split_at_any(s, seq![';'])),
        None => None,
    }
}

/// The session token in a `Cookie` header.
pub fn cookie_token(header: Option<&str>) -> (r: Option<String>)
    ensures
        opt_text(r) == token_in(opt_str(header)),
{
    let raw = match header {
        Some(s) => s,
        None => return None,
    };
    let semicolon: Vec<char> = vec![';'];
    assert(semicolon@ =~= seq![';']);
    let parts = split(&chars_of(raw), &semicolon);
    let ghost all = pieces(parts@);
    assert(all.skip(0) == all);
    let mut i: usize = 0;
    while i < parts.len()
        invariant
            i <= parts.len(),
            all == pieces(parts@),
            token_in(opt_str(header)) == session_in(all),
            session_in(all) == session_in(all.skip(i as int)),
        decreases parts.len() - i,
    {
        assert(all.skip(i as int)[0] == parts@[i as int]@);
        assert(all.skip(i as int).drop_first() == all.skip(i + 1));
        let part = trim(text_of(&parts[i]).as_str());
        match strip_prefix(part.as_str(), "session=") {
            Some(v) => {
                if !v.as_str().is_empty() {
                    return Some(v);
                }
            },
            None => {},
        }
        i = i + 1;
    }
    None
}

/// The last part that is not blank, without the white space around it.
pub open spec fn last_filled(parts: Seq<Seq<char>>) -> Option<Seq<char>>
    decreases parts.len(),
{
    if parts.len() == 0 {
        None
    } else if trimmed(parts.last()).len() > 0 {
        Some(trimmed(parts.last()))
    } else {
        last_filled(parts.drop_last())
    }
}

/// The address of a visitor: what the proxy in front wrote into `X-Real-IP`; failing that, the
/// last hop of `X-Forwarded-For`, since the first is whatever the visitor claims.
pub open spec fn visitor(real_ip: Option<Seq<char>>, forwarded: Option<Seq<char>>) -> Seq<char> {
    match real_ip {
        Some(ip) => if trimmed(ip).len() > 0 {
            trimmed(ip)
        } else {
            forwarded_visitor(forwarded)
        },
        None => forwarded_visitor(forwarded),
    }
}

/// The last hop of `X-Forwarded-For`.
pub open spec fn forwarded_visitor(forwarded: Option<Seq<char>>) -> Seq<char> {
    match forwarded {
        Some(list) => match last_filled(split_at_any(list, seq![','])) {
            Some(ip) => ip,
            None => "unknown"@,
        },
        None => "unknown"@,
    }
}

/// The address of a visitor, from the headers `X-Real-IP` and `X-Forwarded-For`.
pub fn client_ip(real_ip: Option<&str>, forwarded: Option<&str>) -> (r: String)
    ensures
        r@ == visitor(opt_str(real_ip), opt_str(forwarded)),
{
    match real_ip {
        Some(ip) => {
            let ip = trim(ip);
            if !ip.as_str().is_empty() {
                return ip;
            }
        },
        None => {},
    }
    forwarded_ip(forwarded)
}

/// The last hop of `X-Forwarded-For`.
fn forwarded_ip(forwarded: Option<&str>) -> (r: String)
    ensures
        r@ == forwarded_visitor(opt_str(forwarded)),
{
    match forwarded {
        Some(list) => {
            let comma: Vec<char> = vec![','];
            assert(comma@ =~= seq![',']);
            let parts = split(&chars_of(list), &comma);
            let ghost all = pieces(parts@);
            assert(all.take(all.len() as int) == all);
            let mut i: usize = parts.len();
            while i > 0
                invariant
                    i <= parts.len(),
                    all == pieces(parts@),
                    all == split_at_any(list@, seq![',']),
                    opt_str(forwarded) == Some(list@),
                    last_filled(all) == last_filled(all.take(i as int)),
                decreases i,
            {
                assert(all.take(i as int).last() == parts@[i - 1]@);
                assert(all.take(i as int).drop_last() == all.take(i - 1));
                let part = trim(text_of(&parts[i - 1]).as_str());
                if !part.as_str().is_empty() {
                    return part;
                }
                i = i - 1;
            }
        },
        None => {},
    }
    "unknown".to_owned()
}

/// Where the proxy in front says who a visitor is, nothing that the visitor claims matters.
pub proof fn law_the_proxy_decides(
    real_ip: Seq<char>,
    claimed: Option<Seq<char>>,
    other: Option<Seq<char>>,
)
    requires
        trimmed(real_ip).len() > 0,
    ensures
        visitor(Some(real_ip), claimed) == trimmed(real_ip),
        visitor(Some(real_ip), claimed) == visitor(Some(real_ip), other),
{
}

/// Of the hops that a request went through only the last one counts, which the proxy added;
/// whatever stands before it, a visitor can make up.
pub proof fn law_earlier_hops_do_not_matter(claimed: Seq<char>, last: Seq<char>)
    requires
        !last.contains(','),
        trimmed(last).len() > 0,
    ensures
        visitor(None, Some(claimed + seq![','] + last)) == trimmed(last),
{
    lemma_last_piece(claimed, ',', last, seq![',']);
}

/// What follows the last separator is the last piece.
proof fn lemma_last_piece(s: Seq<char>, c: char, b: Seq<char>, seps: Seq<char>)
    requires
        seps == seq![c],
        !b.contains(c),
    ensures
        split_at_any(s + seq![c] + b, seps).len() >= 1,
        split_at_any(s + seq![c] + b, seps).last() == b,
    decreases b.len(),
{
    let whole = s + seq![c] + b;
    assert(seps[0] == c);
    if b.len() == 0 {
        assert(whole.drop_last() =~= s);
        assert(whole.last() == c);
        assert(b =~= Seq::empty());
    } else {
        let front = b.drop_last();
        assert forall|i: int| 0 <= i < front.len() implies front[i] != c by {
            assert(front[i] == b[i]);
        }
        lemma_last_piece(s, c, front, seps);
        assert(whole.drop_last() =~= s + seq![c] + front);
        assert(whole.last() == b.last());
        assert(b[b.len() - 1] != c);
        assert(!seps.contains(b.last()));
        assert(front.push(b.last()) =~= b);
    }
}

/// Whether two texts are equal, found out in a time that depends on their lengths alone.
pub fn ct_eq(a: &str, b: &str) -> (r: bool)
    ensures
        r == (a@ == b@),
{
    let x = a.as_bytes();
    let y = b.as_bytes();
    if x.len() != y.len() {
        return false;
    }
    let mut diff: u8 = 0;
    let mut i: usize = 0;
    while i < x.len()
        invariant
            i <= x.len(),
            x.len() == y.len(),
            diff == 0 <==> forall|k: int| 0 <= k < i ==> x@[k] == y@[k],
        decreases x.len() - i,
    {
        let (p, q): (u8, u8) = (x[i], y[i]);
        let ghost before = diff;
        diff = diff | (p ^ q);
        assert(before | (p ^ q) == 0 <==> before == 0 && p == q) by (bit_vector);
        proof {
            if before == 0 && p == q {
                assert forall|k: int| 0 <= k < i + 1 implies x@[k] == y@[k] by {}
            }
        }
        i = i + 1;
    }
    proof {
        if diff == 0 {
            assert(x@ =~= y@);
            lemma_utf8_injective(a@, b@);
        }
    }
    diff == 0
}

/// What is kept of a token.
pub open spec fn token_hash(token: Seq<char>) -> Seq<char> {
    hex_text(sha256(encode_utf8(token)))
}

/// Whether a session opens for the holder of the token.
pub open spec fn opens(e: SessionEntryV, token: Seq<char>, now: int) -> bool {
    e.hash == token_hash(token) && e.exp > now
}

/// Whether the sender of a `Cookie` header is the owner: it carries the token of a session that
/// has not ended.
pub open spec fn owner(sessions: Seq<SessionEntryV>, cookie: Option<Seq<char>>, now: int) -> bool {
    match token_in(cookie) {
        Some(token) => exists|i: int|
            0 <= i < sessions.len() && opens(#[trigger] sessions[i], token, now),
        None => false,
    }
}

/// Whether the sender of a `Cookie` header is the owner.
pub fn is_owner(sessions: &Vec<SessionEntry>, cookie: Option<&str>, now: u64) -> (r: bool)
    ensures
        r == owner(views(sessions@), opt_str(cookie), now as int),
{
    let token = match cookie_token(cookie) {
        Some(t) => t,
        None => return false,
    };
    let h = sha256_hex(token.as_str().as_bytes());
    let ghost all = views(sessions@);
    let mut i: usize = 0;
    while i < sessions.len()
        invariant
            i <= sessions.len(),
            all == views(sessions@),
            h@ == token_hash(token@),
            token_in(opt_str(cookie)) == Some(token@),
            forall|k: int| 0 <= k < i ==> !opens(#[trigger] all[k], token@, now as int),
        decreases sessions.len() - i,
    {
        assert(all[i as int] == sessions@[i as int]@);
        if same(sessions[i].hash.as_str(), h.as_str()) && sessions[i].exp > now {
            assert(opens(all[i as int], token@, now as int));
            return true;
        }
        i = i + 1;
    }
    false
}

/// The sessions that have not ended.
pub open spec fn not_ended(now: int) -> spec_fn(SessionEntryV) -> bool {
    |e: SessionEntryV| e.exp > now
}

/// The sessions of other tokens than the one with this hash.
pub open spec fn not_of(hash: Seq<char>) -> spec_fn(SessionEntryV) -> bool {
    |e: SessionEntryV| e.hash != hash
}

/// The sessions that have not ended: what is left of those read back at start-up.
pub fn live_sessions(list: &Vec<SessionEntry>, now: u64) -> (r: Vec<SessionEntry>)
    ensures
        views(r@) == views(list@).filter(not_ended(now as int)),
{
    let ghost all = views(list@);
    let mut out: Vec<SessionEntry> = Vec::new();
    let mut i: usize = 0;
    assert(views(out@) =~= all.take(0).filter(not_ended(now as int))) by {
        reveal(Seq::filter);
    }
    while i < list.len()
        invariant
            i <= list.len(),
            all == views(list@),
            views(out@) == all.take(i as int).filter(not_ended(now as int)),
        decreases list.len() - i,
    {
        let ghost before = views(out@);
        proof {
            lemma_filter_take(all, not_ended(now as int), i as int);
        }
        if list[i].exp > now {
            out.push(list[i].copy());
            assert(views(out@) =~= before.push(all[i as int]));
        }
        i = i + 1;
    }
    assert(all.take(i as int) == all);
    out
}

/// The sessions of other tokens than the one with this hash.
fn other_sessions(list: &Vec<SessionEntry>, hash: &str) -> (r: Vec<SessionEntry>)
    ensures
        views(r@) == views(list@).filter(not_of(hash@)),
{
    let ghost all = views(list@);
    let mut out: Vec<SessionEntry> = Vec::new();
    let mut i: usize = 0;
    assert(views(out@) =~= all.take(0).filter(not_of(hash@))) by {
        reveal(Seq::filter);
    }
    while i < list.len()
        invariant
            i <= list.len(),
            all == views(list@),
            views(out@) == all.take(i as int).filter(not_of(hash@)),
        decreases list.len() - i,
    {
        let ghost before = views(out@);
        proof {
            lemma_filter_take(all, not_of(hash@), i as int);
        }
        if !same(list[i].hash.as_str(), hash) {
            out.push(list[i].copy());
            assert(views(out@) =~= before.push(all[i as int]));
        }
        i = i + 1;
    }
    assert(all.take(i as int) == all);
    out
}

/// Whether an address is locked out.
pub open spec fn locked_out(m: Map<Seq<char>, Mark>, ip: Seq<char>, now: int) -> bool {
    m.contains_key(ip) && m[ip].count >= MAX_FAILS && m[ip].time > now
}

/// The failures of an address after one more: counted from one again once the lock has run out.
pub open spec fn failed_again(m: Map<Seq<char>, Mark>, ip: Seq<char>, now: int) -> Mark {
    let count = if m.contains_key(ip) && m[ip].time > now {
        m[ip].count + 1
    } else {
        1
    };
    Mark { count: count as u32, time: (now + LOCK_SECS) as u64 }
}

/// The table after one more failure of an address; a table that has grown too long loses the
/// addresses whose time has passed.
pub open spec fn after_failure(m: Map<Seq<char>, Mark>, ip: Seq<char>, now: int) -> Map<
    Seq<char>,
    Mark,
> {
    let noted = m.insert(ip, failed_again(m, ip, now));
    if noted.dom().len() > LOGIN_TABLE_LIMIT {
        recent(noted, 0, now)
    } else {
        noted
    }
}

/// Whether a password opens the site: there is one, and it is this one.
pub open spec fn password_right(admin: Seq<char>, given: Seq<char>) -> bool {
    admin.len() > 0 && given == admin
}

/// How a login ends.
#[derive(Clone, Copy, Debug, PartialEq, Eq, Structural)]
pub enum LoginOutcome {
    /// The address is locked out: too many requests.
    Locked,
    /// The password is wrong, or there is none to compare with.
    Refused,
    /// A session was opened.
    Granted,
}

/// Handles a login. `now` is when the request came, `later` when the password was found right;
/// `token` is a fresh token.
pub fn login(
    table: &mut Table,
    sessions: &mut Vec<SessionEntry>,
    ip: &str,
    now: u64,
    later: u64,
    admin_pass: &str,
    body: &Json,
    token: &str,
) -> (r: LoginOutcome)
    requires
        old(table).wf(),
        now + LOCK_SECS <= u64::MAX,
        later + SESSION_MAX_AGE <= u64::MAX,
    ensures
        final(table).wf(),
        r is Locked <==> locked_out(old(table)@, ip@, now as int),
        r is Granted <==> !locked_out(old(table)@, ip@, now as int) && password_right(
            admin_pass@,
            text_or(body@, "password"@, ""@),
        ),
        final(table)@ == match r {
            LoginOutcome::Locked => old(table)@,
            LoginOutcome::Refused => after_failure(old(table)@, ip@, now as int),
            LoginOutcome::Granted => old(table)@.remove(ip@),
        },
        views(final(sessions)@) == match r {
            LoginOutcome::Granted => views(old(sessions)@).filter(not_ended(later as int)).push(
                SessionEntryV {
                    hash: token_hash(token@),
                    exp: (later + SESSION_MAX_AGE) as u64,
                },
            ),
            _ => views(old(sessions)@),
        },
{
    let seen: Option<Mark> = table.get(ip);
    match seen {
        Some(m) => {
            if m.count >= MAX_FAILS && m.time > now {
                return LoginOutcome::Locked;
            }
        },
        None => {},
    }
    let given: &str = body.get_str_or("password", "");
    proof {
        reveal_strlit("");
    }
    if admin_pass.is_empty() || given.is_empty() || !ct_eq(given, admin_pass) {
        let count: u32 = match seen {
            Some(m) => if m.time > now {
                m.count + 1
            } else {
                1
            },
            None => 1,
        };
        table.insert(ip, Mark { count, time: now + LOCK_SECS });
        if table.len() > LOGIN_TABLE_LIMIT {
            table.retain(0, now);
        }
        return LoginOutcome::Refused;
    }
    table.remove(ip);
    let mut live = live_sessions(sessions, later);
    let ghost before = views(live@);
    let entry = SessionEntry {
        hash: sha256_hex(token.as_bytes()),
        exp: later + SESSION_MAX_AGE,
    };
    let ghost meaning = entry@;
    live.push(entry);
    assert(views(live@) =~= before.push(meaning));
    *sessions = live;
    LoginOutcome::Granted
}

/// The cookie that carries a session token to the browser.
pub fn session_cookie(token: &str) -> (r: String)
    ensures
        r@ == "session="@ + token@
            + "; HttpOnly; Secure; SameSite=Lax; Max-Age=2592000; Path=/"@,
{
    join3("session=", token, "; HttpOnly; Secure; SameSite=Lax; Max-Age=2592000; Path=/")
}

/// The cookie that takes the session token away again.
pub fn cleared_cookie() -> (r: String)
    ensures
        r@ == "session=; HttpOnly; Secure; SameSite=Lax; Max-Age=0; Path=/"@,
{
    "session=; HttpOnly; Secure; SameSite=Lax; Max-Age=0; Path=/".to_owned()
}

/// Handles a logout: the sessions of the token in the `Cookie` header end. Says whether there
/// was a token, that is, whether the sessions are to be written to disk.
pub fn logout(sessions: &mut Vec<SessionEntry>, cookie: Option<&str>) -> (r: bool)
    ensures
        r == (token_in(opt_str(cookie)) is Some),
        views(final(sessions)@) == match token_in(opt_str(cookie)) {
            Some(token) => views(old(sessions)@).filter(not_of(token_hash(token))),
            None => views(old(sessions)@),
        },
{
    match cookie_token(cookie) {
        Some(token) => {
            let h = sha256_hex(token.as_str().as_bytes());
            let left = other_sessions(sessions, h.as_str());
            *sessions = left;
            true
        },
        None => false,
    }
}

/// A token that a browser can send back as it is: not empty, without semicolons, and with no
/// white space at its end.
pub open spec fn plain_token(t: Seq<char>) -> bool {
    t.len() > 0 && !white_space(t.last()) && forall|i: int| 0 <= i < t.len() ==> t[i] != ';'
}

/// A browser that sends `session=` and a token back is understood.
pub proof fn law_cookie_comes_back(t: Seq<char>)
    requires
        plain_token(t),
    ensures
        token_in(Some("session="@ + t)) == Some(t),
{
    reveal_strlit("session=");
    let s = "session="@ + t;
    assert forall|i: int| 0 <= i < s.len() implies !seq![';'].contains(s[i]) by {
        if i >= 8 {
            assert(s[i] == t[i - 8]);
        }
    }
    lemma_single_piece(s, seq![';']);
    assert(s[0] == 's');
    assert(trim_start(s) == s);
    assert(s.last() == t.last());
    assert(trimmed(s) == s);
    assert(s.take(8) =~= "session="@);
    assert(s.skip(8) =~= t);
    reveal_with_fuel(session_in, 2);
}

/// The tokens that are handed out can be sent back as they are.
pub proof fn law_hex_tokens_are_plain(b: Seq<u8>)
    requires
        b.len() > 0,
    ensures
        plain_token(hex_text(b)),
{
    let t = hex_text(b);
    assert(t.len() == 2 * b.len());
    assert forall|i: int| 0 <= i < t.len() implies t[i] != ';' && !white_space(t[i]) by {}
    assert(t.last() == t[t.len() - 1]);
}

/// A login that is granted makes the holder of its token the owner, until the session ends.
pub proof fn law_login_makes_owner(
    before: Seq<SessionEntryV>,
    token: Seq<char>,
    later: int,
    now: int,
)
    requires
        plain_token(token),
        0 <= later,
        later + SESSION_MAX_AGE <= u64::MAX,
        now < later + SESSION_MAX_AGE,
    ensures
        owner(
            before.filter(not_ended(later)).push(
                SessionEntryV { hash: token_hash(token), exp: (later + SESSION_MAX_AGE) as u64 },
            ),
            Some("session="@ + token),
            now,
        ),
{
    law_cookie_comes_back(token);
    let after = before.filter(not_ended(later)).push(
        SessionEntryV { hash: token_hash(token), exp: (later + SESSION_MAX_AGE) as u64 },
    );
    assert(opens(after[after.len() - 1], token, now));
}

/// After a logout the token that was sent opens nothing any more.
pub proof fn law_logout_ends_session(before: Seq<SessionEntryV>, cookie: Seq<char>, now: int)
    ensures
        token_in(Some(cookie)) matches Some(token) ==> !owner(
            before.filter(not_of(token_hash(token))),
            Some(cookie),
            now,
        ),
{
    if let Some(token) = token_in(Some(cookie)) {
        let after = before.filter(not_of(token_hash(token)));
        assert forall|i: int| 0 <= i < after.len() implies !opens(#[trigger] after[i], token, now) by {
            before.lemma_filter_pred(not_of(token_hash(token)), i);
        }
    }
}

/// A logout leaves the sessions of other tokens as they are.
pub proof fn law_logout_spares_others(
    before: Seq<SessionEntryV>,
    hash: Seq<char>,
    other: Seq<char>,
    now: int,
)
    requires
        token_hash(other) != hash,
    ensures
        (exists|i: int| 0 <= i < before.len() && opens(#[trigger] before[i], other, now)) <==> (
        exists|i: int|
            0 <= i < before.filter(not_of(hash)).len() && opens(
                #[trigger] before.filter(not_of(hash))[i],
                other,
                now,
            )),
{
    let after = before.filter(not_of(hash));
    if exists|i: int| 0 <= i < before.len() && opens(#[trigger] before[i], other, now) {
        let i = choose|i: int| 0 <= i < before.len() && opens(#[trigger] before[i], other, now);
        before.lemma_filter_contains(not_of(hash), i);
        let k = choose|k: int| 0 <= k < after.len() && after[k] == before[i];
        assert(opens(after[k], other, now));
    }
    if exists|i: int| 0 <= i < after.len() && opens(#[trigger] after[i], other, now) {
        let k = choose|k: int| 0 <= k < after.len() && opens(#[trigger] after[k], other, now);
        assert(after.contains(after[k]));
        before.lemma_filter_contains_rev(not_of(hash), after[k]);
        let i = choose|i: int| 0 <= i < before.len() && before[i] == after[k];
        assert(opens(before[i], other, now));
    }
}

/// An address that has just failed for the last time it may is locked out, and stays so for as
/// long as the lock runs.
pub proof fn law_failures_lock_out(m: Map<Seq<char>, Mark>, ip: Seq<char>, now: int, then: int)
    requires
        0 <= now,
        now + LOCK_SECS <= u64::MAX,
        m.contains_key(ip),
        m[ip].time > now,
        m[ip].count == MAX_FAILS - 1,
        now <= then < now + LOCK_SECS,
    ensures
        locked_out(after_failure(m, ip, now), ip, then),
{
}

/// The table after an address failed at each of these times.
pub open spec fn after_failures(m: Map<Seq<char>, Mark>, ip: Seq<char>, times: Seq<int>) -> Map<
    Seq<char>,
    Mark,
>
    decreases times.len(),
{
    if times.len() == 0 {
        m
    } else {
        after_failure(after_failures(m, ip, times.drop_last()), ip, times.last())
    }
}

/// An address that has failed often enough in a row, each time less than a quarter of an hour after
/// the time before, is locked out until a quarter of an hour after the last one.
pub proof fn law_failing_in_a_row_locks_out(
    m: Map<Seq<char>, Mark>,
    ip: Seq<char>,
    times: Seq<int>,
    then: int,
)
    requires
        !m.contains_key(ip),
        times.len() == MAX_FAILS,
        forall|i: int|
            0 <= i < times.len() ==> 0 <= #[trigger] times[i] && times[i] + LOCK_SECS <= u64::MAX,
        forall|i: int|
            0 <= i < times.len() - 1 ==> times[i + 1] < #[trigger] times[i] + LOCK_SECS,
        then < times.last() + LOCK_SECS,
    ensures
        locked_out(after_failures(m, ip, times), ip, then),
{
    lemma_failures_add_up(m, ip, times);
}

/// Failures in a row add up.
proof fn lemma_failures_add_up(m: Map<Seq<char>, Mark>, ip: Seq<char>, times: Seq<int>)
    requires
        !m.contains_key(ip),
        0 < times.len() <= MAX_FAILS,
        forall|i: int|
            0 <= i < times.len() ==> 0 <= #[trigger] times[i] && times[i] + LOCK_SECS <= u64::MAX,
        forall|i: int|
            0 <= i < times.len() - 1 ==> times[i + 1] < #[trigger] times[i] + LOCK_SECS,
    ensures
        ({
            let after = after_failures(m, ip, times);
            &&& after.contains_key(ip)
            &&& after[ip].count == times.len()
            &&& after[ip].time == times.last() + LOCK_SECS
        }),
    decreases times.len(),
{
    reveal_with_fuel(after_failures, 2);
    let front = times.drop_last();
    assert(0 <= times[times.len() - 1]);
    if front.len() > 0 {
        assert forall|i: int| 0 <= i < front.len() implies 0 <= #[trigger] front[i] && front[i]
            + LOCK_SECS <= u64::MAX by {
            assert(front[i] == times[i]);
        }
        assert forall|i: int| 0 <= i < front.len() - 1 implies front[i + 1] < #[trigger] front[i]
            + LOCK_SECS by {
            assert(front[i] == times[i] && front[i + 1] == times[i + 1]);
        }
        lemma_failures_add_up(m, ip, front);
        assert(front.last() == times[times.len() - 2]);
    }
}

/// An attempt to log in: from where, when, and how it ended.
pub struct Attempt {
    pub ip: Seq<char>,
    pub now: int,
    pub outcome: LoginOutcome,
}

/// The table after an attempt that ended so; see [`login`].
pub open spec fn after_attempt(m: Map<Seq<char>, Mark>, e: Attempt) -> Map<Seq<char>, Mark> {
    match e.outcome {
        LoginOutcome::Locked => m,
        LoginOutcome::Refused => after_failure(m, e.ip, e.now),
        LoginOutcome::Granted => m.remove(e.ip),
    }
}

/// The table after attempts of whatever addresses.
pub open spec fn after_attempts(m: Map<Seq<char>, Mark>, es: Seq<Attempt>) -> Map<Seq<char>, Mark>
    decreases es.len(),
{
    if es.len() == 0 {
        m
    } else {
        after_attempt(after_attempts(m, es.drop_last()), es.last())
    }
}

/// Whether each attempt was answered as [`login`] answers it: those of an address that is locked
/// out, and no others, end locked.
pub open spec fn as_answered(m: Map<Seq<char>, Mark>, es: Seq<Attempt>) -> bool
    decreases es.len(),
{
    es.len() == 0 || {
        &&& as_answered(m, es.drop_last())
        &&& 0 <= es.last().now
        &&& es.last().now + LOCK_SECS <= u64::MAX
        &&& es.last().outcome is Locked <==> locked_out(
            after_attempts(m, es.drop_last()),
            es.last().ip,
            es.last().now,
        )
    }
}

/// How many attempts an address made.
pub open spec fn tries(es: Seq<Attempt>, ip: Seq<char>) -> nat
    decreases es.len(),
{
    if es.len() == 0 {
        0
    } else {
        tries(es.drop_last(), ip) + if es.last().ip == ip {
            1nat
        } else {
            0
        }
    }
}

/// When an address made its last attempt.
pub open spec fn last_try(es: Seq<Attempt>, ip: Seq<char>) -> Option<int>
    decreases es.len(),
{
    if es.len() == 0 {
        None
    } else if es.last().ip == ip {
        Some(es.last().now)
    } else {
        last_try(es.drop_last(), ip)
    }
}

/// Whether every attempt of an address was refused, and nobody's attempt came a quarter of an hour
/// or more after the last one of this address.
pub open spec fn refused_in_a_row(es: Seq<Attempt>, ip: Seq<char>) -> bool
    decreases es.len(),
{
    es.len() == 0 || {
        &&& refused_in_a_row(es.drop_last(), ip)
        &&& es.last().ip == ip ==> es.last().outcome is Refused
        &&& last_try(es.drop_last(), ip) matches Some(t) ==> es.last().now < t + LOCK_SECS
    }
}

/// Whatever the table was and whoever else tries in between: an address that was refused often
/// enough in a row is locked out until a quarter of an hour after the last time.
pub proof fn law_refusals_lock_out(
    m: Map<Seq<char>, Mark>,
    es: Seq<Attempt>,
    ip: Seq<char>,
    then: int,
)
    requires
        as_answered(m, es),
        refused_in_a_row(es, ip),
        tries(es, ip) >= MAX_FAILS,
        last_try(es, ip) matches Some(t) && then < t + LOCK_SECS,
    ensures
        locked_out(after_attempts(m, es), ip, then),
{
    lemma_refusals_add_up(m, es, ip);
}

/// Refusals in a row add up, whatever the table was and whoever else tries in between.
proof fn lemma_refusals_add_up(m: Map<Seq<char>, Mark>, es: Seq<Attempt>, ip: Seq<char>)
    requires
        as_answered(m, es),
        refused_in_a_row(es, ip),
    ensures
        ({
            let after = after_attempts(m, es);
            match last_try(es, ip) {
                Some(t) => {
                    &&& tries(es, ip) > 0
                    &&& after.contains_key(ip)
                    &&& after[ip].time == t + LOCK_SECS
                    &&& tries(es, ip) <= after[ip].count <= MAX_FAILS
                },
                None => tries(es, ip) == 0,
            }
        }),
    decreases es.len(),
{
    if es.len() > 0 {
        lemma_refusals_add_up(m, es.drop_last(), ip);
    }
}

/// The session is found among other cookies, before or behind it.
pub proof fn law_the_session_among_other_cookies(t: Seq<char>, x: Seq<char>, rest: Seq<char>)
    requires
        plain_token(t),
        !x.contains(';'),
    ensures
        token_in(Some("session="@ + t + seq![';'] + rest)) == Some(t),
        after_prefix(trimmed(x), "session="@) is None ==> token_in(Some(x + seq![';'] + rest))
            == token_in(Some(rest)),
        after_prefix(trimmed(x), "session="@) is None ==> token_in(Some(x)) is None,
        token_in(Some("session="@ + seq![';'] + rest)) == token_in(Some(rest)),
        token_in(None) is None,
{
    reveal_strlit("session=");
    let seps = seq![';'];
    assert(seps[0] == ';');
    let name = "session="@;
    let whole = name + t;
    assert forall|k: int| 0 <= k < whole.len() implies !seps.contains(#[trigger] whole[k]) by {
        if k >= 8 {
            assert(whole[k] == t[k - 8]);
        }
    }
    assert forall|k: int| 0 <= k < name.len() implies !seps.contains(#[trigger] name[k]) by {}
    assert forall|k: int| 0 <= k < x.len() implies !seps.contains(#[trigger] x[k]) by {
        assert(x.contains(x[k]));
    }
    crate::text::lemma_split_head(whole, ';', rest, seps);
    crate::text::lemma_split_head(name, ';', rest, seps);
    crate::text::lemma_split_head(x, ';', rest, seps);
    crate::text::lemma_single_piece(x, seps);
    assert(whole[0] == 's' && whole.last() == t.last());
    crate::text::law_trimming(whole, ' ');
    crate::text::law_trimming(name, ' ');
    crate::text::law_beginnings_and_ends(name, t, x);
    crate::text::law_beginnings_and_ends(name, Seq::empty(), x);
    assert(name + Seq::<char>::empty() =~= name);
    let parts = split_at_any(rest, seps);
    assert((seq![whole] + parts)[0] == whole);
    assert((seq![name] + parts).drop_first() =~= parts);
    assert((seq![x] + parts).drop_first() =~= parts);
    assert(seq![x].drop_first() =~= Seq::empty());
    reveal_with_fuel(session_in, 2);
}

/// The owner is who carries the token of a session that has not ended, and nobody else.
pub proof fn law_who_is_the_owner(
    sessions: Seq<SessionEntryV>,
    cookie: Option<Seq<char>>,
    now: int,
    i: int,
)
    ensures
        cookie is None ==> !owner(sessions, cookie, now),
        token_in(cookie) is None ==> !owner(sessions, cookie, now),
        token_in(cookie) matches Some(t) ==> 0 <= i < sessions.len()
            && sessions[i].hash == hex_text(
            sha256(encode_utf8(t)),
        ) && sessions[i].exp > now ==> owner(sessions, cookie, now),
        token_in(cookie) matches Some(t) ==> (forall|k: int|
            0 <= k < sessions.len() ==> (#[trigger] sessions[k]).hash != hex_text(
                sha256(encode_utf8(t)),
            ) || sessions[k].exp <= now) ==> !owner(sessions, cookie, now),
{
    if let Some(t) = token_in(cookie) {
        if 0 <= i < sessions.len() && sessions[i].hash == hex_text(sha256(encode_utf8(t)))
            && sessions[i].exp > now {
            assert(opens(sessions[i], t, now));
        }
    }
}

/// Eight failures lock an address out for a quarter of an hour; each failure counts one more, from
/// one again once that time is over. A success, or another address, does not count.
pub proof fn law_how_failures_count(m: Map<Seq<char>, Mark>, ip: Seq<char>, other: Seq<char>, now: int)
    requires
        0 <= now,
        now + 900 <= u64::MAX,
        m.dom().finite(),
        m.contains_key(ip) ==> m[ip].count < u32::MAX,
    ensures
        ({
            let t = after_failure(m, ip, now);
            &&& t.contains_key(ip) && t[ip].time == now + 900
            &&& m.contains_key(ip) && m[ip].time > now ==> t[ip].count == m[ip].count + 1
            &&& !m.contains_key(ip) || m[ip].time <= now ==> t[ip].count == 1
            &&& other != ip && m.contains_key(other) && m[other].time > now
                ==> t.contains_key(other)
                && t[other] == m[other]
            &&& other != ip && !m.contains_key(other) ==> !t.contains_key(other)
            &&& m.dom().len() < 10_000 && other != ip && m.contains_key(other) ==> t.contains_key(
                other,
            )
        }),
        locked_out(m, ip, now) <==> m.contains_key(ip) && m[ip].count >= 8 && m[ip].time > now,
{
}

/// Who gives the right password becomes the owner for thirty days; without a password of its own the
/// site opens for nobody.
pub proof fn law_the_password(admin: Seq<char>, given: Seq<char>)
    ensures
        password_right(admin, given) <==> admin.len() > 0 && given == admin,
        !password_right(Seq::empty(), given),
        SESSION_MAX_AGE == 30 * 24 * 3600,
        MAX_FAILS == 8,
        LOCK_SECS == 15 * 60,
        LOGIN_TABLE_LIMIT == 10_000,
{
}

/// Sessions that have ended are dropped, and no others.
pub proof fn law_ended_sessions_go(front: Seq<SessionEntryV>, e: SessionEntryV, now: int)
    ensures
        e.exp > now
            ==> front.push(e).filter(not_ended(now)) == front.filter(not_ended(now)).push(e),
        e.exp <= now ==> front.push(e).filter(not_ended(now)) == front.filter(not_ended(now)),
{
    reveal(Seq::filter);
    assert(front.push(e).drop_last() =~= front);
}

/// A visitor is known by what the proxy wrote, or else by the last hop; one without either is
/// unknown.
pub proof fn law_visitors_without_an_address(list: Seq<char>)
    ensures
        visitor(None, None) == "unknown"@,
        visitor(Some(Seq::empty()), None) == "unknown"@,
        !list.contains(',') && trimmed(list).len() == 0 ==> visitor(None, Some(list)) == "unknown"@,
        !list.contains(',') && trimmed(list).len() > 0
            ==> visitor(None, Some(list)) == trimmed(list),
        !list.contains(',') && trimmed(list).len() > 0 ==> visitor(Some(Seq::empty()), Some(list))
            == trimmed(list),
{
    crate::text::law_trimming(Seq::empty(), ' ');
    let seps = seq![','];
    assert(seps[0] == ',');
    if !list.contains(',') {
        assert forall|k: int| 0 <= k < list.len() implies !seps.contains(#[trigger] list[k]) by {
            assert(list.contains(list[k]));
        }
        crate::text::lemma_single_piece(list, seps);
        assert(seq![list].drop_last() =~= Seq::empty());
        reveal_with_fuel(last_filled, 2);
    }
}

/// White space before the session's cookie does not matter.
pub proof fn law_white_space_before_the_cookie(t: Seq<char>, rest: Seq<char>)
    requires
        plain_token(t),
    ensures
        token_in(Some(seq![' '] + ("session="@ + t))) == Some(t),
        token_in(Some(seq![' '] + ("session="@ + t) + seq![';'] + rest)) == Some(t),
{
    reveal_strlit("session=");
    let seps = seq![';'];
    assert(seps[0] == ';');
    let name = "session="@;
    let inner = name + t;
    let whole = seq![' '] + inner;
    assert forall|k: int| 0 <= k < whole.len() implies !seps.contains(#[trigger] whole[k]) by {
        if k >= 9 {
            assert(whole[k] == t[k - 9]);
        }
    }
    crate::text::lemma_single_piece(whole, seps);
    crate::text::lemma_split_head(whole, ';', rest, seps);
    crate::text::law_trimming(inner, ' ');
    assert(inner[0] == 's' && inner.last() == t.last());
    crate::text::law_beginnings_and_ends(name, t, rest);
    assert((seq![whole] + split_at_any(rest, seps))[0] == whole);
}

/// Hops that are blank do not count.
pub proof fn law_blank_hops_do_not_count(list: Seq<char>, hop: Seq<char>)
    requires
        !hop.contains(','),
        trimmed(hop).len() == 0,
    ensures
        visitor(None, Some(list + seq![','] + hop)) == visitor(None, Some(list)),
{
    let seps = seq![','];
    assert(seps[0] == ',');
    assert forall|k: int| 0 <= k < hop.len() implies !seps.contains(#[trigger] hop[k]) by {
        assert(hop.contains(hop[k]));
    }
    crate::text::lemma_last_piece(list, ',', hop, seps);
    let parts = split_at_any(list + seq![','] + hop, seps);
    crate::text::lemma_split_nonempty(list + seq![','] + hop, seps);
    assert(parts.last() == hop);
    assert(parts.drop_last() == split_at_any(list, seps));
}

} // verus!
