//! Pages that share one place or one trip: the front end's page, with a preview of what it will
//! show in its head.

use vstd::prelude::*;
use crate::codes::{decimal, decimal_of, hex_digit};
use crate::json::lemma_filter_take;
use crate::model::{
    find_place, find_trip, index_of, place_ids, trip_ids, Place, PlaceV, Store, StoreV,
};
use crate::text::{
    ascii_alphanumeric, begins_with, chars_of, contains_text, is_ascii_alphanumeric, join2, join3,
    opt_is, opt_text, replace_once, replaced_once, starts_with,
};

verus! {

/// A character, written so that it stands for itself in the value of an HTML attribute.
pub open spec fn escaped_char(c: char) -> Seq<char> {
    if c == '&' {
        "&amp;"@
    } else if c == '<' {
        "&lt;"@
    } else if c == '>' {
        "&gt;"@
    } else if c == '"' {
        "&quot;"@
    } else {
        seq![c]
    }
}

/// A text, written so that it stands for itself in the value of an HTML attribute.
pub open spec fn escaped(s: Seq<char>) -> Seq<char>
    decreases s.len(),
{
    if s.len() == 0 {
        s
    } else {
        escaped(s.drop_last()) + escaped_char(s.last())
    }
}

/// Writes a text so that it stands for itself in the value of an HTML attribute.
pub fn attr_esc(s: &str) -> (r: String)
    ensures
        r@ == escaped(s@),
{
    let v = chars_of(s);
    let mut out: String = String::new();
    let mut i: usize = 0;
    while i < v.len()
        invariant
            i <= v.len(),
            v@ == s@,
            out@ == escaped(s@.take(i as int)),
        decreases v.len() - i,
    {
        let c: char = v[i];
        assert(s@.take(i + 1).drop_last() == s@.take(i as int));
        assert(s@.take(i + 1).last() == c);
        let ghost before = out@;
        if c == '&' {
            out.append("&amp;");
        } else if c == '<' {
            out.append("&lt;");
        } else if c == '>' {
            out.append("&gt;");
        } else if c == '"' {
            out.append("&quot;");
        } else {
            out.push(c);
            assert(out@ =~= before + seq![c]);
        }
        i = i + 1;
    }
    assert(s@.take(i as int) == s@);
    out
}

/// An escaped text holds no quote and no angle bracket, so it cannot end the attribute or begin
/// an element.
pub proof fn law_escaped_is_inert(s: Seq<char>, i: int)
    requires
        0 <= i < escaped(s).len(),
    ensures
        escaped(s)[i] != '<',
        escaped(s)[i] != '>',
        escaped(s)[i] != '"',
    decreases s.len(),
{
    reveal_strlit("&amp;");
    reveal_strlit("&lt;");
    reveal_strlit("&gt;");
    reveal_strlit("&quot;");
    if s.len() > 0 {
        let before = escaped(s.drop_last());
        if i < before.len() {
            law_escaped_is_inert(s.drop_last(), i);
            assert(escaped(s)[i] == before[i]);
        } else {
            assert(escaped(s)[i] == escaped_char(s.last())[i - before.len()]);
        }
    }
}

/// Two texts can be escaped apart or together: escaping goes over their join.
pub proof fn law_escaping_goes_over_joins(a: Seq<char>, b: Seq<char>)
    ensures
        escaped(a + b) == escaped(a) + escaped(b),
    decreases b.len(),
{
    if b.len() == 0 {
        assert(a + b =~= a);
        assert(escaped(a) + escaped(b) =~= escaped(a));
    } else {
        law_escaping_goes_over_joins(a, b.drop_last());
        assert((a + b).drop_last() =~= a + b.drop_last());
        assert(escaped(a + b) =~= escaped(a) + escaped(b));
    }
}

/// What an escaped text stands for: each of the four entities for its character, all other
/// characters for themselves.
pub open spec fn unescaped(s: Seq<char>) -> Seq<char>
    decreases s.len(),
{
    if s.len() == 0 {
        s
    } else if s.len() >= 5 && s.take(5) == "&amp;"@ {
        seq!['&'] + unescaped(s.skip(5))
    } else if s.len() >= 4 && s.take(4) == "&lt;"@ {
        seq!['<'] + unescaped(s.skip(4))
    } else if s.len() >= 4 && s.take(4) == "&gt;"@ {
        seq!['>'] + unescaped(s.skip(4))
    } else if s.len() >= 6 && s.take(6) == "&quot;"@ {
        seq!['"'] + unescaped(s.skip(6))
    } else {
        seq![s[0]] + unescaped(s.skip(1))
    }
}

/// Escaping can be undone: an escaped text stands for the text that was escaped.
pub proof fn law_escaping_can_be_undone(s: Seq<char>)
    ensures
        unescaped(escaped(s)) == s,
    decreases s.len(),
{
    if s.len() > 0 {
        let rest = s.drop_first();
        law_escaping_can_be_undone(rest);
        assert(s =~= seq![s[0]] + rest);
        law_escaping_goes_over_joins(seq![s[0]], rest);
        assert(seq![s[0]].drop_last() =~= Seq::empty());
        reveal_with_fuel(escaped, 2);
        assert(escaped(seq![s[0]]) =~= escaped_char(s[0]));
        lemma_unescape_one(s[0], escaped(rest));
    }
}

/// The first character of an escaped text is read back first.
proof fn lemma_unescape_one(c: char, rest: Seq<char>)
    ensures
        unescaped(escaped_char(c) + rest) == seq![c] + unescaped(rest),
{
    reveal_strlit("&amp;");
    reveal_strlit("&lt;");
    reveal_strlit("&gt;");
    reveal_strlit("&quot;");
    let e = escaped_char(c);
    let s = e + rest;
    assert(s.skip(e.len() as int) =~= rest);
    assert(s.take(e.len() as int) =~= e);
    if c == '&' || c == '<' || c == '>' || c == '"' {
        assert(s[1] == e[1]);
        assert(s.len() >= 4 ==> s.take(4)[1] == s[1]);
        assert(s.len() >= 5 ==> s.take(5)[1] == s[1]);
        assert(s.len() >= 6 ==> s.take(6)[1] == s[1]);
    } else {
        assert(s[0] == c);
        assert(s.len() >= 4 ==> s.take(4)[0] == c);
        assert(s.len() >= 5 ==> s.take(5)[0] == c);
        assert(s.len() >= 6 ==> s.take(6)[0] == c);
    }
}

/// What an id may hold that is shared: ASCII letters and digits, `_` and `-`.
pub open spec fn id_char(c: char) -> bool {
    ascii_alphanumeric(c) || c == '_' || c == '-'
}

/// An id that may stand in a shared page.
pub open spec fn share_id(id: Seq<char>) -> bool {
    0 < id.len() <= 64 && forall|i: int| 0 <= i < id.len() ==> id_char(#[trigger] id[i])
}

/// Whether an id may stand in a shared page: 1 to 64 letters, digits, `_` and `-`.
pub fn safe_share_id(id: &str) -> (r: bool)
    ensures
        r == share_id(id@),
{
    let v = chars_of(id);
    if v.len() == 0 || v.len() > 64 {
        return false;
    }
    let mut i: usize = 0;
    while i < v.len()
        invariant
            i <= v.len(),
            v@ == id@,
            forall|k: int| 0 <= k < i ==> id_char(#[trigger] v@[k]),
        decreases v.len() - i,
    {
        let c: char = v[i];
        if !(is_ascii_alphanumeric(c) || c == '_' || c == '-') {
            assert(!id_char(id@[i as int]));
            return false;
        }
        i = i + 1;
    }
    true
}

/// What a shared page says of its subject.
pub struct Share {
    pub title: String,
    pub desc: String,
    /// The address of a picture.
    pub image: Option<String>,
    /// Where in the front end the subject is shown.
    pub hash: String,
}

/// What a [`Share`] means.
#[verifier::ext_equal]
pub struct ShareV {
    pub title: Seq<char>,
    pub desc: Seq<char>,
    pub image: Option<Seq<char>>,
    pub hash: Seq<char>,
}

impl View for Share {
    type V = ShareV;

    open spec fn view(&self) -> ShareV {
        ShareV {
            title: self.title@,
            desc: self.desc@,
            image: opt_text(self.image),
            hash: self.hash@,
        }
    }
}

/// A page that speaks of the map as a whole.
pub open spec fn plain_share(hash: Seq<char>) -> ShareV {
    ShareV { title: "旅行足迹"@, desc: Seq::empty(), image: None, hash }
}

/// A page that speaks of the map as a whole.
fn share_nothing(hash: String) -> (r: Share)
    ensures
        r@ == plain_share(hash@),
{
    Share { title: "旅行足迹".to_owned(), desc: String::new(), image: None, hash }
}

/// The picture of a place: its cover, or else its first photograph.
pub open spec fn picture_of(p: PlaceV) -> Option<Seq<char>> {
    match p.cover {
        Some(c) => Some(c),
        None => if p.photos.len() > 0 {
            Some(p.photos[0].url)
        } else {
            None
        },
    }
}

/// The picture of a place.
pub fn place_picture(p: &Place) -> (r: Option<String>)
    ensures
        opt_text(r) == picture_of(p@),
{
    match &p.cover {
        Some(c) => Some(c.clone()),
        None => if p.photos.len() > 0 {
            assert(p@.photos[0] == p.photos@[0]@);
            Some(p.photos[0].url.clone())
        } else {
            None
        },
    }
}

/// What the page of a place says.
pub open spec fn place_share(s: StoreV, id: Seq<char>) -> ShareV {
    if !share_id(id) {
        plain_share("#"@)
    } else {
        match index_of(place_ids(s.places), id) {
            Some(i) => ShareV {
                title: s.places[i].name,
                desc: if s.places[i].feel.len() == 0 {
                    s.places[i].city
                } else {
                    s.places[i].feel
                },
                image: picture_of(s.places[i]),
                hash: "#p/"@ + id,
            },
            None => plain_share("#p/"@ + id),
        }
    }
}

/// What the page of a place says.
pub fn share_place(store: &Store, id: &str) -> (r: Share)
    ensures
        r@ == place_share(store@, id@),
{
    if !safe_share_id(id) {
        return share_nothing("#".to_owned());
    }
    match find_place(&store.places, id) {
        Some(i) => {
            let p = &store.places[i];
            assert(store@.places[i as int] == p@);
            let r = Share {
                title: p.name.clone(),
                desc: if p.feel.as_str().is_empty() {
                    p.city.clone()
                } else {
                    p.feel.clone()
                },
                image: place_picture(p),
                hash: join2("#p/", id),
            };
            assert(r@ =~= place_share(store@, id@));
            r
        },
        None => share_nothing(join2("#p/", id)),
    }
}

/// Whether a place belongs to a trip.
pub open spec fn belongs_to(id: Seq<char>) -> spec_fn(PlaceV) -> bool {
    |p: PlaceV| p.trip_id == Some(id)
}

/// The places of a trip.
pub open spec fn trip_places(s: StoreV, id: Seq<char>) -> Seq<PlaceV> {
    s.places.filter(belongs_to(id))
}

/// The first picture that one of these places has.
pub open spec fn first_picture(s: Seq<PlaceV>) -> Option<Seq<char>>
    decreases s.len(),
{
    if s.len() == 0 {
        None
    } else {
        match first_picture(s.drop_last()) {
            Some(u) => Some(u),
            None => picture_of(s.last()),
        }
    }
}

/// What the page of a trip says.
pub open spec fn trip_share(s: StoreV, id: Seq<char>) -> ShareV {
    if !share_id(id) {
        plain_share("#"@)
    } else {
        match index_of(trip_ids(s.trips), id) {
            Some(i) => ShareV {
                title: s.trips[i].name + " · 旅程"@,
                desc: "这趟旅程记录了 "@ + decimal(trip_places(s, id).len()) + " 个地点"@,
                image: first_picture(trip_places(s, id)),
                hash: "#t/"@ + id,
            },
            None => plain_share("#t/"@ + id),
        }
    }
}

/// How many places a trip has, and the first picture that one of them has.
fn trip_summary(store: &Store, id: &str) -> (r: (usize, Option<String>))
    ensures
        r.0 == trip_places(store@, id@).len(),
        opt_text(r.1) == first_picture(trip_places(store@, id@)),
{
    let ghost all = store@.places;
    let ghost f = belongs_to(id@);
    let mut n: usize = 0;
    let mut image: Option<String> = None;
    let mut i: usize = 0;
    proof {
        reveal(Seq::filter);
        assert(all.take(0).filter(f) =~= Seq::empty());
    }
    while i < store.places.len()
        invariant
            i <= store.places.len(),
            all == store@.places,
            f == belongs_to(id@),
            n == all.take(i as int).filter(f).len(),
            n <= i,
            opt_text(image) == first_picture(all.take(i as int).filter(f)),
        decreases store.places.len() - i,
    {
        let p = &store.places[i];
        proof {
            assert(all[i as int] == p@);
            lemma_filter_take(all, f, i as int);
        }
        let ghost so_far = all.take(i as int).filter(f);
        if opt_is(&p.trip_id, id) {
            assert(so_far.push(p@).drop_last() =~= so_far);
            n = n + 1;
            if image.is_none() {
                image = place_picture(p);
            }
        }
        i = i + 1;
    }
    assert(all.take(i as int) == all);
    (n, image)
}

/// What the page of a trip says.
pub fn share_trip(store: &Store, id: &str) -> (r: Share)
    ensures
        r@ == trip_share(store@, id@),
{
    if !safe_share_id(id) {
        return share_nothing("#".to_owned());
    }
    match find_trip(&store.trips, id) {
        Some(i) => {
            assert(store@.trips[i as int] == store.trips@[i as int]@);
            let (n, image) = trip_summary(store, id);
            let r = Share {
                title: join2(store.trips[i].name.as_str(), " · 旅程"),
                desc: join3("这趟旅程记录了 ", decimal_of(n).as_str(), " 个地点"),
                image,
                hash: join2("#t/", id),
            };
            assert(r@ =~= trip_share(store@, id@));
            r
        },
        None => share_nothing(join2("#t/", id)),
    }
}

/// A character, as it stands in a JSON string.
pub open spec fn json_char(c: char) -> Seq<char> {
    if c == '"' {
        seq!['\\', '"']
    } else if c == '\\' {
        seq!['\\', '\\']
    } else if c as int == 0x08 {
        seq!['\\', 'b']
    } else if c as int == 0x09 {
        seq!['\\', 't']
    } else if c as int == 0x0a {
        seq!['\\', 'n']
    } else if c as int == 0x0c {
        seq!['\\', 'f']
    } else if c as int == 0x0d {
        seq!['\\', 'r']
    } else if (c as int) < 0x20 {
        seq!['\\', 'u', '0', '0', hex_digit(c as int / 16), hex_digit(c as int % 16)]
    } else {
        seq![c]
    }
}

/// A text, as it stands between the quotes of a JSON string.
pub open spec fn json_chars(s: Seq<char>) -> Seq<char>
    decreases s.len(),
{
    if s.len() == 0 {
        s
    } else {
        json_chars(s.drop_last()) + json_char(s.last())
    }
}

/// A text as a JSON string.
pub open spec fn json_string(s: Seq<char>) -> Seq<char> {
    seq!['"'] + json_chars(s) + seq!['"']
}

/// `serde_json::to_string` on a text: a JSON string of it. Quotes, backslashes and the characters
/// below U+0020 are escaped, all others stand for themselves. It never fails.
#[verifier::external_body]
fn json_text(s: &str) -> (r: Option<String>)
    ensures
        opt_text(r) == Some(json_string(s@)),
{
    serde_json::to_string(s).ok()
}

/// The absolute address of a picture; without one, that of the site's icon.
pub open spec fn absolute(image: Option<Seq<char>>, origin: Seq<char>) -> Seq<char> {
    match image {
        Some(u) => if begins_with(u, "http"@) {
            u
        } else {
            origin + u
        },
        None => origin + "/icons/icon-512.png"@,
    }
}

/// What is put into the head of the page: the preview, and a script that goes on to the subject.
pub open spec fn preview(share: ShareV, origin: Seq<char>) -> Seq<char> {
    "<meta property=\"og:type\" content=\"website\"><meta property=\"og:title\" content=\""@
        + escaped(share.title) + "\"><meta property=\"og:description\" content=\""@ + escaped(
        share.desc,
    ) + "\"><meta property=\"og:image\" content=\""@ + escaped(absolute(share.image, origin))
        + "\"><meta name=\"twitter:card\" content=\"summary_large_image\">"@
        + "<script>try{if(!location.hash)location.replace(location.pathname.replace(/\\/(p|t)\\/.*$/,'/')+"@
        + json_string(share.hash) + ");}catch(e){}</script>"@
}

/// The page of a place or a trip: the front end's page with the preview at the end of its head.
pub fn render_share_page(html: &str, share: &Share, origin: &str) -> (r: String)
    ensures
        r@ == replaced_once(html@, "</head>"@, preview(share@, origin@) + "</head>"@),
{
    let img_abs: String = match &share.image {
        Some(u) => if starts_with(u.as_str(), "http") {
            u.clone()
        } else {
            join2(origin, u.as_str())
        },
        None => join2(origin, "/icons/icon-512.png"),
    };
    let hash: String = match json_text(share.hash.as_str()) {
        Some(h) => h,
        None => "\"#\"".to_owned(),
    };
    let mut og: String =
        "<meta property=\"og:type\" content=\"website\"><meta property=\"og:title\" content=\"".to_owned();
    og.append(attr_esc(share.title.as_str()).as_str());
    og.append("\"><meta property=\"og:description\" content=\"");
    og.append(attr_esc(share.desc.as_str()).as_str());
    og.append("\"><meta property=\"og:image\" content=\"");
    og.append(attr_esc(img_abs.as_str()).as_str());
    og.append("\"><meta name=\"twitter:card\" content=\"summary_large_image\">");
    og.append(
        "<script>try{if(!location.hash)location.replace(location.pathname.replace(/\\/(p|t)\\/.*$/,'/')+",
    );
    og.append(hash.as_str());
    og.append(");}catch(e){}</script>");
    assert(og@ =~= preview(share@, origin@));
    og.append("</head>");
    replace_once(html, "</head>", og.as_str())
}

/// The characters of an id, `#` and `/` stand for themselves in a JSON string.
proof fn lemma_plain_char(c: char)
    requires
        id_char(c) || c == '#' || c == '/',
    ensures
        json_char(c) == seq![c],
{
    assert(c as int >= 0x20);
    assert(c as int != 0x22);
    assert(c as int != 0x5c);
}

/// Plain characters stand for themselves in a JSON string.
proof fn lemma_plain_json(s: Seq<char>)
    requires
        forall|i: int| 0 <= i < s.len() ==> json_char(#[trigger] s[i]) == seq![s[i]],
    ensures
        json_chars(s) == s,
    decreases s.len(),
{
    if s.len() > 0 {
        assert forall|i: int| 0 <= i < s.drop_last().len() implies json_char(
            #[trigger] s.drop_last()[i],
        ) == seq![s.drop_last()[i]] by {
            assert(s.drop_last()[i] == s[i]);
        }
        lemma_plain_json(s.drop_last());
        assert(json_char(s[s.len() - 1]) == seq![s[s.len() - 1]]);
        assert(s =~= s.drop_last() + seq![s.last()]);
    }
}

/// Whatever the path that is asked for, the script in the page gets `"#"`, `"#p/…"` or `"#t/…"`
/// with an id of letters, digits, `_` and `-`: nothing in it can end the string or the script.
pub proof fn law_only_safe_ids_reach_the_script(s: StoreV, id: Seq<char>)
    ensures
        !share_id(id) ==> json_string(place_share(s, id).hash) == seq!['"', '#', '"']
            && json_string(trip_share(s, id).hash) == seq!['"', '#', '"'],
        share_id(id) ==> json_string(place_share(s, id).hash) == seq!['"', '#', 'p', '/'] + id
            + seq!['"'],
        share_id(id) ==> json_string(trip_share(s, id).hash) == seq!['"', '#', 't', '/'] + id
            + seq!['"'],
{
    if share_id(id) {
        reveal_strlit("#p/");
        reveal_strlit("#t/");
        assert("#p/"@ =~= seq!['#', 'p', '/']);
        assert("#t/"@ =~= seq!['#', 't', '/']);
        lemma_hash_of_id('p', id);
        lemma_hash_of_id('t', id);
        assert(place_share(s, id).hash == "#p/"@ + id);
        assert(trip_share(s, id).hash == "#t/"@ + id);
    } else {
        reveal_strlit("#");
        assert("#"@ =~= seq!['#']);
        lemma_plain_char('#');
        lemma_plain_json("#"@);
        assert(json_string("#"@) =~= seq!['"', '#', '"']);
    }
}

/// The address of an id that may be shared stands for itself in a JSON string.
proof fn lemma_hash_of_id(kind: char, id: Seq<char>)
    requires
        share_id(id),
        kind == 'p' || kind == 't',
    ensures
        json_string(seq!['#', kind, '/'] + id) == seq!['"', '#', kind, '/'] + id + seq!['"'],
{
    let h = seq!['#', kind, '/'] + id;
    assert forall|i: int| 0 <= i < h.len() implies json_char(#[trigger] h[i]) == seq![h[i]] by {
        if i >= 3 {
            assert(h[i] == id[i - 3]);
            assert(id_char(id[i - 3]));
        }
        lemma_plain_char(h[i]);
    }
    lemma_plain_json(h);
    assert(json_string(h) =~= seq!['"', '#', kind, '/'] + id + seq!['"']);
}

/// An id that may not be shared has no part in the page: every such path gives the same page.
pub proof fn law_unsafe_ids_are_not_shown(s: StoreV, id: Seq<char>)
    requires
        !share_id(id),
    ensures
        place_share(s, id) == plain_share("#"@),
        trip_share(s, id) == plain_share("#"@),
{
}

/// An id may be shared if it has at most 64 characters, all of them letters, digits, `_` or `-`.
pub proof fn law_shared_ids(id: Seq<char>)
    ensures
        share_id(id) <==> 0 < id.len() <= 64 && forall|k: int|
            0 <= k < id.len() ==> {
                let c = #[trigger] id[k];
                'a' <= c <= 'z' || 'A' <= c <= 'Z' || '0' <= c <= '9' || c == '_' || c == '-'
            },
{
    assert forall|k: int| 0 <= k < id.len() implies id_char(#[trigger] id[k]) == ({
        let c = id[k];
        'a' <= c <= 'z' || 'A' <= c <= 'Z' || '0' <= c <= '9' || c == '_' || c == '-'
    }) by {
        crate::text::law_letters_and_digits(id[k]);
    }
}

/// The page of a place has the name of the place for its title, its impression or else its city for
/// its description, its cover or else its first photograph for its picture, and leads to it.
pub proof fn law_the_page_of_a_place(s: StoreV, id: Seq<char>, i: int)
    requires
        0 < id.len() <= 64,
        forall|k: int|
            0 <= k < id.len() ==> {
                let c = #[trigger] id[k];
                'a' <= c <= 'z' || 'A' <= c <= 'Z' || '0' <= c <= '9' || c == '_' || c == '-'
            },
        0 <= i < s.places.len(),
        s.places[i].id == id,
        forall|j: int| 0 <= j < i ==> (#[trigger] s.places[j]).id != id,
    ensures
        ({
            let (p, r) = (s.places[i], place_share(s, id));
            &&& r.title == p.name
            &&& p.feel.len() > 0 ==> r.desc == p.feel
            &&& p.feel.len() == 0 ==> r.desc == p.city
            &&& r.image == (match p.cover {
                Some(c) => Some(c),
                None => if p.photos.len() > 0 {
                    Some(p.photos[0].url)
                } else {
                    None
                },
            })
            &&& r.hash == "#p/"@ + id
        }),
{
    law_shared_ids(id);
    let ids = place_ids(s.places);
    crate::model::lemma_index_of(ids, id);
    assert(ids[i] == id);
    assert(ids.contains(id));
    let k = index_of(ids, id)->0;
    assert(ids[k] == s.places[k].id);
    assert(k == i);
}

/// The page of a trip has the name of the trip in its title, says how many places it has, shows the
/// first picture of those, and leads to it.
pub proof fn law_the_page_of_a_trip(s: StoreV, id: Seq<char>, i: int)
    requires
        0 < id.len() <= 64,
        forall|k: int|
            0 <= k < id.len() ==> {
                let c = #[trigger] id[k];
                'a' <= c <= 'z' || 'A' <= c <= 'Z' || '0' <= c <= '9' || c == '_' || c == '-'
            },
        0 <= i < s.trips.len(),
        s.trips[i].id == id,
        forall|j: int| 0 <= j < i ==> (#[trigger] s.trips[j]).id != id,
    ensures
        ({
            let r = trip_share(s, id);
            &&& r.title == s.trips[i].name + " · 旅程"@
            &&& r.desc == "这趟旅程记录了 "@ + decimal(trip_places(s, id).len()) + " 个地点"@
            &&& r.image == first_picture(trip_places(s, id))
            &&& r.hash == "#t/"@ + id
        }),
{
    law_shared_ids(id);
    let ids = trip_ids(s.trips);
    crate::model::lemma_index_of(ids, id);
    assert(ids[i] == id);
    assert(ids.contains(id));
    let k = index_of(ids, id)->0;
    assert(ids[k] == s.trips[k].id);
    assert(k == i);
}

/// A place counts for its own trip and for no other, in the order of the places.
pub proof fn law_places_count_for_their_trip(s: StoreV, t: StoreV, p: PlaceV, id: Seq<char>)
    requires
        t.places == s.places.push(p),
    ensures
        p.trip_id == Some(id) ==> trip_places(t, id) == trip_places(s, id).push(p),
        p.trip_id != Some(id) ==> trip_places(t, id) == trip_places(s, id),
        s.places.len() == 0 ==> trip_places(s, id).len() == 0,
{
    reveal(Seq::filter);
    assert(t.places.drop_last() =~= s.places);
}

/// The picture of a trip is that of the first of its places that has one.
pub proof fn law_the_first_picture(s: Seq<PlaceV>, i: int)
    requires
        0 <= i <= s.len(),
        forall|j: int|
            0 <= j < i ==> (#[trigger] s[j]).cover is None && s[j].photos.len() == 0,
    ensures
        i == s.len() ==> first_picture(s) is None,
        i < s.len() && s[i].cover is Some ==> first_picture(s) == s[i].cover,
        i < s.len() && s[i].cover is None && s[i].photos.len() > 0 ==> first_picture(s) == Some(
            s[i].photos[0].url,
        ),
    decreases s.len(),
{
    if s.len() > 0 {
        let rest = s.drop_last();
        assert forall|j: int| 0 <= j < rest.len() implies rest[j] == s[j] by {}
        if i < s.len() {
            law_the_first_picture(rest, i);
        } else {
            law_the_first_picture(rest, i - 1);
        }
    }
}

/// What there is not is shared as the map as a whole, under its own address.
pub proof fn law_the_page_of_nothing(s: StoreV, id: Seq<char>)
    requires
        0 < id.len() <= 64,
        forall|k: int|
            0 <= k < id.len() ==> {
                let c = #[trigger] id[k];
                'a' <= c <= 'z' || 'A' <= c <= 'Z' || '0' <= c <= '9' || c == '_' || c == '-'
            },
    ensures
        (forall|j: int| 0 <= j < s.places.len() ==> (#[trigger] s.places[j]).id != id) ==> {
            let r = place_share(s, id);
            r.title == "旅行足迹"@ && r.desc.len() == 0 && r.image is None && r.hash == "#p/"@ + id
        },
        (forall|j: int| 0 <= j < s.trips.len() ==> (#[trigger] s.trips[j]).id != id) ==> {
            let r = trip_share(s, id);
            r.title == "旅行足迹"@ && r.desc.len() == 0 && r.image is None && r.hash == "#t/"@ + id
        },
{
    law_shared_ids(id);
    let ids = place_ids(s.places);
    crate::model::lemma_index_of(ids, id);
    if index_of(ids, id) is Some {
        let k = index_of(ids, id)->0;
        assert(ids[k] == s.places[k].id);
    }
    let all = trip_ids(s.trips);
    crate::model::lemma_index_of(all, id);
    if index_of(all, id) is Some {
        let k = index_of(all, id)->0;
        assert(all[k] == s.trips[k].id);
    }
}

/// The address of a picture is put behind the site's, unless it is an address of the web already;
/// the icon stands in for a picture that there is not.
pub proof fn law_addresses_become_absolute(u: Seq<char>, rest: Seq<char>, origin: Seq<char>)
    ensures
        absolute(Some("http"@ + rest), origin) == "http"@ + rest,
        u.len() > 0 && u[0] == '/' ==> absolute(Some(u), origin) == origin + u,
        absolute(None, origin) == origin + "/icons/icon-512.png"@,
{
    reveal_strlit("http");
    crate::text::law_beginnings_and_ends("http"@, rest, u);
    if u.len() > 0 && u[0] == '/' && begins_with(u, "http"@) {
        assert(u.take(4)[0] == 'h');
    }
}

/// Quotes, angle brackets and ampersands are written as entities, and nothing else is touched.
pub proof fn law_what_is_escaped(c: char)
    ensures
        escaped(seq!['&']) == "&amp;"@,
        escaped(seq!['<']) == "&lt;"@,
        escaped(seq!['>']) == "&gt;"@,
        escaped(seq!['"']) == "&quot;"@,
        c != '&' && c != '<' && c != '>' && c != '"' ==> escaped(seq![c]) == seq![c],
{
    reveal_with_fuel(escaped, 2);
    assert(seq!['&'].drop_last() =~= Seq::empty());
    assert(seq!['<'].drop_last() =~= Seq::empty());
    assert(seq!['>'].drop_last() =~= Seq::empty());
    assert(seq!['"'].drop_last() =~= Seq::empty());
    assert(seq![c].drop_last() =~= Seq::empty());
    assert(Seq::<char>::empty() + "&amp;"@ =~= "&amp;"@);
    assert(Seq::<char>::empty() + "&lt;"@ =~= "&lt;"@);
    assert(Seq::<char>::empty() + "&gt;"@ =~= "&gt;"@);
    assert(Seq::<char>::empty() + "&quot;"@ =~= "&quot;"@);
    assert(Seq::<char>::empty() + seq![c] =~= seq![c]);
}

/// The head of a shared page names the title, the description and the picture, each in its own
/// place, and the script goes on to the subject.
pub proof fn law_the_preview_says_what_is_shared(share: ShareV, origin: Seq<char>)
    ensures
        ({
            let head = preview(share, origin);
            &&& contains_text(
                head,
                "og:title\" content=\""@ + escaped(share.title) + seq!['"', '>'],
            )
            &&& contains_text(
                head,
                "og:description\" content=\""@ + escaped(share.desc) + seq!['"', '>'],
            )
            &&& contains_text(
                head,
                "og:image\" content=\""@ + escaped(absolute(share.image, origin)) + seq!['"', '>'],
            )
            &&& contains_text(head, seq!['+'] + json_string(share.hash) + seq![')', ';'])
        }),
{
    let l1 = "<meta property=\"og:type\" content=\"website\"><meta property=\"og:title\" content=\""@;
    let l2 = "\"><meta property=\"og:description\" content=\""@;
    let l3 = "\"><meta property=\"og:image\" content=\""@;
    let l4 = "\"><meta name=\"twitter:card\" content=\"summary_large_image\">"@;
    let l5 = "<script>try{if(!location.hash)location.replace(location.pathname.replace(/\\/(p|t)\\/.*$/,'/')+"@;
    let l6 = ");}catch(e){}</script>"@;
    let k1 = "og:title\" content=\""@;
    let k2 = "og:description\" content=\""@;
    let k3 = "og:image\" content=\""@;
    lemma_pieces_of_the_preview();
    let t = escaped(share.title);
    let d = escaped(share.desc);
    let u = escaped(absolute(share.image, origin));
    let j = json_string(share.hash);
    let close = seq!['"', '>'];
    let p1 = k1 + t + close;
    let p2 = k2 + d + close;
    let p3 = k3 + u + close;
    let p4 = seq!['+'] + j + seq![')', ';'];
    let h2 = l1 + t + l2;
    let h3 = h2 + d + l3;
    let h4 = h3 + u + l4;
    let h5 = h4 + l5;
    let empty = Seq::<char>::empty();
    assert(empty + l1 =~= l1);
    lemma_piece_between(empty, l1, k1, t, close, l2);
    lemma_piece_between(l1 + t, l2, k2, d, close, l3);
    lemma_piece_between(h2 + d, l3, k3, u, close, l4);
    lemma_piece_between(h4, l5, seq!['+'], j, seq![')', ';'], l6);
    lemma_still_there(h2, d, p1);
    lemma_still_there(h2 + d, l3, p1);
    lemma_still_there(h3, u, p1);
    lemma_still_there(h3 + u, l4, p1);
    lemma_still_there(h4, l5, p1);
    lemma_still_there(h5, j, p1);
    lemma_still_there(h5 + j, l6, p1);
    lemma_still_there(h3, u, p2);
    lemma_still_there(h3 + u, l4, p2);
    lemma_still_there(h4, l5, p2);
    lemma_still_there(h5, j, p2);
    lemma_still_there(h5 + j, l6, p2);
    lemma_still_there(h4, l5, p3);
    lemma_still_there(h5, j, p3);
    lemma_still_there(h5 + j, l6, p3);
    assert(preview(share, origin) == h5 + j + l6);
}

/// A value stands between the end of one piece and the beginning of the next.
proof fn lemma_piece_between(
    front: Seq<char>,
    before: Seq<char>,
    end: Seq<char>,
    value: Seq<char>,
    begin: Seq<char>,
    behind: Seq<char>,
)
    requires
        end.len() <= before.len(),
        begin.len() <= behind.len(),
        before == before.take(before.len() - end.len()) + end,
        behind == begin + behind.skip(begin.len() as int),
    ensures
        contains_text(front + before + value + behind, end + value + begin),
{
    let a = front + before.take(before.len() - end.len());
    let b = behind.skip(begin.len() as int);
    let p = end + value + begin;
    assert(front + before + value + behind =~= a + p + b);
    crate::text::lemma_occurs_between(a, p, b);
}

/// What occurs in a text still does when more follows.
proof fn lemma_still_there(s: Seq<char>, more: Seq<char>, p: Seq<char>)
    requires
        contains_text(s, p),
    ensures
        contains_text(s + more, p),
{
    let k = choose|k: int| crate::text::occurs_at(s, p, k);
    assert((s + more).subrange(k, k + p.len()) =~= s.subrange(k, k + p.len()));
    assert(crate::text::occurs_at(s + more, p, k));
}

/// How the pieces of a preview begin and end.
proof fn lemma_pieces_of_the_preview()
    ensures
        ({
            let l1 = "<meta property=\"og:type\" content=\"website\"><meta property=\"og:title\" content=\""@;
            let l2 = "\"><meta property=\"og:description\" content=\""@;
            let l3 = "\"><meta property=\"og:image\" content=\""@;
            let l4 = "\"><meta name=\"twitter:card\" content=\"summary_large_image\">"@;
            let l5 = "<script>try{if(!location.hash)location.replace(location.pathname.replace(/\\/(p|t)\\/.*$/,'/')+"@;
            let l6 = ");}catch(e){}</script>"@;
            let k1 = "og:title\" content=\""@;
            let k2 = "og:description\" content=\""@;
            let k3 = "og:image\" content=\""@;
            &&& l1 == l1.take(l1.len() - k1.len()) + k1 && l1.len() >= k1.len()
            &&& l2 == l2.take(l2.len() - k2.len()) + k2 && l2.len() >= k2.len()
            &&& l3 == l3.take(l3.len() - k3.len()) + k3 && l3.len() >= k3.len()
            &&& l2 == seq!['"', '>'] + l2.skip(2) && l2.len() >= 2
            &&& l3 == seq!['"', '>'] + l3.skip(2) && l3.len() >= 2
            &&& l4 == seq!['"', '>'] + l4.skip(2) && l4.len() >= 2
            &&& l5 == l5.take(l5.len() - 1) + seq!['+'] && l5.len() > 0
            &&& l6 == seq![')', ';'] + l6.skip(2) && l6.len() >= 2
        }),
{
    reveal_strlit(
        "<meta property=\"og:type\" content=\"website\"><meta property=\"og:title\" content=\"",
    );
    reveal_strlit("\"><meta property=\"og:description\" content=\"");
    reveal_strlit("\"><meta property=\"og:image\" content=\"");
    reveal_strlit("\"><meta name=\"twitter:card\" content=\"summary_large_image\">");
    reveal_strlit(
        "<script>try{if(!location.hash)location.replace(location.pathname.replace(/\\/(p|t)\\/.*$/,'/')+",
    );
    reveal_strlit(");}catch(e){}</script>");
    reveal_strlit("og:title\" content=\"");
    reveal_strlit("og:description\" content=\"");
    reveal_strlit("og:image\" content=\"");
}

} // verus!
