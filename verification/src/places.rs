//! The places on the map: adding, changing and removing them.

use vstd::prelude::*;
use crate::codes::{numbered, numbered_id};
use crate::json::{
    as_text, double_member, elements, lemma_array, member, opt_views, text_member, text_or,
    uint_member, views, Double, Duplicate, Json, JsonV,
};
use crate::model::{
    category_ok, find_photo, find_place, index_of, is_valid_category, lemma_index_of, photo_ids,
    place_ids, Photo, Place, PlaceV, Store, StoreV, Visit, VisitV,
};
use crate::names::{clean_em, sanitize_em};
use crate::reply::Refusal;
use crate::text::{
    blank, comes_before, is_blank, join2, lemma_text_order, less, opt_is, opt_text, same, trim,
    trimmed,
};

verus! {

/// A rating, five at most.
pub open spec fn rating_of(n: Option<u64>) -> u8 {
    match n {
        Some(k) => if k > 5 {
            5
        } else {
            k as u8
        },
        None => 0,
    }
}

/// A rating, five at most.
fn rating(n: Option<u64>) -> (r: u8)
    ensures
        r == rating_of(n),
{
    match n {
        Some(k) => if k > 5 {
            5
        } else {
            k as u8
        },
        None => 0,
    }
}

/// The texts among the elements of a list, in order.
pub open spec fn texts_among(items: Seq<JsonV>) -> Seq<Seq<char>>
    decreases items.len(),
{
    if items.len() == 0 {
        Seq::empty()
    } else {
        match as_text(items.last()) {
            Some(s) => texts_among(items.drop_last()).push(s),
            None => texts_among(items.drop_last()),
        }
    }
}

/// The tags that a request gives; none if it gives no list.
pub open spec fn tags_member(body: JsonV) -> Option<Seq<Seq<char>>> {
    match member(body, "tags"@) {
        Some(JsonV::Array(items)) => Some(texts_among(items)),
        _ => None,
    }
}

/// The tags that a request gives.
fn tags_of(body: &Json) -> (r: Option<Vec<String>>)
    ensures
        opt_views(r) == tags_member(body@),
{
    match body.get("tags") {
        Some(Json::Array(v)) => {
            proof {
                lemma_array(*v);
            }
            let ghost items = elements(v@);
            let mut out: Vec<String> = Vec::new();
            assert(views(out@) =~= texts_among(items.take(0)));
            let mut i: usize = 0;
            while i < v.len()
                invariant
                    i <= v.len(),
                    items == elements(v@),
                    views(out@) == texts_among(items.take(i as int)),
                decreases v.len() - i,
            {
                let ghost so_far = views(out@);
                assert(items.take(i + 1).drop_last() == items.take(i as int));
                assert(items.take(i + 1).last() == v@[i as int]@);
                match v[i].as_str() {
                    Some(s) => {
                        out.push(s.to_owned());
                        assert(views(out@) =~= so_far.push(s@));
                    },
                    None => {},
                }
                i = i + 1;
            }
            assert(items.take(i as int) == items);
            Some(out)
        },
        _ => None,
    }
}

/// An optional field: absent or `null` is the empty text, a text is itself, anything else is an
/// error.
pub open spec fn text_or_null(v: Option<JsonV>, e: Refusal) -> Result<Seq<char>, Refusal> {
    match v {
        None => Ok(Seq::empty()),
        Some(JsonV::Null) => Ok(Seq::empty()),
        Some(JsonV::Text(s)) => Ok(s),
        Some(_) => Err(e),
    }
}

/// An optional field.
pub fn read_text_or_null(v: Option<&Json>, e: Refusal) -> (r: Result<String, Refusal>)
    ensures
        match r {
            Ok(s) => text_or_null(crate::json::opt_json(v), e) == Ok::<Seq<char>, Refusal>(s@),
            Err(x) => text_or_null(crate::json::opt_json(v), e) == Err::<Seq<char>, Refusal>(x),
        },
{
    match v {
        None => Ok(String::new()),
        Some(Json::Null) => Ok(String::new()),
        Some(Json::Text(s)) => Ok(s.clone()),
        Some(_) => Err(e),
    }
}

/// The id that an entry of a list gives itself, or else one made from the moment and its number.
pub open spec fn entry_id(
    item: JsonV,
    prefix: Seq<char>,
    stamp: Seq<char>,
    i: nat,
) -> Seq<char> {
    match text_member(item, "id"@) {
        Some(s) => if blank(s) {
            numbered_id(prefix, stamp, i)
        } else {
            s
        },
        None => numbered_id(prefix, stamp, i),
    }
}

/// The id of an entry of a list.
pub fn read_entry_id(item: &Json, prefix: &str, stamp: &str, i: usize) -> (r: String)
    ensures
        r@ == entry_id(item@, prefix@, stamp@, i as nat),
{
    match item.get_str("id") {
        Some(s) => if is_blank(s) {
            numbered(prefix, stamp, i)
        } else {
            s.to_owned()
        },
        None => numbered(prefix, stamp, i),
    }
}

/// One visit, as a request gives it.
pub open spec fn visit_of(item: JsonV, stamp: Seq<char>, i: nat) -> Result<VisitV, Refusal> {
    if item !is Object {
        Err(Refusal::VisitNotObject)
    } else {
        match text_or_null(member(item, "date"@), Refusal::VisitDateNotText) {
            Err(e) => Err(e),
            Ok(date) => match text_or_null(member(item, "note"@), Refusal::VisitNoteNotText) {
                Err(e) => Err(e),
                Ok(note) => Ok(
                    VisitV {
                        id: entry_id(item, "v_"@, stamp, i),
                        date,
                        note,
                        rating: rating_of(uint_member(item, "rating"@)),
                    },
                ),
            },
        }
    }
}

/// One visit, as a request gives it.
fn read_visit(item: &Json, stamp: &str, i: usize) -> (r: Result<Visit, Refusal>)
    ensures
        match r {
            Ok(v) => visit_of(item@, stamp@, i as nat) == Ok::<VisitV, Refusal>(v@),
            Err(e) => visit_of(item@, stamp@, i as nat) == Err::<VisitV, Refusal>(e),
        },
{
    match item {
        Json::Object(_) => {},
        _ => return Err(Refusal::VisitNotObject),
    }
    let date = match read_text_or_null(item.get("date"), Refusal::VisitDateNotText) {
        Ok(s) => s,
        Err(e) => return Err(e),
    };
    let note = match read_text_or_null(item.get("note"), Refusal::VisitNoteNotText) {
        Ok(s) => s,
        Err(e) => return Err(e),
    };
    Ok(
        Visit {
            id: read_entry_id(item, "v_", stamp, i),
            date,
            note,
            rating: rating(item.get_u64("rating")),
        },
    )
}

/// The visits of a list; the first that is wrong decides.
pub open spec fn visits_of(items: Seq<JsonV>, stamp: Seq<char>) -> Result<Seq<VisitV>, Refusal>
    decreases items.len(),
{
    if items.len() == 0 {
        Ok(Seq::empty())
    } else {
        match visits_of(items.drop_last(), stamp) {
            Err(e) => Err(e),
            Ok(v) => match visit_of(items.last(), stamp, (items.len() - 1) as nat) {
                Err(e) => Err(e),
                Ok(x) => Ok(v.push(x)),
            },
        }
    }
}

/// The visits that a request gives, if it gives any.
pub open spec fn visits_member(body: JsonV, stamp: Seq<char>) -> Result<
    Option<Seq<VisitV>>,
    Refusal,
> {
    match member(body, "visits"@) {
        None => Ok(None),
        Some(JsonV::Array(items)) => match visits_of(items, stamp) {
            Ok(v) => Ok(Some(v)),
            Err(e) => Err(e),
        },
        Some(_) => Err(Refusal::VisitsNotArray),
    }
}

/// A list that goes wrong stays wrong, however it goes on.
proof fn lemma_visits_err(items: Seq<JsonV>, stamp: Seq<char>, i: int, e: Refusal)
    requires
        0 <= i <= items.len(),
        visits_of(items.take(i), stamp) == Err::<Seq<VisitV>, Refusal>(e),
    ensures
        visits_of(items, stamp) == Err::<Seq<VisitV>, Refusal>(e),
    decreases items.len() - i,
{
    if i == items.len() {
        assert(items.take(i) == items);
    } else {
        assert(items.take(i + 1).drop_last() == items.take(i));
        lemma_visits_err(items, stamp, i + 1, e);
    }
}

/// The visits that a request gives.
pub fn parse_visits(body: &Json, stamp: &str) -> (r: Result<Option<Vec<Visit>>, Refusal>)
    ensures
        match r {
            Ok(v) => visits_member(body@, stamp@) == Ok::<Option<Seq<VisitV>>, Refusal>(
                opt_views(v),
            ),
            Err(e) => visits_member(body@, stamp@) == Err::<Option<Seq<VisitV>>, Refusal>(e),
        },
{
    match body.get("visits") {
        None => Ok(None),
        Some(Json::Array(v)) => {
            proof {
                lemma_array(*v);
            }
            let ghost items = elements(v@);
            let mut out: Vec<Visit> = Vec::new();
            assert(views(out@) =~= Seq::empty());
            let mut i: usize = 0;
            while i < v.len()
                invariant
                    i <= v.len(),
                    items == elements(v@),
                    member(body@, "visits"@) == Some(JsonV::Array(items)),
                    visits_of(items.take(i as int), stamp@) == Ok::<Seq<VisitV>, Refusal>(
                        views(out@),
                    ),
                decreases v.len() - i,
            {
                let ghost so_far = views(out@);
                assert(items.take(i + 1).drop_last() == items.take(i as int));
                assert(items.take(i + 1).last() == v@[i as int]@);
                match read_visit(&v[i], stamp, i) {
                    Ok(x) => {
                        let ghost meaning = x@;
                        out.push(x);
                        assert(views(out@) =~= so_far.push(meaning));
                    },
                    Err(e) => {
                        proof {
                            lemma_visits_err(items, stamp@, i + 1, e);
                        }
                        return Err(e);
                    },
                }
                i = i + 1;
            }
            assert(items.take(i as int) == items);
            Ok(Some(out))
        },
        Some(_) => Err(Refusal::VisitsNotArray),
    }
}

/// The earliest of the dates of visits that have one.
pub open spec fn earliest_date(visits: Seq<VisitV>) -> Option<Seq<char>>
    decreases visits.len(),
{
    if visits.len() == 0 {
        None
    } else {
        let d = visits.last().date;
        let before = earliest_date(visits.drop_last());
        if d.len() == 0 {
            before
        } else {
            match before {
                None => Some(d),
                Some(m) => if comes_before(d, m) {
                    Some(d)
                } else {
                    Some(m)
                },
            }
        }
    }
}

/// The earliest of the dates of visits that have one.
fn earliest(visits: &Vec<Visit>) -> (r: Option<String>)
    ensures
        opt_text(r) == earliest_date(views(visits@)),
{
    let ghost all = views(visits@);
    let mut best: Option<String> = None;
    let mut i: usize = 0;
    while i < visits.len()
        invariant
            i <= visits.len(),
            all == views(visits@),
            opt_text(best) == earliest_date(all.take(i as int)),
        decreases visits.len() - i,
    {
        assert(all.take(i + 1).drop_last() == all.take(i as int));
        assert(all.take(i + 1).last() == visits@[i as int]@);
        let d = &visits[i].date;
        if !d.as_str().is_empty() {
            let earlier: bool = match &best {
                None => true,
                Some(m) => less(d.as_str(), m.as_str()),
            };
            if earlier {
                best = Some(d.clone());
            }
        }
        i = i + 1;
    }
    assert(all.take(i as int) == all);
    best
}

/// The earliest date is that of a visit, and no dated visit is earlier; there is one unless no
/// visit is dated.
pub proof fn law_earliest_is_earliest(visits: Seq<VisitV>)
    ensures
        match earliest_date(visits) {
            Some(d) => d.len() > 0 && (exists|i: int|
                0 <= i < visits.len() && (#[trigger] visits[i]).date == d) && forall|i: int|
                0 <= i < visits.len() && (#[trigger] visits[i]).date.len() > 0 ==> !comes_before(
                    visits[i].date,
                    d,
                ),
            None => forall|i: int|
                0 <= i < visits.len() ==> (#[trigger] visits[i]).date.len() == 0,
        },
    decreases visits.len(),
{
    if visits.len() > 0 {
        let rest = visits.drop_last();
        let last = visits.last();
        law_earliest_is_earliest(rest);
        assert(visits[visits.len() - 1] == last);
        assert forall|i: int| 0 <= i < rest.len() implies rest[i] == visits[i] by {}
        match earliest_date(rest) {
            Some(m) => {
                let k = choose|k: int| 0 <= k < rest.len() && (#[trigger] rest[k]).date == m;
                assert(visits[k].date == m);
                match earliest_date(visits) {
                    Some(d) => {
                        assert forall|i: int|
                            0 <= i < visits.len() && (#[trigger] visits[i]).date.len()
                                > 0 implies !comes_before(visits[i].date, d) by {
                            lemma_text_order(d, d, d);
                            if i < rest.len() {
                                assert(rest[i] == visits[i]);
                                lemma_text_order(visits[i].date, d, m);
                            }
                            lemma_text_order(last.date, m, m);
                        }
                    },
                    None => {},
                }
            },
            None => {
                assert forall|i: int|
                    0 <= i < visits.len() - 1 implies (#[trigger] visits[i]).date.len() == 0 by {
                    assert(rest[i] == visits[i]);
                }
                lemma_text_order(last.date, last.date, last.date);
            },
        }
    }
}

/// The category that a request for a change gives: a known one, or `null` for none.
pub open spec fn category_member(body: JsonV) -> Result<Option<Seq<char>>, Refusal> {
    match member(body, "category"@) {
        None => Ok(None),
        Some(JsonV::Text(c)) => if category_ok(c) {
            Ok(Some(c))
        } else {
            Err(Refusal::InvalidCategory)
        },
        Some(JsonV::Null) => Ok(Some(Seq::empty())),
        Some(_) => Err(Refusal::InvalidCategory),
    }
}

/// The category that a request for a change gives.
fn parse_category(body: &Json) -> (r: Result<Option<String>, Refusal>)
    ensures
        match r {
            Ok(c) => category_member(body@) == Ok::<Option<Seq<char>>, Refusal>(opt_text(c)),
            Err(e) => category_member(body@) == Err::<Option<Seq<char>>, Refusal>(e),
        },
{
    match body.get("category") {
        None => Ok(None),
        Some(Json::Text(c)) => if is_valid_category(c.as_str()) {
            Ok(Some(c.clone()))
        } else {
            Err(Refusal::InvalidCategory)
        },
        Some(Json::Null) => Ok(Some(String::new())),
        Some(_) => Err(Refusal::InvalidCategory),
    }
}

/// The place that a request asks to add. What is wrong first decides.
pub open spec fn place_of(body: JsonV, stamp: Seq<char>) -> Result<PlaceV, Refusal> {
    let name = trimmed(text_or(body, "name"@, Seq::empty()));
    match (double_member(body, "lat"@), double_member(body, "lng"@)) {
        (Some(lat), Some(lng)) => {
            if name.len() == 0 {
                Err(Refusal::NameRequired)
            } else if !category_ok(text_or(body, "category"@, ""@)) {
                Err(Refusal::InvalidCategory)
            } else {
                Ok(
                    PlaceV {
                        id: "p_"@ + stamp,
                        lng,
                        lat,
                        name,
                        short: if blank(text_or(body, "short"@, Seq::empty())) {
                            name
                        } else {
                            trimmed(text_or(body, "short"@, Seq::empty()))
                        },
                        city: text_or(body, "city"@, Seq::empty()),
                        country: text_or(body, "country"@, Seq::empty()),
                        em: clean_em(text_or(body, "em"@, "📍"@)),
                        date: text_member(body, "date"@),
                        rating: rating_of(uint_member(body, "rating"@)),
                        tags: match tags_member(body) {
                            Some(t) => t,
                            None => Seq::empty(),
                        },
                        feel: text_or(body, "feel"@, Seq::empty()),
                        photos: Seq::empty(),
                        cover: text_member(body, "cover"@),
                        status: if text_member(body, "status"@) == Some("visited"@) {
                            "visited"@
                        } else {
                            "planned"@
                        },
                        trip_id: text_member(body, "tripId"@),
                        visits: Seq::empty(),
                        category: text_or(body, "category"@, ""@),
                        color: None,
                        guide: JsonV::Null,
                    },
                )
            }
        },
        _ => Err(Refusal::LatLngRequired),
    }
}

/// The text of a member, if it is one.
pub fn owned(s: Option<&str>) -> (r: Option<String>)
    ensures
        opt_text(r) == crate::text::opt_str(s),
{
    match s {
        Some(t) => Some(t.to_owned()),
        None => None,
    }
}

/// The place that a request asks to add.
fn read_place(body: &Json, stamp: &str) -> (r: Result<Place, Refusal>)
    ensures
        match r {
            Ok(p) => place_of(body@, stamp@) == Ok::<PlaceV, Refusal>(p@),
            Err(e) => place_of(body@, stamp@) == Err::<PlaceV, Refusal>(e),
        },
{
    proof {
        reveal_strlit("");
        assert(""@ =~= Seq::<char>::empty());
    }
    let name = trim(body.get_str_or("name", ""));
    let (lat, lng): (Double, Double) = match (body.get_double("lat"), body.get_double("lng")) {
        (Some(lat), Some(lng)) => (lat, lng),
        _ => return Err(Refusal::LatLngRequired),
    };
    if name.as_str().is_empty() {
        return Err(Refusal::NameRequired);
    }
    let status: &str = match body.get_str("status") {
        Some(s) => if same(s, "visited") {
            "visited"
        } else {
            "planned"
        },
        None => "planned",
    };
    let category = body.get_str_or("category", "");
    if !is_valid_category(category) {
        return Err(Refusal::InvalidCategory);
    }
    let short = trim(body.get_str_or("short", ""));
    let p = Place {
        id: join2("p_", stamp),
        lng,
        lat,
        short: if short.as_str().is_empty() {
            name.clone()
        } else {
            short
        },
        name,
        city: body.get_str_or("city", "").to_owned(),
        country: body.get_str_or("country", "").to_owned(),
        em: sanitize_em(body.get_str_or("em", "📍")),
        date: owned(body.get_str("date")),
        rating: rating(body.get_u64("rating")),
        tags: match tags_of(body) {
            Some(t) => t,
            None => Vec::new(),
        },
        feel: body.get_str_or("feel", "").to_owned(),
        photos: Vec::new(),
        cover: owned(body.get_str("cover")),
        status: status.to_owned(),
        trip_id: owned(body.get_str("tripId")),
        visits: Vec::new(),
        category: category.to_owned(),
        color: None,
        guide: Json::Null,
    };
    proof {
        assert(p@.photos =~= Seq::empty());
        assert(p@.visits =~= Seq::empty());
        assert(tags_member(body@) is None ==> p@.tags =~= Seq::empty());
        assert(p@ =~= place_of(body@, stamp@)->Ok_0);
    }
    Ok(p)
}

/// The owner adds a place. `stamp` makes its id. Where the answer is a place, the store is to be
/// written.
pub fn create_place(store: &mut Store, owner: bool, body: &Json, stamp: &str) -> (r: Result<
    Place,
    Refusal,
>)
    ensures
        match r {
            Ok(p) => owner && place_of(body@, stamp@) == Ok::<PlaceV, Refusal>(p@) && final(store)@
                == (StoreV { places: old(store)@.places.push(p@), ..old(store)@ }),
            Err(e) => final(store)@ == old(store)@ && if owner {
                place_of(body@, stamp@) == Err::<PlaceV, Refusal>(e)
            } else {
                e == Refusal::Unauthorized
            },
        },
{
    if !owner {
        return Err(Refusal::Unauthorized);
    }
    let p = match read_place(body, stamp) {
        Ok(p) => p,
        Err(e) => return Err(e),
    };
    let ghost before = store@;
    store.places.push(p.copy());
    assert(views(store.places@) =~= before.places.push(p@));
    assert(store@ =~= StoreV { places: before.places.push(p@), ..before });
    Ok(p)
}

/// A text field after a change: the new text, if one is given.
pub open spec fn new_text(body: JsonV, key: Seq<char>, old_text: Seq<char>) -> Seq<char> {
    text_or(body, key, old_text)
}

/// A field that can be taken away: anything that is no text takes it away.
pub open spec fn new_optional(
    body: JsonV,
    key: Seq<char>,
    old_value: Option<Seq<char>>,
) -> Option<Seq<char>> {
    match member(body, key) {
        Some(v) => as_text(v),
        None => old_value,
    }
}

/// A field that can be taken away, after a change.
fn changed_optional(body: &Json, key: &str, old_value: &Option<String>) -> (r: Option<String>)
    ensures
        opt_text(r) == new_optional(body@, key@, opt_text(*old_value)),
{
    match body.get(key) {
        Some(v) => owned(v.as_str()),
        None => crate::text::copy_opt(old_value),
    }
}

/// A name after a change: a blank one changes nothing.
pub open spec fn new_name(body: JsonV, old_name: Seq<char>) -> Seq<char> {
    match text_member(body, "name"@) {
        Some(s) => if blank(s) {
            old_name
        } else {
            trimmed(s)
        },
        None => old_name,
    }
}

/// A name after a change.
pub fn changed_name(body: &Json, old_name: &String) -> (r: String)
    ensures
        r@ == new_name(body@, old_name@),
{
    match body.get_str("name") {
        Some(s) => {
            let t = trim(s);
            if t.as_str().is_empty() {
                old_name.clone()
            } else {
                t
            }
        },
        None => old_name.clone(),
    }
}

/// An emoji field after a change.
pub open spec fn new_em(body: JsonV, old_em: Seq<char>) -> Seq<char> {
    match text_member(body, "em"@) {
        Some(s) => clean_em(s),
        None => old_em,
    }
}

/// An emoji field after a change.
pub fn changed_em(body: &Json, old_em: &String) -> (r: String)
    ensures
        r@ == new_em(body@, old_em@),
{
    match body.get_str("em") {
        Some(s) => sanitize_em(s),
        None => old_em.clone(),
    }
}

/// A status after a change: anything but the two that there are changes nothing.
pub open spec fn new_status(
    body: JsonV,
    one: Seq<char>,
    other: Seq<char>,
    old_status: Seq<char>,
) -> Seq<char> {
    match text_member(body, "status"@) {
        Some(s) => if s == one || s == other {
            s
        } else {
            old_status
        },
        None => old_status,
    }
}

/// A status after a change.
pub fn changed_status(body: &Json, one: &str, other: &str, old_status: &String) -> (r: String)
    ensures
        r@ == new_status(body@, one@, other@, old_status@),
{
    match body.get_str("status") {
        Some(s) => if same(s, one) || same(s, other) {
            s.to_owned()
        } else {
            old_status.clone()
        },
        None => old_status.clone(),
    }
}

/// The notes after a change; `null` takes them away.
pub open spec fn new_guide(body: JsonV, old_guide: JsonV) -> JsonV {
    match member(body, "guide"@) {
        Some(v) => v,
        None => old_guide,
    }
}

/// The notes after a change.
pub fn changed_guide(body: &Json, old_guide: &Json) -> (r: Json)
    ensures
        r@ == new_guide(body@, old_guide@),
{
    match body.get("guide") {
        Some(v) => v.copy(),
        None => old_guide.copy(),
    }
}

/// A place after a change, given the visits and the category that the request gives. New visits
/// bring the date of the place with them: that of the earliest.
pub open spec fn place_changed(
    p: PlaceV,
    body: JsonV,
    visits: Option<Seq<VisitV>>,
    category: Option<Seq<char>>,
) -> PlaceV {
    PlaceV {
        id: p.id,
        lng: match double_member(body, "lng"@) {
            Some(x) => x,
            None => p.lng,
        },
        lat: match double_member(body, "lat"@) {
            Some(x) => x,
            None => p.lat,
        },
        name: new_name(body, p.name),
        short: match text_member(body, "short"@) {
            Some(s) => trimmed(s),
            None => p.short,
        },
        city: new_text(body, "city"@, p.city),
        country: new_text(body, "country"@, p.country),
        em: new_em(body, p.em),
        date: match visits {
            Some(v) => match earliest_date(v) {
                Some(d) => Some(d),
                None => new_optional(body, "date"@, p.date),
            },
            None => new_optional(body, "date"@, p.date),
        },
        rating: match uint_member(body, "rating"@) {
            Some(n) => rating_of(Some(n)),
            None => p.rating,
        },
        tags: match tags_member(body) {
            Some(t) => t,
            None => p.tags,
        },
        feel: new_text(body, "feel"@, p.feel),
        photos: p.photos,
        cover: new_optional(body, "cover"@, p.cover),
        status: new_status(body, "visited"@, "planned"@, p.status),
        trip_id: new_optional(body, "tripId"@, p.trip_id),
        visits: match visits {
            Some(v) => v,
            None => p.visits,
        },
        category: match category {
            Some(c) => c,
            None => p.category,
        },
        color: p.color,
        guide: new_guide(body, p.guide),
    }
}

/// A place after a change.
fn change_place(
    p: &Place,
    body: &Json,
    visits: Option<Vec<Visit>>,
    category: Option<String>,
) -> (r: Place)
    ensures
        r@ == place_changed(p@, body@, opt_views(visits), opt_text(category)),
{
    let ghost given = opt_views(visits);
    let mut q = p.copy();
    q.name = changed_name(body, &p.name);
    match body.get_str("short") {
        Some(s) => {
            q.short = trim(s);
        },
        None => {},
    }
    q.em = changed_em(body, &p.em);
    q.feel = body.get_str_or("feel", p.feel.as_str()).to_owned();
    q.city = body.get_str_or("city", p.city.as_str()).to_owned();
    q.country = body.get_str_or("country", p.country.as_str()).to_owned();
    match body.get_u64("rating") {
        Some(n) => {
            q.rating = rating(Some(n));
        },
        None => {},
    }
    match tags_of(body) {
        Some(t) => {
            q.tags = t;
        },
        None => {},
    }
    match body.get_double("lat") {
        Some(x) => {
            q.lat = x;
        },
        None => {},
    }
    match body.get_double("lng") {
        Some(x) => {
            q.lng = x;
        },
        None => {},
    }
    q.date = changed_optional(body, "date", &p.date);
    q.cover = changed_optional(body, "cover", &p.cover);
    q.trip_id = changed_optional(body, "tripId", &p.trip_id);
    q.status = changed_status(body, "visited", "planned", &p.status);
    match category {
        Some(c) => {
            q.category = c;
        },
        None => {},
    }
    match visits {
        Some(v) => {
            match earliest(&v) {
                Some(d) => {
                    q.date = Some(d);
                },
                None => {},
            }
            q.visits = v;
        },
        None => {},
    }
    q.guide = changed_guide(body, &p.guide);
    assert(q@ =~= place_changed(p@, body@, given, opt_text(category)));
    q
}

/// The place after a change that a request asks for, or what is wrong with the request: the
/// visits, then the category, then the place.
pub open spec fn place_patch(
    s: StoreV,
    id: Seq<char>,
    body: JsonV,
    stamp: Seq<char>,
) -> Result<(int, PlaceV), Refusal> {
    match visits_member(body, stamp) {
        Err(e) => Err(e),
        Ok(visits) => match category_member(body) {
            Err(e) => Err(e),
            Ok(category) => match index_of(place_ids(s.places), id) {
                None => Err(Refusal::PlaceNotFound),
                Some(i) => Ok((i, place_changed(s.places[i], body, visits, category))),
            },
        },
    }
}

/// The owner changes a place. `stamp` makes the ids of new visits. A request with anything wrong
/// in it changes nothing at all. Where the answer is a place, the store is to be written.
pub fn patch_place(
    store: &mut Store,
    owner: bool,
    id: &str,
    body: &Json,
    stamp: &str,
) -> (r: Result<Place, Refusal>)
    ensures
        match r {
            Ok(p) => {
                &&& owner
                &&& place_patch(old(store)@, id@, body@, stamp@) matches Ok((i, q))
                &&& p@ == q
                &&& final(store)@ == (StoreV {
                    places: old(store)@.places.update(i, q),
                    ..old(store)@
                })
                &&& 0 <= i < old(store)@.places.len() && old(store)@.places[i].id == id@
                &&& p@.id == old(store)@.places[i].id
                &&& p@.photos == old(store)@.places[i].photos
                &&& p@.color == old(store)@.places[i].color
                &&& match member(body@, "name"@) {
                    Some(JsonV::Text(s)) => p@.name == if trimmed(s).len() > 0 {
                        trimmed(s)
                    } else {
                        old(store)@.places[i].name
                    },
                    _ => p@.name == old(store)@.places[i].name,
                }
                &&& match member(body@, "short"@) {
                    Some(JsonV::Text(s)) => p@.short == trimmed(s),
                    _ => p@.short == old(store)@.places[i].short,
                }
                &&& match member(body@, "city"@) {
                    Some(JsonV::Text(s)) => p@.city == s,
                    _ => p@.city == old(store)@.places[i].city,
                }
                &&& match member(body@, "country"@) {
                    Some(JsonV::Text(s)) => p@.country == s,
                    _ => p@.country == old(store)@.places[i].country,
                }
                &&& match member(body@, "feel"@) {
                    Some(JsonV::Text(s)) => p@.feel == s,
                    _ => p@.feel == old(store)@.places[i].feel,
                }
                &&& match member(body@, "em"@) {
                    Some(JsonV::Text(s)) => p@.em == clean_em(s),
                    _ => p@.em == old(store)@.places[i].em,
                }
                &&& match member(body@, "cover"@) {
                    None => p@.cover == old(store)@.places[i].cover,
                    Some(JsonV::Text(s)) => p@.cover == Some(s),
                    Some(_) => p@.cover is None,
                }
                &&& match member(body@, "tripId"@) {
                    None => p@.trip_id == old(store)@.places[i].trip_id,
                    Some(JsonV::Text(s)) => p@.trip_id == Some(s),
                    Some(_) => p@.trip_id is None,
                }
                &&& member(body@, "status"@) == Some(JsonV::Text("visited"@))
                    ==> p@.status == "visited"@
                &&& member(body@, "status"@) == Some(JsonV::Text("planned"@))
                    ==> p@.status == "planned"@
                &&& member(body@, "status"@) != Some(JsonV::Text("visited"@))
                    && member(body@, "status"@) != Some(
                    JsonV::Text("planned"@),
                ) ==> p@.status == old(store)@.places[i].status
                &&& match member(body@, "lat"@) {
                    Some(JsonV::Number(n)) => p@.lat == n.double,
                    _ => p@.lat == old(store)@.places[i].lat,
                }
                &&& match member(body@, "lng"@) {
                    Some(JsonV::Number(n)) => p@.lng == n.double,
                    _ => p@.lng == old(store)@.places[i].lng,
                }
                &&& match member(body@, "rating"@) {
                    Some(JsonV::Number(n)) => match n.unsigned {
                        Some(k) => p@.rating == if k <= 5 {
                            k
                        } else {
                            5
                        },
                        None => p@.rating == old(store)@.places[i].rating,
                    },
                    _ => p@.rating == old(store)@.places[i].rating,
                }
                &&& match member(body@, "tags"@) {
                    Some(JsonV::Array(items)) => (forall|i: int| 0 <= i < items.len()
                        ==> #[trigger] items[i] is Text)
                        ==> p@.tags.len() == items.len() && forall|i: int|
                        0 <= i < items.len() ==> #[trigger] items[i] == JsonV::Text(p@.tags[i]),
                    _ => p@.tags == old(store)@.places[i].tags,
                }
                &&& match member(body@, "category"@) {
                    None => p@.category == old(store)@.places[i].category,
                    Some(JsonV::Text(s)) => p@.category == s,
                    _ => p@.category.len() == 0,
                }
                &&& match member(body@, "guide"@) {
                    None => p@.guide == old(store)@.places[i].guide,
                    Some(g) => p@.guide == g,
                }
                &&& match member(body@, "visits"@) {
                    Some(JsonV::Array(items)) => {
                        &&& p@.visits.len() == items.len()
                        &&& forall|i: int|
                            0 <= i < items.len() ==> {
                                &&& (#[trigger] p@.visits[i]).date == text_or(items[i], "date"@, Seq::empty())
                                &&& p@.visits[i].note == text_or(items[i], "note"@, Seq::empty())
                            }
                        &&& forall|i: int|
                            0 <= i < items.len() && (#[trigger] p@.visits[i]).date.len() > 0 ==> {
                                &&& p@.date matches Some(d)
                                &&& !comes_before(p@.visits[i].date, d)
                            }
                    },
                    _ => {
                        &&& p@.visits == old(store)@.places[i].visits
                        &&& match member(body@, "date"@) {
                            None => p@.date == old(store)@.places[i].date,
                            Some(JsonV::Text(s)) => p@.date == Some(s),
                            Some(_) => p@.date is None,
                        }
                    },
                }
            },
            Err(e) => final(store)@ == old(store)@ && if owner {
                place_patch(old(store)@, id@, body@, stamp@) == Err::<(int, PlaceV), Refusal>(e)
            } else {
                e == Refusal::Unauthorized
            },
        },
{
    if !owner {
        return Err(Refusal::Unauthorized);
    }
    let visits = match parse_visits(body, stamp) {
        Ok(v) => v,
        Err(e) => return Err(e),
    };
    let category = match parse_category(body) {
        Ok(c) => c,
        Err(e) => return Err(e),
    };
    let i: usize = match find_place(&store.places, id) {
        Some(i) => i,
        None => return Err(Refusal::PlaceNotFound),
    };
    let ghost before = store@;
    let p = change_place(&store.places[i], body, visits, category);
    assert(before.places[i as int] == store.places@[i as int]@);
    let q = p.copy();
    proof {
        law_members_become_fields(before, id@, body@, stamp@);
        lemma_index_of(place_ids(before.places), id@);
    }
    store.places.set(i, p);
    assert(views(store.places@) =~= before.places.update(i as int, q@));
    assert(store@ =~= StoreV { places: before.places.update(i as int, q@), ..before });
    Ok(q)
}

/// Asking for the same change twice is asking for it once.
pub proof fn law_change_is_idempotent(
    p: PlaceV,
    body: JsonV,
    visits: Option<Seq<VisitV>>,
    category: Option<Seq<char>>,
)
    ensures
        place_changed(place_changed(p, body, visits, category), body, visits, category)
            == place_changed(p, body, visits, category),
{
}

/// A request that names no field changes nothing, and none ever changes the id or the photographs
/// of a place.
pub proof fn law_change_is_confined(
    p: PlaceV,
    body: JsonV,
    visits: Option<Seq<VisitV>>,
    category: Option<Seq<char>>,
)
    ensures
        place_changed(p, body, visits, category).id == p.id,
        place_changed(p, body, visits, category).photos == p.photos,
        place_changed(p, body, visits, category).color == p.color,
        place_changed(p, JsonV::Object(Seq::empty()), None, None) == p,
{
    assert(place_changed(p, JsonV::Object(Seq::empty()), None, None) =~= p);
}

/// A rating never exceeds five, and a category is always one of those there are.
pub proof fn law_new_places_are_valid(body: JsonV, stamp: Seq<char>)
    ensures
        place_of(body, stamp) matches Ok(p) ==> p.rating <= 5 && category_ok(p.category)
            && p.name.len() > 0 && (p.status == "visited"@ || p.status == "planned"@),
{
}

/// The owner removes a place. The answer is the ids of its photographs, whose files are to be
/// removed once the store is written.
pub fn delete_place(store: &mut Store, owner: bool, id: &str) -> (r: Result<Vec<String>, Refusal>)
    ensures
        match r {
            Ok(gone) => {
                &&& owner
                &&& index_of(place_ids(old(store)@.places), id@) matches Some(i)
                &&& views(gone@) == photo_ids(old(store)@.places[i].photos)
                &&& final(store)@ == (StoreV {
                    places: old(store)@.places.remove(i),
                    ..old(store)@
                })
            },
            Err(e) => final(store)@ == old(store)@ && if owner {
                e == Refusal::PlaceNotFound && index_of(place_ids(old(store)@.places), id@) is None
            } else {
                e == Refusal::Unauthorized
            },
        },
{
    if !owner {
        return Err(Refusal::Unauthorized);
    }
    let i: usize = match find_place(&store.places, id) {
        Some(i) => i,
        None => return Err(Refusal::PlaceNotFound),
    };
    let ghost before = store@;
    let removed = store.places.remove(i);
    assert(before.places[i as int] == removed@);
    assert(views(store.places@) =~= before.places.remove(i as int));
    assert(store@ =~= StoreV { places: before.places.remove(i as int), ..before });
    Ok(ids_of_photos(&removed.photos))
}

/// The ids of photographs.
fn ids_of_photos(v: &Vec<Photo>) -> (r: Vec<String>)
    ensures
        views(r@) == photo_ids(views(v@)),
{
    let mut out: Vec<String> = Vec::new();
    let mut i: usize = 0;
    while i < v.len()
        invariant
            i <= v.len(),
            out@.len() == i,
            forall|k: int| 0 <= k < i ==> (#[trigger] out@[k])@ == v@[k].id@,
        decreases v.len() - i,
    {
        out.push(v[i].id.clone());
        i = i + 1;
    }
    assert(views(out@) =~= photo_ids(views(v@)));
    out
}

/// Removing a place that was just added under a new id gives back the places there were.
pub proof fn law_delete_undoes_create(places: Seq<PlaceV>, p: PlaceV)
    requires
        !place_ids(places).contains(p.id),
    ensures
        index_of(place_ids(places.push(p)), p.id) == Some(places.len() as int),
        places.push(p).remove(places.len() as int) == places,
{
    let ids = place_ids(places.push(p));
    let n = places.len() as int;
    lemma_index_of(ids, p.id);
    assert(ids[n] == p.id);
    assert(ids.contains(p.id));
    match index_of(ids, p.id) {
        Some(k) => {
            if k < n {
                assert(place_ids(places)[k] == p.id);
            }
        },
        None => {},
    }
    assert(places.push(p).remove(n) =~= places);
}

/// A place without one of its photographs; a cover that showed it is taken away too.
pub open spec fn without_photo(p: PlaceV, k: int) -> PlaceV {
    let gone = p.photos[k];
    PlaceV {
        photos: p.photos.remove(k),
        cover: if p.cover == Some(gone.url) || p.cover == Some(gone.thumb) {
            None
        } else {
            p.cover
        },
        ..p
    }
}

/// The owner removes a photograph from a place. The answer is the place, and the id of the
/// photograph, whose files are to be removed once the store is written.
pub fn delete_place_photo(store: &mut Store, owner: bool, id: &str, photo_id: &str) -> (r: Result<
    (Place, String),
    Refusal,
>)
    ensures
        match r {
            Ok((p, gone)) => {
                &&& owner
                &&& index_of(place_ids(old(store)@.places), id@) matches Some(i)
                &&& index_of(photo_ids(old(store)@.places[i].photos), photo_id@) matches Some(k)
                &&& gone@ == photo_id@
                &&& p@ == without_photo(old(store)@.places[i], k)
                &&& final(store)@ == (StoreV {
                    places: old(store)@.places.update(i, p@),
                    ..old(store)@
                })
            },
            Err(e) => final(store)@ == old(store)@ && if !owner {
                e == Refusal::Unauthorized
            } else {
                match index_of(place_ids(old(store)@.places), id@) {
                    None => e == Refusal::PlaceNotFound,
                    Some(i) => e == Refusal::PhotoNotFound && index_of(
                        photo_ids(old(store)@.places[i].photos),
                        photo_id@,
                    ) is None,
                }
            },
        },
{
    if !owner {
        return Err(Refusal::Unauthorized);
    }
    let i: usize = match find_place(&store.places, id) {
        Some(i) => i,
        None => return Err(Refusal::PlaceNotFound),
    };
    let ghost before = store@;
    assert(before.places[i as int] == store.places@[i as int]@);
    let k: usize = match find_photo(&store.places[i].photos, photo_id) {
        Some(k) => k,
        None => return Err(Refusal::PhotoNotFound),
    };
    let mut p = store.places[i].copy();
    let ghost whole = p@;
    let removed = p.photos.remove(k);
    assert(whole.photos[k as int] == removed@);
    assert(views(p.photos@) =~= whole.photos.remove(k as int));
    if opt_is(&p.cover, removed.url.as_str()) || opt_is(&p.cover, removed.thumb.as_str()) {
        p.cover = None;
    }
    assert(p@ =~= without_photo(whole, k as int));
    let q = p.copy();
    store.places.set(i, p);
    assert(views(store.places@) =~= before.places.update(i as int, q@));
    assert(store@ =~= StoreV { places: before.places.update(i as int, q@), ..before });
    Ok((q, removed.id))
}

/// A photograph that was removed from a place is not its cover, and the other photographs stay.
pub proof fn law_removed_photos_are_no_cover(p: PlaceV, k: int)
    requires
        0 <= k < p.photos.len(),
    ensures
        without_photo(p, k).cover != Some(p.photos[k].url),
        without_photo(p, k).cover != Some(p.photos[k].thumb),
        without_photo(p, k).photos.len() == p.photos.len() - 1,
        forall|j: int|
            0 <= j < p.photos.len() && j != k ==> without_photo(p, k).photos.contains(
                #[trigger] p.photos[j],
            ),
{
    let left = without_photo(p, k).photos;
    assert forall|j: int| 0 <= j < p.photos.len() && j != k implies left.contains(
        #[trigger] p.photos[j],
    ) by {
        if j < k {
            assert(left[j] == p.photos[j]);
        } else {
            assert(left[j - 1] == p.photos[j]);
        }
    }
}

/// A member of a request that names a field and has an admissible value is what that field holds
/// after the change; a field that no member names, or one with another value, stays as it was.
pub proof fn law_members_become_fields(s: StoreV, id: Seq<char>, body: JsonV, stamp: Seq<char>)
    ensures
        place_patch(s, id, body, stamp) matches Ok((at, q)) ==> {
            let p = s.places[at];
            &&& q.id == p.id
            &&& q.photos == p.photos
            &&& q.color == p.color
            &&& match member(body, "name"@) {
                Some(JsonV::Text(s)) => q.name == if trimmed(s).len() > 0 {
                    trimmed(s)
                } else {
                    p.name
                },
                _ => q.name == p.name,
            }
            &&& match member(body, "short"@) {
                Some(JsonV::Text(s)) => q.short == trimmed(s),
                _ => q.short == p.short,
            }
            &&& match member(body, "city"@) {
                Some(JsonV::Text(s)) => q.city == s,
                _ => q.city == p.city,
            }
            &&& match member(body, "country"@) {
                Some(JsonV::Text(s)) => q.country == s,
                _ => q.country == p.country,
            }
            &&& match member(body, "feel"@) {
                Some(JsonV::Text(s)) => q.feel == s,
                _ => q.feel == p.feel,
            }
            &&& match member(body, "em"@) {
                Some(JsonV::Text(s)) => q.em == clean_em(s),
                _ => q.em == p.em,
            }
            &&& match member(body, "cover"@) {
                None => q.cover == p.cover,
                Some(JsonV::Text(s)) => q.cover == Some(s),
                Some(_) => q.cover is None,
            }
            &&& match member(body, "tripId"@) {
                None => q.trip_id == p.trip_id,
                Some(JsonV::Text(s)) => q.trip_id == Some(s),
                Some(_) => q.trip_id is None,
            }
            &&& member(body, "status"@) == Some(JsonV::Text("visited"@)) ==> q.status == "visited"@
            &&& member(body, "status"@) == Some(JsonV::Text("planned"@)) ==> q.status == "planned"@
            &&& member(body, "status"@) != Some(JsonV::Text("visited"@))
                && member(body, "status"@) != Some(
                JsonV::Text("planned"@),
            ) ==> q.status == p.status
            &&& match member(body, "lat"@) {
                Some(JsonV::Number(n)) => q.lat == n.double,
                _ => q.lat == p.lat,
            }
            &&& match member(body, "lng"@) {
                Some(JsonV::Number(n)) => q.lng == n.double,
                _ => q.lng == p.lng,
            }
            &&& match member(body, "rating"@) {
                Some(JsonV::Number(n)) => match n.unsigned {
                    Some(k) => q.rating == if k <= 5 {
                        k
                    } else {
                        5
                    },
                    None => q.rating == p.rating,
                },
                _ => q.rating == p.rating,
            }
            &&& match member(body, "tags"@) {
                Some(JsonV::Array(items)) => (forall|i: int| 0 <= i < items.len()
                    ==> #[trigger] items[i] is Text)
                    ==> q.tags.len() == items.len() && forall|i: int|
                    0 <= i < items.len() ==> #[trigger] items[i] == JsonV::Text(q.tags[i]),
                _ => q.tags == p.tags,
            }
            &&& match member(body, "category"@) {
                None => q.category == p.category,
                Some(JsonV::Text(s)) => q.category == s,
                _ => q.category.len() == 0,
            }
            &&& match member(body, "guide"@) {
                None => q.guide == p.guide,
                Some(g) => q.guide == g,
            }
            &&& match member(body, "visits"@) {
                Some(JsonV::Array(items)) => {
                    &&& q.visits.len() == items.len()
                    &&& forall|i: int|
                        0 <= i < items.len() ==> {
                            &&& (#[trigger] q.visits[i]).date == text_or(items[i], "date"@, Seq::empty())
                            &&& q.visits[i].note == text_or(items[i], "note"@, Seq::empty())
                        }
                    &&& forall|i: int|
                        0 <= i < items.len() && (#[trigger] q.visits[i]).date.len() > 0 ==> {
                            &&& q.date matches Some(d)
                            &&& !comes_before(q.visits[i].date, d)
                        }
                },
                _ => {
                    &&& q.visits == p.visits
                    &&& match member(body, "date"@) {
                        None => q.date == p.date,
                        Some(JsonV::Text(s)) => q.date == Some(s),
                        Some(_) => q.date is None,
                    }
                },
            }
        },
{
    if let Ok((at, q)) = place_patch(s, id, body, stamp) {
        if let Some(JsonV::Array(items)) = member(body, "tags"@) {
            lemma_all_texts(items);
        }
        if let Some(JsonV::Array(items)) = member(body, "visits"@) {
            assert forall|i: int| 0 <= i < items.len() implies {
                &&& (#[trigger] q.visits[i]).date == text_or(items[i], "date"@, Seq::empty())
                &&& q.visits[i].note == text_or(items[i], "note"@, Seq::empty())
            } by {
                lemma_visit_at(items, stamp, i);
            }
            lemma_visits_len(items, stamp);
            law_earliest_is_earliest(q.visits);
        }
    }
}

/// Where all elements of a list are texts, they are the texts among them.
proof fn lemma_all_texts(items: Seq<JsonV>)
    ensures
        (forall|i: int| 0 <= i < items.len() ==> #[trigger] items[i] is Text) ==> texts_among(
            items,
        ).len() == items.len() && forall|i: int|
            0 <= i < items.len() ==> #[trigger] items[i] == JsonV::Text(texts_among(items)[i]),
    decreases items.len(),
{
    if items.len() > 0 && (forall|i: int| 0 <= i < items.len() ==> #[trigger] items[i] is Text) {
        let rest = items.drop_last();
        assert forall|i: int| 0 <= i < rest.len() implies #[trigger] rest[i] is Text by {
            assert(rest[i] == items[i]);
        }
        lemma_all_texts(rest);
        assert forall|i: int| 0 <= i < items.len() implies #[trigger] items[i] == JsonV::Text(
            texts_among(items)[i],
        ) by {
            if i < rest.len() {
                assert(rest[i] == items[i]);
            }
        }
    }
}

/// There are as many visits as elements.
proof fn lemma_visits_len(items: Seq<JsonV>, stamp: Seq<char>)
    ensures
        visits_of(items, stamp) matches Ok(v) ==> v.len() == items.len(),
    decreases items.len(),
{
    if items.len() > 0 {
        lemma_visits_len(items.drop_last(), stamp);
    }
}

/// Each visit is made from the element at its own place.
proof fn lemma_visit_at(items: Seq<JsonV>, stamp: Seq<char>, i: int)
    requires
        0 <= i < items.len(),
    ensures
        visits_of(items, stamp) matches Ok(v) ==> v.len() == items.len() && visit_of(
            items[i],
            stamp,
            i as nat,
        ) == Ok::<VisitV, Refusal>(v[i]),
    decreases items.len(),
{
    lemma_visits_len(items, stamp);
    lemma_visits_len(items.drop_last(), stamp);
    if i < items.len() - 1 {
        lemma_visit_at(items.drop_last(), stamp, i);
        assert(items.drop_last()[i] == items[i]);
    }
}

/// Of a list of tags the texts are kept, in their order, and nothing else.
pub proof fn law_texts_are_kept(front: Seq<JsonV>, item: JsonV)
    ensures
        item matches JsonV::Text(s) ==> texts_among(front.push(item)) == texts_among(front).push(s),
        item !is Text ==> texts_among(front.push(item)) == texts_among(front),
        texts_among(Seq::empty()).len() == 0,
{
    assert(front.push(item).drop_last() =~= front);
}

/// A visit has the date and the note that its entry gives, its rating up to five, and its id; an
/// entry without an id gets one from the moment and its number.
pub proof fn law_visits_say_what_their_entries_say(
    items: Seq<JsonV>,
    stamp: Seq<char>,
    body: JsonV,
    i: int,
)
    requires
        member(body, "visits"@) == Some(JsonV::Array(items)),
        0 <= i < items.len(),
    ensures
        visits_member(body, stamp) matches Ok(given) ==> {
            &&& given matches Some(v)
            &&& v.len() == items.len()
            &&& items[i] is Object
            &&& v[i].date == text_or(items[i], "date"@, Seq::empty())
            &&& v[i].note == text_or(items[i], "note"@, Seq::empty())
            &&& match uint_member(items[i], "rating"@) {
                None => v[i].rating == 0,
                Some(n) => v[i].rating == if n <= 5 {
                    n
                } else {
                    5
                },
            }
            &&& match text_member(items[i], "id"@) {
                Some(s) => if trimmed(s).len() > 0 {
                    v[i].id == s
                } else {
                    v[i].id == "v_"@ + stamp + "_"@ + crate::codes::decimal(i as nat)
                },
                None => v[i].id == "v_"@ + stamp + "_"@ + crate::codes::decimal(i as nat),
            }
        },
{
    lemma_visit_at(items, stamp, i);
}

/// Visits are refused for one that is no object, or whose date or note is neither a text nor `null`;
/// the first wrong one decides. All others are taken.
pub proof fn law_refused_visits(items: Seq<JsonV>, stamp: Seq<char>, body: JsonV, i: int)
    requires
        member(body, "visits"@) == Some(JsonV::Array(items)),
        0 <= i <= items.len(),
        forall|j: int|
            0 <= j < i ==> {
                let date = member(#[trigger] items[j], "date"@);
                let note = member(items[j], "note"@);
                &&& items[j] is Object
                &&& date is None || date == Some(JsonV::Null) || date->0 is Text
                &&& note is None || note == Some(JsonV::Null) || note->0 is Text
            },
    ensures
        i == items.len() ==> visits_member(body, stamp) is Ok,
        i < items.len() ==> {
            let date = member(items[i], "date"@);
            let note = member(items[i], "note"@);
            let bad_date = !(date is None || date == Some(JsonV::Null) || date->0 is Text);
            let bad_note = !(note is None || note == Some(JsonV::Null) || note->0 is Text);
            let r = visits_member(body, stamp);
            &&& items[i] !is Object ==> r == Err::<Option<Seq<VisitV>>, Refusal>(
                Refusal::VisitNotObject,
            )
            &&& items[i] is Object && bad_date ==> r == Err::<Option<Seq<VisitV>>, Refusal>(
                Refusal::VisitDateNotText,
            )
            &&& items[i] is Object && !bad_date && bad_note ==> r == Err::<
                Option<Seq<VisitV>>,
                Refusal,
            >(Refusal::VisitNoteNotText)
        },
{
    lemma_good_visits(items, stamp, i);
    if i < items.len() {
        let r = visit_of(items[i], stamp, i as nat);
        if r is Err {
            let some = items.take(i + 1);
            assert(some.drop_last() =~= items.take(i));
            assert(some.last() == items[i]);
            lemma_visits_err(items, stamp, i + 1, r->Err_0);
        }
    } else {
        assert(items.take(i) =~= items);
    }
}

/// Good entries are read.
proof fn lemma_good_visits(items: Seq<JsonV>, stamp: Seq<char>, i: int)
    requires
        0 <= i <= items.len(),
        forall|j: int|
            0 <= j < i ==> {
                let date = member(#[trigger] items[j], "date"@);
                let note = member(items[j], "note"@);
                &&& items[j] is Object
                &&& date is None || date == Some(JsonV::Null) || date->0 is Text
                &&& note is None || note == Some(JsonV::Null) || note->0 is Text
            },
    ensures
        visits_of(items.take(i), stamp) is Ok,
    decreases i,
{
    if i > 0 {
        lemma_good_visits(items, stamp, i - 1);
        let some = items.take(i);
        assert(some.drop_last() =~= items.take(i - 1));
        assert(some.last() == items[i - 1]);
    }
}

/// A change is refused for visits that are no list, then for a category that is none, then where
/// there is no such place; and for nothing else.
pub proof fn law_refused_changes(s: StoreV, id: Seq<char>, body: JsonV, stamp: Seq<char>)
    ensures
        ({
            let r = place_patch(s, id, body, stamp);
            let visits = member(body, "visits"@);
            let category = member(body, "category"@);
            let fits = category is None || category == Some(JsonV::Null)
                || (category->0 matches JsonV::Text(
                c,
            ) && category_ok(c));
            let known = exists|i: int| 0 <= i < s.places.len() && (#[trigger] s.places[i]).id == id;
            &&& visits is Some && visits->0 !is Array ==> r == Err::<(int, PlaceV), Refusal>(
                Refusal::VisitsNotArray,
            )
            &&& visits is None && !fits ==> r == Err::<(int, PlaceV), Refusal>(
                Refusal::InvalidCategory,
            )
            &&& visits is None && fits && !known ==> r == Err::<(int, PlaceV), Refusal>(
                Refusal::PlaceNotFound,
            )
            &&& visits is None && fits && known ==> r is Ok
            &&& r is Ok ==> known && fits
        }),
{
    let ids = place_ids(s.places);
    lemma_index_of(ids, id);
    assert forall|i: int| 0 <= i < s.places.len() && (#[trigger] s.places[i]).id == id implies
        ids.contains(id) by {
        assert(ids[i] == id);
    }
    if index_of(ids, id) is Some {
        let k = index_of(ids, id)->0;
        assert(s.places[k].id == id);
    }
}

/// A new place holds what the request says of it, member by member; what it does not say is empty,
/// and a place is planned unless it says that it was visited.
pub proof fn law_new_places_say_what_was_asked(body: JsonV, stamp: Seq<char>)
    ensures
        place_of(body, stamp) matches Ok(p) ==> {
            &&& p.id == "p_"@ + stamp
            &&& member(body, "lat"@) matches Some(JsonV::Number(n)) && p.lat == n.double
            &&& member(body, "lng"@) matches Some(JsonV::Number(n)) && p.lng == n.double
            &&& member(body, "name"@) matches Some(JsonV::Text(n)) && p.name == trimmed(n)
            &&& match member(body, "short"@) {
                Some(JsonV::Text(s)) => p.short == if trimmed(s).len() > 0 {
                    trimmed(s)
                } else {
                    p.name
                },
                _ => p.short == p.name,
            }
            &&& match member(body, "city"@) {
                Some(JsonV::Text(s)) => p.city == s,
                _ => p.city.len() == 0,
            }
            &&& match member(body, "country"@) {
                Some(JsonV::Text(s)) => p.country == s,
                _ => p.country.len() == 0,
            }
            &&& match member(body, "feel"@) {
                Some(JsonV::Text(s)) => p.feel == s,
                _ => p.feel.len() == 0,
            }
            &&& match member(body, "category"@) {
                Some(JsonV::Text(s)) => p.category == s,
                _ => p.category.len() == 0,
            }
            &&& match member(body, "date"@) {
                Some(JsonV::Text(s)) => p.date == Some(s),
                _ => p.date is None,
            }
            &&& match member(body, "cover"@) {
                Some(JsonV::Text(s)) => p.cover == Some(s),
                _ => p.cover is None,
            }
            &&& match member(body, "tripId"@) {
                Some(JsonV::Text(s)) => p.trip_id == Some(s),
                _ => p.trip_id is None,
            }
            &&& match member(body, "em"@) {
                Some(JsonV::Text(s)) => p.em == clean_em(s),
                _ => p.em == clean_em("📍"@),
            }
            &&& match uint_member(body, "rating"@) {
                Some(n) => p.rating == if n <= 5 {
                    n
                } else {
                    5
                },
                None => p.rating == 0,
            }
            &&& member(body, "status"@) == Some(JsonV::Text("visited"@)) ==> p.status == "visited"@
            &&& member(body, "status"@) != Some(JsonV::Text("visited"@)) ==> p.status == "planned"@
            &&& match member(body, "tags"@) {
                Some(JsonV::Array(items)) => p.tags == texts_among(items),
                _ => p.tags.len() == 0,
            }
            &&& p.photos.len() == 0 && p.visits.len() == 0 && p.color is None && p.guide is Null
        },
{
    reveal_strlit("");
    let name = trimmed(text_or(body, "name"@, Seq::empty()));
    if text_member(body, "name"@) is None {
        crate::text::law_trimming(Seq::empty(), ' ');
    }
    crate::text::law_trimming(Seq::empty(), ' ');
}

/// A place is refused without a position, then without a name, then with a category that is none;
/// and for nothing else.
pub proof fn law_refused_places(body: JsonV, stamp: Seq<char>)
    ensures
        ({
            let r = place_of(body, stamp);
            let at = member(body, "lat"@) matches Some(JsonV::Number(_))
                && member(body, "lng"@) matches Some(
                JsonV::Number(_),
            );
            let named = text_member(body, "name"@) matches Some(n) && trimmed(n).len() > 0;
            let fits = text_member(body, "category"@) matches Some(c) ==> category_ok(c);
            &&& !at ==> r == Err::<PlaceV, Refusal>(Refusal::LatLngRequired)
            &&& at && !named ==> r == Err::<PlaceV, Refusal>(Refusal::NameRequired)
            &&& at && named && !fits ==> r == Err::<PlaceV, Refusal>(Refusal::InvalidCategory)
            &&& at && named && fits ==> r is Ok
        }),
{
    crate::text::law_trimming(Seq::empty(), ' ');
}

/// A place that loses a photograph keeps everything else; its cover goes only if it showed that
/// photograph.
pub proof fn law_losing_a_photo(p: PlaceV, k: int)
    requires
        0 <= k < p.photos.len(),
    ensures
        ({
            let q = without_photo(p, k);
            &&& p.cover != Some(p.photos[k].url) && p.cover != Some(p.photos[k].thumb) ==> q.cover
                == p.cover
            &&& forall|j: int|
                0 <= j < q.photos.len() ==> #[trigger] q.photos[j] == p.photos[if j < k {
                    j
                } else {
                    j + 1
                }]
            &&& q.id == p.id
            &&& q.lng == p.lng
            &&& q.lat == p.lat
            &&& q.name == p.name
            &&& q.short == p.short
            &&& q.city == p.city
            &&& q.country == p.country
            &&& q.em == p.em
            &&& q.date == p.date
            &&& q.rating == p.rating
            &&& q.tags == p.tags
            &&& q.feel == p.feel
            &&& q.status == p.status
            &&& q.trip_id == p.trip_id
            &&& q.visits == p.visits
            &&& q.category == p.category
            &&& q.color == p.color
            &&& q.guide == p.guide
        }),
{
}

} // verus!
