//! The trips that places are grouped into.

use vstd::prelude::*;
use crate::json::{
    elements, lemma_array, member, opt_views, text_member, text_or, true_member, views, Duplicate,
    Json, JsonV,
};
use crate::model::{
    find_trip, index_of, lemma_index_of, trip_ids, ChecklistItem, ChecklistItemV, Place, PlaceV,
    Store, StoreV, Trip, TripV,
};
use crate::names::{clean_em, sanitize_em};
use crate::places::{
    changed_em, changed_guide, changed_name, changed_status, entry_id, new_em, new_guide, new_name,
    new_status, new_text, read_entry_id, read_text_or_null, text_or_null,
};
use crate::reply::Refusal;
use crate::text::{join2, opt_is, same, trim, trimmed};

verus! {

/// One line of a checklist, as a request gives it.
pub open spec fn line_of(item: JsonV, stamp: Seq<char>, i: nat) -> Result<ChecklistItemV, Refusal> {
    if item !is Object {
        Err(Refusal::ChecklistNotObject)
    } else {
        match text_or_null(member(item, "text"@), Refusal::ChecklistTextNotText) {
            Err(e) => Err(e),
            Ok(text) => Ok(
                ChecklistItemV {
                    id: entry_id(item, "c_"@, stamp, i),
                    text,
                    done: true_member(item, "done"@),
                },
            ),
        }
    }
}

/// One line of a checklist, as a request gives it.
fn read_line(item: &Json, stamp: &str, i: usize) -> (r: Result<ChecklistItem, Refusal>)
    ensures
        match r {
            Ok(v) => line_of(item@, stamp@, i as nat) == Ok::<ChecklistItemV, Refusal>(v@),
            Err(e) => line_of(item@, stamp@, i as nat) == Err::<ChecklistItemV, Refusal>(e),
        },
{
    match item {
        Json::Object(_) => {},
        _ => return Err(Refusal::ChecklistNotObject),
    }
    let text = match read_text_or_null(item.get("text"), Refusal::ChecklistTextNotText) {
        Ok(s) => s,
        Err(e) => return Err(e),
    };
    Ok(
        ChecklistItem {
            id: read_entry_id(item, "c_", stamp, i),
            text,
            done: item.get_true("done"),
        },
    )
}

/// The lines of a checklist; the first that is wrong decides.
pub open spec fn lines_of(items: Seq<JsonV>, stamp: Seq<char>) -> Result<
    Seq<ChecklistItemV>,
    Refusal,
>
    decreases items.len(),
{
    if items.len() == 0 {
        Ok(Seq::empty())
    } else {
        match lines_of(items.drop_last(), stamp) {
            Err(e) => Err(e),
            Ok(v) => match line_of(items.last(), stamp, (items.len() - 1) as nat) {
                Err(e) => Err(e),
                Ok(x) => Ok(v.push(x)),
            },
        }
    }
}

/// The checklist that a request gives, if it gives one.
pub open spec fn checklist_member(body: JsonV, stamp: Seq<char>) -> Result<
    Option<Seq<ChecklistItemV>>,
    Refusal,
> {
    match member(body, "checklist"@) {
        None => Ok(None),
        Some(JsonV::Array(items)) => match lines_of(items, stamp) {
            Ok(v) => Ok(Some(v)),
            Err(e) => Err(e),
        },
        Some(_) => Err(Refusal::ChecklistNotArray),
    }
}

/// A list that goes wrong stays wrong, however it goes on.
proof fn lemma_lines_err(items: Seq<JsonV>, stamp: Seq<char>, i: int, e: Refusal)
    requires
        0 <= i <= items.len(),
        lines_of(items.take(i), stamp) == Err::<Seq<ChecklistItemV>, Refusal>(e),
    ensures
        lines_of(items, stamp) == Err::<Seq<ChecklistItemV>, Refusal>(e),
    decreases items.len() - i,
{
    if i == items.len() {
        assert(items.take(i) == items);
    } else {
        assert(items.take(i + 1).drop_last() == items.take(i));
        lemma_lines_err(items, stamp, i + 1, e);
    }
}

/// The checklist that a request gives.
pub fn parse_checklist(body: &Json, stamp: &str) -> (r: Result<Option<Vec<ChecklistItem>>, Refusal>)
    ensures
        match r {
            Ok(v) => checklist_member(body@, stamp@) == Ok::<Option<Seq<ChecklistItemV>>, Refusal>(
                opt_views(v),
            ),
            Err(e) => checklist_member(body@, stamp@) == Err::<
                Option<Seq<ChecklistItemV>>,
                Refusal,
            >(e),
        },
{
    match body.get("checklist") {
        None => Ok(None),
        Some(Json::Array(v)) => {
            proof {
                lemma_array(*v);
            }
            let ghost items = elements(v@);
            let mut out: Vec<ChecklistItem> = Vec::new();
            assert(views(out@) =~= Seq::empty());
            let mut i: usize = 0;
            while i < v.len()
                invariant
                    i <= v.len(),
                    items == elements(v@),
                    member(body@, "checklist"@) == Some(JsonV::Array(items)),
                    lines_of(items.take(i as int), stamp@) == Ok::<Seq<ChecklistItemV>, Refusal>(
                        views(out@),
                    ),
                decreases v.len() - i,
            {
                let ghost so_far = views(out@);
                assert(items.take(i + 1).drop_last() == items.take(i as int));
                assert(items.take(i + 1).last() == v@[i as int]@);
                match read_line(&v[i], stamp, i) {
                    Ok(x) => {
                        let ghost meaning = x@;
                        out.push(x);
                        assert(views(out@) =~= so_far.push(meaning));
                    },
                    Err(e) => {
                        proof {
                            lemma_lines_err(items, stamp@, i + 1, e);
                        }
                        return Err(e);
                    },
                }
                i = i + 1;
            }
            assert(items.take(i as int) == items);
            Ok(Some(out))
        },
        Some(_) => Err(Refusal::ChecklistNotArray),
    }
}

/// The trip that a request asks to add. What is wrong first decides.
pub open spec fn trip_of(body: JsonV, stamp: Seq<char>) -> Result<TripV, Refusal> {
    let name = trimmed(text_or(body, "name"@, Seq::empty()));
    if name.len() == 0 {
        Err(Refusal::NameRequired)
    } else {
        match checklist_member(body, stamp) {
            Err(e) => Err(e),
            Ok(checklist) => Ok(
                TripV {
                    id: "t_"@ + stamp,
                    name,
                    em: clean_em(text_or(body, "em"@, "🧳"@)),
                    color: text_or(body, "color"@, Seq::empty()),
                    start_date: text_or(body, "startDate"@, Seq::empty()),
                    end_date: text_or(body, "endDate"@, Seq::empty()),
                    note: text_or(body, "note"@, Seq::empty()),
                    status: if text_member(body, "status"@) == Some("done"@) {
                        "done"@
                    } else {
                        "planned"@
                    },
                    checklist: match checklist {
                        Some(v) => v,
                        None => Seq::empty(),
                    },
                    guide: JsonV::Null,
                },
            ),
        }
    }
}

/// The owner adds a trip. `stamp` makes its id and those of its checklist. Where the answer is a
/// trip, the store is to be written.
pub fn create_trip(store: &mut Store, owner: bool, body: &Json, stamp: &str) -> (r: Result<
    Trip,
    Refusal,
>)
    ensures
        match r {
            Ok(t) => owner && trip_of(body@, stamp@) == Ok::<TripV, Refusal>(t@) && final(store)@
                == (StoreV { trips: old(store)@.trips.push(t@), ..old(store)@ }),
            Err(e) => final(store)@ == old(store)@ && if owner {
                trip_of(body@, stamp@) == Err::<TripV, Refusal>(e)
            } else {
                e == Refusal::Unauthorized
            },
        },
{
    if !owner {
        return Err(Refusal::Unauthorized);
    }
    proof {
        reveal_strlit("");
        assert(""@ =~= Seq::<char>::empty());
    }
    let name = trim(body.get_str_or("name", ""));
    if name.as_str().is_empty() {
        return Err(Refusal::NameRequired);
    }
    let status: &str = match body.get_str("status") {
        Some(s) => if same(s, "done") {
            "done"
        } else {
            "planned"
        },
        None => "planned",
    };
    let checklist: Vec<ChecklistItem> = match parse_checklist(body, stamp) {
        Ok(Some(v)) => v,
        Ok(None) => Vec::new(),
        Err(e) => return Err(e),
    };
    let t = Trip {
        id: join2("t_", stamp),
        name,
        em: sanitize_em(body.get_str_or("em", "🧳")),
        color: body.get_str_or("color", "").to_owned(),
        start_date: body.get_str_or("startDate", "").to_owned(),
        end_date: body.get_str_or("endDate", "").to_owned(),
        note: body.get_str_or("note", "").to_owned(),
        status: status.to_owned(),
        checklist,
        guide: Json::Null,
    };
    proof {
        assert(checklist_member(body@, stamp@)->Ok_0 is None ==> t@.checklist =~= Seq::empty());
        assert(t@ =~= trip_of(body@, stamp@)->Ok_0);
    }
    let ghost before = store@;
    store.trips.push(t.copy());
    assert(views(store.trips@) =~= before.trips.push(t@));
    assert(store@ =~= StoreV { trips: before.trips.push(t@), ..before });
    Ok(t)
}

/// A trip after a change, given the checklist that the request gives.
pub open spec fn trip_changed(
    t: TripV,
    body: JsonV,
    checklist: Option<Seq<ChecklistItemV>>,
) -> TripV {
    TripV {
        id: t.id,
        name: new_name(body, t.name),
        em: new_em(body, t.em),
        color: new_text(body, "color"@, t.color),
        start_date: new_text(body, "startDate"@, t.start_date),
        end_date: new_text(body, "endDate"@, t.end_date),
        note: new_text(body, "note"@, t.note),
        status: new_status(body, "done"@, "planned"@, t.status),
        checklist: match checklist {
            Some(v) => v,
            None => t.checklist,
        },
        guide: new_guide(body, t.guide),
    }
}

/// The trip after a change that a request asks for, or what is wrong with the request: the
/// checklist, then the trip.
pub open spec fn trip_patch(
    s: StoreV,
    id: Seq<char>,
    body: JsonV,
    stamp: Seq<char>,
) -> Result<(int, TripV), Refusal> {
    match checklist_member(body, stamp) {
        Err(e) => Err(e),
        Ok(checklist) => match index_of(trip_ids(s.trips), id) {
            None => Err(Refusal::TripNotFound),
            Some(i) => Ok((i, trip_changed(s.trips[i], body, checklist))),
        },
    }
}

/// The owner changes a trip. `stamp` makes the ids of new lines of its checklist. A request with
/// anything wrong in it changes nothing at all. Where the answer is a trip, the store is to be
/// written.
pub fn patch_trip(
    store: &mut Store,
    owner: bool,
    id: &str,
    body: &Json,
    stamp: &str,
) -> (r: Result<Trip, Refusal>)
    ensures
        match r {
            Ok(t) => {
                &&& owner
                &&& trip_patch(old(store)@, id@, body@, stamp@) matches Ok((i, q))
                &&& t@ == q
                &&& final(store)@ == (StoreV {
                    trips: old(store)@.trips.update(i, q),
                    ..old(store)@
                })
                &&& 0 <= i < old(store)@.trips.len() && old(store)@.trips[i].id == id@
                &&& t@.id == old(store)@.trips[i].id
                &&& match member(body@, "name"@) {
                    Some(JsonV::Text(s)) => t@.name == if trimmed(s).len() > 0 {
                        trimmed(s)
                    } else {
                        old(store)@.trips[i].name
                    },
                    _ => t@.name == old(store)@.trips[i].name,
                }
                &&& match member(body@, "em"@) {
                    Some(JsonV::Text(s)) => t@.em == clean_em(s),
                    _ => t@.em == old(store)@.trips[i].em,
                }
                &&& match member(body@, "color"@) {
                    Some(JsonV::Text(s)) => t@.color == s,
                    _ => t@.color == old(store)@.trips[i].color,
                }
                &&& match member(body@, "startDate"@) {
                    Some(JsonV::Text(s)) => t@.start_date == s,
                    _ => t@.start_date == old(store)@.trips[i].start_date,
                }
                &&& match member(body@, "endDate"@) {
                    Some(JsonV::Text(s)) => t@.end_date == s,
                    _ => t@.end_date == old(store)@.trips[i].end_date,
                }
                &&& match member(body@, "note"@) {
                    Some(JsonV::Text(s)) => t@.note == s,
                    _ => t@.note == old(store)@.trips[i].note,
                }
                &&& member(body@, "status"@) == Some(JsonV::Text("done"@)) ==> t@.status == "done"@
                &&& member(body@, "status"@) == Some(JsonV::Text("planned"@))
                    ==> t@.status == "planned"@
                &&& member(body@, "status"@) != Some(JsonV::Text("done"@))
                    && member(body@, "status"@) != Some(
                    JsonV::Text("planned"@),
                ) ==> t@.status == old(store)@.trips[i].status
                &&& match member(body@, "guide"@) {
                    None => t@.guide == old(store)@.trips[i].guide,
                    Some(g) => t@.guide == g,
                }
                &&& match member(body@, "checklist"@) {
                    Some(JsonV::Array(items)) => {
                        &&& t@.checklist.len() == items.len()
                        &&& forall|i: int|
                            0 <= i < items.len() ==> {
                                &&& (#[trigger] t@.checklist[i]).text == text_or(items[i], "text"@, Seq::empty())
                                &&& t@.checklist[i].done <==> member(items[i], "done"@) == Some(JsonV::Bool(true))
                            }
                    },
                    _ => t@.checklist == old(store)@.trips[i].checklist,
                }
            },
            Err(e) => final(store)@ == old(store)@ && if owner {
                trip_patch(old(store)@, id@, body@, stamp@) == Err::<(int, TripV), Refusal>(e)
            } else {
                e == Refusal::Unauthorized
            },
        },
{
    if !owner {
        return Err(Refusal::Unauthorized);
    }
    let checklist = match parse_checklist(body, stamp) {
        Ok(v) => v,
        Err(e) => return Err(e),
    };
    let i: usize = match find_trip(&store.trips, id) {
        Some(i) => i,
        None => return Err(Refusal::TripNotFound),
    };
    let ghost before = store@;
    let ghost given = opt_views(checklist);
    proof {
        law_members_become_trip_fields(before, id@, body@, stamp@);
    }
    assert(before.trips[i as int] == store.trips@[i as int]@);
    let t = &store.trips[i];
    let q = Trip {
        id: t.id.clone(),
        name: changed_name(body, &t.name),
        em: changed_em(body, &t.em),
        color: body.get_str_or("color", t.color.as_str()).to_owned(),
        start_date: body.get_str_or("startDate", t.start_date.as_str()).to_owned(),
        end_date: body.get_str_or("endDate", t.end_date.as_str()).to_owned(),
        note: body.get_str_or("note", t.note.as_str()).to_owned(),
        status: changed_status(body, "done", "planned", &t.status),
        checklist: match checklist {
            Some(v) => v,
            None => crate::json::copy_vec(&t.checklist),
        },
        guide: changed_guide(body, &t.guide),
    };
    assert(q@ =~= trip_changed(before.trips[i as int], body@, given));
    let answer = q.copy();
    store.trips.set(i, q);
    assert(views(store.trips@) =~= before.trips.update(i as int, answer@));
    assert(store@ =~= StoreV { trips: before.trips.update(i as int, answer@), ..before });
    Ok(answer)
}

/// Asking for the same change of a trip twice is asking for it once.
pub proof fn law_trip_change_is_idempotent(
    t: TripV,
    body: JsonV,
    checklist: Option<Seq<ChecklistItemV>>,
)
    ensures
        trip_changed(trip_changed(t, body, checklist), body, checklist) == trip_changed(
            t,
            body,
            checklist,
        ),
        trip_changed(t, JsonV::Object(Seq::empty()), None) == t,
{
    assert(trip_changed(t, JsonV::Object(Seq::empty()), None) =~= t);
}

/// A place that belongs to the trip no more.
pub open spec fn released(p: PlaceV, id: Seq<char>) -> PlaceV {
    PlaceV {
        trip_id: if p.trip_id == Some(id) {
            None
        } else {
            p.trip_id
        },
        ..p
    }
}

/// The places without the trip.
pub open spec fn all_released(s: Seq<PlaceV>, id: Seq<char>) -> Seq<PlaceV> {
    Seq::new(s.len(), |i: int| released(s[i], id))
}

/// The owner removes a trip; its places stay, and belong to no trip. The store is to be written.
pub fn delete_trip(store: &mut Store, owner: bool, id: &str) -> (r: Result<(), Refusal>)
    ensures
        match r {
            Ok(_) => {
                &&& owner
                &&& index_of(trip_ids(old(store)@.trips), id@) matches Some(i)
                &&& final(store)@ == (StoreV {
                    trips: old(store)@.trips.remove(i),
                    places: all_released(old(store)@.places, id@),
                    ..old(store)@
                })
            },
            Err(e) => final(store)@ == old(store)@ && if owner {
                e == Refusal::TripNotFound && index_of(trip_ids(old(store)@.trips), id@) is None
            } else {
                e == Refusal::Unauthorized
            },
        },
{
    if !owner {
        return Err(Refusal::Unauthorized);
    }
    let i: usize = match find_trip(&store.trips, id) {
        Some(i) => i,
        None => return Err(Refusal::TripNotFound),
    };
    let ghost before = store@;
    store.trips.remove(i);
    assert(views(store.trips@) =~= before.trips.remove(i as int));
    let mut left: Vec<Place> = Vec::new();
    let mut k: usize = 0;
    while k < store.places.len()
        invariant
            k <= store.places.len(),
            store@ == (StoreV { trips: before.trips.remove(i as int), ..before }),
            left@.len() == k,
            forall|j: int| 0 <= j < k ==> (#[trigger] left@[j])@ == released(before.places[j], id@),
        decreases store.places.len() - k,
    {
        assert(before.places[k as int] == store.places@[k as int]@);
        let mut p = store.places[k].copy();
        if opt_is(&p.trip_id, id) {
            p.trip_id = None;
        }
        assert(p@ =~= released(before.places[k as int], id@));
        left.push(p);
        k = k + 1;
    }
    assert(views(left@) =~= all_released(before.places, id@));
    store.places = left;
    assert(store@ =~= StoreV {
        trips: before.trips.remove(i as int),
        places: all_released(before.places, id@),
        ..before
    });
    Ok(())
}

/// Removing a trip removes no place, leaves none in the trip, and changes nothing else of any.
pub proof fn law_places_outlive_trips(s: Seq<PlaceV>, id: Seq<char>, i: int)
    requires
        0 <= i < s.len(),
    ensures
        all_released(s, id).len() == s.len(),
        all_released(s, id)[i].trip_id != Some(id),
        s[i].trip_id != Some(id) ==> all_released(s, id)[i] == s[i],
        all_released(s, id)[i] == (PlaceV {
            trip_id: all_released(s, id)[i].trip_id,
            ..s[i]
        }),
{
}

/// Removing a trip that was just added, and that no place or other trip has the id of, leaves
/// everything as it was.
pub proof fn law_trip_delete_undoes_create(s: StoreV, t: TripV)
    requires
        !trip_ids(s.trips).contains(t.id),
        forall|i: int| 0 <= i < s.places.len() ==> (#[trigger] s.places[i]).trip_id != Some(t.id),
    ensures
        index_of(trip_ids(s.trips.push(t)), t.id) == Some(s.trips.len() as int),
        s.trips.push(t).remove(s.trips.len() as int) == s.trips,
        all_released(s.places, t.id) == s.places,
{
    let ids = trip_ids(s.trips.push(t));
    let n = s.trips.len() as int;
    crate::model::lemma_index_of(ids, t.id);
    assert(ids[n] == t.id);
    assert(ids.contains(t.id));
    let k = index_of(ids, t.id)->0;
    if k < n {
        assert(trip_ids(s.trips)[k] == ids[k]);
        assert(trip_ids(s.trips).contains(t.id));
    }
    assert(s.trips.push(t).remove(n) =~= s.trips);
    assert(all_released(s.places, t.id) =~= s.places);
}

/// A member of a request that names a field of a trip and has an admissible value is what that field
/// holds after the change; all other fields stay as they were.
pub proof fn law_members_become_trip_fields(s: StoreV, id: Seq<char>, body: JsonV, stamp: Seq<char>)
    ensures
        trip_patch(s, id, body, stamp) matches Ok((at, q)) ==> {
            let t = s.trips[at];
            &&& 0 <= at < s.trips.len() && t.id == id
            &&& q.id == t.id
            &&& match member(body, "name"@) {
                Some(JsonV::Text(s)) => q.name == if trimmed(s).len() > 0 {
                    trimmed(s)
                } else {
                    t.name
                },
                _ => q.name == t.name,
            }
            &&& match member(body, "em"@) {
                Some(JsonV::Text(s)) => q.em == clean_em(s),
                _ => q.em == t.em,
            }
            &&& match member(body, "color"@) {
                Some(JsonV::Text(s)) => q.color == s,
                _ => q.color == t.color,
            }
            &&& match member(body, "startDate"@) {
                Some(JsonV::Text(s)) => q.start_date == s,
                _ => q.start_date == t.start_date,
            }
            &&& match member(body, "endDate"@) {
                Some(JsonV::Text(s)) => q.end_date == s,
                _ => q.end_date == t.end_date,
            }
            &&& match member(body, "note"@) {
                Some(JsonV::Text(s)) => q.note == s,
                _ => q.note == t.note,
            }
            &&& member(body, "status"@) == Some(JsonV::Text("done"@)) ==> q.status == "done"@
            &&& member(body, "status"@) == Some(JsonV::Text("planned"@)) ==> q.status == "planned"@
            &&& member(body, "status"@) != Some(JsonV::Text("done"@))
                && member(body, "status"@) != Some(
                JsonV::Text("planned"@),
            ) ==> q.status == t.status
            &&& match member(body, "guide"@) {
                None => q.guide == t.guide,
                Some(g) => q.guide == g,
            }
            &&& match member(body, "checklist"@) {
                Some(JsonV::Array(items)) => {
                    &&& q.checklist.len() == items.len()
                    &&& forall|i: int|
                        0 <= i < items.len() ==> {
                            &&& (#[trigger] q.checklist[i]).text == text_or(items[i], "text"@, Seq::empty())
                            &&& q.checklist[i].done <==> member(items[i], "done"@) == Some(JsonV::Bool(true))
                        }
                },
                _ => q.checklist == t.checklist,
            }
        },
{
    lemma_index_of(trip_ids(s.trips), id);
    if let Ok((at, q)) = trip_patch(s, id, body, stamp) {
        assert(trip_ids(s.trips)[at] == s.trips[at].id);
        if let Some(JsonV::Array(items)) = member(body, "checklist"@) {
            assert forall|i: int| 0 <= i < items.len() implies {
                &&& (#[trigger] q.checklist[i]).text == text_or(items[i], "text"@, Seq::empty())
                &&& q.checklist[i].done <==> member(items[i], "done"@) == Some(JsonV::Bool(true))
            } by {
                lemma_line_at(items, stamp, i);
            }
            lemma_lines_len(items, stamp);
        }
    }
}

/// There are as many lines as elements.
proof fn lemma_lines_len(items: Seq<JsonV>, stamp: Seq<char>)
    ensures
        lines_of(items, stamp) matches Ok(v) ==> v.len() == items.len(),
    decreases items.len(),
{
    if items.len() > 0 {
        lemma_lines_len(items.drop_last(), stamp);
    }
}

/// Each line is made from the element at its own place.
proof fn lemma_line_at(items: Seq<JsonV>, stamp: Seq<char>, i: int)
    requires
        0 <= i < items.len(),
    ensures
        lines_of(items, stamp) matches Ok(v) ==> v.len() == items.len() && line_of(
            items[i],
            stamp,
            i as nat,
        ) == Ok::<ChecklistItemV, Refusal>(v[i]),
    decreases items.len(),
{
    lemma_lines_len(items, stamp);
    lemma_lines_len(items.drop_last(), stamp);
    if i < items.len() - 1 {
        lemma_line_at(items.drop_last(), stamp, i);
        assert(items.drop_last()[i] == items[i]);
    }
}

/// A line of a checklist has the text that its entry gives, is done only if the entry says so, and
/// has the entry's id; an entry without one gets it from the moment and its number.
pub proof fn law_lines_say_what_their_entries_say(
    items: Seq<JsonV>,
    stamp: Seq<char>,
    body: JsonV,
    i: int,
)
    requires
        member(body, "checklist"@) == Some(JsonV::Array(items)),
        0 <= i < items.len(),
    ensures
        checklist_member(body, stamp) matches Ok(given) ==> {
            &&& given matches Some(v)
            &&& v.len() == items.len()
            &&& items[i] is Object
            &&& v[i].text == text_or(items[i], "text"@, Seq::empty())
            &&& v[i].done <==> member(items[i], "done"@) == Some(JsonV::Bool(true))
            &&& match text_member(items[i], "id"@) {
                Some(s) => if trimmed(s).len() > 0 {
                    v[i].id == s
                } else {
                    v[i].id == "c_"@ + stamp + "_"@ + crate::codes::decimal(i as nat)
                },
                None => v[i].id == "c_"@ + stamp + "_"@ + crate::codes::decimal(i as nat),
            }
        },
{
    lemma_line_at(items, stamp, i);
}

/// A checklist is refused for an entry that is no object, or whose text is neither a text nor `null`;
/// the first wrong one decides. All others are taken.
pub proof fn law_refused_checklists(items: Seq<JsonV>, stamp: Seq<char>, body: JsonV, i: int)
    requires
        member(body, "checklist"@) == Some(JsonV::Array(items)),
        0 <= i <= items.len(),
        forall|j: int|
            0 <= j < i ==> {
                let text = member(#[trigger] items[j], "text"@);
                &&& items[j] is Object
                &&& text is None || text == Some(JsonV::Null) || text->0 is Text
            },
    ensures
        i == items.len() ==> checklist_member(body, stamp) is Ok,
        i < items.len() ==> {
            let text = member(items[i], "text"@);
            let bad = !(text is None || text == Some(JsonV::Null) || text->0 is Text);
            let r = checklist_member(body, stamp);
            &&& items[i] !is Object ==> r == Err::<Option<Seq<ChecklistItemV>>, Refusal>(
                Refusal::ChecklistNotObject,
            )
            &&& items[i] is Object && bad ==> r == Err::<Option<Seq<ChecklistItemV>>, Refusal>(
                Refusal::ChecklistTextNotText,
            )
        },
{
    lemma_good_lines(items, stamp, i);
    if i < items.len() {
        let r = line_of(items[i], stamp, i as nat);
        if r is Err {
            let some = items.take(i + 1);
            assert(some.drop_last() =~= items.take(i));
            assert(some.last() == items[i]);
            lemma_lines_err(items, stamp, i + 1, r->Err_0);
        }
    } else {
        assert(items.take(i) =~= items);
    }
}

/// Good entries are read.
proof fn lemma_good_lines(items: Seq<JsonV>, stamp: Seq<char>, i: int)
    requires
        0 <= i <= items.len(),
        forall|j: int|
            0 <= j < i ==> {
                let text = member(#[trigger] items[j], "text"@);
                &&& items[j] is Object
                &&& text is None || text == Some(JsonV::Null) || text->0 is Text
            },
    ensures
        lines_of(items.take(i), stamp) is Ok,
    decreases i,
{
    if i > 0 {
        lemma_good_lines(items, stamp, i - 1);
        let some = items.take(i);
        assert(some.drop_last() =~= items.take(i - 1));
        assert(some.last() == items[i - 1]);
    }
}

/// A new trip holds what the request says of it, member by member; what it does not say is empty,
/// and a trip is planned unless it says that it is done.
pub proof fn law_new_trips_say_what_was_asked(body: JsonV, stamp: Seq<char>)
    ensures
        trip_of(body, stamp) matches Ok(t) ==> {
            &&& t.id == "t_"@ + stamp
            &&& member(body, "name"@) matches Some(JsonV::Text(n)) && t.name == trimmed(n)
            &&& t.name.len() > 0
            &&& match member(body, "em"@) {
                Some(JsonV::Text(s)) => t.em == clean_em(s),
                _ => t.em == clean_em("🧳"@),
            }
            &&& match member(body, "color"@) {
                Some(JsonV::Text(s)) => t.color == s,
                _ => t.color.len() == 0,
            }
            &&& match member(body, "startDate"@) {
                Some(JsonV::Text(s)) => t.start_date == s,
                _ => t.start_date.len() == 0,
            }
            &&& match member(body, "endDate"@) {
                Some(JsonV::Text(s)) => t.end_date == s,
                _ => t.end_date.len() == 0,
            }
            &&& match member(body, "note"@) {
                Some(JsonV::Text(s)) => t.note == s,
                _ => t.note.len() == 0,
            }
            &&& member(body, "status"@) == Some(JsonV::Text("done"@)) ==> t.status == "done"@
            &&& member(body, "status"@) != Some(JsonV::Text("done"@)) ==> t.status == "planned"@
            &&& match member(body, "checklist"@) {
                Some(JsonV::Array(items)) => t.checklist.len() == items.len(),
                _ => t.checklist.len() == 0,
            }
            &&& t.guide is Null
        },
        ({
            let named = text_member(body, "name"@) matches Some(n) && trimmed(n).len() > 0;
            let list = member(body, "checklist"@);
            &&& !named ==> trip_of(body, stamp) == Err::<TripV, Refusal>(Refusal::NameRequired)
            &&& named && list is Some && list->0 !is Array ==> trip_of(body, stamp) == Err::<
                TripV,
                Refusal,
            >(Refusal::ChecklistNotArray)
            &&& named && list is None ==> trip_of(body, stamp) is Ok
        }),
{
    crate::text::law_trimming(Seq::empty(), ' ');
    if let Some(JsonV::Array(items)) = member(body, "checklist"@) {
        lemma_lines_len(items, stamp);
    }
}

/// Removing a trip sets its places free, and touches neither the others nor anything else of a place.
pub proof fn law_only_the_trip_is_let_go(s: Seq<PlaceV>, id: Seq<char>, i: int)
    requires
        0 <= i < s.len(),
    ensures
        ({
            let (p, q) = (s[i], all_released(s, id)[i]);
            &&& all_released(s, id).len() == s.len()
            &&& p.trip_id == Some(id) ==> q.trip_id is None
            &&& p.trip_id != Some(id) ==> q.trip_id == p.trip_id
            &&& q.id == p.id
            &&& q.lng == p.lng
            &&& q.lat == p.lat
            &&& q.name == p.name
            &&& q.short == p.short
            &&& q.city == p.city
            &&& q.country == p.country
            &&& q.em == p.em
            &&& q.date == p.date
            &&& q.rating == p.rating
            &&& q.tags == p.tags
            &&& q.feel == p.feel
            &&& q.photos == p.photos
            &&& q.cover == p.cover
            &&& q.status == p.status
            &&& q.visits == p.visits
            &&& q.category == p.category
            &&& q.color == p.color
            &&& q.guide == p.guide
        }),
{
}

} // verus!
