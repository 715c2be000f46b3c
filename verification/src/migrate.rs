//! Brings a store of an earlier format up to date: version by version, adding what is missing and
//! keeping what is there.

use vstd::prelude::*;
use crate::codes::{numbered, numbered_id};
use crate::json::{
    elements, empty_list, lemma_array, lemma_object, lemma_put, lemma_put_default,
    lemma_with_default, lookup, member, members, put, put_default, text_or, uint_member, with,
    with_default, with_missing, Double, Duplicate, Json, JsonV, Members, Number,
};

verus! {

/// What is added to one place or trip.
#[derive(Clone, Copy, Debug, PartialEq, Eq, Structural)]
pub enum Edit {
    /// The status, trip and cover of a place.
    Status,
    /// The visits of a place: one on the date of the place, if it has a date.
    Visits,
    /// The checklist of a trip.
    Checklist,
    /// The category of a place.
    Category,
}

/// The visits of a place that has none, as its date tells.
pub open spec fn visits_for(o: Members, stamp: Seq<char>, i: nat) -> JsonV {
    let date = text_or(JsonV::Object(o), "date"@, Seq::empty());
    if date.len() == 0 {
        JsonV::Array(Seq::empty())
    } else {
        JsonV::Array(
            seq![
                JsonV::Object(
                    seq![
                        ("id"@, JsonV::Text(numbered_id("v_"@, stamp, i))),
                        ("date"@, JsonV::Text(date)),
                        ("note"@, JsonV::Text(Seq::empty())),
                    ],
                ),
            ],
        )
    }
}

/// The `i`-th place or trip after an edit. What it has already stays.
pub open spec fn edited(edit: Edit, o: Members, stamp: Seq<char>, i: nat) -> Members {
    match edit {
        Edit::Status => with_default(
            with_default(
                with_default(o, "status"@, JsonV::Text("visited"@)),
                "tripId"@,
                JsonV::Null,
            ),
            "cover"@,
            JsonV::Null,
        ),
        Edit::Visits => with_default(o, "visits"@, visits_for(o, stamp, i)),
        Edit::Checklist => with_default(o, "checklist"@, JsonV::Array(Seq::empty())),
        Edit::Category => with_default(o, "category"@, JsonV::Text(Seq::empty())),
    }
}

/// A list after an edit of every object in it.
pub open spec fn edited_list(edit: Edit, s: Seq<JsonV>, stamp: Seq<char>) -> Seq<JsonV> {
    Seq::new(
        s.len(),
        |i: int|
            match s[i] {
                JsonV::Object(o) => JsonV::Object(edited(edit, o, stamp, i as nat)),
                other => other,
            },
    )
}

/// A value after an edit of every object in one of its lists.
pub open spec fn edit_member(edit: Edit, v: JsonV, key: Seq<char>, stamp: Seq<char>) -> JsonV {
    match member(v, key) {
        Some(JsonV::Array(s)) => put(v, key, JsonV::Array(edited_list(edit, s, stamp))),
        _ => v,
    }
}

/// The number of a version.
pub open spec fn version_number(n: u32) -> Number {
    Number {
        unsigned: Some(n as u64),
        signed: Some(n as i64),
        double: Double {
            bits: if n == 3 {
                0x4008_0000_0000_0000
            } else {
                0x4010_0000_0000_0000
            },
        },
    }
}

/// The version of a store; the first format did not say.
pub open spec fn version_of(v: JsonV) -> u64 {
    match uint_member(v, "version"@) {
        Some(n) => n,
        None => 1,
    }
}

/// A store of the first version, in the second.
pub open spec fn second(v: JsonV) -> JsonV {
    put_default(
        edit_member(Edit::Status, v, "places"@, Seq::empty()),
        "trips"@,
        JsonV::Array(Seq::empty()),
    )
}

/// A store of the second version, in the third.
pub open spec fn third(v: JsonV, stamp: Seq<char>) -> JsonV {
    put(
        put_default(
            edit_member(
                Edit::Checklist,
                edit_member(Edit::Visits, v, "places"@, stamp),
                "trips"@,
                stamp,
            ),
            "unplaced"@,
            JsonV::Array(Seq::empty()),
        ),
        "version"@,
        JsonV::Number(version_number(3)),
    )
}

/// A store of the third version, in the fourth.
pub open spec fn fourth(v: JsonV) -> JsonV {
    put(
        edit_member(Edit::Category, v, "places"@, Seq::empty()),
        "version"@,
        JsonV::Number(version_number(4)),
    )
}

/// A store of an earlier version, in the current one.
pub open spec fn current(v: JsonV, stamp: Seq<char>) -> JsonV {
    if version_of(v) == 3 {
        fourth(v)
    } else if version_of(v) == 1 {
        fourth(third(second(v), stamp))
    } else {
        fourth(third(v, stamp))
    }
}

/// The visits of a place that has none, as its date tells.
fn first_visits(place: &Json, stamp: &str, i: usize) -> (r: Json)
    ensures
        place@ matches JsonV::Object(o) ==> r@ == visits_for(o, stamp@, i as nat),
{
    proof {
        reveal_strlit("");
        assert(""@ =~= Seq::<char>::empty());
    }
    let date = place.get_str_or("date", "");
    if date.is_empty() {
        return empty_list();
    }
    let o: Vec<(String, Json)> = vec![
        ("id".to_owned(), Json::Text(numbered("v_", stamp, i))),
        ("date".to_owned(), Json::Text(date.to_owned())),
        ("note".to_owned(), Json::Text(String::new())),
    ];
    let ghost visit = seq![
        ("id"@, JsonV::Text(numbered_id("v_"@, stamp@, i as nat))),
        ("date"@, JsonV::Text(date@)),
        ("note"@, JsonV::Text(Seq::empty())),
    ];
    proof {
        lemma_object(o);
        assert(members(o@) =~= visit);
    }
    let v: Vec<Json> = vec![Json::Object(o)];
    proof {
        lemma_array(v);
        assert(elements(v@) =~= seq![JsonV::Object(visit)]);
    }
    Json::Array(v)
}

/// The `i`-th place or trip after an edit; what is no object stays as it is.
fn edit_one(edit: Edit, v: &Json, stamp: &str, i: usize) -> (r: Json)
    ensures
        r@ == match v@ {
            JsonV::Object(o) => JsonV::Object(edited(edit, o, stamp@, i as nat)),
            other => other,
        },
{
    match edit {
        Edit::Status => {
            let a = with_missing(v, "status", Json::Text("visited".to_owned()));
            let b = with_missing(&a, "tripId", Json::Null);
            with_missing(&b, "cover", Json::Null)
        },
        Edit::Visits => with_missing(v, "visits", first_visits(v, stamp, i)),
        Edit::Checklist => with_missing(v, "checklist", empty_list()),
        Edit::Category => with_missing(v, "category", Json::Text(String::new())),
    }
}

/// A value after an edit of every object in one of its lists.
fn edit_all(edit: Edit, v: &Json, key: &str, stamp: &str) -> (r: Json)
    ensures
        r@ == edit_member(edit, v@, key@, stamp@),
{
    match v.get(key) {
        Some(Json::Array(items)) => {
            proof {
                lemma_array(*items);
            }
            let ghost s = elements(items@);
            let mut out: Vec<Json> = Vec::new();
            let mut i: usize = 0;
            while i < items.len()
                invariant
                    i <= items.len(),
                    s == elements(items@),
                    out@.len() == i,
                    forall|k: int|
                        0 <= k < i ==> (#[trigger] out@[k])@ == edited_list(edit, s, stamp@)[k],
                decreases items.len() - i,
            {
                assert(s[i as int] == items@[i as int]@);
                out.push(edit_one(edit, &items[i], stamp, i));
                i = i + 1;
            }
            proof {
                lemma_array(out);
                assert(elements(out@) =~= edited_list(edit, s, stamp@));
            }
            with(v, key, Json::Array(out))
        },
        _ => v.copy(),
    }
}

/// The number of the third or fourth version.
fn version_json(n: u32) -> (r: Json)
    ensures
        r@ == JsonV::Number(version_number(n)),
{
    Json::Number(
        Number {
            unsigned: Some(n as u64),
            signed: Some(n as i64),
            double: Double {
                bits: if n == 3 {
                    0x4008_0000_0000_0000
                } else {
                    0x4010_0000_0000_0000
                },
            },
        },
    )
}

/// A store brought up to date, and the names of the copies that are to be made of the old one
/// before it is overwritten.
pub struct Migration {
    pub store: Json,
    pub backups: Vec<&'static str>,
}

/// Brings a store up to date. `stamp` makes the ids of new visits. None if the store is up to
/// date already.
pub fn migrate_store(v: &Json, stamp: &str) -> (r: Option<Migration>)
    ensures
        match r {
            None => version_of(v@) >= 4,
            Some(m) => {
                &&& version_of(v@) < 4
                &&& m.store@ == current(v@, stamp@)
                &&& m.backups@.last()@ == "store.v3.bak.json"@
                &&& version_of(v@) == 3 ==> m.backups@.len() == 1
                &&& version_of(v@) != 3 ==> m.backups@.len() == 2 && m.backups@[0]@ == if version_of(
                    v@,
                ) == 1 {
                    "store.v1.bak.json"@
                } else {
                    "store.v2.bak.json"@
                }
            },
        },
{
    let ver: u64 = match v.get_u64("version") {
        Some(n) => n,
        None => 1,
    };
    if ver >= 4 {
        return None;
    }
    let mut backups: Vec<&'static str> = Vec::new();
    let mut w: Json = v.copy();
    if ver < 3 {
        if ver == 1 {
            backups.push("store.v1.bak.json");
            w = with_missing(&edit_all(Edit::Status, &w, "places", ""), "trips", empty_list());
            proof {
                reveal_strlit("");
                assert(""@ =~= Seq::<char>::empty());
                assert(w@ == second(v@));
            }
        } else {
            backups.push("store.v2.bak.json");
        }
        w = edit_all(Edit::Visits, &w, "places", stamp);
        w = edit_all(Edit::Checklist, &w, "trips", stamp);
        w = with_missing(&w, "unplaced", empty_list());
        w = with(&w, "version", version_json(3));
    }
    backups.push("store.v3.bak.json");
    proof {
        reveal_strlit("");
        assert(""@ =~= Seq::<char>::empty());
    }
    w = edit_all(Edit::Category, &w, "places", "");
    w = with(&w, "version", version_json(4));
    Some(Migration { store: w, backups })
}

/// What a place or trip has, it keeps.
pub proof fn law_edits_keep_what_there_is(
    edit: Edit,
    o: Members,
    stamp: Seq<char>,
    i: nat,
    key: Seq<char>,
)
    requires
        lookup(o, key) is Some,
    ensures
        lookup(edited(edit, o, stamp, i), key) == lookup(o, key),
{
    match edit {
        Edit::Status => {
            let a = with_default(o, "status"@, JsonV::Text("visited"@));
            let b = with_default(a, "tripId"@, JsonV::Null);
            lemma_with_default(o, "status"@, JsonV::Text("visited"@), key);
            lemma_with_default(a, "tripId"@, JsonV::Null, key);
            lemma_with_default(b, "cover"@, JsonV::Null, key);
        },
        Edit::Visits => lemma_with_default(o, "visits"@, visits_for(o, stamp, i), key),
        Edit::Checklist => lemma_with_default(
            o,
            "checklist"@,
            JsonV::Array(Seq::empty()),
            key,
        ),
        Edit::Category => lemma_with_default(o, "category"@, JsonV::Text(Seq::empty()), key),
    }
}

/// An edit of a list changes that list only.
proof fn lemma_edit_member(edit: Edit, v: JsonV, key: Seq<char>, stamp: Seq<char>, other: Seq<char>)
    requires
        v is Object,
    ensures
        edit_member(edit, v, key, stamp) is Object,
        other != key ==> member(edit_member(edit, v, key, stamp), other) == member(v, other),
        member(v, key) matches Some(JsonV::Array(s)) ==> member(
            edit_member(edit, v, key, stamp),
            key,
        ) == Some(JsonV::Array(edited_list(edit, s, stamp))),
{
    if let Some(JsonV::Array(s)) = member(v, key) {
        lemma_put(v, key, JsonV::Array(edited_list(edit, s, stamp)), other);
    }
}

/// The names that a migration works on are different ones.
proof fn lemma_names()
    ensures
        "places"@ != "trips"@,
        "places"@ != "unplaced"@,
        "places"@ != "version"@,
        "trips"@ != "unplaced"@,
        "trips"@ != "version"@,
        "unplaced"@ != "version"@,
{
    reveal_strlit("places");
    reveal_strlit("trips");
    reveal_strlit("unplaced");
    reveal_strlit("version");
    assert("places"@.len() == 6 && "trips"@.len() == 5);
    assert("unplaced"@.len() == 8 && "version"@.len() == 7);
}

/// A migrated store has the current version, so that migrating it once more does nothing.
pub proof fn law_migrated_once_is_migrated(v: JsonV, stamp: Seq<char>)
    requires
        v is Object,
        version_of(v) < 4,
    ensures
        version_of(current(v, stamp)) == 4,
{
    lemma_steps_are_objects(v, stamp);
    let w = before_last(v, stamp);
    lemma_edit_member(Edit::Category, w, "places"@, Seq::empty(), "version"@);
    lemma_put(
        edit_member(Edit::Category, w, "places"@, Seq::empty()),
        "version"@,
        JsonV::Number(version_number(4)),
        "version"@,
    );
}

/// The store before the last step.
spec fn before_last(v: JsonV, stamp: Seq<char>) -> JsonV {
    if version_of(v) == 3 {
        v
    } else if version_of(v) == 1 {
        third(second(v), stamp)
    } else {
        third(v, stamp)
    }
}

/// Every step makes an object of an object.
proof fn lemma_steps_are_objects(v: JsonV, stamp: Seq<char>)
    requires
        v is Object,
    ensures
        second(v) is Object,
        third(v, stamp) is Object,
        third(second(v), stamp) is Object,
        fourth(v) is Object,
{
}

/// A migration touches the places, the trips, the photographs without a position and the version,
/// and no other member of the store.
pub proof fn law_migration_is_confined(v: JsonV, stamp: Seq<char>, key: Seq<char>)
    requires
        v is Object,
        version_of(v) < 4,
        key != "places"@,
        key != "trips"@,
        key != "unplaced"@,
        key != "version"@,
    ensures
        member(current(v, stamp), key) == member(v, key),
{
    lemma_second(v, key);
    lemma_third(v, stamp, key);
    lemma_third(second(v), stamp, key);
    lemma_fourth(before_last(v, stamp), key);
}

/// What the second version does to a member.
proof fn lemma_second(v: JsonV, key: Seq<char>)
    requires
        v is Object,
    ensures
        second(v) is Object,
        key != "places"@ && key != "trips"@ ==> member(second(v), key) == member(v, key),
        member(v, "places"@) matches Some(JsonV::Array(s)) ==> member(second(v), "places"@)
            == Some(JsonV::Array(edited_list(Edit::Status, s, Seq::empty()))),
        member(v, "trips"@) is Some ==> member(second(v), "trips"@) == member(v, "trips"@),
{
    lemma_names();
    let a = edit_member(Edit::Status, v, "places"@, Seq::empty());
    lemma_edit_member(Edit::Status, v, "places"@, Seq::empty(), key);
    lemma_edit_member(Edit::Status, v, "places"@, Seq::empty(), "trips"@);
    lemma_put_default(a, "trips"@, JsonV::Array(Seq::empty()), key);
    lemma_put_default(a, "trips"@, JsonV::Array(Seq::empty()), "places"@);
}

/// What the third version does to a member.
proof fn lemma_third(v: JsonV, stamp: Seq<char>, key: Seq<char>)
    requires
        v is Object,
    ensures
        third(v, stamp) is Object,
        key != "places"@ && key != "trips"@ && key != "unplaced"@ && key != "version"@ ==> member(
            third(v, stamp),
            key,
        ) == member(v, key),
        member(v, "places"@) matches Some(JsonV::Array(s)) ==> member(third(v, stamp), "places"@)
            == Some(JsonV::Array(edited_list(Edit::Visits, s, stamp))),
        member(v, "trips"@) matches Some(JsonV::Array(s)) ==> member(third(v, stamp), "trips"@)
            == Some(JsonV::Array(edited_list(Edit::Checklist, s, stamp))),
        member(v, "unplaced"@) is Some ==> member(third(v, stamp), "unplaced"@) == member(
            v,
            "unplaced"@,
        ),
{
    lemma_names();
    let a = edit_member(Edit::Visits, v, "places"@, stamp);
    let b = edit_member(Edit::Checklist, a, "trips"@, stamp);
    let c = put_default(b, "unplaced"@, JsonV::Array(Seq::empty()));
    let n = JsonV::Number(version_number(3));
    lemma_edit_member(Edit::Visits, v, "places"@, stamp, key);
    lemma_edit_member(Edit::Visits, v, "places"@, stamp, "trips"@);
    lemma_edit_member(Edit::Visits, v, "places"@, stamp, "unplaced"@);
    lemma_edit_member(Edit::Checklist, a, "trips"@, stamp, key);
    lemma_edit_member(Edit::Checklist, a, "trips"@, stamp, "places"@);
    lemma_edit_member(Edit::Checklist, a, "trips"@, stamp, "unplaced"@);
    lemma_put_default(b, "unplaced"@, JsonV::Array(Seq::empty()), key);
    lemma_put_default(b, "unplaced"@, JsonV::Array(Seq::empty()), "places"@);
    lemma_put_default(b, "unplaced"@, JsonV::Array(Seq::empty()), "trips"@);
    lemma_put(c, "version"@, n, key);
    lemma_put(c, "version"@, n, "places"@);
    lemma_put(c, "version"@, n, "trips"@);
    lemma_put(c, "version"@, n, "unplaced"@);
}

/// What the fourth version does to a member.
proof fn lemma_fourth(v: JsonV, key: Seq<char>)
    requires
        v is Object,
    ensures
        key != "places"@ && key != "version"@ ==> member(fourth(v), key) == member(v, key),
        member(v, "places"@) matches Some(JsonV::Array(s)) ==> member(fourth(v), "places"@)
            == Some(JsonV::Array(edited_list(Edit::Category, s, Seq::empty()))),
{
    lemma_names();
    let a = edit_member(Edit::Category, v, "places"@, Seq::empty());
    lemma_edit_member(Edit::Category, v, "places"@, Seq::empty(), key);
    lemma_put(a, "version"@, JsonV::Number(version_number(4)), key);
    lemma_put(a, "version"@, JsonV::Number(version_number(4)), "places"@);
}

/// Whether the list `b` holds the objects of the list `a`, each with all that it has there.
pub open spec fn keeps_all(a: Seq<JsonV>, b: Seq<JsonV>) -> bool {
    &&& b.len() == a.len()
    &&& forall|i: int, key: Seq<char>|
        0 <= i < a.len() && member(a[i], key) is Some ==> #[trigger] member(b[i], key) == member(
            a[i],
            key,
        )
}

/// An edit keeps everything.
proof fn lemma_edited_list(edit: Edit, s: Seq<JsonV>, stamp: Seq<char>)
    ensures
        keeps_all(s, edited_list(edit, s, stamp)),
{
    let t = edited_list(edit, s, stamp);
    assert forall|i: int, key: Seq<char>|
        0 <= i < s.len() && member(s[i], key) is Some implies #[trigger] member(t[i], key)
        == member(s[i], key) by {
        law_edits_keep_what_there_is(edit, s[i]->Object_0, stamp, i as nat, key);
    }
}

/// A migration loses no place and no trip, and nothing that one of them had.
pub proof fn law_migration_keeps_places_and_trips(v: JsonV, stamp: Seq<char>)
    requires
        v is Object,
        version_of(v) < 4,
    ensures
        member(v, "places"@) matches Some(JsonV::Array(a)) ==> {
            &&& member(current(v, stamp), "places"@) matches Some(JsonV::Array(b))
            &&& keeps_all(a, b)
        },
        member(v, "trips"@) matches Some(JsonV::Array(a)) ==> {
            &&& member(current(v, stamp), "trips"@) matches Some(JsonV::Array(b))
            &&& keeps_all(a, b)
        },
        member(v, "unplaced"@) is Some ==> member(current(v, stamp), "unplaced"@) == member(
            v,
            "unplaced"@,
        ),
{
    lemma_names();
    lemma_second(v, "unplaced"@);
    lemma_third(v, stamp, "places"@);
    lemma_third(second(v), stamp, "places"@);
    let w = before_last(v, stamp);
    lemma_fourth(w, "trips"@);
    lemma_fourth(w, "unplaced"@);
    if let Some(JsonV::Array(a)) = member(v, "places"@) {
        let a2 = if version_of(v) == 1 {
            edited_list(Edit::Status, a, Seq::empty())
        } else {
            a
        };
        let a3 = if version_of(v) == 3 {
            a2
        } else {
            edited_list(Edit::Visits, a2, stamp)
        };
        let b = edited_list(Edit::Category, a3, Seq::empty());
        lemma_edited_list(Edit::Status, a, Seq::empty());
        lemma_edited_list(Edit::Visits, a2, stamp);
        lemma_edited_list(Edit::Category, a3, Seq::empty());
        assert(member(current(v, stamp), "places"@) == Some(JsonV::Array(b)));
        assert forall|i: int, key: Seq<char>|
            0 <= i < a.len() && member(a[i], key) is Some implies #[trigger] member(b[i], key)
            == member(a[i], key) by {
            assert(member(a2[i], key) == member(a[i], key));
            assert(member(a3[i], key) == member(a2[i], key));
        }
    }
    if let Some(JsonV::Array(a)) = member(v, "trips"@) {
        lemma_edited_list(Edit::Checklist, a, stamp);
    }
}

/// After an edit, what it adds is there.
proof fn lemma_edit_fills_in(edit: Edit, o: Members, stamp: Seq<char>, i: nat)
    ensures
        edit is Status ==> lookup(edited(edit, o, stamp, i), "status"@) is Some && lookup(
            edited(edit, o, stamp, i),
            "tripId"@,
        ) is Some && lookup(edited(edit, o, stamp, i), "cover"@) is Some,
        edit is Visits ==> lookup(edited(edit, o, stamp, i), "visits"@) is Some,
        edit is Checklist ==> lookup(edited(edit, o, stamp, i), "checklist"@) is Some,
        edit is Category ==> lookup(edited(edit, o, stamp, i), "category"@) is Some,
{
    match edit {
        Edit::Status => {
            let a = with_default(o, "status"@, JsonV::Text("visited"@));
            let b = with_default(a, "tripId"@, JsonV::Null);
            lemma_with_default(o, "status"@, JsonV::Text("visited"@), "status"@);
            lemma_with_default(a, "tripId"@, JsonV::Null, "status"@);
            lemma_with_default(b, "cover"@, JsonV::Null, "status"@);
            lemma_with_default(b, "cover"@, JsonV::Null, "tripId"@);
        },
        Edit::Visits => lemma_with_default(o, "visits"@, visits_for(o, stamp, i), "visits"@),
        Edit::Checklist => lemma_with_default(
            o,
            "checklist"@,
            JsonV::Array(Seq::empty()),
            "checklist"@,
        ),
        Edit::Category => lemma_with_default(
            o,
            "category"@,
            JsonV::Text(Seq::empty()),
            "category"@,
        ),
    }
}

/// After a migration every place and every trip has what the formats in between have added.
pub proof fn law_migration_fills_in(v: JsonV, stamp: Seq<char>, i: int)
    requires
        v is Object,
        version_of(v) < 4,
    ensures
        member(v, "places"@) matches Some(JsonV::Array(a)) ==> 0 <= i < a.len() && a[i] is Object
            ==> {
            &&& member(current(v, stamp), "places"@) matches Some(JsonV::Array(b))
            &&& member(b[i], "category"@) is Some
            &&& version_of(v) != 3 ==> member(b[i], "visits"@) is Some
            &&& version_of(v) == 1 ==> member(b[i], "status"@) is Some && member(
                b[i],
                "tripId"@,
            ) is Some && member(b[i], "cover"@) is Some
        },
        member(v, "trips"@) matches Some(JsonV::Array(a)) ==> 0 <= i < a.len() && a[i] is Object
            && version_of(v) != 3 ==> {
            &&& member(current(v, stamp), "trips"@) matches Some(JsonV::Array(b))
            &&& member(b[i], "checklist"@) is Some
        },
{
    lemma_names();
    lemma_second(v, "unplaced"@);
    lemma_third(v, stamp, "places"@);
    lemma_third(second(v), stamp, "places"@);
    let w = before_last(v, stamp);
    lemma_fourth(w, "trips"@);
    if let Some(JsonV::Array(a)) = member(v, "places"@) {
        if 0 <= i < a.len() && a[i] is Object {
            let a2 = if version_of(v) == 1 {
                edited_list(Edit::Status, a, Seq::empty())
            } else {
                a
            };
            let a3 = if version_of(v) == 3 {
                a2
            } else {
                edited_list(Edit::Visits, a2, stamp)
            };
            lemma_edit_fills_in(Edit::Status, a[i]->Object_0, Seq::empty(), i as nat);
            lemma_edit_fills_in(Edit::Visits, a2[i]->Object_0, stamp, i as nat);
            lemma_edit_fills_in(Edit::Category, a3[i]->Object_0, Seq::empty(), i as nat);
            lemma_edited_list(Edit::Visits, a2, stamp);
            lemma_edited_list(Edit::Category, a3, Seq::empty());
            let b = edited_list(Edit::Category, a3, Seq::empty());
            assert(member(current(v, stamp), "places"@) == Some(JsonV::Array(b)));
            assert(member(a2[i], "status"@) is Some ==> member(a3[i], "status"@) == member(
                a2[i],
                "status"@,
            ));
            assert(member(a2[i], "tripId"@) is Some ==> member(a3[i], "tripId"@) == member(
                a2[i],
                "tripId"@,
            ));
            assert(member(a2[i], "cover"@) is Some ==> member(a3[i], "cover"@) == member(
                a2[i],
                "cover"@,
            ));
            assert(member(a3[i], "status"@) is Some ==> member(b[i], "status"@) is Some);
            assert(member(a3[i], "tripId"@) is Some ==> member(b[i], "tripId"@) is Some);
            assert(member(a3[i], "cover"@) is Some ==> member(b[i], "cover"@) is Some);
            assert(member(a3[i], "visits"@) is Some ==> member(b[i], "visits"@) is Some);
        }
    }
    if let Some(JsonV::Array(a)) = member(v, "trips"@) {
        if 0 <= i < a.len() && a[i] is Object {
            lemma_edit_fills_in(Edit::Checklist, a[i]->Object_0, stamp, i as nat);
        }
    }
}

/// How the file of the store was found when the site starts.
#[derive(Clone, Copy, Debug, PartialEq, Eq, Structural)]
pub enum Found {
    /// There is none.
    Missing,
    /// There is one, but it cannot be read.
    Unreadable,
    /// It holds no store.
    Broken,
    /// It holds a store.
    Whole,
}

/// How the site starts.
#[derive(Clone, Copy, Debug, PartialEq, Eq, Structural)]
pub enum Start {
    /// With the store that was found.
    AsFound,
    /// With an empty store.
    Empty,
    /// With an empty store, once a copy of the file was put aside.
    EmptyAfterCopy,
    /// Not at all.
    Refused,
}

/// How the site starts, given how its store was found. A store that is there is never simply
/// overwritten by an empty one: one that cannot be read stops the start, one that is broken is
/// put aside first.
pub fn start_with(found: Found) -> (r: Start)
    ensures
        r is AsFound <==> found is Whole,
        r is Empty <==> found is Missing,
        r is EmptyAfterCopy <==> found is Broken,
        r is Refused <==> found is Unreadable,
{
    match found {
        Found::Missing => Start::Empty,
        Found::Unreadable => Start::Refused,
        Found::Broken => Start::EmptyAfterCopy,
        Found::Whole => Start::AsFound,
    }
}

/// What an edit adds to a place or a trip that does not have it: a place was visited, belongs to no
/// trip, has no cover and no category; a trip has an empty checklist. Nothing else is touched.
pub proof fn law_what_an_edit_adds(edit: Edit, o: Members, stamp: Seq<char>, i: nat, key: Seq<char>)
    ensures
        ({
            let after = edited(edit, o, stamp, i);
            &&& edit is Status ==> {
                &&& lookup(o, "status"@) is None ==> lookup(after, "status"@) == Some(
                    JsonV::Text("visited"@),
                )
                &&& lookup(o, "tripId"@) is None ==> lookup(after, "tripId"@) == Some(JsonV::Null)
                &&& lookup(o, "cover"@) is None ==> lookup(after, "cover"@) == Some(JsonV::Null)
                &&& key != "status"@ && key != "tripId"@ && key != "cover"@ ==> lookup(after, key)
                    == lookup(o, key)
            }
            &&& edit is Visits ==> {
                &&& lookup(o, "visits"@) is None ==> lookup(after, "visits"@) == Some(
                    visits_for(o, stamp, i),
                )
                &&& key != "visits"@ ==> lookup(after, key) == lookup(o, key)
            }
            &&& edit is Checklist ==> {
                &&& lookup(o, "checklist"@) is None ==> lookup(after, "checklist"@) == Some(
                    JsonV::Array(Seq::empty()),
                )
                &&& key != "checklist"@ ==> lookup(after, key) == lookup(o, key)
            }
            &&& edit is Category ==> {
                &&& lookup(o, "category"@) is None ==> lookup(after, "category"@) == Some(
                    JsonV::Text(Seq::empty()),
                )
                &&& key != "category"@ ==> lookup(after, key) == lookup(o, key)
            }
        }),
{
    reveal_strlit("status");
    reveal_strlit("tripId");
    reveal_strlit("cover");
    assert("status"@[0] == 's' && "tripId"@[0] == 't' && "cover"@[0] == 'c');
    match edit {
        Edit::Status => {
            let a = with_default(o, "status"@, JsonV::Text("visited"@));
            let b = with_default(a, "tripId"@, JsonV::Null);
            lemma_with_default(o, "status"@, JsonV::Text("visited"@), key);
            lemma_with_default(o, "status"@, JsonV::Text("visited"@), "tripId"@);
            lemma_with_default(o, "status"@, JsonV::Text("visited"@), "cover"@);
            lemma_with_default(a, "tripId"@, JsonV::Null, key);
            lemma_with_default(a, "tripId"@, JsonV::Null, "status"@);
            lemma_with_default(a, "tripId"@, JsonV::Null, "cover"@);
            lemma_with_default(b, "cover"@, JsonV::Null, key);
            lemma_with_default(b, "cover"@, JsonV::Null, "status"@);
            lemma_with_default(b, "cover"@, JsonV::Null, "tripId"@);
        },
        Edit::Visits => lemma_with_default(o, "visits"@, visits_for(o, stamp, i), key),
        Edit::Checklist => lemma_with_default(
            o,
            "checklist"@,
            JsonV::Array(Seq::empty()),
            key,
        ),
        Edit::Category => lemma_with_default(o, "category"@, JsonV::Text(Seq::empty()), key),
    }
}

/// A place with a date has been visited once, on that date; one without has not been visited.
pub proof fn law_a_date_is_a_visit(o: Members, stamp: Seq<char>, i: nat)
    ensures
        ({
            let place = JsonV::Object(o);
            match member(place, "date"@) {
                Some(JsonV::Text(d)) => if d.len() > 0 {
                    &&& visits_for(o, stamp, i) matches JsonV::Array(v)
                    &&& v.len() == 1
                    &&& member(v[0], "date"@) == Some(JsonV::Text(d))
                    &&& member(v[0], "note"@) == Some(JsonV::Text(Seq::empty()))
                    &&& member(v[0], "id"@) == Some(
                        JsonV::Text("v_"@ + stamp + "_"@ + crate::codes::decimal(i)),
                    )
                } else {
                    visits_for(o, stamp, i) == JsonV::Array(Seq::empty())
                },
                _ => visits_for(o, stamp, i) == JsonV::Array(Seq::empty()),
            }
        }),
{
    reveal_strlit("id");
    reveal_strlit("date");
    reveal_strlit("note");
    assert("id"@.len() == 2 && "date"@[0] == 'd' && "note"@[0] == 'n');
    assert("date"@.len() == 4 && "note"@.len() == 4);
    if let Some(JsonV::Text(d)) = member(JsonV::Object(o), "date"@) {
        if d.len() > 0 {
            let visit = visits_for(o, stamp, i)->Array_0[0]->Object_0;
            crate::json::law_the_first_member_counts(visit, "id"@, 0);
            crate::json::law_the_first_member_counts(visit, "date"@, 1);
            crate::json::law_the_first_member_counts(visit, "note"@, 2);
        }
    }
}

/// What a migration fills in: a place of whatever version comes out without a category if it had
/// none; one from before the third with its date as its visit; one of the first as visited, without
/// a trip and without a cover. A trip from before the third comes out with an empty checklist.
pub proof fn law_what_a_migration_fills_in(v: JsonV, stamp: Seq<char>, i: int)
    requires
        v is Object,
        version_of(v) < 4,
    ensures
        member(v, "places"@) matches Some(JsonV::Array(a)) ==> 0 <= i < a.len() && a[i] is Object
            ==> {
            &&& member(current(v, stamp), "places"@) matches Some(JsonV::Array(b))
            &&& b.len() == a.len()
            &&& member(a[i], "category"@) is None ==> member(b[i], "category"@) == Some(
                JsonV::Text(Seq::empty()),
            )
            &&& version_of(v) != 3 && member(a[i], "visits"@) is None ==> member(b[i], "visits"@)
                == Some(visits_for(a[i]->Object_0, stamp, i as nat))
            &&& version_of(v) == 1 && member(a[i], "status"@) is None ==> member(b[i], "status"@)
                == Some(JsonV::Text("visited"@))
            &&& version_of(v) == 1 && member(a[i], "tripId"@) is None ==> member(b[i], "tripId"@)
                == Some(JsonV::Null)
            &&& version_of(v) == 1 && member(a[i], "cover"@) is None ==> member(b[i], "cover"@)
                == Some(JsonV::Null)
        },
        member(v, "trips"@) matches Some(JsonV::Array(a)) ==> 0 <= i < a.len() && a[i] is Object
            && version_of(v) != 3 && member(a[i], "checklist"@) is None ==> {
            &&& member(current(v, stamp), "trips"@) matches Some(JsonV::Array(b))
            &&& member(b[i], "checklist"@) == Some(JsonV::Array(Seq::empty()))
        },
{
    lemma_names();
    lemma_second(v, "unplaced"@);
    lemma_third(v, stamp, "places"@);
    lemma_third(second(v), stamp, "places"@);
    let w = before_last(v, stamp);
    lemma_fourth(w, "trips"@);
    reveal_strlit("status");
    reveal_strlit("tripId");
    reveal_strlit("cover");
    reveal_strlit("visits");
    reveal_strlit("category");
    reveal_strlit("date");
    assert("status"@[0] == 's' && "tripId"@[0] == 't' && "cover"@[1] == 'o'
        && "category"@[1] == 'a');
    assert("visits"@[0] == 'v' && "date"@[0] == 'd' && "cover"@[0] == 'c' && "category"@[0] == 'c');
    if let Some(JsonV::Array(a)) = member(v, "places"@) {
        if 0 <= i < a.len() && a[i] is Object {
            let a2 = if version_of(v) == 1 {
                edited_list(Edit::Status, a, Seq::empty())
            } else {
                a
            };
            let a3 = if version_of(v) == 3 {
                a2
            } else {
                edited_list(Edit::Visits, a2, stamp)
            };
            let b = edited_list(Edit::Category, a3, Seq::empty());
            assert(member(current(v, stamp), "places"@) == Some(JsonV::Array(b)));
            let (x, y, z) = (a[i]->Object_0, a2[i]->Object_0, a3[i]->Object_0);
            let n = i as nat;
            law_what_an_edit_adds(Edit::Status, x, Seq::empty(), n, "visits"@);
            law_what_an_edit_adds(Edit::Status, x, Seq::empty(), n, "category"@);
            law_what_an_edit_adds(Edit::Status, x, Seq::empty(), n, "date"@);
            law_what_an_edit_adds(Edit::Visits, y, stamp, n, "status"@);
            law_what_an_edit_adds(Edit::Visits, y, stamp, n, "tripId"@);
            law_what_an_edit_adds(Edit::Visits, y, stamp, n, "cover"@);
            law_what_an_edit_adds(Edit::Visits, y, stamp, n, "category"@);
            law_what_an_edit_adds(Edit::Category, z, Seq::empty(), n, "status"@);
            law_what_an_edit_adds(Edit::Category, z, Seq::empty(), n, "tripId"@);
            law_what_an_edit_adds(Edit::Category, z, Seq::empty(), n, "cover"@);
            law_what_an_edit_adds(Edit::Category, z, Seq::empty(), n, "visits"@);
            assert(lookup(y, "date"@) == lookup(x, "date"@));
            assert(visits_for(y, stamp, n) == visits_for(x, stamp, n));
        }
    }
    if let Some(JsonV::Array(a)) = member(v, "trips"@) {
        if 0 <= i < a.len() && a[i] is Object {
            law_what_an_edit_adds(Edit::Checklist, a[i]->Object_0, stamp, i as nat, "checklist"@);
        }
    }
}

/// A store that does not say its version is of the first.
pub proof fn law_the_version_of_a_store(v: JsonV)
    ensures
        match uint_member(v, "version"@) {
            Some(n) => version_of(v) == n,
            None => version_of(v) == 1,
        },
{
}

/// A migration adds to a store only what its version lacks: lists of trips and of photographs
/// without a place where there are none, and no status to places that are not of the first version.
pub proof fn law_a_migration_adds_no_more(v: JsonV, stamp: Seq<char>, i: int)
    requires
        v is Object,
        version_of(v) < 4,
    ensures
        version_of(v) == 1 && member(v, "trips"@) is None ==> member(current(v, stamp), "trips"@)
            == Some(JsonV::Array(Seq::empty())),
        version_of(v) != 3 && member(v, "unplaced"@) is None ==> member(
            current(v, stamp),
            "unplaced"@,
        ) == Some(JsonV::Array(Seq::empty())),
        version_of(v) == 3 ==> member(current(v, stamp), "unplaced"@) == member(v, "unplaced"@)
            && member(current(v, stamp), "trips"@) == member(v, "trips"@),
        member(v, "places"@) matches Some(JsonV::Array(a)) ==> 0 <= i < a.len() && a[i] is Object
            ==> {
            &&& member(current(v, stamp), "places"@) matches Some(JsonV::Array(b))
            &&& version_of(v) != 1 && member(a[i], "status"@) is None ==> member(
                b[i],
                "status"@,
            ) is None
            &&& version_of(v) == 3 && member(a[i], "visits"@) is None ==> member(
                b[i],
                "visits"@,
            ) is None
        },
{
    lemma_names();
    lemma_second(v, "unplaced"@);
    lemma_third(v, stamp, "places"@);
    lemma_third(second(v), stamp, "places"@);
    let w = before_last(v, stamp);
    lemma_fourth(w, "trips"@);
    lemma_fourth(w, "unplaced"@);
    lemma_new_lists(v, stamp);
    reveal_strlit("status");
    reveal_strlit("visits");
    reveal_strlit("category");
    assert("status"@[0] == 's' && "visits"@[0] == 'v' && "category"@[0] == 'c');
    if let Some(JsonV::Array(a)) = member(v, "places"@) {
        if 0 <= i < a.len() && a[i] is Object && version_of(v) != 1 {
            let a3 = if version_of(v) == 3 {
                a
            } else {
                edited_list(Edit::Visits, a, stamp)
            };
            let b = edited_list(Edit::Category, a3, Seq::empty());
            assert(member(current(v, stamp), "places"@) == Some(JsonV::Array(b)));
            let n = i as nat;
            law_what_an_edit_adds(Edit::Visits, a[i]->Object_0, stamp, n, "status"@);
            law_what_an_edit_adds(Edit::Category, a3[i]->Object_0, Seq::empty(), n, "status"@);
            law_what_an_edit_adds(Edit::Category, a3[i]->Object_0, Seq::empty(), n, "visits"@);
        }
    }
}

/// The lists that the second and the third version added are empty at first.
proof fn lemma_new_lists(v: JsonV, stamp: Seq<char>)
    requires
        v is Object,
    ensures
        member(v, "trips"@) is None ==> member(second(v), "trips"@) == Some(
            JsonV::Array(Seq::empty()),
        ) && member(third(second(v), stamp), "trips"@) == Some(JsonV::Array(Seq::empty())),
        member(v, "unplaced"@) is None ==> member(third(v, stamp), "unplaced"@) == Some(
            JsonV::Array(Seq::empty()),
        ) && member(third(second(v), stamp), "unplaced"@) == Some(JsonV::Array(Seq::empty())),
{
    lemma_names();
    lemma_second(v, "unplaced"@);
    lemma_third(second(v), stamp, "trips"@);
    let a = edit_member(Edit::Status, v, "places"@, Seq::empty());
    lemma_edit_member(Edit::Status, v, "places"@, Seq::empty(), "trips"@);
    lemma_put_default(a, "trips"@, JsonV::Array(Seq::empty()), "places"@);
    assert(edited_list(Edit::Checklist, Seq::empty(), stamp) =~= Seq::empty());
    lemma_new_unplaced(v, stamp);
    lemma_new_unplaced(second(v), stamp);
}

/// The list that the third version added is empty at first.
proof fn lemma_new_unplaced(v: JsonV, stamp: Seq<char>)
    requires
        v is Object,
    ensures
        member(v, "unplaced"@) is None ==> member(third(v, stamp), "unplaced"@) == Some(
            JsonV::Array(Seq::empty()),
        ),
{
    lemma_names();
    let a = edit_member(Edit::Visits, v, "places"@, stamp);
    let b = edit_member(Edit::Checklist, a, "trips"@, stamp);
    let c = put_default(b, "unplaced"@, JsonV::Array(Seq::empty()));
    lemma_edit_member(Edit::Visits, v, "places"@, stamp, "unplaced"@);
    lemma_edit_member(Edit::Checklist, a, "trips"@, stamp, "unplaced"@);
    lemma_put_default(b, "unplaced"@, JsonV::Array(Seq::empty()), "unplaced"@);
    lemma_put(c, "version"@, JsonV::Number(version_number(3)), "unplaced"@);
}

} // verus!
