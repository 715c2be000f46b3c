//! Places, trips, photographs without a position, the profile, and what guests see of them.

use travel_map_app::json::{Double, Duplicate, Json, Number};
use travel_map_app::model::{
    ChecklistItem, City, GuestMessage, LikeCount, Photo, Place, Store, Trip, UnplacedPhoto, Visit,
};
use travel_map_app::places::{create_place, delete_place, delete_place_photo, patch_place};
use travel_map_app::privacy::{listed, places, sanitize_place_for_guest, site_config};
use travel_map_app::reply::Refusal;
use travel_map_app::trips::{create_trip, delete_trip, patch_trip};
use travel_map_app::unplaced::{assign_unplaced, delete_unplaced, list_unplaced, patch_profile};

fn text(s: &str) -> Json {
    Json::Text(s.to_string())
}

fn object(members: Vec<(&str, Json)>) -> Json {
    Json::Object(members.into_iter().map(|(k, v)| (k.to_string(), v)).collect())
}

fn whole(n: u64) -> Json {
    Json::Number(Number {
        unsigned: Some(n),
        signed: Some(n as i64),
        double: Double { bits: (n as f64).to_bits() },
    })
}

fn fraction(x: f64) -> Json {
    Json::Number(Number { unsigned: None, signed: None, double: double(x) })
}

fn double(x: f64) -> Double {
    Double { bits: x.to_bits() }
}

fn photo(id: &str) -> Photo {
    Photo {
        id: id.to_string(),
        url: format!("/photos/{}.jpg", id),
        thumb: format!("/photos/thumb/{}.jpg", id),
        date: Some("2026.06.18".to_string()),
    }
}

fn place(id: &str) -> Place {
    Place {
        id: id.to_string(),
        lng: double(139.7967),
        lat: double(35.7148),
        name: "浅草寺".to_string(),
        short: "浅草寺".to_string(),
        city: "东京".to_string(),
        country: "日本".to_string(),
        em: "⛩️".to_string(),
        date: Some("2026.06.18".to_string()),
        rating: 5,
        tags: vec!["寺庙".to_string()],
        feel: "雷门".to_string(),
        photos: vec![photo("a"), photo("b")],
        cover: Some("/photos/thumb/a.jpg".to_string()),
        status: "visited".to_string(),
        trip_id: Some("t1".to_string()),
        visits: vec![Visit {
            id: "v".to_string(),
            date: "2026.06.18".to_string(),
            note: String::new(),
            rating: 4,
        }],
        category: "景点".to_string(),
        color: Some("#123456".to_string()),
        guide: Json::Null,
    }
}

fn trip(id: &str) -> Trip {
    Trip {
        id: id.to_string(),
        name: "东京".to_string(),
        em: "🧳".to_string(),
        color: "#E0684F".to_string(),
        start_date: "2026.06.17".to_string(),
        end_date: "2026.06.20".to_string(),
        note: String::new(),
        status: "done".to_string(),
        checklist: vec![],
        guide: Json::Null,
    }
}

fn unplaced(id: &str) -> UnplacedPhoto {
    UnplacedPhoto {
        id: id.to_string(),
        url: format!("/photos/{}.jpg", id),
        thumb: format!("/photos/thumb/{}.jpg", id),
        name: "IMG_1.jpg".to_string(),
    }
}

fn sample() -> Store {
    let mut s = Store::default();
    s.places.push(place("p1"));
    s.places.push(place("p2"));
    s.trips.push(trip("t1"));
    s.unplaced.push(unplaced("u1"));
    s.unplaced.push(unplaced("u2"));
    s
}

#[test]
fn a_place_is_created_from_a_request() {
    let mut s = Store::default();
    let body = object(vec![
        ("name", text("  镰仓大佛 ")),
        ("lat", fraction(35.3169)),
        ("lng", fraction(139.5359)),
        ("short", text("  ")),
        ("city", text("镰仓")),
        ("rating", whole(9)),
        ("tags", Json::Array(vec![text("海边"), whole(1), text("古都")])),
        ("status", text("visited")),
        ("category", text("景点")),
        ("tripId", text("t1")),
        ("date", text("2026.06.19")),
    ]);
    let p = create_place(&mut s, true, &body, "1f").unwrap();
    assert_eq!(p.id, "p_1f");
    assert_eq!(p.name, "镰仓大佛");
    assert_eq!(p.short, "镰仓大佛");
    assert_eq!((p.lat, p.lng), (double(35.3169), double(139.5359)));
    assert_eq!(p.em, "📍");
    assert_eq!(p.rating, 5);
    assert_eq!(p.tags, ["海边", "古都"]);
    assert_eq!(p.status, "visited");
    assert_eq!(p.category, "景点");
    assert_eq!(p.trip_id.as_deref(), Some("t1"));
    assert_eq!(p.date.as_deref(), Some("2026.06.19"));
    assert!(p.photos.is_empty() && p.visits.is_empty() && p.color.is_none() && p.cover.is_none());
    assert_eq!(s.places, vec![p]);
}

#[test]
fn a_place_that_is_wrong_is_not_created() {
    let mut s = Store::default();
    let bare = object(vec![("name", text("x")), ("lat", whole(1)), ("lng", whole(2))]);
    assert_eq!(create_place(&mut s, false, &bare, "1"), Err(Refusal::Unauthorized));
    let no_lng = object(vec![("name", text("x")), ("lat", whole(1)), ("lng", text("2"))]);
    assert_eq!(create_place(&mut s, true, &no_lng, "1"), Err(Refusal::LatLngRequired));
    let no_name = object(vec![("name", text(" ")), ("lat", whole(1)), ("lng", whole(2))]);
    assert_eq!(create_place(&mut s, true, &no_name, "1"), Err(Refusal::NameRequired));
    let odd = object(vec![
        ("name", text("x")),
        ("lat", whole(1)),
        ("lng", whole(2)),
        ("category", text("酒吧")),
    ]);
    assert_eq!(create_place(&mut s, true, &odd, "1"), Err(Refusal::InvalidCategory));
    assert_eq!(s, Store::default());
    let p = create_place(&mut s, true, &bare, "1").unwrap();
    assert_eq!(p.status, "planned");
    assert_eq!(p.lat, double(1.0));
}

#[test]
fn a_place_is_changed_field_by_field() {
    let mut s = sample();
    let body = object(vec![
        ("name", text(" ")),
        ("short", text(" 雷门 ")),
        ("em", text("<🗿>")),
        ("feel", text("震撼")),
        ("rating", whole(3)),
        ("lat", fraction(1.5)),
        ("date", Json::Null),
        ("cover", whole(3)),
        ("tripId", text("t9")),
        ("status", text("gone")),
        ("category", Json::Null),
        ("guide", object(vec![("stay", text("1h"))])),
    ]);
    let p = patch_place(&mut s, true, "p2", &body, "9").unwrap();
    assert_eq!(p.name, "浅草寺");
    assert_eq!(p.short, "雷门");
    assert_eq!(p.em, "🗿");
    assert_eq!(p.feel, "震撼");
    assert_eq!(p.rating, 3);
    assert_eq!(p.lat, double(1.5));
    assert_eq!(p.lng, double(139.7967));
    assert_eq!(p.date, None);
    assert_eq!(p.cover, None);
    assert_eq!(p.trip_id.as_deref(), Some("t9"));
    assert_eq!(p.status, "visited");
    assert_eq!(p.category, "");
    assert_eq!(p.guide.get_str("stay"), Some("1h"));
    assert_eq!(s.places[0], place("p1"));
    assert_eq!(s.places[1], p);
    let again = patch_place(&mut s, true, "p2", &body, "9").unwrap();
    assert_eq!(again, p);
}

#[test]
fn visits_set_the_date_to_the_earliest() {
    let mut s = sample();
    let body = object(vec![(
        "visits",
        Json::Array(vec![
            object(vec![("date", text("2026.07.01")), ("note", text("again")), ("rating", whole(7))]),
            object(vec![("id", text("v_old")), ("date", text("2025.12.31"))]),
            object(vec![("id", text(" ")), ("date", Json::Null)]),
        ]),
    )]);
    let p = patch_place(&mut s, true, "p1", &body, "ab").unwrap();
    assert_eq!(p.date.as_deref(), Some("2025.12.31"));
    assert_eq!(p.visits.len(), 3);
    assert_eq!(p.visits[0].id, "v_ab_0");
    assert_eq!(p.visits[0].rating, 5);
    assert_eq!(p.visits[0].note, "again");
    assert_eq!(p.visits[1].id, "v_old");
    assert_eq!(p.visits[2].id, "v_ab_2");
    assert_eq!(p.visits[2].date, "");

    let undated = object(vec![("visits", Json::Array(vec![object(vec![])]))]);
    let p = patch_place(&mut s, true, "p1", &undated, "cd").unwrap();
    assert_eq!(p.date.as_deref(), Some("2025.12.31"));
}

#[test]
fn a_change_with_anything_wrong_changes_nothing() {
    let mut s = sample();
    let with = |k: &str, v: Json| object(vec![("name", text("new")), (k, v)]);
    let visits = |v: Json| with("visits", Json::Array(vec![v]));
    let cases = vec![
        (with("visits", text("x")), Refusal::VisitsNotArray),
        (visits(text("x")), Refusal::VisitNotObject),
        (visits(object(vec![("date", whole(1))])), Refusal::VisitDateNotText),
        (visits(object(vec![("note", whole(1))])), Refusal::VisitNoteNotText),
        (with("category", text("酒吧")), Refusal::InvalidCategory),
        (with("category", whole(1)), Refusal::InvalidCategory),
    ];
    for (body, e) in cases {
        assert_eq!(patch_place(&mut s, true, "p1", &body, "1"), Err(e));
    }
    let body = object(vec![("name", text("new"))]);
    assert_eq!(patch_place(&mut s, true, "p9", &body, "1"), Err(Refusal::PlaceNotFound));
    assert_eq!(patch_place(&mut s, false, "p1", &body, "1"), Err(Refusal::Unauthorized));
    assert_eq!(s, sample());
}

#[test]
fn a_place_goes_with_its_photographs() {
    let mut s = sample();
    assert_eq!(delete_place(&mut s, false, "p1"), Err(Refusal::Unauthorized));
    assert_eq!(delete_place(&mut s, true, "p9"), Err(Refusal::PlaceNotFound));
    assert_eq!(delete_place(&mut s, true, "p1").unwrap(), ["a", "b"]);
    assert_eq!(s.places, vec![place("p2")]);
}

#[test]
fn deleting_what_was_created_leaves_the_store_as_it_was() {
    let mut s = sample();
    let bare = object(vec![("name", text("x")), ("lat", whole(1)), ("lng", whole(2))]);
    let p = create_place(&mut s, true, &bare, "new").unwrap();
    assert_eq!(s.places.len(), 3);
    assert!(delete_place(&mut s, true, &p.id).unwrap().is_empty());
    assert_eq!(s, sample());
}

#[test]
fn a_deleted_photograph_is_no_cover() {
    let mut s = sample();
    assert_eq!(
        delete_place_photo(&mut s, true, "p1", "x"),
        Err(Refusal::PhotoNotFound)
    );
    assert_eq!(delete_place_photo(&mut s, true, "p9", "a"), Err(Refusal::PlaceNotFound));
    assert_eq!(delete_place_photo(&mut s, false, "p1", "a"), Err(Refusal::Unauthorized));
    let (p, gone) = delete_place_photo(&mut s, true, "p1", "b").unwrap();
    assert_eq!(gone, "b");
    assert_eq!(p.cover.as_deref(), Some("/photos/thumb/a.jpg"));
    let (p, gone) = delete_place_photo(&mut s, true, "p1", "a").unwrap();
    assert_eq!(gone, "a");
    assert_eq!(p.cover, None);
    assert!(p.photos.is_empty());
    assert_eq!(s.places[1], place("p2"));
}

#[test]
fn a_trip_is_created_with_its_checklist() {
    let mut s = Store::default();
    let body = object(vec![
        ("name", text(" 北海道 ")),
        ("startDate", text("2027.01")),
        (
            "checklist",
            Json::Array(vec![
                object(vec![("text", text("护照")), ("done", Json::Bool(true))]),
                object(vec![("id", text("c9")), ("text", Json::Null), ("done", text("yes"))]),
            ]),
        ),
    ]);
    let t = create_trip(&mut s, true, &body, "7").unwrap();
    assert_eq!((t.id.as_str(), t.name.as_str(), t.em.as_str()), ("t_7", "北海道", "🧳"));
    assert_eq!((t.status.as_str(), t.start_date.as_str(), t.end_date.as_str()), ("planned", "2027.01", ""));
    assert_eq!(
        t.checklist,
        vec![
            ChecklistItem { id: "c_7_0".to_string(), text: "护照".to_string(), done: true },
            ChecklistItem { id: "c9".to_string(), text: String::new(), done: false },
        ]
    );
    assert_eq!(s.trips, vec![t]);
}

#[test]
fn a_trip_that_is_wrong_is_refused() {
    let mut s = sample();
    let nameless = object(vec![("checklist", text("x"))]);
    assert_eq!(create_trip(&mut s, false, &nameless, "1"), Err(Refusal::Unauthorized));
    assert_eq!(create_trip(&mut s, true, &nameless, "1"), Err(Refusal::NameRequired));
    let cases = vec![
        (text("x"), Refusal::ChecklistNotArray),
        (Json::Array(vec![whole(1)]), Refusal::ChecklistNotObject),
        (Json::Array(vec![object(vec![("text", whole(1))])]), Refusal::ChecklistTextNotText),
    ];
    for (list, e) in cases {
        let body = object(vec![("name", text("x")), ("checklist", list)]);
        assert_eq!(create_trip(&mut s, true, &body, "1"), Err(e));
        assert_eq!(patch_trip(&mut s, true, "t9", &body, "1"), Err(e));
    }
    let body = object(vec![("name", text("x"))]);
    assert_eq!(patch_trip(&mut s, true, "t9", &body, "1"), Err(Refusal::TripNotFound));
    assert_eq!(patch_trip(&mut s, false, "t1", &body, "1"), Err(Refusal::Unauthorized));
    assert_eq!(s, sample());
}

#[test]
fn a_trip_is_changed_field_by_field() {
    let mut s = sample();
    let body = object(vec![
        ("name", text("关东")),
        ("color", text("#000000")),
        ("endDate", text("")),
        ("status", text("planned")),
        ("note", text("n")),
        ("checklist", Json::Array(vec![object(vec![("text", text("雨伞"))])])),
        ("guide", object(vec![("days", whole(4))])),
    ]);
    let t = patch_trip(&mut s, true, "t1", &body, "5").unwrap();
    assert_eq!((t.name.as_str(), t.color.as_str(), t.status.as_str()), ("关东", "#000000", "planned"));
    assert_eq!((t.start_date.as_str(), t.end_date.as_str(), t.note.as_str()), ("2026.06.17", "", "n"));
    assert_eq!(t.checklist[0].id, "c_5_0");
    assert_eq!(t.guide.get_u64("days"), Some(4));
    assert_eq!(t.em, "🧳");
    assert_eq!(patch_trip(&mut s, true, "t1", &body, "5").unwrap(), t);
}

#[test]
fn places_outlive_their_trip() {
    let mut s = sample();
    s.places[1].trip_id = Some("t2".to_string());
    assert_eq!(delete_trip(&mut s, false, "t1"), Err(Refusal::Unauthorized));
    assert_eq!(delete_trip(&mut s, true, "t9"), Err(Refusal::TripNotFound));
    assert_eq!(delete_trip(&mut s, true, "t1"), Ok(()));
    assert!(s.trips.is_empty());
    assert_eq!(s.places.len(), 2);
    assert_eq!(s.places[0].trip_id, None);
    assert_eq!(s.places[1].trip_id.as_deref(), Some("t2"));
    let mut expected = place("p1");
    expected.trip_id = None;
    assert_eq!(s.places[0], expected);
}

#[test]
fn a_photograph_joins_a_place() {
    let mut s = sample();
    let body = object(vec![("placeId", text("p2"))]);
    let p = assign_unplaced(&mut s, true, "u1", &body, "1").unwrap();
    assert_eq!(p.photos.len(), 3);
    assert_eq!(p.photos[2].id, "u1");
    assert_eq!(p.photos[2].date, None);
    assert_eq!(s.places[1], p);
    assert_eq!(s.unplaced, vec![unplaced("u2")]);
}

#[test]
fn a_photograph_makes_a_place() {
    let mut s = sample();
    let body = object(vec![
        ("placeId", text("  ")),
        ("lat", fraction(35.0)),
        ("lng", fraction(139.0)),
        ("name", text(" 台场 ")),
        ("date", text("2026.06.20")),
    ]);
    let p = assign_unplaced(&mut s, true, "u2", &body, "3").unwrap();
    assert_eq!((p.id.as_str(), p.name.as_str(), p.short.as_str()), ("p_3", "台场", "台场"));
    assert_eq!((p.status.as_str(), p.em.as_str()), ("visited", "📍"));
    assert_eq!(p.date.as_deref(), Some("2026.06.20"));
    assert_eq!(p.photos.len(), 1);
    assert_eq!(p.photos[0].id, "u2");
    assert_eq!(p.photos[0].date.as_deref(), Some("2026.06.20"));
    assert_eq!(s.places.len(), 3);
    assert_eq!(s.unplaced, vec![unplaced("u1")]);
}

#[test]
fn a_photograph_needs_somewhere_to_go() {
    let mut s = sample();
    let body = object(vec![("lat", fraction(1.0)), ("lng", fraction(2.0)), ("name", text(" "))]);
    assert_eq!(assign_unplaced(&mut s, false, "u1", &body, "1"), Err(Refusal::Unauthorized));
    assert_eq!(assign_unplaced(&mut s, true, "u9", &body, "1"), Err(Refusal::UnplacedNotFound));
    assert_eq!(assign_unplaced(&mut s, true, "u1", &body, "1"), Err(Refusal::AssignIncomplete));
    let lost = object(vec![("placeId", text("p9"))]);
    assert_eq!(assign_unplaced(&mut s, true, "u1", &lost, "1"), Err(Refusal::PlaceNotFound));
    assert_eq!(s, sample());
    assert_eq!(list_unplaced(&s, false), Err(Refusal::Unauthorized));
    assert_eq!(list_unplaced(&s, true).unwrap(), vec![unplaced("u1"), unplaced("u2")]);
    assert_eq!(delete_unplaced(&mut s, false, "u1"), Err(Refusal::Unauthorized));
    assert_eq!(delete_unplaced(&mut s, true, "u9"), Err(Refusal::UnplacedNotFound));
    assert_eq!(delete_unplaced(&mut s, true, "u1").unwrap(), "u1");
    assert_eq!(s.unplaced, vec![unplaced("u2")]);
}

#[test]
fn the_profile_keeps_within_its_limits() {
    let mut s = sample();
    let long = "字".repeat(2500);
    let body = object(vec![("name", text(&format!("  {}", long))), ("about", text(&long))]);
    assert_eq!(patch_profile(&mut s, false, &body), Err(Refusal::Unauthorized));
    s.profile.bio = "old".to_string();
    let p = patch_profile(&mut s, true, &body).unwrap();
    assert_eq!(p.name, "字".repeat(30));
    assert_eq!(p.bio, "old");
    assert_eq!(p.about, "字".repeat(2000));
    assert_eq!(s.profile, p);
    let body = object(vec![("bio", text(&long))]);
    assert_eq!(patch_profile(&mut s, true, &body).unwrap().bio, "字".repeat(80));
}

#[test]
fn guests_see_neither_the_day_nor_the_house() {
    let p = place("p1");
    let g = sanitize_place_for_guest(&p, double(35.71), double(139.8));
    assert_eq!((g.lat, g.lng), (double(35.71), double(139.8)));
    assert_eq!(g.date.as_deref(), Some("2026.06"));
    assert_eq!(g.visits[0].date, "2026.06");
    assert_eq!(g.photos[0].date.as_deref(), Some("2026.06"));
    assert_eq!(g.photos[1].date.as_deref(), Some("2026.06"));
    assert_eq!((g.name.as_str(), g.feel.as_str(), g.rating), ("浅草寺", "雷门", 5));
    assert_eq!(sanitize_place_for_guest(&g, double(35.71), double(139.8)), g);
}

#[test]
fn the_map_is_listed_for_owner_and_guests() {
    let mut s = sample();
    s.views = 12;
    s.likes.push(LikeCount { place_id: "p1".to_string(), count: 3 });
    s.messages.push(GuestMessage {
        id: "m".to_string(),
        name: "n".to_string(),
        text: "t".to_string(),
        ts: 1,
        place_id: None,
    });
    let mut seed = Store::default();
    seed.places.push(place("seed"));
    seed.cities.push(City { nm: "横滨".to_string(), lng: double(139.638), lat: double(35.444) });

    let all = places(&s, Some(&seed), true, &vec![]);
    assert_eq!(all.places, s.places);
    assert_eq!(all.views, Some(12));
    assert_eq!(all.msg_count, 1);
    assert_eq!(all.likes, s.likes);

    let rounded = vec![(double(35.71), double(139.8)), (double(1.0), double(2.0))];
    let some = places(&s, None, false, &rounded);
    assert_eq!(some.views, None);
    assert_eq!(some.places[1].lat, double(1.0));
    assert_eq!(some.places[1].date.as_deref(), Some("2026.06"));
    assert_eq!(some.trips, s.trips);

    s.places.clear();
    assert_eq!(listed(&s, Some(&seed)).places.len(), 1);
    assert_eq!(listed(&s, None).places.len(), 0);
    let shown = places(&s, Some(&seed), false, &vec![(double(35.71), double(139.8))]);
    assert_eq!(shown.places[0].id, "seed");
    assert_eq!(shown.cities.len(), 1);
    assert!(shown.trips.is_empty());
    let empty = places(&s, None, true, &vec![]);
    assert!(empty.places.is_empty());
    assert_eq!(empty.trips, s.trips);
    assert_eq!(empty.profile, s.profile.copy());
}

#[test]
fn the_site_tells_its_registration() {
    let v = site_config("沪ICP备1号");
    assert_eq!(v.get_str("icp"), Some("沪ICP备1号"));
    assert_eq!(v.get_str("icpUrl"), Some("https://beian.miit.gov.cn/"));
}
