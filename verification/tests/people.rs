//! The owner's sessions, and what visitors leave behind.

use travel_map_app::codes::sha256_hex;
use travel_map_app::guestbook::{
    delete_message, like_place, list_messages, post_message, track_view, LikeGuard, Liked, Visited,
};
use travel_map_app::json::{Double, Duplicate, Json};
use travel_map_app::model::{GuestMessage, LikeCount, Place, SessionEntry, Store};
use travel_map_app::reply::{settle, settle_sessions, Refusal};
use travel_map_app::session::{
    cleared_cookie, client_ip, cookie_token, ct_eq, is_owner, live_sessions, login, logout,
    session_cookie, LoginOutcome, LOCK_SECS, MAX_FAILS, SESSION_MAX_AGE,
};
use travel_map_app::table::{Mark, Table};

fn text(s: &str) -> Json {
    Json::Text(s.to_string())
}

fn object(members: Vec<(&str, Json)>) -> Json {
    Json::Object(members.into_iter().map(|(k, v)| (k.to_string(), v)).collect())
}

fn password(s: &str) -> Json {
    object(vec![("password", text(s))])
}

fn place(id: &str) -> Place {
    Place {
        id: id.to_string(),
        lng: Double { bits: 0 },
        lat: Double { bits: 0 },
        name: id.to_string(),
        short: id.to_string(),
        city: String::new(),
        country: String::new(),
        em: String::new(),
        date: None,
        rating: 0,
        tags: vec![],
        feel: String::new(),
        photos: vec![],
        cover: None,
        status: "visited".to_string(),
        trip_id: None,
        visits: vec![],
        category: String::new(),
        color: None,
        guide: Json::Null,
    }
}

fn message(id: &str, ts: u64) -> GuestMessage {
    GuestMessage {
        id: id.to_string(),
        name: "a".to_string(),
        text: "b".to_string(),
        ts,
        place_id: None,
    }
}

#[test]
fn the_session_cookie_is_found_among_others() {
    assert_eq!(cookie_token(Some("a=1; session=abc; b=2")).as_deref(), Some("abc"));
    assert_eq!(cookie_token(Some("session=; session=x")).as_deref(), Some("x"));
    assert_eq!(cookie_token(Some("mysession=abc")), None);
    assert_eq!(cookie_token(Some("session=")), None);
    assert_eq!(cookie_token(None), None);
}

#[test]
fn the_proxy_says_who_a_visitor_is() {
    assert_eq!(client_ip(Some(" 1.2.3.4 "), Some("9.9.9.9")), "1.2.3.4");
    assert_eq!(client_ip(Some("  "), Some("6.6.6.6, 5.5.5.5")), "5.5.5.5");
    assert_eq!(client_ip(None, Some("6.6.6.6, 5.5.5.5 , ")), "5.5.5.5");
    assert_eq!(client_ip(None, Some(" , ")), "unknown");
    assert_eq!(client_ip(None, None), "unknown");
}

#[test]
fn passwords_are_compared_byte_by_byte() {
    assert!(ct_eq("", ""));
    assert!(ct_eq("密码", "密码"));
    assert!(!ct_eq("abc", "abd"));
    assert!(!ct_eq("abc", "ab"));
    assert!(!ct_eq("abc", ""));
}

#[test]
fn a_login_makes_the_owner() {
    let (mut table, mut sessions) = (Table::new(), vec![]);
    let r = login(&mut table, &mut sessions, "1.1.1.1", 1000, 1001, "secret", &password("secret"), "cafe");
    assert_eq!(r, LoginOutcome::Granted);
    assert_eq!(sessions.len(), 1);
    assert_eq!(sessions[0].hash, sha256_hex(b"cafe"));
    assert_eq!(sessions[0].exp, 1001 + SESSION_MAX_AGE);
    let cookie = session_cookie("cafe");
    assert_eq!(cookie, "session=cafe; HttpOnly; Secure; SameSite=Lax; Max-Age=2592000; Path=/");
    assert_eq!(cookie_token(Some(&cookie)).as_deref(), Some("cafe"));
    assert!(is_owner(&sessions, Some(&cookie), 2000));
    assert!(!is_owner(&sessions, Some("session=beef"), 2000));
    assert!(!is_owner(&sessions, None, 2000));
    assert!(!is_owner(&sessions, Some(&cookie), 1001 + SESSION_MAX_AGE));
}

#[test]
fn a_logout_ends_one_session() {
    let (mut table, mut sessions) = (Table::new(), vec![]);
    login(&mut table, &mut sessions, "a", 10, 10, "p", &password("p"), "one");
    login(&mut table, &mut sessions, "a", 11, 11, "p", &password("p"), "two");
    assert!(logout(&mut sessions, Some("session=one")));
    assert!(!is_owner(&sessions, Some("session=one"), 20));
    assert!(is_owner(&sessions, Some("session=two"), 20));
    assert!(!logout(&mut sessions, None));
    assert_eq!(sessions.len(), 1);
    assert_eq!(cleared_cookie(), "session=; HttpOnly; Secure; SameSite=Lax; Max-Age=0; Path=/");
}

#[test]
fn without_a_password_nobody_is_let_in() {
    let (mut table, mut sessions) = (Table::new(), vec![]);
    let r = login(&mut table, &mut sessions, "a", 10, 10, "", &password(""), "t");
    assert_eq!(r, LoginOutcome::Refused);
    let r = login(&mut table, &mut sessions, "a", 10, 10, "p", &Json::Null, "t");
    assert_eq!(r, LoginOutcome::Refused);
    assert!(sessions.is_empty());
}

#[test]
fn failures_lock_an_address_out() {
    let (mut table, mut sessions) = (Table::new(), vec![]);
    for _ in 0..MAX_FAILS {
        let r = login(&mut table, &mut sessions, "a", 100, 100, "p", &password("x"), "t");
        assert_eq!(r, LoginOutcome::Refused);
    }
    assert_eq!(table.get("a"), Some(Mark { count: MAX_FAILS, time: 100 + LOCK_SECS }));
    let r = login(&mut table, &mut sessions, "a", 101, 101, "p", &password("p"), "t");
    assert_eq!(r, LoginOutcome::Locked);
    let r = login(&mut table, &mut sessions, "b", 101, 101, "p", &password("p"), "t");
    assert_eq!(r, LoginOutcome::Granted);
    let r = login(&mut table, &mut sessions, "a", 100 + LOCK_SECS, 1000, "p", &password("x"), "t");
    assert_eq!(r, LoginOutcome::Refused);
    assert_eq!(table.get("a").unwrap().count, 1);
    let r = login(&mut table, &mut sessions, "a", 1001, 1001, "p", &password("p"), "t");
    assert_eq!(r, LoginOutcome::Granted);
    assert_eq!(table.get("a"), None);
}

#[test]
fn refusals_lock_out_whoever_else_tries() {
    let (mut table, mut sessions) = (Table::new(), vec![]);
    table.insert("a", Mark { count: 5, time: 50 });
    let mut now = 100;
    for i in 0..MAX_FAILS {
        let r = login(&mut table, &mut sessions, "a", now, now, "p", &password("x"), "t");
        assert_eq!(r, LoginOutcome::Refused);
        let given = if i % 2 == 0 { "p" } else { "y" };
        login(&mut table, &mut sessions, "b", now + 1, now + 1, "p", &password(given), "t");
        now += 899;
    }
    let last = now - 899;
    let r = login(&mut table, &mut sessions, "a", last + 899, last + 899, "p", &password("p"), "t");
    assert_eq!(r, LoginOutcome::Locked);
    let r = login(&mut table, &mut sessions, "a", last + 900, last + 900, "p", &password("p"), "t");
    assert_eq!(r, LoginOutcome::Granted);
}

#[test]
fn visits_by_the_owner_never_overflow() {
    let mut store = Store::default();
    store.views = u64::MAX;
    assert_eq!(track_view(&mut store, true), Visited::Skipped);
}

#[test]
fn ended_sessions_are_dropped() {
    let list = vec![
        SessionEntry { hash: "a".to_string(), exp: 5 },
        SessionEntry { hash: "b".to_string(), exp: 6 },
        SessionEntry { hash: "c".to_string(), exp: 7 },
    ];
    let live = live_sessions(&list, 6);
    assert_eq!(live.len(), 1);
    assert_eq!(live[0].hash, "c");
}

#[test]
fn a_table_keeps_one_mark_per_key() {
    let mut t = Table::new();
    assert_eq!(t.len(), 0);
    t.insert("a", Mark { count: 1, time: 10 });
    t.insert("b", Mark { count: 2, time: 20 });
    t.insert("a", Mark { count: 3, time: 30 });
    assert_eq!(t.len(), 2);
    assert_eq!(t.get("a"), Some(Mark { count: 3, time: 30 }));
    t.retain(5, 24);
    assert_eq!(t.get("b"), Some(Mark { count: 2, time: 20 }));
    t.retain(5, 25);
    assert_eq!(t.get("b"), None);
    t.remove("a");
    assert_eq!(t.len(), 0);
}

#[test]
fn a_visitor_gives_a_place_one_heart() {
    let mut store = Store::default();
    store.places.push(place("p1"));
    store.likes.push(LikeCount { place_id: "p1".to_string(), count: 4 });
    let mut guard = LikeGuard::new();
    assert_eq!(like_place(&mut store, &mut guard, "a", "p1"), Ok(Liked { likes: 5, already: false }));
    assert_eq!(like_place(&mut store, &mut guard, "a", "p1"), Ok(Liked { likes: 5, already: true }));
    assert_eq!(like_place(&mut store, &mut guard, "b", "p1"), Ok(Liked { likes: 6, already: false }));
    assert_eq!(like_place(&mut store, &mut guard, "a", "p2"), Err(Refusal::LikedPlaceNotFound));
    assert!(guard.remembers("a", "p1") && !guard.remembers("c", "p1"));
    guard.forget("a", "p1");
    assert!(!guard.remembers("a", "p1"));
    assert_eq!(like_place(&mut store, &mut guard, "a", "p1"), Ok(Liked { likes: 7, already: false }));
}

#[test]
fn a_place_without_hearts_gets_its_first() {
    let mut store = Store::default();
    store.places.push(place("p1"));
    let mut guard = LikeGuard::new();
    assert_eq!(like_place(&mut store, &mut guard, "a", "p1"), Ok(Liked { likes: 1, already: false }));
    assert_eq!(store.likes, vec![LikeCount { place_id: "p1".to_string(), count: 1 }]);
}

#[test]
fn messages_are_shown_from_the_newest() {
    let mut store = Store::default();
    for (id, ts) in [("a", 5), ("b", 9), ("c", 5), ("d", 7)] {
        store.messages.push(message(id, ts));
    }
    let ids: Vec<String> = list_messages(&store).into_iter().map(|m| m.id).collect();
    assert_eq!(ids, ["b", "d", "a", "c"]);
    for i in 0..600 {
        store.messages.push(message("x", i));
    }
    assert_eq!(list_messages(&store).len(), 500);
}

#[test]
fn visitors_leave_messages() {
    let mut store = Store::default();
    let mut table = Table::new();
    let body = object(vec![("name", text("  ")), ("text", text(" 好看！\u{0} ")), ("placeId", text(" p1 "))]);
    let m = post_message(&mut store, &mut table, "a", 100, &body, "1f").unwrap();
    assert_eq!(m.id, "m_1f");
    assert_eq!(m.name, "访客");
    assert_eq!(m.text, "好看！");
    assert_eq!(m.ts, 100);
    assert_eq!(m.place_id.as_deref(), Some("p1"));
    assert_eq!(store.messages, vec![m]);
    assert_eq!(
        post_message(&mut store, &mut table, "a", 119, &body, "2"),
        Err(Refusal::MessageTooSoon)
    );
    assert!(post_message(&mut store, &mut table, "b", 119, &body, "3").is_ok());
    assert!(post_message(&mut store, &mut table, "a", 120, &body, "4").is_ok());
    let empty = object(vec![("text", text(" \n "))]);
    assert_eq!(
        post_message(&mut store, &mut table, "c", 120, &empty, "5"),
        Err(Refusal::MessageEmpty)
    );
    assert_eq!(
        post_message(&mut store, &mut table, "c", 121, &body, "6"),
        Err(Refusal::MessageTooSoon)
    );
    assert_eq!(store.messages.len(), 3);
}

#[test]
fn the_guest_book_is_bounded() {
    let mut store = Store::default();
    for i in 0..5000 {
        store.messages.push(message(&format!("{}", i), i));
    }
    let mut table = Table::new();
    let body = object(vec![("text", text("hello"))]);
    post_message(&mut store, &mut table, "a", 9000, &body, "new").unwrap();
    assert_eq!(store.messages.len(), 5000);
    assert_eq!(store.messages[0].id, "1");
    assert_eq!(store.messages[4999].id, "m_new");
}

#[test]
fn the_owner_deletes_messages() {
    let mut store = Store::default();
    store.messages.push(message("a", 1));
    store.messages.push(message("b", 2));
    assert_eq!(delete_message(&mut store, false, "a"), Err(Refusal::Unauthorized));
    assert_eq!(delete_message(&mut store, true, "x"), Ok(false));
    assert_eq!(delete_message(&mut store, true, "a"), Ok(true));
    assert_eq!(store.messages.len(), 1);
    assert_eq!(store.messages[0].id, "b");
}

#[test]
fn visits_are_counted_but_not_the_owner_s() {
    let mut store = Store::default();
    store.views = 3;
    assert_eq!(track_view(&mut store, true), Visited::Skipped);
    assert_eq!(store.views, 3);
    assert_eq!(track_view(&mut store, false), Visited::Counted { save: false });
    assert_eq!(track_view(&mut store, false), Visited::Counted { save: true });
    assert_eq!(store.views, 5);
}

#[test]
fn a_change_that_was_not_written_is_taken_back() {
    let mut store = Store::default();
    let before = store.copy();
    store.views = 7;
    assert_eq!(settle(&mut store, before, true), Ok(()));
    assert_eq!(store.views, 7);
    let before = Store::default();
    assert_eq!(settle(&mut store, before, false), Err(Refusal::WriteFailed));
    assert_eq!(store, Store::default());
}

#[test]
fn sessions_that_were_not_written_are_taken_back() {
    let entry = |hash: &str| SessionEntry { hash: hash.to_string(), exp: 9 };
    let mut sessions = vec![entry("a"), entry("b")];
    assert_eq!(settle_sessions(&mut sessions, vec![entry("a")], true), Ok(()));
    assert_eq!(sessions, vec![entry("a"), entry("b")]);
    assert_eq!(
        settle_sessions(&mut sessions, vec![entry("a")], false),
        Err(Refusal::WriteFailed)
    );
    assert_eq!(sessions, vec![entry("a")]);
}

#[test]
fn refusals_have_a_status_and_words() {
    let expected = [
        (Refusal::Unauthorized, 401, "unauthorized"),
        (Refusal::LatLngRequired, 400, "lat/lng required"),
        (Refusal::NameRequired, 400, "name required"),
        (Refusal::InvalidCategory, 400, "invalid category"),
        (Refusal::VisitsNotArray, 400, "visits must be array"),
        (Refusal::VisitNotObject, 400, "visits element must be object"),
        (Refusal::VisitDateNotText, 400, "visit date must be string"),
        (Refusal::VisitNoteNotText, 400, "visit note must be string"),
        (Refusal::ChecklistNotArray, 400, "checklist must be array"),
        (Refusal::ChecklistNotObject, 400, "checklist element must be object"),
        (Refusal::ChecklistTextNotText, 400, "checklist text must be string"),
        (Refusal::AssignIncomplete, 400, "placeId or lat/lng/name required"),
        (Refusal::PlaceNotFound, 404, "place not found"),
        (Refusal::PhotoNotFound, 404, "photo not found"),
        (Refusal::TripNotFound, 404, "trip not found"),
        (Refusal::UnplacedNotFound, 404, "unplaced not found"),
        (Refusal::LikedPlaceNotFound, 404, "地点不存在"),
        (Refusal::MessageTooSoon, 429, "留言太频繁，请过一会儿再来"),
        (Refusal::MessageEmpty, 400, "留言内容为空"),
        (Refusal::WriteFailed, 500, "写盘失败，改动未保存"),
    ];
    let flagged = [
        Refusal::Unauthorized,
        Refusal::LikedPlaceNotFound,
        Refusal::MessageTooSoon,
        Refusal::MessageEmpty,
        Refusal::WriteFailed,
    ];
    for (e, status, words) in expected {
        assert_eq!(e.status(), status);
        assert_eq!(e.message(), words);
        assert_eq!(e.is_flagged(), flagged.contains(&e));
    }
}
