//! Numbers, texts, names and JSON values.

use std::time::{Duration, UNIX_EPOCH};
use travel_map_app::codes::{
    decimal_of, hex_of, new_token, now_secs, numbered, numeral_of, parse_number, secs_when,
    sha256_hex, uid, uid_at, uid_when,
};
use travel_map_app::json::{with, with_missing, Double, Duplicate, Json, Number};
use travel_map_app::model::{
    default_place_status, default_trip_status, default_version, is_valid_category, Store,
};
use travel_map_app::names::{
    geocode, jp_pref_name, normalize_city, reverse_geocode, sanitize_em, sanitize_text,
    trip_group_name, trunc_ym,
};
use travel_map_app::settings::{
    bind_addr, cache_dir, corrupt_copy_name, data_dir, demo_seed, import_cap_bytes, map_mode,
    ofm_style, photo_dir, photo_file_name, port, replaced_copy_name, sessions_file, site_origin,
    store_file, thumb_dir, tile_cache_cap_bytes, BODY_LIMIT, UPLOAD_LIMIT,
};
use travel_map_app::text::{
    contains, ends_with, is_blank, is_control, is_white_space, less, replace, replace_once,
    starts_with, strip_prefix, trim,
};

fn text(s: &str) -> Json {
    Json::Text(s.to_string())
}

fn object(members: Vec<(&str, Json)>) -> Json {
    Json::Object(members.into_iter().map(|(k, v)| (k.to_string(), v)).collect())
}

#[test]
fn numbers_are_written_without_leading_zeros() {
    assert_eq!(numeral_of(0, 16), "0");
    assert_eq!(numeral_of(255, 16), "ff");
    assert_eq!(numeral_of(1_750_000_000_123_456_789, 16), format!("{:x}", 1_750_000_000_123_456_789u128));
    assert_eq!(numeral_of(u128::MAX, 16), format!("{:x}", u128::MAX));
    assert_eq!(decimal_of(0), "0");
    assert_eq!(decimal_of(20_260_619), "20260619");
    assert_eq!(uid_at(0x1234_abcd), "1234abcd");
    assert_eq!(numbered("v_", "1f", 12), "v_1f_12");
}

#[test]
fn bytes_are_written_in_hexadecimal() {
    assert_eq!(hex_of(&[]), "");
    assert_eq!(hex_of(&[0, 1, 15, 16, 171, 255]), "00010f10abff");
    assert_ne!(hex_of(&[1, 35]), hex_of(&[18, 3]));
}

#[test]
fn hashes_are_sha256() {
    assert_eq!(
        sha256_hex(b""),
        "e3b0c44298fc1c149afbf4c8996fb92427ae41e4649b934ca495991b7852b855"
    );
    assert_eq!(
        sha256_hex(b"abc"),
        "ba7816bf8f01cfea414140de5dae2223b00361a396177a9cb410ff61f20015ad"
    );
}

#[test]
fn tokens_are_long_and_never_the_same() {
    let (a, b) = (new_token(), new_token());
    assert_eq!(a.len(), 64);
    assert!(a.chars().all(|c| c.is_ascii_digit() || ('a'..='f').contains(&c)));
    assert_ne!(a, b);
}

#[test]
fn the_clock_makes_ids() {
    let before = now_secs().unwrap();
    let id = uid().unwrap();
    let nanos = u128::from_str_radix(&id, 16).unwrap();
    let after = now_secs().unwrap();
    assert!(before as u128 <= nanos / 1_000_000_000);
    assert!(nanos / 1_000_000_000 <= after as u128);
    assert!(before > 1_600_000_000);
}

#[test]
fn a_moment_makes_an_id_and_a_time() {
    let t = UNIX_EPOCH + Duration::new(1_750_000_000, 123_456_789);
    assert_eq!(uid_when(t), Some(format!("{:x}", 1_750_000_000_123_456_789u128)));
    assert_eq!(secs_when(t), Some(1_750_000_000));
    assert_eq!(uid_when(UNIX_EPOCH), Some("0".to_string()));
    assert_eq!(secs_when(UNIX_EPOCH + Duration::from_nanos(999_999_999)), Some(0));
    let before = UNIX_EPOCH - Duration::from_nanos(1);
    assert_eq!(uid_when(before), None);
    assert_eq!(secs_when(before), None);
}

#[test]
fn numbers_are_read_as_the_standard_library_reads_them() {
    for s in ["", "0", "8080", "+80", "-1", " 80", "80 ", "0x50", "65535", "65536", "99999999999999999999", "++1", "+"] {
        assert_eq!(parse_number(s, 65535), s.parse::<u16>().ok().map(u64::from), "{}", s);
        assert_eq!(parse_number(s, u64::MAX), s.parse::<u64>().ok(), "{}", s);
    }
}

#[test]
fn white_space_and_control_characters_are_those_of_unicode() {
    for n in (0..0x3100u32).chain(0xfe00..0x1_0000) {
        if let Some(c) = char::from_u32(n) {
            assert_eq!(is_white_space(c), c.is_whitespace(), "{:x}", n);
            assert_eq!(is_control(c), c.is_control(), "{:x}", n);
        }
    }
}

#[test]
fn texts_are_searched_and_replaced() {
    assert_eq!(trim("\u{3000} 东京 \n"), "东京");
    assert_eq!(trim("   "), "");
    assert!(is_blank(" \t\u{a0}"));
    assert!(!is_blank(" x "));
    assert!(contains("a..b", ".."));
    assert!(!contains("a.b", ".."));
    assert!(contains("", ""));
    assert!(starts_with("session=1", "session="));
    assert!(ends_with("x.png", ".png"));
    assert!(!ends_with("png", ".png"));
    assert_eq!(strip_prefix("/photos/a.jpg", "/photos/").as_deref(), Some("a.jpg"));
    assert_eq!(strip_prefix("photos/a.jpg", "/photos/"), None);
    assert_eq!(replace("aaa", "aa", "b"), "ba");
    assert_eq!(replace("a.b.c", ".", "::"), "a::b::c");
    assert_eq!(replace_once("x</head>y</head>", "</head>", "!"), "x!y</head>");
    assert_eq!(replace_once("none", "</head>", "!"), "none");
    for (a, b) in [("", "a"), ("a", "ab"), ("b", "a"), ("照", "片"), ("a", "a"), ("Z", "a"), ("\u{ffff}", "\u{10000}")] {
        assert_eq!(less(a, b), a < b, "{} {}", a, b);
    }
}

#[test]
fn emoji_are_short_and_hold_no_markup() {
    assert_eq!(sanitize_em("📍"), "📍");
    assert_eq!(sanitize_em("<b>\u{7}一二三四五六七八九"), "b一二三四五六七");
    assert_eq!(sanitize_em(""), "");
}

#[test]
fn messages_keep_lines_but_no_control_characters() {
    assert_eq!(sanitize_text(" 你好\u{0}\n世界\t ", 500), "你好\n世界");
    assert_eq!(sanitize_text("abcdef", 3), "abc");
    assert_eq!(sanitize_text("  abc", 4), "ab");
    assert_eq!(sanitize_text("\u{1}\u{2}", 20), "");
}

#[test]
fn trips_are_named_after_their_region() {
    assert_eq!(trip_group_name("东京都", "港区"), "东京");
    assert_eq!(trip_group_name("", "杭州市"), "杭州");
    assert_eq!(trip_group_name(" ", " 京都 "), "京都");
    assert_eq!(trip_group_name("京都府", "x"), "京都");
    assert_eq!(trip_group_name("", ""), "");
    assert_eq!(trip_group_name("神奈川県", "横滨市"), "神奈川");
}

#[test]
fn cities_are_brought_to_one_name() {
    assert_eq!(normalize_city("港區", "东京"), "东京");
    assert_eq!(normalize_city("大阪市", ""), "大阪");
    assert_eq!(normalize_city("杭州市", "浙江省"), "杭州");
    assert_eq!(normalize_city("京都", ""), "京都");
    assert_eq!(normalize_city("涩谷区", ""), "涩谷区");
    assert_eq!(normalize_city("涩谷区", "东京都"), "东京");
    assert_eq!(normalize_city(" 镰仓 ", "神奈川"), "镰仓");
}

#[test]
fn prefectures_are_found_by_their_code() {
    assert_eq!(jp_pref_name("JP-01"), Some("北海道"));
    assert_eq!(jp_pref_name("JP-13"), Some("东京"));
    assert_eq!(jp_pref_name("JP-26"), Some("京都"));
    assert_eq!(jp_pref_name("JP-47"), Some("冲绳"));
    assert_eq!(jp_pref_name("JP-48"), None);
    assert_eq!(jp_pref_name("CN-11"), None);
}

#[test]
fn dates_lose_their_day() {
    assert_eq!(trunc_ym("2026.06.17"), "2026.06");
    assert_eq!(trunc_ym("2026-06-17"), "2026.06");
    assert_eq!(trunc_ym("2026/6"), "2026.6");
    assert_eq!(trunc_ym("2026"), "2026");
    assert_eq!(trunc_ym("2026."), "2026");
    assert_eq!(trunc_ym("去年夏天"), "去年夏天");
    assert_eq!(trunc_ym("17.06.2026"), "17.06.2026");
    assert_eq!(trunc_ym(""), "");
    assert_eq!(trunc_ym(&trunc_ym("2026-06-17")), "2026.06");
}

#[test]
fn an_address_gives_names() {
    let answer = object(vec![(
        "address",
        object(vec![
            ("city", text("港區")),
            ("ISO3166-2-lvl4", text("JP-13")),
            ("road", text("芝公园;Shiba Park")),
            ("country", text("日本")),
        ]),
    )]);
    let n = reverse_geocode(&answer).unwrap();
    assert_eq!((n.city.as_str(), n.name.as_str(), n.country.as_str(), n.region.as_str()), ("东京", "芝公园", "日本", "东京"));

    let bare = object(vec![("address", object(vec![]))]);
    let n = reverse_geocode(&bare).unwrap();
    assert_eq!((n.city.as_str(), n.name.as_str(), n.region.as_str()), ("", "新地点", ""));

    assert_eq!(reverse_geocode(&object(vec![("error", text("x"))])), None);
    assert_eq!(reverse_geocode(&Json::Null), None);
}

#[test]
fn a_geocoder_s_list_gives_hits() {
    let answer = Json::Array(vec![
        object(vec![
            ("lat", text("35.7")),
            ("lon", text("139.8")),
            ("display_name", text("浅草寺, 台东区, 东京")),
            ("address", object(vec![("town", text("台东")), ("country", text("日本"))])),
        ]),
        object(vec![("lat", text("1")), ("name", text("no longitude"))]),
        object(vec![("lat", text("1")), ("lon", text("2")), ("name", text("named"))]),
    ]);
    let hits = geocode(&answer);
    assert_eq!(hits.len(), 2);
    assert_eq!(hits[0].name, "浅草寺");
    assert_eq!(hits[0].display, "浅草寺, 台东区, 东京");
    assert_eq!(hits[0].city, "台东");
    assert_eq!(hits[0].country, "日本");
    assert_eq!((hits[0].lat.as_str(), hits[0].lng.as_str()), ("35.7", "139.8"));
    assert_eq!(hits[1].name, "named");
    assert_eq!(hits[1].city, "");
    assert!(geocode(&Json::Null).is_empty());
}

#[test]
fn members_are_found_put_and_added() {
    let n = Number { unsigned: Some(4), signed: Some(4), double: Double { bits: 4.0f64.to_bits() } };
    let v = object(vec![("a", text("x")), ("n", Json::Number(n)), ("t", Json::Bool(true)), ("z", Json::Null)]);
    assert_eq!(v.get_str("a"), Some("x"));
    assert_eq!(v.get_str("n"), None);
    assert_eq!(v.get_str_or("none", "y"), "y");
    assert_eq!(v.get_u64("n"), Some(4));
    assert_eq!(v.get_double("n"), Some(Double { bits: 4.0f64.to_bits() }));
    assert!(v.get_true("t"));
    assert!(!v.get_true("a"));
    assert!(v.get("z").unwrap().is_null());
    assert!(v.get("none").is_none());
    assert_eq!(v.copy(), v);
    let w = with(&v, "a", text("y"));
    assert_eq!(w.get_str("a"), Some("y"));
    assert_eq!(w.get_u64("n"), Some(4));
    assert_eq!(with_missing(&v, "a", text("y")).get_str("a"), Some("x"));
    assert_eq!(with_missing(&v, "b", text("y")).get_str("b"), Some("y"));
    assert_eq!(with(&Json::Null, "a", text("y")), Json::Null);
}

#[test]
fn categories_are_limited() {
    for c in ["景点", "美食", "自然", "城市", "住宿", "购物", "其他", ""] {
        assert!(is_valid_category(c), "{}", c);
    }
    assert!(!is_valid_category("酒吧"));
    assert!(!is_valid_category(" "));
}

#[test]
fn a_new_store_is_empty_and_current() {
    let s = Store::default();
    assert_eq!(s.version, 4);
    assert_eq!(default_version(), 4);
    assert!(s.places.is_empty() && s.trips.is_empty() && s.cities.is_empty());
    assert!(s.unplaced.is_empty() && s.messages.is_empty() && s.likes.is_empty());
    assert_eq!(s.views, 0);
    assert_eq!(s.profile.name, "");
    assert_eq!(default_place_status(), "visited");
    assert_eq!(default_trip_status(), "planned");
}

#[test]
fn everything_is_kept_below_one_directory() {
    assert_eq!(data_dir(), "data");
    assert_eq!(cache_dir(), "data/tilecache");
    assert_eq!(photo_dir(), "data/photos");
    assert_eq!(thumb_dir(), "data/photos/thumb");
    assert_eq!(store_file(), "data/store.json");
    assert_eq!(sessions_file(), "data/sessions.json");
    assert_eq!(photo_file_name("17f"), "17f.jpg");
    assert_eq!(corrupt_copy_name(17), "store.corrupt.17.json");
    assert_eq!(replaced_copy_name(17), "store.pre-import.17.bak.json");
}

#[test]
fn variables_have_defaults() {
    assert_eq!(ofm_style(None), "liberty");
    assert_eq!(ofm_style(Some("bright")), "bright");
    assert_eq!(map_mode(None), "raster");
    assert_eq!(map_mode(Some("vector")), "vector");
    assert_eq!(site_origin(None), "https://atlas.sol42.cn");
    assert_eq!(site_origin(Some("https://example.org")), "https://example.org");
    assert_eq!(bind_addr(None), "127.0.0.1");
    assert_eq!(bind_addr(Some("0.0.0.0")), "0.0.0.0");
    assert!(demo_seed(Some("1")));
    assert!(!demo_seed(Some("true")));
    assert!(!demo_seed(None));
    assert_eq!(port(None), 8080);
    assert_eq!(port(Some("3000")), 3000);
    assert_eq!(port(Some("70000")), 8080);
    assert_eq!(tile_cache_cap_bytes(None), Some(2048 * 1024 * 1024));
    assert_eq!(tile_cache_cap_bytes(Some("1")), Some(1024 * 1024));
    assert_eq!(tile_cache_cap_bytes(Some("x")), Some(2048 * 1024 * 1024));
    assert_eq!(tile_cache_cap_bytes(Some("18446744073709551615")), None);
    assert_eq!(import_cap_bytes(None), Some(512 * 1024 * 1024));
    assert_eq!(import_cap_bytes(Some("100")), Some(100 * 1024 * 1024));
    assert_eq!(BODY_LIMIT, 64 * 1024);
    assert_eq!(UPLOAD_LIMIT, 256 * 1024 * 1024);
}
