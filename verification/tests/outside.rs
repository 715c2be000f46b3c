//! Shared pages, tiles and old stores.

use travel_map_app::json::{Double, Duplicate, Json, Number};
use travel_map_app::migrate::{migrate_store, start_with, Found, Start};
use travel_map_app::model::{Photo, Place, Store, Trip};
use travel_map_app::share::{
    attr_esc, render_share_page, safe_share_id, share_place, share_trip, Share,
};
use travel_map_app::tiles::{
    carto, chinese_text_field, content_type_for, is_description, localize, ofm, prune_is_due,
    raster_style, style_url, tile_step, with_own_addresses, Kept, Pruning, TileEvent, TileStep,
};

fn text(s: &str) -> Json {
    Json::Text(s.to_string())
}

fn object(members: Vec<(&str, Json)>) -> Json {
    Json::Object(members.into_iter().map(|(k, v)| (k.to_string(), v)).collect())
}

fn whole(n: u64) -> Json {
    Json::Number(Number {
        unsigned: Some(n),
        signed: Some(n as i64),
        double: Double { bits: (n as f64).to_bits() },
    })
}

fn place(id: &str, trip: Option<&str>) -> Place {
    Place {
        id: id.to_string(),
        lng: Double { bits: 0 },
        lat: Double { bits: 0 },
        name: "浅草寺 <雷门>".to_string(),
        short: String::new(),
        city: "东京".to_string(),
        country: String::new(),
        em: String::new(),
        date: None,
        rating: 0,
        tags: vec![],
        feel: String::new(),
        photos: vec![],
        cover: None,
        status: "visited".to_string(),
        trip_id: trip.map(String::from),
        visits: vec![],
        category: String::new(),
        color: None,
        guide: Json::Null,
    }
}

fn photo(id: &str) -> Photo {
    Photo {
        id: id.to_string(),
        url: format!("/photos/{}.jpg", id),
        thumb: format!("/photos/thumb/{}.jpg", id),
        date: None,
    }
}

fn sample() -> Store {
    let mut s = Store::default();
    s.places.push(place("p1", Some("t1")));
    s.places.push(place("p2", Some("t1")));
    s.places.push(place("p3", None));
    s.places[1].photos.push(photo("b"));
    s.places[2].cover = Some("http://x/c.jpg".to_string());
    s.places[2].feel = "震撼".to_string();
    s.trips.push(Trip {
        id: "t1".to_string(),
        name: "关东".to_string(),
        em: String::new(),
        color: String::new(),
        start_date: String::new(),
        end_date: String::new(),
        note: String::new(),
        status: "done".to_string(),
        checklist: vec![],
        guide: Json::Null,
    });
    s
}

#[test]
fn attributes_are_escaped() {
    assert_eq!(attr_esc("a&b<c>\"d\"'"), "a&amp;b&lt;c&gt;&quot;d&quot;'");
    assert_eq!(attr_esc("&amp;"), "&amp;amp;");
    assert_eq!(attr_esc(""), "");
    let (a, b) = ("x&y", "<\"z\">&lt;");
    assert_eq!(attr_esc(&format!("{}{}", a, b)), attr_esc(a) + &attr_esc(b));
    let undone = attr_esc(b)
        .replace("&quot;", "\"")
        .replace("&gt;", ">")
        .replace("&lt;", "<")
        .replace("&amp;", "&");
    assert_eq!(undone, b);
}

#[test]
fn shared_ids_are_limited() {
    assert!(safe_share_id("p_17f-A"));
    assert!(safe_share_id(&"a".repeat(64)));
    assert!(!safe_share_id(&"a".repeat(65)));
    assert!(!safe_share_id(""));
    assert!(!safe_share_id("a b"));
    assert!(!safe_share_id("东京"));
    assert!(!safe_share_id("\"</script>"));
}

#[test]
fn a_place_is_shared() {
    let s = sample();
    let a = share_place(&s, "p1");
    assert_eq!((a.title.as_str(), a.desc.as_str(), a.hash.as_str()), ("浅草寺 <雷门>", "东京", "#p/p1"));
    assert_eq!(a.image, None);
    assert_eq!(share_place(&s, "p2").image.as_deref(), Some("/photos/b.jpg"));
    let c = share_place(&s, "p3");
    assert_eq!((c.desc.as_str(), c.image.as_deref()), ("震撼", Some("http://x/c.jpg")));
    let none = share_place(&s, "p9");
    assert_eq!((none.title.as_str(), none.desc.as_str(), none.hash.as_str()), ("旅行足迹", "", "#p/p9"));
}

#[test]
fn a_trip_is_shared() {
    let s = sample();
    let t = share_trip(&s, "t1");
    assert_eq!((t.title.as_str(), t.desc.as_str(), t.hash.as_str()), ("关东 · 旅程", "这趟旅程记录了 2 个地点", "#t/t1"));
    assert_eq!(t.image.as_deref(), Some("/photos/b.jpg"));
    let none = share_trip(&s, "t9");
    assert_eq!((none.title.as_str(), none.hash.as_str()), ("旅行足迹", "#t/t9"));
}

#[test]
fn unsafe_ids_are_not_shown() {
    let s = sample();
    for id in ["</script>", "", "a\"b", "p1 "] {
        let (p, t) = (share_place(&s, id), share_trip(&s, id));
        assert_eq!((p.title.as_str(), p.hash.as_str()), ("旅行足迹", "#"));
        assert_eq!((t.title.as_str(), t.hash.as_str()), ("旅行足迹", "#"));
    }
}

#[test]
fn a_shared_page_has_a_preview() {
    let s = sample();
    let html = "<html><head><title>x</title></head><body></head></body></html>";
    let page = render_share_page(html, &share_place(&s, "p2"), "https://example.org");
    let expected = "<html><head><title>x</title><meta property=\"og:type\" content=\"website\">\
        <meta property=\"og:title\" content=\"浅草寺 &lt;雷门&gt;\">\
        <meta property=\"og:description\" content=\"东京\">\
        <meta property=\"og:image\" content=\"https://example.org/photos/b.jpg\">\
        <meta name=\"twitter:card\" content=\"summary_large_image\">\
        <script>try{if(!location.hash)location.replace(location.pathname.replace(/\\/(p|t)\\/.*$/,'/')+\"#p/p2\");}catch(e){}</script>\
        </head><body></head></body></html>";
    assert_eq!(page, expected);
    let page = render_share_page(html, &share_place(&s, "p1"), "https://example.org");
    assert!(page.contains("content=\"https://example.org/icons/icon-512.png\""));
    let page = render_share_page(html, &share_place(&s, "p3"), "https://example.org");
    assert!(page.contains("content=\"http://x/c.jpg\""));
}

#[test]
fn the_hash_is_a_json_string() {
    let odd = Share {
        title: String::new(),
        desc: String::new(),
        image: None,
        hash: "#\"\\\u{8}\u{9}\n\u{c}\r\u{1}\u{1f}\u{7f}东/<".to_string(),
    };
    let page = render_share_page("</head>", &odd, "");
    assert!(page.contains("+\"#\\\"\\\\\\b\\t\\n\\f\\r\\u0001\\u001f\u{7f}东/<\");"));
}

#[test]
fn files_have_a_content_type() {
    assert_eq!(content_type_for("a/b.pbf"), "application/x-protobuf");
    assert_eq!(content_type_for("b.png"), "image/png");
    assert_eq!(content_type_for("b.jpg"), "image/jpeg");
    assert_eq!(content_type_for("b.jpeg"), "image/jpeg");
    assert_eq!(content_type_for("b.webp"), "image/webp");
    assert_eq!(content_type_for("b.json"), "application/json");
    assert_eq!(content_type_for("planet"), "application/octet-stream");
}

#[test]
fn tiles_are_fetched_and_named() {
    let t = ofm("planet/20250101/3/4/5.pbf").unwrap();
    assert_eq!(t.url, "https://tiles.openfreemap.org/planet/20250101/3/4/5.pbf");
    assert_eq!(t.file, "planet/20250101/3/4/5.pbf");
    assert!(t.kept);
    assert_eq!(t.content_type, "application/x-protobuf");
    let t = ofm("fonts/Noto Sans@2x/é.json").unwrap();
    assert_eq!(t.file, "fonts/Noto_Sans_2x/_.json");
    assert!(!t.kept);
    assert_eq!(ofm("a/../b.png"), None);

    let t = carto("rastertiles/voyager/1/2/3@2x.png").unwrap();
    assert_eq!(t.url, "https://a.basemaps.cartocdn.com/rastertiles/voyager/1/2/3@2x.png");
    assert_eq!(t.file, "rastertiles/voyager/1/2/3@2x.png");
    assert_eq!(t.content_type, "image/png");
    assert_eq!(carto("a.jpg"), None);
    assert_eq!(carto("../a.png"), None);
}

#[test]
fn tiles_come_from_disk_first() {
    let tile = ofm("planet/1/2/3.pbf").unwrap();
    assert_eq!(tile_step(&tile, TileEvent::Asked), TileStep::ReadDisk);
    assert_eq!(tile_step(&tile, TileEvent::Disk { read: true }), TileStep::PassOn);
    assert_eq!(tile_step(&tile, TileEvent::Disk { read: false }), TileStep::Fetch);
    let font = ofm("fonts/list").unwrap();
    assert_eq!(tile_step(&font, TileEvent::Asked), TileStep::Fetch);
}

#[test]
fn only_tiles_are_kept() {
    let (pbf, png) = (ofm("planet/1/2/3.pbf").unwrap(), carto("a/1.png").unwrap());
    let font = ofm("fonts/list").unwrap();
    let (json, other) = ("application/json", "application/x-protobuf");
    let answer = |success: bool, content_type| TileEvent::Answer { success, content_type };
    let body = |content_type, read: bool| TileEvent::Body { content_type, read };
    assert_eq!(tile_step(&pbf, TileEvent::Unreachable), TileStep::Refuse);
    assert_eq!(tile_step(&pbf, answer(false, other)), TileStep::Refuse);
    assert_eq!(tile_step(&pbf, answer(true, other)), TileStep::ReadBytes);
    assert_eq!(tile_step(&pbf, answer(true, json)), TileStep::ReadText);
    assert_eq!(tile_step(&png, answer(true, json)), TileStep::ReadBytes);
    assert_eq!(tile_step(&pbf, body(other, true)), TileStep::KeepAndPassOn);
    assert_eq!(tile_step(&pbf, body(other, false)), TileStep::Refuse);
    assert_eq!(tile_step(&pbf, body(json, true)), TileStep::Rewrite);
    assert_eq!(tile_step(&png, body(json, true)), TileStep::KeepAndPassOn);
    assert_eq!(tile_step(&font, body(other, true)), TileStep::PassOn);
}

#[test]
fn descriptions_point_to_this_site() {
    assert_eq!(
        with_own_addresses("{\"a\":\"https://tiles.openfreemap.org/planet\",\"b\":\"https://tiles.openfreemap.org\"}"),
        "{\"a\":\"/ofm/planet\",\"b\":\"https://tiles.openfreemap.org\"}"
    );
    assert!(is_description("application/json; charset=utf-8"));
    assert!(!is_description("image/png"));
    assert_eq!(style_url("liberty"), "https://tiles.openfreemap.org/styles/liberty");
}

#[test]
fn the_picture_map_has_one_source() {
    let v = raster_style();
    assert_eq!(v.get_u64("version"), Some(8));
    assert_eq!(v.get_str("name"), Some("voyager-raster"));
    let source = v.get("sources").unwrap().get("carto").unwrap();
    assert_eq!(source.get_str("type"), Some("raster"));
    assert_eq!(source.get_u64("tileSize"), Some(512));
    assert_eq!(source.get_double("maxzoom"), Some(Double { bits: 19.0f64.to_bits() }));
    assert_eq!(source.get("tiles"), Some(&Json::Array(vec![text("/carto/rastertiles/voyager/{z}/{x}/{y}@2x.png")])));
    let expected = Json::Array(vec![
        object(vec![
            ("id", text("bg")),
            ("type", text("background")),
            ("paint", object(vec![("background-color", text("#e8ecef"))])),
        ]),
        object(vec![("id", text("carto")), ("type", text("raster")), ("source", text("carto"))]),
    ]);
    assert_eq!(v.get("layers"), Some(&expected));
}

#[test]
fn labels_are_in_chinese() {
    let symbol = || {
        object(vec![
            ("type", text("symbol")),
            ("layout", object(vec![("text-field", text("{name}")), ("text-size", whole(12))])),
        ])
    };
    let icon = object(vec![("type", text("symbol")), ("layout", object(vec![("icon-image", text("x"))]))]);
    let line = object(vec![("type", text("line")), ("layout", object(vec![("text-field", text("x"))]))]);
    let style = object(vec![("layers", Json::Array(vec![symbol(), icon.copy(), line.copy(), text("odd")]))]);
    let done = localize(&style);
    let Some(Json::Array(layers)) = done.get("layers") else { panic!("no layers") };
    let layout = layers[0].get("layout").unwrap();
    assert_eq!(layout.get("text-field"), Some(&chinese_text_field()));
    assert_eq!(layout.get_u64("text-size"), Some(12));
    assert_eq!(layers[1], icon);
    assert_eq!(layers[2], line);
    assert_eq!(layers[3], text("odd"));
    assert_eq!(localize(&done), done);
    assert_eq!(localize(&Json::Null), Json::Null);
    let Json::Array(field) = chinese_text_field() else { panic!("no list") };
    assert_eq!(field.len(), 6);
    assert_eq!(field[0], text("coalesce"));
    assert_eq!(field[1], Json::Array(vec![text("get"), text("name:zh-Hans")]));
    assert_eq!(field[5], Json::Array(vec![text("get"), text("name")]));
}

#[test]
fn old_tiles_go_first() {
    let files = vec![
        Kept { size: 10, time: 30 },
        Kept { size: 20, time: 10 },
        Kept { size: 40, time: 20 },
        Kept { size: 80, time: 10 },
    ];
    let mut p = Pruning::new(files, 55);
    assert_eq!(p.next(), Some(1));
    p.note(1, true);
    assert_eq!(p.next(), Some(3));
    p.note(3, false);
    assert_eq!(p.next(), Some(2));
    p.note(2, true);
    assert_eq!(p.next(), Some(0));
    p.note(0, true);
    assert_eq!(p.next(), None);

    let files = vec![Kept { size: 3_000_000, time: 1 }, Kept { size: 2_000_000, time: 2 }];
    let mut p = Pruning::new(files, 2_000_000);
    assert_eq!(p.next(), Some(0));
    p.note(0, true);
    assert_eq!(p.next(), None);
    assert_eq!(p.megabytes(), (2, 1));
    assert_eq!(Pruning::new(vec![Kept { size: 5, time: 0 }], 5).next(), None);
    assert!(prune_is_due(0) && prune_is_due(500) && !prune_is_due(499));
}

#[test]
fn a_first_store_is_brought_up_to_date() {
    let v = object(vec![
        (
            "places",
            Json::Array(vec![
                object(vec![("id", text("a")), ("date", text("2026.06.17")), ("status", text("planned"))]),
                object(vec![("id", text("b"))]),
                text("odd"),
            ]),
        ),
        ("cities", Json::Array(vec![])),
    ]);
    let m = migrate_store(&v, "1f").unwrap();
    assert_eq!(m.backups, ["store.v1.bak.json", "store.v3.bak.json"]);
    assert_eq!(m.store.get_u64("version"), Some(4));
    assert_eq!(m.store.get("trips"), Some(&Json::Array(vec![])));
    assert_eq!(m.store.get("unplaced"), Some(&Json::Array(vec![])));
    assert_eq!(m.store.get("cities"), Some(&Json::Array(vec![])));
    let Some(Json::Array(places)) = m.store.get("places") else { panic!("no places") };
    assert_eq!(places[0].get_str("status"), Some("planned"));
    assert_eq!(places[0].get("tripId"), Some(&Json::Null));
    assert_eq!(places[0].get("cover"), Some(&Json::Null));
    assert_eq!(places[0].get_str("category"), Some(""));
    assert_eq!(
        places[0].get("visits"),
        Some(&Json::Array(vec![object(vec![
            ("id", text("v_1f_0")),
            ("date", text("2026.06.17")),
            ("note", text("")),
        ])]))
    );
    assert_eq!(places[1].get_str("status"), Some("visited"));
    assert_eq!(places[1].get("visits"), Some(&Json::Array(vec![])));
    assert_eq!(places[2], text("odd"));
    assert!(migrate_store(&m.store, "2").is_none());
}

#[test]
fn later_stores_get_what_they_lack() {
    let second = object(vec![
        ("version", whole(2)),
        ("places", Json::Array(vec![object(vec![("visits", text("kept"))])])),
        ("trips", Json::Array(vec![object(vec![("name", text("t"))])])),
    ]);
    let m = migrate_store(&second, "1").unwrap();
    assert_eq!(m.backups, ["store.v2.bak.json", "store.v3.bak.json"]);
    let Some(Json::Array(places)) = m.store.get("places") else { panic!("no places") };
    assert_eq!(places[0].get_str("visits"), Some("kept"));
    assert!(places[0].get("status").is_none());
    let Some(Json::Array(trips)) = m.store.get("trips") else { panic!("no trips") };
    assert_eq!(trips[0].get("checklist"), Some(&Json::Array(vec![])));

    let third = object(vec![
        ("version", whole(3)),
        ("places", Json::Array(vec![object(vec![("category", text("美食"))]), object(vec![])])),
    ]);
    let m = migrate_store(&third, "1").unwrap();
    assert_eq!(m.backups, ["store.v3.bak.json"]);
    assert_eq!(m.store.get_u64("version"), Some(4));
    let Some(Json::Array(places)) = m.store.get("places") else { panic!("no places") };
    assert_eq!(places[0].get_str("category"), Some("美食"));
    assert_eq!(places[1].get_str("category"), Some(""));
    assert!(places[1].get("visits").is_none());

    assert!(migrate_store(&object(vec![("version", whole(5))]), "1").is_none());
}

#[test]
fn a_store_that_is_there_is_never_overwritten() {
    assert_eq!(start_with(Found::Whole), Start::AsFound);
    assert_eq!(start_with(Found::Missing), Start::Empty);
    assert_eq!(start_with(Found::Broken), Start::EmptyAfterCopy);
    assert_eq!(start_with(Found::Unreadable), Start::Refused);
}
