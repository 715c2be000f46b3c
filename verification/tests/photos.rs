//! Photographs: what is read from them, what is made of them, and where they go.

use image::{DynamicImage, GenericImageView, ImageFormat, Rgb, RgbImage};
use std::io::Cursor;
use travel_map_app::json::{Double, Json};
use travel_map_app::model::{Place, Store, Trip};
use travel_map_app::names::AddressNames;
use travel_map_app::photo::{
    color_file, color_of_pixels, decode_oriented, develop, dominant_color_of, encode_jpeg,
    exif_date, exif_gps, exif_orientation, fill_color, process_image, set_upright,
    undecodable_hint, Position,
};
use travel_map_app::tiff::{
    fb_exif_date, fb_exif_gps, fb_exif_orientation, looks_like_heic, tiff_lite, year_month, Angle,
    GpsReading, Ratio,
};
use travel_map_app::upload::{
    file_aside, file_by_position, file_photo, file_under_target, new_photo, take_field, target_of,
    trip_color, Filed, Taking,
};

fn png(img: &DynamicImage) -> Vec<u8> {
    let mut out = Cursor::new(Vec::new());
    img.write_to(&mut out, ImageFormat::Png).unwrap();
    out.into_inner()
}

fn plain(w: u32, h: u32, c: [u8; 3]) -> DynamicImage {
    DynamicImage::ImageRgb8(RgbImage::from_pixel(w, h, Rgb(c)))
}

fn entry(out: &mut Vec<u8>, tag: u16, typ: u16, count: u32, value: u32) {
    out.extend_from_slice(&tag.to_le_bytes());
    out.extend_from_slice(&typ.to_le_bytes());
    out.extend_from_slice(&count.to_le_bytes());
    out.extend_from_slice(&value.to_le_bytes());
}

/// A TIFF file with an orientation, two dates and a position; with `chain`, every directory ends
/// with a pointer to none.
fn tiff(orientation: u32, chain: bool) -> Vec<u8> {
    let mut b = vec![b'I', b'I', 42, 0, 8, 0, 0, 0];
    let end = if chain { 4 } else { 0 };
    let exif_at = 8 + 2 + 4 * 12 + 4;
    let gps_at = exif_at + 2 + 12 + end;
    let data_at = gps_at + 2 + 4 * 12 + end;
    b.extend_from_slice(&4u16.to_le_bytes());
    entry(&mut b, 0x0112, 3, 1, orientation);
    entry(&mut b, 0x0132, 2, 20, data_at);
    entry(&mut b, 0x8769, 4, 1, exif_at);
    entry(&mut b, 0x8825, 4, 1, gps_at);
    b.extend_from_slice(&[0; 4]);
    b.extend_from_slice(&1u16.to_le_bytes());
    entry(&mut b, 0x9003, 2, 20, data_at + 20);
    if chain {
        b.extend_from_slice(&[0; 4]);
    }
    b.extend_from_slice(&4u16.to_le_bytes());
    entry(&mut b, 0x0001, 2, 2, u32::from(b'S'));
    entry(&mut b, 0x0002, 5, 3, data_at + 40);
    entry(&mut b, 0x0003, 2, 2, u32::from(b'E'));
    entry(&mut b, 0x0004, 5, 3, data_at + 64);
    if chain {
        b.extend_from_slice(&[0; 4]);
    }
    b.extend_from_slice(b"2020:01:02 03:04:05\0");
    b.extend_from_slice(b"2026:06:19 14:30:00\0");
    for n in [35u32, 1, 42, 1, 2448, 100, 139, 1, 47, 1, 48, 1] {
        b.extend_from_slice(&n.to_le_bytes());
    }
    b
}

fn jpeg_with(tiff: &[u8]) -> Vec<u8> {
    let mut b = vec![0xff, 0xd8, 0xff, 0xe1];
    b.extend_from_slice(&((tiff.len() + 8) as u16).to_be_bytes());
    b.extend_from_slice(b"Exif\0\0");
    b.extend_from_slice(tiff);
    b.extend_from_slice(&[0xff, 0xd9]);
    b
}

fn reading() -> GpsReading {
    let ratio = |num: u32, den: u32| Ratio { num, den };
    GpsReading {
        lat: Angle { degrees: ratio(35, 1), minutes: ratio(42, 1), seconds: ratio(2448, 100) },
        south: true,
        lng: Angle { degrees: ratio(139, 1), minutes: ratio(47, 1), seconds: ratio(48, 1) },
        west: false,
    }
}

fn place(id: &str, trip: Option<&str>) -> Place {
    Place {
        id: id.to_string(),
        lng: Double { bits: 1 },
        lat: Double { bits: 2 },
        name: String::new(),
        short: String::new(),
        city: String::new(),
        country: String::new(),
        em: String::new(),
        date: None,
        rating: 0,
        tags: vec![],
        feel: String::new(),
        photos: vec![],
        cover: None,
        status: "visited".to_string(),
        trip_id: trip.map(String::from),
        visits: vec![],
        category: String::new(),
        color: None,
        guide: Json::Null,
    }
}

#[test]
fn exif_data_are_read() {
    for b in [tiff(6, true), jpeg_with(&tiff(6, true))] {
        assert_eq!(exif_gps(&b), Some(Position::Stated(reading())));
        assert_eq!(exif_date(&b).as_deref(), Some("2026.06"));
        assert_eq!(exif_orientation(&b), 6);
    }
}

#[test]
fn forgiving_reading_steps_in() {
    let b = jpeg_with(&tiff(8, false));
    assert_eq!(fb_exif_gps(&b), Some(reading()));
    assert_eq!(fb_exif_date(&b).as_deref(), Some("2026.06"));
    assert_eq!(fb_exif_orientation(&b), Some(8));
    assert_eq!(exif_gps(&b), Some(Position::Unchecked(reading())));
    assert_eq!(exif_date(&b).as_deref(), Some("2026.06"));
    assert_eq!(exif_orientation(&b), 8);
}

#[test]
fn files_without_exif_data_say_nothing() {
    for b in [vec![], b"GIF89a".to_vec(), vec![0xff, 0xd8, 0xff, 0xd9], png(&plain(2, 2, [1, 2, 3]))] {
        assert_eq!(exif_gps(&b), None);
        assert_eq!(exif_date(&b), None);
        assert_eq!(exif_orientation(&b), 1);
        assert!(tiff_lite(&b).is_none());
    }
}

#[test]
fn months_are_read_from_time_stamps() {
    assert_eq!(year_month("2026:06:19 14:30:00").as_deref(), Some("2026.06"));
    assert_eq!(year_month("2026.06").as_deref(), Some("2026.06"));
    assert_eq!(year_month("20260619").as_deref(), Some("20260619"));
    assert_eq!(year_month("2026:6"), Some("2026.6".to_string()));
    assert_eq!(year_month("2026:"), None);
    assert_eq!(year_month(""), None);
}

#[test]
fn heif_files_are_known_by_their_brand() {
    let heic = |brand: &[u8]| [&[0, 0, 0, 24], &b"ftyp"[..], brand].concat();
    for brand in [b"heic", b"heix", b"heim", b"heis", b"hevc", b"hevx", b"mif1", b"msf1", b"avif", b"avis"] {
        assert!(looks_like_heic(&heic(brand)));
    }
    assert!(!looks_like_heic(&heic(b"isom")));
    assert!(!looks_like_heic(&heic(b"hei")));
    assert!(!looks_like_heic(b"\xff\xd8"));
    assert!(undecodable_hint(&heic(b"heic")).contains("HEIC"));
    assert_eq!(undecodable_hint(b"x"), "无法识别的图片格式，请改用 JPG/PNG");
}

#[test]
fn pictures_are_set_upright() {
    let mut two = RgbImage::new(2, 1);
    two.put_pixel(0, 0, Rgb([255, 0, 0]));
    two.put_pixel(1, 0, Rgb([0, 0, 255]));
    let img = || DynamicImage::ImageRgb8(two.clone());
    let red = |img: &DynamicImage, x: u32, y: u32| img.get_pixel(x, y).0[0] == 255;
    let same = set_upright(img(), 1);
    assert!(same.dimensions() == (2, 1) && red(&same, 0, 0));
    let half = set_upright(img(), 3);
    assert!(half.dimensions() == (2, 1) && red(&half, 1, 0));
    let quarter = set_upright(img(), 6);
    assert!(quarter.dimensions() == (1, 2) && red(&quarter, 0, 0));
    let back = set_upright(img(), 8);
    assert!(back.dimensions() == (1, 2) && red(&back, 0, 1));
}

#[test]
fn photographs_are_decoded() {
    let file = png(&plain(4, 2, [10, 20, 30]));
    assert_eq!(decode_oriented(&file, &None, 1).unwrap().dimensions(), (4, 2));
    assert_eq!(decode_oriented(&file, &None, 6).unwrap().dimensions(), (2, 4));
    assert!(decode_oriented(b"no picture", &None, 1).is_none());
    let heic = b"\0\0\0\x18ftypheic".to_vec();
    assert_eq!(decode_oriented(&heic, &Some(file.clone()), 6).unwrap().dimensions(), (4, 2));
    assert!(decode_oriented(&heic, &None, 6).is_none());
}

#[test]
fn photographs_are_fitted_and_encoded() {
    let out = encode_jpeg(&plain(40, 20, [200, 100, 50]), 100, 82).unwrap();
    assert_eq!(&out[..2], &[0xff, 0xd8]);
    let back = image::load_from_memory(&out).unwrap();
    assert_eq!(back.dimensions(), (100, 50));
    let c = back.get_pixel(50, 25).0;
    assert!(c[0].abs_diff(200) < 6 && c[1].abs_diff(100) < 6 && c[2].abs_diff(50) < 6);
    let small = encode_jpeg(&plain(40, 20, [200, 100, 50]), 100, 10).unwrap();
    assert_ne!(small, out);
    let file = png(&plain(40, 20, [200, 100, 50]));
    let turned = process_image(&file, &None, 100, 82, 8).unwrap();
    assert_eq!(image::load_from_memory(&turned).unwrap().dimensions(), (50, 100));
    assert!(process_image(b"no picture", &None, 100, 82, 8).is_none());
}

#[test]
fn a_picture_has_one_colour() {
    assert_eq!(dominant_color_of(&plain(80, 80, [100, 150, 200])), "#6ca2d8");
    assert_eq!(dominant_color_of(&plain(80, 80, [250, 250, 100])), "#ebeb6c");
    assert_eq!(dominant_color_of(&plain(80, 80, [255, 255, 255])), "#8a8172");
    assert_eq!(dominant_color_of(&plain(80, 80, [0, 0, 0])), "#8a8172");
    assert_eq!(dominant_color_of(&plain(40, 40, [0, 0, 0])), "#8a8172");
}

#[test]
fn the_colour_leaves_black_and_white_out() {
    assert_eq!(color_of_pixels(&vec![]), "#8a8172");
    assert_eq!(color_of_pixels(&vec![0, 0, 0, 255, 255, 255, 100, 150, 200]), "#6ca2d8");
    assert_eq!(color_of_pixels(&vec![30, 30, 29, 230, 230, 231]), "#8a8172");
    assert_eq!(color_of_pixels(&vec![30, 30, 30, 230, 230, 230]), "#8c8c8c");
    assert_eq!(color_of_pixels(&vec![31, 30, 30, 0, 0, 0]), "#212020");
    assert_eq!(color_of_pixels(&vec![7]), "#8a8172");
    for k in 0..=255u8 {
        let x = (f64::from(k) * 1.08).min(235.0) as u8;
        let expected = if (30..=230).contains(&k) {
            format!("#{:02x}{:02x}{:02x}", x, x, x)
        } else {
            "#8a8172".to_string()
        };
        assert_eq!(color_of_pixels(&vec![k, k, k]), expected);
    }
}

#[test]
fn an_upload_is_developed() {
    let file = png(&plain(20, 10, [100, 150, 200]));
    let d = develop(&file, &None, 6).unwrap();
    assert_eq!(image::load_from_memory(&d.main).unwrap().dimensions(), (800, 1600));
    assert_eq!(image::load_from_memory(&d.thumb).unwrap().dimensions(), (300, 600));
    assert_eq!(d.color, "#6ca2d8");
    assert!(develop(b"no picture", &None, 1).is_none());
}

#[test]
fn places_without_a_colour_get_one() {
    let mut s = Store::default();
    s.places.push(place("p", None));
    assert_eq!(color_file(&s.places[0]), None);
    s.places[0].photos.push(new_photo("17f", None));
    assert_eq!(color_file(&s.places[0]).as_deref(), Some("17f.jpg"));
    s.places[0].cover = Some("/photos/thumb/x.jpg".to_string());
    assert_eq!(color_file(&s.places[0]).as_deref(), Some("x.jpg"));
    assert!(!fill_color(&mut s, 0, b"no picture"));
    assert_eq!(s.places[0].color, None);
    assert!(fill_color(&mut s, 0, &png(&plain(3, 3, [100, 150, 200]))));
    assert_eq!(s.places[0].color.as_deref(), Some("#6ca2d8"));
    assert_eq!(color_file(&s.places[0]), None);
}

#[test]
fn a_form_says_where_photographs_go() {
    let mut target = None;
    assert!(take_field(&mut target, "file", b"x"));
    assert!(!take_field(&mut target, "file", b""));
    assert!(!take_field(&mut target, "place_id", b"  "));
    assert_eq!(target, None);
    assert!(!take_field(&mut target, "place_id", " p1 ".as_bytes()));
    assert_eq!(target.as_deref(), Some("p1"));
    assert!(!take_field(&mut target, "place_id", b""));
    assert_eq!(target.as_deref(), Some("p1"));
    assert!(!take_field(&mut target, "place_id", b"p\xff2"));
    assert_eq!(target.as_deref(), Some("p\u{fffd}2"));
    assert_eq!(target_of("\n"), None);
}

#[test]
fn a_photograph_goes_where_it_was_sent() {
    let mut s = Store::default();
    s.places.push(place("p1", None));
    let ph = new_photo("17f", Some("2026.06".to_string()));
    assert_eq!(ph.url, "/photos/17f.jpg");
    assert_eq!(ph.thumb, "/photos/thumb/17f.jpg");
    let color = Some("#123456".to_string());
    let p = file_under_target(&mut s, &Some("p1".to_string()), &ph, &color).unwrap();
    assert_eq!(p.photos, vec![new_photo("17f", Some("2026.06".to_string()))]);
    assert_eq!(p.date.as_deref(), Some("2026.06"));
    assert_eq!(p.color.as_deref(), Some("#123456"));
    let ph2 = new_photo("180", Some("2025.01".to_string()));
    let p = file_under_target(&mut s, &Some("p1".to_string()), &ph2, &Some("#000000".to_string())).unwrap();
    assert_eq!(p.date.as_deref(), Some("2026.06"));
    assert_eq!(p.color.as_deref(), Some("#123456"));
    assert_eq!(p.photos.len(), 2);
    assert!(file_under_target(&mut s, &Some("p9".to_string()), &ph, &color).is_none());
    assert!(file_under_target(&mut s, &None, &ph, &color).is_none());
    assert_eq!(s.places[0].photos.len(), 2);
}

#[test]
fn a_photograph_without_a_position_waits() {
    let mut s = Store::default();
    let ph = new_photo("17f", None);
    assert_eq!(file_aside(&mut s, &ph, "IMG_1.HEIC"), "17f");
    assert_eq!(s.unplaced.len(), 1);
    assert_eq!(s.unplaced[0].name, "IMG_1.HEIC");
    assert_eq!(s.unplaced[0].url, "/photos/17f.jpg");
}

#[test]
fn a_photograph_is_filed_step_by_step() {
    let mut s = Store::default();
    s.places.push(place("p1", None));
    let ph = new_photo("17f", None);
    let (here, lost) = (Some("p1".to_string()), Some("p9".to_string()));
    let Filed::Under(p) = file_photo(&mut s, &here, &ph, &None, true, "x") else { panic!("not there") };
    assert_eq!(p.id, "p1");
    assert_eq!(s.places[0].photos.len(), 1);
    assert_eq!(file_photo(&mut s, &lost, &ph, &None, true, "x"), Filed::ByPosition);
    assert_eq!(file_photo(&mut s, &None, &ph, &None, true, "x"), Filed::ByPosition);
    assert!(s.unplaced.is_empty());
    assert_eq!(file_photo(&mut s, &lost, &ph, &None, false, "x"), Filed::Aside("17f".to_string()));
    assert_eq!(s.unplaced[0].name, "x");
}

#[test]
fn only_written_photographs_are_filed() {
    let reached = |outcomes: &[bool]| outcomes.iter().fold(Taking::Decode, |s, o| s.next(*o));
    assert_eq!(reached(&[false]), Taking::Undecoded);
    assert_eq!(reached(&[false, true, true, true, true]), Taking::Undecoded);
    assert_eq!(reached(&[true, false]), Taking::Unwritten);
    assert_eq!(reached(&[true, false, true, true, true]), Taking::Unwritten);
    assert_eq!(reached(&[true, true, false]), Taking::File);
    assert_eq!(reached(&[true, true, true, true]), Taking::Save);
    assert_eq!(reached(&[true, true, true, true, true]), Taking::Done);
    assert_eq!(reached(&[true, true, true, true, false]), Taking::Undo);
    assert_eq!(reached(&[true, true, true, true, false, true]), Taking::Unsaved);
    assert_eq!(reached(&[true, true, true, false]), Taking::AskNames);
    assert_eq!(reached(&[true, true, true, false, false]), Taking::FileByPosition);
    assert_eq!(reached(&[true, true, true, false, false, true]), Taking::Save);
}

#[test]
fn a_photograph_joins_what_is_near() {
    let mut s = Store::default();
    s.places.push(place("p1", None));
    s.places.push(place("p2", None));
    s.places.push(place("p3", None));
    let (lat, lng) = (Double { bits: 5 }, Double { bits: 6 });
    let ph = new_photo("17f", None);
    let p = file_by_position(&mut s, &ph, &None, lat, lng, &vec![false, true, true], None, "1").unwrap();
    assert_eq!(p.id, "p2");
    assert_eq!(p.photos.len(), 1);
    assert_eq!(s.places.len(), 3);
    assert!(s.trips.is_empty());
}

#[test]
fn a_photograph_from_elsewhere_makes_a_place_and_a_trip() {
    let mut s = Store::default();
    let (lat, lng) = (Double { bits: 5 }, Double { bits: 6 });
    let names = |region: &str| {
        Some(AddressNames {
            city: "东京".to_string(),
            name: "芝公园".to_string(),
            country: "日本".to_string(),
            region: region.to_string(),
        })
    };
    let color = Some("#123456".to_string());
    let ph = new_photo("17f", Some("2026.06".to_string()));
    let p = file_by_position(&mut s, &ph, &color, lat, lng, &vec![], names("东京都"), "a1").unwrap();
    assert_eq!((p.id.as_str(), p.name.as_str(), p.short.as_str()), ("p_17f", "芝公园", "芝公园"));
    assert_eq!((p.city.as_str(), p.country.as_str(), p.em.as_str()), ("东京", "日本", "📍"));
    assert_eq!((p.lat, p.lng), (lat, lng));
    assert_eq!(p.status, "visited");
    assert_eq!(p.trip_id.as_deref(), Some("t_a1"));
    assert_eq!(p.color.as_deref(), Some("#123456"));
    let t: &Trip = &s.trips[0];
    assert_eq!((t.id.as_str(), t.name.as_str(), t.em.as_str()), ("t_a1", "东京", "🧳"));
    assert_eq!((t.color.as_str(), t.status.as_str()), ("#E0684F", "done"));

    let ph = new_photo("180", None);
    let p = file_by_position(&mut s, &ph, &color, lat, lng, &vec![false], names("东京"), "a2").unwrap();
    assert_eq!(p.trip_id.as_deref(), Some("t_a1"));
    assert_eq!(s.trips.len(), 1);
    let ph = new_photo("181", None);
    let p = file_by_position(&mut s, &ph, &color, lat, lng, &vec![false; 2], None, "a3").unwrap();
    assert_eq!(p.name, "新地点");
    assert_eq!(p.trip_id, None);
    assert_eq!(s.places.len(), 3);
    let ph = new_photo("182", None);
    let p = file_by_position(&mut s, &ph, &color, lat, lng, &vec![false; 3], names("大阪府"), "a4").unwrap();
    assert_eq!(p.trip_id.as_deref(), Some("t_a4"));
    assert_eq!(s.trips[1].color, "#4F7DA3");
}

#[test]
fn trips_get_their_colours_in_turn() {
    let colors: Vec<&str> = (0..7).map(trip_color).collect();
    assert_eq!(colors, ["#E0684F", "#4F7DA3", "#3E6B57", "#C89B4B", "#8A6BA8", "#4FA39A", "#E0684F"]);
}
