//! Backups: what goes into one, and what comes out of it.

use std::io::{Cursor, Write};
use travel_map_app::backup::{
    count_photos, export_refs, is_importable, is_orphan, is_safe_rel, judge, name_fits,
    parse_backup_zip, restore, BackupError, Export, Restoring, Want, MAX_ENTRIES, MAX_FILE,
};
use travel_map_app::json::{Double, Json};
use travel_map_app::model::{Photo, Place, Store, UnplacedPhoto};
use travel_map_app::upload::new_photo;
use zip::write::SimpleFileOptions;
use zip::ZipWriter;

const ROOM: u64 = 512 * 1024 * 1024;

fn place(id: &str) -> Place {
    Place {
        id: id.to_string(),
        lng: Double { bits: 0 },
        lat: Double { bits: 0 },
        name: String::new(),
        short: String::new(),
        city: String::new(),
        country: String::new(),
        em: String::new(),
        date: None,
        rating: 0,
        tags: vec![],
        feel: String::new(),
        photos: vec![],
        cover: None,
        status: String::new(),
        trip_id: None,
        visits: vec![],
        category: String::new(),
        color: None,
        guide: Json::Null,
    }
}

fn archive(files: &[(&str, &[u8])]) -> Vec<u8> {
    let mut w = ZipWriter::new(Cursor::new(Vec::new()));
    let stored = SimpleFileOptions::default().compression_method(zip::CompressionMethod::Stored);
    for (name, data) in files {
        w.start_file(*name, stored).unwrap();
        w.write_all(data).unwrap();
    }
    w.finish().unwrap().into_inner()
}

fn error_of(bytes: Vec<u8>, room: u64) -> Option<BackupError> {
    match parse_backup_zip(bytes, room) {
        Ok(s) => s.failure,
        Err(e) => Some(e),
    }
}

#[test]
fn safe_paths_stay_below() {
    for rel in ["a.jpg", "thumb/a.jpg", "a/b/c", "照片.jpg", "...", ".a", "a:b"] {
        let expected = rel != "a:b";
        assert_eq!(is_safe_rel(rel), expected, "{}", rel);
    }
    for rel in ["", "/a.jpg", "../a.jpg", "a/../b", "a//b", "a/", "./a", "a/.", "a\\b", "C:/a", "z:x", ".."] {
        assert!(!is_safe_rel(rel), "{}", rel);
    }
}

#[test]
fn only_plain_paths_are_taken_back() {
    for rel in ["a.jpg", "thumb/17f.jpg", "a_b-C.9", "a/"] {
        assert!(is_importable(rel), "{}", rel);
    }
    for rel in ["", "/a.jpg", "a..jpg", "a b.jpg", "照片.jpg", "a\\b"] {
        assert!(!is_importable(rel), "{}", rel);
    }
}

#[test]
fn a_backup_holds_what_the_store_refers_to() {
    let mut s = Store::default();
    s.places.push(place("p1"));
    s.places.push(place("p2"));
    s.places[0].photos.push(new_photo("b", None));
    s.places[0].photos.push(new_photo("a", None));
    s.places[0].cover = Some("/photos/a.jpg".to_string());
    s.places[1].photos.push(Photo {
        id: "x".to_string(),
        url: "/photos/../secret".to_string(),
        thumb: "https://elsewhere/x.jpg".to_string(),
        date: None,
    });
    s.places[1].cover = Some("/photos//etc/x".to_string());
    s.unplaced.push(UnplacedPhoto {
        id: "u".to_string(),
        url: "/photos/u.jpg".to_string(),
        thumb: "/photos/thumb/u.jpg".to_string(),
        name: String::new(),
    });
    assert_eq!(
        export_refs(&s),
        ["a.jpg", "b.jpg", "thumb/a.jpg", "thumb/b.jpg", "thumb/u.jpg", "u.jpg"]
    );
    assert!(export_refs(&Store::default()).is_empty());
}

#[test]
fn a_backup_comes_back() {
    let text = "{\"name\": \"旅行足迹\"}".repeat(500);
    let mut e = Export::begin(&text).unwrap();
    assert!(e.add_photo("17f.jpg", b"\xff\xd8full"));
    assert!(e.add_photo("thumb/17f.jpg", b""));
    assert!(!e.add_photo("17f.jpg", b"again"));
    let bytes = e.finish().unwrap();
    assert_eq!(&bytes[..4], b"PK\x03\x04");
    assert!(bytes.len() < text.len());
    let mut packed = zip::ZipArchive::new(Cursor::new(bytes.clone())).unwrap();
    let method = |a: &mut zip::ZipArchive<Cursor<Vec<u8>>>, i: usize| a.by_index(i).unwrap().compression();
    assert_eq!(method(&mut packed, 0), zip::CompressionMethod::Deflated);
    assert_eq!(method(&mut packed, 1), zip::CompressionMethod::Stored);
    assert_eq!(method(&mut packed, 2), zip::CompressionMethod::Stored);
    let s = parse_backup_zip(bytes, ROOM).unwrap();
    assert_eq!(s.failure, None);
    assert_eq!(s.stores, vec![text.clone()]);
    assert_eq!(s.total, text.len() as u64 + 6);
    assert_eq!(s.photos.len(), 2);
    assert_eq!((s.photos[0].rel.as_str(), s.photos[0].data.as_slice()), ("17f.jpg", &b"\xff\xd8full"[..]));
    assert_eq!((s.photos[1].rel.as_str(), s.photos[1].data.len()), ("thumb/17f.jpg", 0));
    assert_eq!(restore(&s, &vec![true]), Ok(0));
    assert_eq!(restore(&s, &vec![false]), Err(BackupError::StoreInvalid));
    assert_eq!(count_photos(&s.photos), 1);
}

#[test]
fn names_have_a_limit() {
    assert!(name_fits(&"a".repeat(65528)));
    assert!(!name_fits(&"a".repeat(65529)));
    assert!(!name_fits(&"照".repeat(30000)));
}

#[test]
fn other_entries_are_passed_over() {
    let bytes = archive(&[
        ("photos/", b""),
        ("photos/../x.jpg", b"1"),
        ("photos//x.jpg", b"2"),
        ("photos/a b.jpg", b"3"),
        ("readme.txt", b"4"),
        ("store.json", b"{}"),
        ("photos/ok.jpg", b"5"),
    ]);
    let s = parse_backup_zip(bytes, ROOM).unwrap();
    assert_eq!(s.failure, None);
    assert_eq!(s.stores, vec!["{}".to_string()]);
    assert_eq!(s.photos.len(), 1);
    assert_eq!(s.photos[0].rel, "ok.jpg");
    assert_eq!(s.total, 7);
}

#[test]
fn what_is_no_archive_is_refused() {
    assert_eq!(error_of(b"not a zip".to_vec(), ROOM), Some(BackupError::NotAnArchive));
    assert_eq!(error_of(vec![], ROOM), Some(BackupError::NotAnArchive));
}

#[test]
fn too_many_entries_are_refused() {
    let names: Vec<String> = (0..=MAX_ENTRIES).map(|i| format!("{}", i)).collect();
    let files: Vec<(&str, &[u8])> = names.iter().map(|n| (n.as_str(), &b""[..])).collect();
    assert_eq!(error_of(archive(&files), ROOM), Some(BackupError::TooManyEntries));
    let s = parse_backup_zip(archive(&files[1..]), ROOM).unwrap();
    assert_eq!(s.failure, None);
    assert_eq!(restore(&s, &vec![]), Err(BackupError::NoStore));
}

#[test]
fn large_files_are_refused() {
    let mut w = ZipWriter::new(Cursor::new(Vec::new()));
    let deflated = SimpleFileOptions::default().compression_method(zip::CompressionMethod::Deflated);
    w.start_file("photos/a.jpg", deflated).unwrap();
    w.write_all(&vec![0u8; MAX_FILE as usize + 1]).unwrap();
    let bytes = w.finish().unwrap().into_inner();
    assert_eq!(error_of(bytes, ROOM), Some(BackupError::FileTooLarge));
}

#[test]
fn backups_that_unpack_to_too_much_are_refused() {
    let files: Vec<(&str, &[u8])> = vec![("store.json", b"{}"), ("photos/a.jpg", b"12345")];
    assert_eq!(error_of(archive(&files), 7), None);
    assert_eq!(error_of(archive(&files), 6), Some(BackupError::TooLarge));
    assert_eq!(error_of(archive(&files), 1), Some(BackupError::TooLarge));
}

#[test]
fn entries_that_cannot_be_opened_are_refused() {
    let mut bytes = archive(&[("store.json", b"{}"), ("photos/a.jpg", b"12345")]);
    bytes[0] = b'X';
    assert_eq!(error_of(bytes, ROOM), Some(BackupError::EntryUnreadable));
}

#[test]
fn contents_that_do_not_match_are_refused() {
    let mut bytes = archive(&[("photos/a.jpg", b"12345")]);
    let at = bytes.windows(5).position(|w| w == b"12345").unwrap();
    bytes[at] = b'9';
    assert_eq!(error_of(bytes, ROOM), Some(BackupError::PhotoUnreadable));
    let mut bytes = archive(&[("store.json", b"12345")]);
    let at = bytes.windows(5).position(|w| w == b"12345").unwrap();
    bytes[at] = b'9';
    assert_eq!(error_of(bytes, ROOM), Some(BackupError::StoreUnreadable));
    let bytes = archive(&[("store.json", b"\xff\xfe")]);
    assert_eq!(error_of(bytes, ROOM), Some(BackupError::StoreUnreadable));
}

#[test]
fn what_comes_first_decides() {
    let mut bytes = archive(&[("store.json", b"no store"), ("photos/a.jpg", b"12345")]);
    let at = bytes.windows(5).position(|w| w == b"12345").unwrap();
    bytes[at] = b'9';
    let s = parse_backup_zip(bytes, ROOM).unwrap();
    assert_eq!(s.failure, Some(BackupError::PhotoUnreadable));
    assert_eq!(s.stores, vec!["no store".to_string()]);
    assert_eq!(restore(&s, &vec![false]), Err(BackupError::StoreInvalid));
    assert_eq!(restore(&s, &vec![true]), Err(BackupError::PhotoUnreadable));
}

#[test]
fn entries_are_judged_one_by_one() {
    assert_eq!(judge(5, "a/", u64::MAX, 0), Ok((5, Want::Nothing)));
    assert_eq!(judge(5, "store.json", 3, 8), Ok((8, Want::Store)));
    assert_eq!(judge(5, "store.json", 4, 8), Err(BackupError::TooLarge));
    assert_eq!(judge(u64::MAX, "x", 1, u64::MAX), Ok((u64::MAX, Want::Nothing)));
    assert_eq!(judge(0, "x", MAX_FILE + 1, u64::MAX), Err(BackupError::FileTooLarge));
    assert_eq!(judge(0, "photos/a", 1, 1), Ok((1, Want::Photo("a".to_string()))));
}

#[test]
fn backup_errors_have_words() {
    let expected = [
        (BackupError::NotAnArchive, "不是有效的 zip 备份包"),
        (BackupError::TooManyEntries, "备份包条目过多，疑似异常文件"),
        (BackupError::EntryUnreadable, "zip 读取失败"),
        (BackupError::FileTooLarge, "备份包内有超大文件，已拒绝"),
        (BackupError::TooLarge, "备份包解压后体积过大，已拒绝"),
        (BackupError::StoreTooLarge, "store.json 过大，疑似异常"),
        (BackupError::StoreUnreadable, "store.json 读取失败"),
        (BackupError::StoreInvalid, "store.json 结构不合法"),
        (BackupError::PhotoUnreadable, "照片读取失败"),
        (BackupError::NoStore, "备份包里没有 store.json"),
    ];
    for (e, words) in expected {
        assert_eq!(e.message(), words);
    }
}

#[test]
fn orphans_are_told_from_photographs() {
    let mut s = Store::default();
    s.places.push(place("p1"));
    s.places[0].photos.push(new_photo("17f", None));
    s.unplaced.push(UnplacedPhoto {
        id: "u1".to_string(),
        url: String::new(),
        thumb: String::new(),
        name: String::new(),
    });
    assert!(!is_orphan(&s, "17f.jpg"));
    assert!(!is_orphan(&s, "u1.jpg"));
    assert!(is_orphan(&s, "180.jpg"));
    assert!(!is_orphan(&s, "180.png"));
    assert!(!is_orphan(&s, ".jpg"));
    assert!(!is_orphan(&s, "thumb"));
}

#[test]
fn the_store_is_replaced_after_the_photographs() {
    let mut step = Restoring::begin(2);
    assert_eq!(step, Restoring::Photo(0));
    step = step.next(2, true);
    assert_eq!(step, Restoring::Photo(1));
    assert_eq!(step.next(2, false), Restoring::Failed);
    step = step.next(2, true);
    assert_eq!(step, Restoring::Store);
    assert_eq!(step.next(2, false), Restoring::Failed);
    step = step.next(2, true);
    assert_eq!(step, Restoring::CleanUp);
    assert_eq!(step.next(2, true), Restoring::Done);
    assert_eq!(Restoring::begin(0), Restoring::Store);
    assert_eq!(Restoring::Failed.next(2, true), Restoring::Failed);
}
