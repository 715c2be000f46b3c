//! Backups: an archive of the store and its photographs, and how one is read back.

use std::io::{Cursor, Read, Write};
use vstd::prelude::*;
use vstd::utf8::{decode_utf8, encode_utf8, valid_utf8};
use crate::codes::numeral;
use crate::json::views;
use crate::model::{PhotoV, PlaceV, Store, StoreV, UnplacedPhotoV};
use crate::photo::opt_bytes;
use crate::text::{
    after_prefix, ascii_alphanumeric, begins_with, byte_len, chars_of, comes_before, contains,
    contains_text, ends_in, ends_with, is_ascii_alphanumeric, join2, lemma_text_order, less,
    occurs_at, opt_text, pieces, same, split, split_at_any, starts_with, strip_prefix, text_of,
};

verus! {

/// Whether a path below the photographs is safe to use: it is not empty, does not begin at the
/// root or with a drive, has no backslash, and none of its parts is empty, `.` or `..`.
pub open spec fn safe_rel(rel: Seq<char>) -> bool {
    &&& rel.len() > 0
    &&& rel[0] != '/'
    &&& !rel.contains('\\')
    &&& !drive(rel)
    &&& forall|i: int|
        0 <= i < split_at_any(rel, seq!['/']).len() ==> {
            let part = #[trigger] split_at_any(rel, seq!['/'])[i];
            part != ".."@ && part != "."@ && part.len() > 0
        }
}

/// Whether a path begins with the letter of a drive.
pub open spec fn drive(rel: Seq<char>) -> bool {
    rel.len() >= 2 && rel[1] == ':' && (('A' <= rel[0] && rel[0] <= 'Z') || ('a' <= rel[0] && rel[0]
        <= 'z'))
}

/// Whether a path below the photographs is safe to use.
pub fn is_safe_rel(rel: &str) -> (r: bool)
    ensures
        r == safe_rel(rel@),
{
    let v = chars_of(rel);
    if v.len() == 0 || v[0] == '/' || crate::text::one_of('\\', &v) {
        return false;
    }
    if v.len() >= 2 && v[1] == ':' && (('A' <= v[0] && v[0] <= 'Z') || ('a' <= v[0] && v[0]
        <= 'z')) {
        return false;
    }
    let slash: Vec<char> = vec!['/'];
    assert(slash@ =~= seq!['/']);
    let parts = split(&v, &slash);
    let ghost all = pieces(parts@);
    let mut i: usize = 0;
    while i < parts.len()
        invariant
            i <= parts.len(),
            all == pieces(parts@),
            all == split_at_any(rel@, seq!['/']),
            forall|k: int|
                0 <= k < i ==> (#[trigger] all[k]) != ".."@ && all[k] != "."@ && all[k].len() > 0,
        decreases parts.len() - i,
    {
        assert(all[i as int] == parts@[i as int]@);
        let part = text_of(&parts[i]);
        if parts[i].len() == 0 || same(part.as_str(), "..") || same(part.as_str(), ".") {
            assert(!safe_rel(rel@)) by {
                assert(split_at_any(rel@, seq!['/'])[i as int] == part@);
            }
            return false;
        }
        i = i + 1;
    }
    true
}

/// The file below the photographs that an address refers to, if it refers to one.
pub open spec fn ref_of(url: Seq<char>) -> Option<Seq<char>> {
    match after_prefix(url, "/photos/"@) {
        Some(rel) => if safe_rel(rel) {
            Some(rel)
        } else {
            None
        },
        None => None,
    }
}

/// The addresses of some photographs.
pub open spec fn photo_urls(s: Seq<PhotoV>) -> Seq<Seq<char>>
    decreases s.len(),
{
    if s.len() == 0 {
        Seq::empty()
    } else {
        photo_urls(s.drop_last()).push(s.last().url).push(s.last().thumb)
    }
}

/// The addresses that some places refer to.
pub open spec fn place_urls(s: Seq<PlaceV>) -> Seq<Seq<char>>
    decreases s.len(),
{
    if s.len() == 0 {
        Seq::empty()
    } else {
        place_urls(s.drop_last()) + photo_urls(s.last().photos) + match s.last().cover {
            Some(c) => seq![c],
            None => Seq::empty(),
        }
    }
}

/// The addresses of some photographs without a position.
pub open spec fn unplaced_urls(s: Seq<UnplacedPhotoV>) -> Seq<Seq<char>>
    decreases s.len(),
{
    if s.len() == 0 {
        Seq::empty()
    } else {
        unplaced_urls(s.drop_last()).push(s.last().url).push(s.last().thumb)
    }
}

/// The addresses that a store refers to.
pub open spec fn store_urls(s: StoreV) -> Seq<Seq<char>> {
    place_urls(s.places) + unplaced_urls(s.unplaced)
}

/// Whether one of these addresses refers to the file.
pub open spec fn refers(urls: Seq<Seq<char>>, rel: Seq<char>) -> bool {
    exists|k: int| 0 <= k < urls.len() && ref_of(#[trigger] urls[k]) == Some(rel)
}

/// Whether texts stand in their order, each only once.
pub open spec fn ascending(s: Seq<Seq<char>>) -> bool {
    forall|i: int, j: int|
        #![trigger s[i], s[j]]
        0 <= i < j < s.len() ==> comes_before(s[i], s[j])
}

/// Of two lists of addresses one refers to a file if one of the lists does.
proof fn lemma_refers_both(a: Seq<Seq<char>>, b: Seq<Seq<char>>, rel: Seq<char>)
    ensures
        refers(a + b, rel) <==> refers(a, rel) || refers(b, rel),
{
    if refers(a, rel) {
        let k = choose|k: int| 0 <= k < a.len() && ref_of(#[trigger] a[k]) == Some(rel);
        assert((a + b)[k] == a[k]);
    }
    if refers(b, rel) {
        let k = choose|k: int| 0 <= k < b.len() && ref_of(#[trigger] b[k]) == Some(rel);
        assert((a + b)[a.len() + k] == b[k]);
    }
    if refers(a + b, rel) {
        let k = choose|k: int| 0 <= k < (a + b).len() && ref_of(#[trigger] (a + b)[k]) == Some(rel);
        if k < a.len() {
            assert(a[k] == (a + b)[k]);
        } else {
            assert(b[k - a.len()] == (a + b)[k]);
        }
    }
}

/// One more address refers to what it refers to.
proof fn lemma_refers_push(a: Seq<Seq<char>>, url: Seq<char>, rel: Seq<char>)
    ensures
        refers(a.push(url), rel) <==> refers(a, rel) || ref_of(url) == Some(rel),
{
    assert(a.push(url) =~= a + seq![url]);
    lemma_refers_both(a, seq![url], rel);
    if ref_of(url) == Some(rel) {
        assert(seq![url][0] == url);
        assert(refers(seq![url], rel));
    }
}

/// Whether a list holds exactly the files that some addresses refer to, in order.
pub open spec fn lists(files: Seq<Seq<char>>, urls: Seq<Seq<char>>) -> bool {
    &&& ascending(files)
    &&& forall|rel: Seq<char>| #[trigger] files.contains(rel) <==> refers(urls, rel)
}

/// Adds the file that an address refers to, in its place.
fn add_ref(files: &mut Vec<String>, url: &str, Ghost(urls): Ghost<Seq<Seq<char>>>)
    requires
        lists(views(old(files)@), urls),
    ensures
        lists(views(final(files)@), urls.push(url@)),
{
    let ghost before = views(files@);
    proof {
        assert forall|rel: Seq<char>| refers(urls.push(url@), rel) <==> refers(urls, rel) || ref_of(
            url@,
        ) == Some(rel) by {
            lemma_refers_push(urls, url@, rel);
        }
    }
    let rel: String = match strip_prefix(url, "/photos/") {
        Some(rel) => rel,
        None => return,
    };
    if !is_safe_rel(rel.as_str()) {
        return;
    }
    let mut lo: usize = 0;
    let mut hi: usize = files.len();
    while lo < hi
        invariant
            lo <= hi <= files.len(),
            before == views(files@),
            ascending(before),
            forall|k: int| 0 <= k < lo ==> comes_before(#[trigger] before[k], rel@),
            forall|k: int| hi <= k < before.len() ==> !comes_before(#[trigger] before[k], rel@),
        decreases hi - lo,
    {
        let mid: usize = lo + (hi - lo) / 2;
        assert(before[mid as int] == files@[mid as int]@);
        if less(files[mid].as_str(), rel.as_str()) {
            proof {
                assert forall|k: int| 0 <= k < mid + 1 implies comes_before(
                    #[trigger] before[k],
                    rel@,
                ) by {
                    lemma_text_order(before[k], before[mid as int], rel@);
                }
            }
            lo = mid + 1;
        } else {
            proof {
                assert forall|k: int| mid <= k < before.len() implies !comes_before(
                    #[trigger] before[k],
                    rel@,
                ) by {
                    lemma_text_order(before[mid as int], before[k], rel@);
                }
            }
            hi = mid;
        }
    }
    proof {
        assert forall|k: int| lo <= k < before.len() implies before[k] == rel@ || comes_before(
            rel@,
            #[trigger] before[k],
        ) by {
            lemma_text_order(rel@, before[k], rel@);
        }
    }
    if lo < files.len() {
        assert(before[lo as int] == files@[lo as int]@);
        if same(files[lo].as_str(), rel.as_str()) {
            assert(before.contains(rel@));
            return;
        }
    }
    let ghost meaning = rel@;
    proof {
        assert forall|k: int| lo <= k < before.len() implies comes_before(
            meaning,
            #[trigger] before[k],
        ) by {
            if k > lo {
                lemma_text_order(meaning, before[lo as int], before[k]);
            }
        }
    }
    files.insert(lo, rel);
    let ghost after = before.insert(lo as int, meaning);
    assert(views(files@) =~= after);
    proof {
        assert forall|i: int, j: int|
            #![trigger after[i], after[j]]
            0 <= i < j < after.len() implies comes_before(after[i], after[j]) by {
            if i == lo {
                assert(after[j] == before[j - 1]);
            } else if j == lo {
                assert(after[i] == before[i]);
            } else {
                let a = if i < lo {
                    i
                } else {
                    i - 1
                };
                let b = if j < lo {
                    j
                } else {
                    j - 1
                };
                assert(after[i] == before[a] && after[j] == before[b]);
            }
        }
        assert forall|rel: Seq<char>| #[trigger] after.contains(rel) <==> before.contains(rel)
            || rel == meaning by {
            if before.contains(rel) {
                let k = choose|k: int| 0 <= k < before.len() && before[k] == rel;
                if k < lo {
                    assert(after[k] == rel);
                } else {
                    assert(after[k + 1] == rel);
                }
            }
            if rel == meaning {
                assert(after[lo as int] == rel);
            }
            if after.contains(rel) {
                let k = choose|k: int| 0 <= k < after.len() && after[k] == rel;
                if k < lo {
                    assert(before[k] == rel);
                } else if k > lo {
                    assert(before[k - 1] == rel);
                }
            }
        }
    }
}

/// The files below the photographs that a store refers to: in their order, each once. Files that
/// it does not refer to are no part of a backup.
pub fn export_refs(store: &Store) -> (r: Vec<String>)
    ensures
        lists(views(r@), store_urls(store@)),
{
    let mut out: Vec<String> = Vec::new();
    let ghost places = store@.places;
    let ghost mut urls: Seq<Seq<char>> = Seq::empty();
    let mut i: usize = 0;
    assert(place_urls(places.take(0)) =~= Seq::empty());
    while i < store.places.len()
        invariant
            i <= store.places.len(),
            places == store@.places,
            urls == place_urls(places.take(i as int)),
            lists(views(out@), urls),
        decreases store.places.len() - i,
    {
        let p = &store.places[i];
        let ghost photos = p@.photos;
        let ghost base = urls;
        assert(places[i as int] == p@);
        assert(places.take(i + 1).drop_last() == places.take(i as int));
        assert(photo_urls(photos.take(0)) =~= Seq::empty());
        assert(base + photo_urls(photos.take(0)) =~= base);
        let mut j: usize = 0;
        while j < p.photos.len()
            invariant
                j <= p.photos.len(),
                photos == p@.photos,
                urls == base + photo_urls(photos.take(j as int)),
                lists(views(out@), urls),
            decreases p.photos.len() - j,
        {
            let ph = &p.photos[j];
            assert(photos[j as int] == ph@);
            assert(photos.take(j + 1).drop_last() == photos.take(j as int));
            add_ref(&mut out, ph.url.as_str(), Ghost(urls));
            add_ref(&mut out, ph.thumb.as_str(), Ghost(urls.push(ph.url@)));
            proof {
                assert(urls.push(ph.url@).push(ph.thumb@) =~= base + photo_urls(
                    photos.take(j + 1),
                ));
                urls = urls.push(ph.url@).push(ph.thumb@);
            }
            j = j + 1;
        }
        assert(photos.take(j as int) == photos);
        match &p.cover {
            Some(c) => {
                add_ref(&mut out, c.as_str(), Ghost(urls));
                proof {
                    assert(urls.push(c@) =~= base + photo_urls(photos) + seq![c@]);
                    urls = urls.push(c@);
                }
            },
            None => {
                assert(urls =~= base + photo_urls(photos) + Seq::<Seq<char>>::empty());
            },
        }
        i = i + 1;
    }
    assert(places.take(i as int) == places);
    let ghost base = urls;
    let ghost rest = store@.unplaced;
    assert(base + unplaced_urls(rest.take(0)) =~= base);
    let mut k: usize = 0;
    while k < store.unplaced.len()
        invariant
            k <= store.unplaced.len(),
            rest == store@.unplaced,
            urls == base + unplaced_urls(rest.take(k as int)),
            lists(views(out@), urls),
        decreases store.unplaced.len() - k,
    {
        let u = &store.unplaced[k];
        assert(rest[k as int] == u@);
        assert(rest.take(k + 1).drop_last() == rest.take(k as int));
        add_ref(&mut out, u.url.as_str(), Ghost(urls));
        add_ref(&mut out, u.thumb.as_str(), Ghost(urls.push(u.url@)));
        proof {
            assert(urls.push(u.url@).push(u.thumb@) =~= base + unplaced_urls(rest.take(k + 1)));
            urls = urls.push(u.url@).push(u.thumb@);
        }
        k = k + 1;
    }
    assert(rest.take(k as int) == rest);
    out
}

/// A file: its name and contents.
pub type File = (Seq<char>, Seq<u8>);

/// How the contents of a file are kept in an archive.
#[derive(Clone, Copy, Debug, PartialEq, Eq, Structural)]
pub enum Method {
    /// As they are.
    Stored,
    /// Compressed.
    Deflated,
    /// In another way.
    Other,
}

/// A file as it is put into an archive.
#[verifier::ext_equal]
pub struct PackedV {
    pub name: Seq<char>,
    pub data: Seq<u8>,
    pub method: Method,
}

/// What an archive holds of one file: its name, the size that it states, its contents, if they can
/// be read, and how they are kept.
pub struct EntryV {
    pub name: Seq<char>,
    pub size: u64,
    pub data: Option<Seq<u8>>,
    pub method: Method,
}

/// The entries of the archive in these bytes, in order, with the name, size, contents and
/// compression that they state; one that cannot be opened is none. None at all if the bytes are no
/// archive.
pub uninterp spec fn zip_entries(bytes: Seq<u8>) -> Option<Seq<Option<EntryV>>>;

/// The entries that files have which were written as they should be.
pub open spec fn entries_of(files: Seq<PackedV>) -> Seq<Option<EntryV>> {
    Seq::new(
        files.len(),
        |i: int|
            Some(
                EntryV {
                    name: files[i].name,
                    size: files[i].data.len() as u64,
                    data: Some(files[i].data),
                    method: files[i].method,
                },
            ),
    )
}

/// An archive that is being written: `zip::ZipWriter`, over a buffer in memory.
#[verifier::external_body]
pub struct ArchiveWriter {
    inner: zip::ZipWriter<Cursor<Vec<u8>>>,
}

/// The files written to an archive so far.
pub uninterp spec fn written(w: ArchiveWriter) -> Seq<PackedV>;

/// Whether no file is larger than two gigabytes.
pub open spec fn moderate(files: Seq<PackedV>) -> bool {
    forall|i: int| 0 <= i < files.len() ==> (#[trigger] files[i]).data.len() <= 0x8000_0000
}

/// Whether one of the files has the name.
pub open spec fn has_name(files: Seq<PackedV>, name: Seq<char>) -> bool {
    exists|i: int| 0 <= i < files.len() && (#[trigger] files[i]).name == name
}

/// A file as it is put into an archive, compressed or not.
pub open spec fn packed(name: Seq<char>, data: Seq<u8>, compressed: bool) -> PackedV {
    PackedV {
        name,
        data,
        method: if compressed {
            Method::Deflated
        } else {
            Method::Stored
        },
    }
}

/// `ZipWriter::new`: an archive without files.
#[verifier::external_body]
fn new_archive() -> (r: ArchiveWriter)
    ensures
        written(r) == Seq::<PackedV>::empty(),
{
    ArchiveWriter { inner: zip::ZipWriter::new(Cursor::new(Vec::new())) }
}

/// `ZipWriter::start_file` and `write_all`: one more file, compressed or stored as it is. A name
/// of more than 65535 bytes makes it panic. It succeeds on a name that is not taken, unless a file
/// is too large for the format.
#[verifier::external_body]
fn write_file(w: &mut ArchiveWriter, name: &str, data: &[u8], compressed: bool) -> (r: bool)
    requires
        byte_len(name@) <= 0xffff,
    ensures
        r ==> written(*final(w)) == written(*old(w)).push(packed(name@, data@, compressed)),
        moderate(written(*old(w))) && data@.len() <= 0x8000_0000 && !has_name(
            written(*old(w)),
            name@,
        ) ==> r,
{
    let method = match compressed {
        true => zip::CompressionMethod::Deflated,
        false => zip::CompressionMethod::Stored,
    };
    let options = zip::write::SimpleFileOptions::default().compression_method(method);
    w.inner.start_file(name, options).is_ok() && w.inner.write_all(data).is_ok()
}

/// `ZipWriter::finish`: the bytes of the archive, which `ZipArchive` reads back as the files that
/// were written, each kept in the way that was asked for. That is claimed of archives of fewer than
/// 65535 files and four gigabytes, which need none of the extensions of the format.
#[verifier::external_body]
fn finish_archive(w: ArchiveWriter) -> (r: Option<Vec<u8>>)
    ensures
        moderate(written(w)) ==> r is Some,
        r matches Some(b) ==> (moderate(written(w)) && written(w).len() < 0xffff && b@.len()
            < 0xffff_ffff ==> zip_entries(b@) == Some(entries_of(written(w)))),
{
    w.inner.finish().ok().map(|c| c.into_inner())
}

/// A backup that is being written.
pub struct Export {
    writer: ArchiveWriter,
}

impl Export {
    /// The files in the backup so far.
    pub closed spec fn files(self) -> Seq<PackedV> {
        written(self.writer)
    }

    /// Begins a backup with the text of the store, which is compressed. It succeeds unless the
    /// text is larger than two gigabytes.
    pub fn begin(store_json: &str) -> (r: Option<Export>)
        ensures
            r matches Some(e) ==> e.files() == seq![
                packed("store.json"@, encode_utf8(store_json@), true),
            ],
            byte_len(store_json@) <= 0x8000_0000 ==> r is Some,
    {
        proof {
            lemma_store_name();
        }
        let mut writer = new_archive();
        if write_file(&mut writer, "store.json", store_json.as_bytes(), true) {
            assert(written(writer) =~= seq![
                packed("store.json"@, encode_utf8(store_json@), true),
            ]);
            Some(Export { writer })
        } else {
            None
        }
    }

    /// Adds a photograph, given where it stands below the photographs. Photographs are compressed
    /// already, so they are stored as they are.
    pub fn add_photo(&mut self, rel: &str, data: &[u8]) -> (r: bool)
        requires
            byte_len("photos/"@ + rel@) <= 0xffff,
        ensures
            r ==> final(self).files() == old(self).files().push(
                packed("photos/"@ + rel@, data@, false),
            ),
            moderate(old(self).files()) && data@.len() <= 0x8000_0000 && !has_name(
                old(self).files(),
                "photos/"@ + rel@,
            ) ==> r,
    {
        let name = join2("photos/", rel);
        write_file(&mut self.writer, name.as_str(), data, false)
    }

    /// The bytes of the backup.
    pub fn finish(self) -> (r: Option<Vec<u8>>)
        ensures
            moderate(self.files()) ==> r is Some,
            r matches Some(b) ==> (moderate(self.files()) && self.files().len() < 0xffff && b@.len()
                < 0xffff_ffff ==> zip_entries(b@) == Some(entries_of(self.files()))),
    {
        finish_archive(self.writer)
    }
}

/// Whether a photograph's name fits into a backup.
pub fn name_fits(rel: &str) -> (r: bool)
    ensures
        r == (byte_len("photos/"@ + rel@) <= 0xffff),
{
    join2("photos/", rel).as_str().as_bytes().len() <= 0xffff
}

/// The name of the store's file is short.
proof fn lemma_store_name()
    ensures
        byte_len("store.json"@) <= 0xffff,
{
    reveal_strlit("store.json");
    lemma_ascii_len("store.json"@);
}

/// A text in ASCII has as many bytes as characters.
proof fn lemma_ascii_len(s: Seq<char>)
    requires
        forall|i: int| 0 <= i < s.len() ==> (#[trigger] s[i]) as u32 <= 0x7f,
    ensures
        byte_len(s) == s.len(),
    decreases s.len(),
{
    if s.len() > 0 {
        assert forall|i: int| 0 <= i < s.drop_first().len() implies (#[trigger] s.drop_first()[i])
            as u32 <= 0x7f by {
            assert(s.drop_first()[i] == s[i + 1]);
        }
        lemma_ascii_len(s.drop_first());
        reveal_with_fuel(encode_utf8, 2);
        assert(s[0] as u32 <= 0x7f);
    }
}

/// The most entries that a backup may have.
pub const MAX_ENTRIES: usize = 20_000;

/// The most bytes that one file of a backup may have.
pub const MAX_FILE: u64 = 62_914_560;

/// The most bytes that the text of the store may have.
pub const MAX_STORE_JSON: u64 = 67_108_864;

/// Why a backup is turned down.
#[derive(Clone, Copy, Debug, PartialEq, Eq, Structural)]
pub enum BackupError {
    NotAnArchive,
    TooManyEntries,
    EntryUnreadable,
    FileTooLarge,
    TooLarge,
    StoreTooLarge,
    StoreUnreadable,
    StoreInvalid,
    PhotoUnreadable,
    NoStore,
}

/// The words of a [`BackupError`].
pub open spec fn backup_message(e: BackupError) -> Seq<char> {
    match e {
        BackupError::NotAnArchive => "不是有效的 zip 备份包"@,
        BackupError::TooManyEntries => "备份包条目过多，疑似异常文件"@,
        BackupError::EntryUnreadable => "zip 读取失败"@,
        BackupError::FileTooLarge => "备份包内有超大文件，已拒绝"@,
        BackupError::TooLarge => "备份包解压后体积过大，已拒绝"@,
        BackupError::StoreTooLarge => "store.json 过大，疑似异常"@,
        BackupError::StoreUnreadable => "store.json 读取失败"@,
        BackupError::StoreInvalid => "store.json 结构不合法"@,
        BackupError::PhotoUnreadable => "照片读取失败"@,
        BackupError::NoStore => "备份包里没有 store.json"@,
    }
}

impl BackupError {
    /// The words.
    pub fn message(self) -> (r: &'static str)
        ensures
            r@ == backup_message(self),
    {
        match self {
            BackupError::NotAnArchive => "不是有效的 zip 备份包",
            BackupError::TooManyEntries => "备份包条目过多，疑似异常文件",
            BackupError::EntryUnreadable => "zip 读取失败",
            BackupError::FileTooLarge => "备份包内有超大文件，已拒绝",
            BackupError::TooLarge => "备份包解压后体积过大，已拒绝",
            BackupError::StoreTooLarge => "store.json 过大，疑似异常",
            BackupError::StoreUnreadable => "store.json 读取失败",
            BackupError::StoreInvalid => "store.json 结构不合法",
            BackupError::PhotoUnreadable => "照片读取失败",
            BackupError::NoStore => "备份包里没有 store.json",
        }
    }
}

/// The standard library's reader over bytes in memory.
#[verifier::external_type_specification]
#[verifier::external_body]
#[verifier::reject_recursive_types(T)]
pub struct ExCursor<T>(Cursor<T>);

/// An archive that is being read: `zip::ZipArchive`.
#[verifier::external_type_specification]
#[verifier::external_body]
#[verifier::reject_recursive_types(R)]
pub struct ExZipArchive<R>(zip::ZipArchive<R>);

/// The entries of an archive, in order; one that cannot be opened is none.
pub uninterp spec fn archive_entries(a: zip::ZipArchive<Cursor<Vec<u8>>>) -> Seq<Option<EntryV>>;

/// `ZipArchive::new` over bytes in memory: the archive in them, if they are one.
#[verifier::external_body]
fn open_archive(bytes: Vec<u8>) -> (r: Option<zip::ZipArchive<Cursor<Vec<u8>>>>)
    ensures
        match r {
            Some(a) => zip_entries(bytes@) == Some(archive_entries(a)),
            None => zip_entries(bytes@) is None,
        },
{
    zip::ZipArchive::new(Cursor::new(bytes)).ok()
}

/// `ZipArchive::len`: the number of entries.
#[verifier::external_body]
fn archive_len(a: &zip::ZipArchive<Cursor<Vec<u8>>>) -> (r: usize)
    ensures
        r == archive_entries(*a).len(),
{
    a.len()
}

/// `ZipArchive::by_index`, with the `name` and `size` of the entry: none if it cannot be opened.
#[verifier::external_body]
fn entry_head(a: &mut zip::ZipArchive<Cursor<Vec<u8>>>, i: usize) -> (r: Option<(String, u64)>)
    requires
        i < archive_entries(*old(a)).len(),
    ensures
        archive_entries(*final(a)) == archive_entries(*old(a)),
        match r {
            Some(h) => {
                &&& archive_entries(*old(a))[i as int] matches Some(e)
                &&& h.0@ == e.name
                &&& h.1 == e.size
            },
            None => archive_entries(*old(a))[i as int] is None,
        },
{
    let f = a.by_index(i).ok()?;
    Some((f.name().to_string(), f.size()))
}

/// `ZipArchive::by_index`, with the entry's contents read by `read_to_end`: none if it cannot be
/// opened, or its contents cannot be read to the end or do not match their checksum.
#[verifier::external_body]
fn entry_data(a: &mut zip::ZipArchive<Cursor<Vec<u8>>>, i: usize) -> (r: Option<Vec<u8>>)
    requires
        i < archive_entries(*old(a)).len(),
    ensures
        archive_entries(*final(a)) == archive_entries(*old(a)),
        opt_bytes(r) == (match archive_entries(*old(a))[i as int] {
            Some(e) => e.data,
            None => None,
        }),
{
    let mut data = Vec::new();
    a.by_index(i).ok()?.read_to_end(&mut data).ok()?;
    Some(data)
}

/// `String::from_utf8` of the standard library: the text of these bytes, if they are UTF-8.
#[verifier::external_body]
fn utf8_text(v: Vec<u8>) -> (r: Option<String>)
    ensures
        opt_text(r) == (if valid_utf8(v@) {
            Some(decode_utf8(v@))
        } else {
            None
        }),
{
    String::from_utf8(v).ok()
}

/// Whether a photograph of a backup is taken: its path is not empty, does not begin at the root,
/// has no `..`, and is made of ASCII letters and digits, `.`, `_`, `/` and `-`.
pub open spec fn importable(rel: Seq<char>) -> bool {
    &&& rel.len() > 0
    &&& rel[0] != '/'
    &&& !contains_text(rel, ".."@)
    &&& forall|i: int| 0 <= i < rel.len() ==> path_char(#[trigger] rel[i])
}

/// The characters of a photograph's path.
pub open spec fn path_char(c: char) -> bool {
    ascii_alphanumeric(c) || c == '.' || c == '_' || c == '/' || c == '-'
}

/// Whether a photograph of a backup is taken.
pub fn is_importable(rel: &str) -> (r: bool)
    ensures
        r == importable(rel@),
{
    let v = chars_of(rel);
    if v.len() == 0 || contains(rel, "..") || v[0] == '/' {
        return false;
    }
    let mut i: usize = 0;
    while i < v.len()
        invariant
            i <= v.len(),
            v@ == rel@,
            forall|k: int| 0 <= k < i ==> path_char(#[trigger] v@[k]),
        decreases v.len() - i,
    {
        let c: char = v[i];
        if !(is_ascii_alphanumeric(c) || c == '.' || c == '_' || c == '/' || c == '-') {
            assert(!path_char(rel@[i as int]));
            return false;
        }
        i = i + 1;
    }
    true
}

/// What is to be taken of an entry.
#[derive(Debug, PartialEq, Eq)]
pub enum Want {
    Nothing,
    Store,
    /// A photograph, with its path below the photographs.
    Photo(String),
}

/// What a [`Want`] means.
pub enum WantV {
    Nothing,
    Store,
    Photo(Seq<char>),
}

impl View for Want {
    type V = WantV;

    open spec fn view(&self) -> WantV {
        match self {
            Want::Nothing => WantV::Nothing,
            Want::Store => WantV::Store,
            Want::Photo(rel) => WantV::Photo(rel@),
        }
    }
}

/// A sum that stops at the largest number.
pub open spec fn capped_sum(a: u64, b: u64) -> u64 {
    if a + b <= u64::MAX {
        (a + b) as u64
    } else {
        u64::MAX
    }
}

/// What is to be taken of an entry with this name and stated size, after entries that state
/// `total` bytes, and what they state with it; or why the backup is turned down.
pub open spec fn judged(total: u64, name: Seq<char>, size: u64, max_total: u64) -> Result<
    (u64, WantV),
    BackupError,
> {
    if ends_in(name, "/"@) {
        Ok((total, WantV::Nothing))
    } else if size > MAX_FILE {
        Err(BackupError::FileTooLarge)
    } else if capped_sum(total, size) > max_total {
        Err(BackupError::TooLarge)
    } else if name == "store.json"@ {
        if size > MAX_STORE_JSON {
            Err(BackupError::StoreTooLarge)
        } else {
            Ok((capped_sum(total, size), WantV::Store))
        }
    } else {
        match after_prefix(name, "photos/"@) {
            Some(rel) => if importable(rel) {
                Ok((capped_sum(total, size), WantV::Photo(rel)))
            } else {
                Ok((capped_sum(total, size), WantV::Nothing))
            },
            None => Ok((capped_sum(total, size), WantV::Nothing)),
        }
    }
}

/// What is to be taken of an entry.
pub fn judge(total: u64, name: &str, size: u64, max_total: u64) -> (r: Result<
    (u64, Want),
    BackupError,
>)
    ensures
        match r {
            Ok((t, w)) => judged(total, name@, size, max_total) == Ok::<(u64, WantV), BackupError>(
                (t, w@),
            ),
            Err(e) => judged(total, name@, size, max_total) == Err::<(u64, WantV), BackupError>(e),
        },
{
    if ends_with(name, "/") {
        return Ok((total, Want::Nothing));
    }
    if size > MAX_FILE {
        return Err(BackupError::FileTooLarge);
    }
    let sum: u64 = match total.checked_add(size) {
        Some(n) => n,
        None => u64::MAX,
    };
    if sum > max_total {
        return Err(BackupError::TooLarge);
    }
    if same(name, "store.json") {
        if size > MAX_STORE_JSON {
            return Err(BackupError::StoreTooLarge);
        }
        return Ok((sum, Want::Store));
    }
    match strip_prefix(name, "photos/") {
        Some(rel) => if is_importable(rel.as_str()) {
            Ok((sum, Want::Photo(rel)))
        } else {
            Ok((sum, Want::Nothing))
        },
        None => Ok((sum, Want::Nothing)),
    }
}

/// A photograph of a backup: its path below the photographs, and its bytes.
pub struct BackupPhoto {
    pub rel: String,
    pub data: Vec<u8>,
}

impl View for BackupPhoto {
    type V = File;

    open spec fn view(&self) -> File {
        (self.rel@, self.data@)
    }
}

/// What was found in a backup: the texts of the store, the photographs, what the entries state to
/// be in all, and why the rest was not read.
pub struct Scan {
    pub stores: Vec<String>,
    pub photos: Vec<BackupPhoto>,
    pub total: u64,
    pub failure: Option<BackupError>,
}

/// What a [`Scan`] means.
#[verifier::ext_equal]
pub struct ScanV {
    pub stores: Seq<Seq<char>>,
    pub photos: Seq<File>,
    pub total: u64,
    pub failure: Option<BackupError>,
}

impl View for Scan {
    type V = ScanV;

    open spec fn view(&self) -> ScanV {
        ScanV {
            stores: views(self.stores@),
            photos: views(self.photos@),
            total: self.total,
            failure: self.failure,
        }
    }
}

/// Nothing found yet.
pub open spec fn nothing_found() -> ScanV {
    ScanV { stores: Seq::empty(), photos: Seq::empty(), total: 0, failure: None }
}

/// What was found, with the reason why nothing more will be.
pub open spec fn failed(s: ScanV, e: BackupError) -> ScanV {
    ScanV { failure: Some(e), ..s }
}

/// What was found after one more entry.
pub open spec fn scan_step(s: ScanV, entry: Option<EntryV>, max_total: u64) -> ScanV {
    match entry {
        None => failed(s, BackupError::EntryUnreadable),
        Some(e) => match judged(s.total, e.name, e.size, max_total) {
            Err(x) => failed(s, x),
            Ok((total, WantV::Nothing)) => ScanV { total, ..s },
            Ok((total, WantV::Store)) => match e.data {
                Some(d) => if valid_utf8(d) {
                    ScanV { total, stores: s.stores.push(decode_utf8(d)), ..s }
                } else {
                    failed(s, BackupError::StoreUnreadable)
                },
                None => failed(s, BackupError::StoreUnreadable),
            },
            Ok((total, WantV::Photo(rel))) => match e.data {
                Some(d) => ScanV { total, photos: s.photos.push((rel, d)), ..s },
                None => failed(s, BackupError::PhotoUnreadable),
            },
        },
    }
}

/// What is found in entries, up to the first that is wrong.
pub open spec fn scan_of(entries: Seq<Option<EntryV>>, max_total: u64) -> ScanV
    decreases entries.len(),
{
    if entries.len() == 0 {
        nothing_found()
    } else {
        let s = scan_of(entries.drop_last(), max_total);
        if s.failure is Some {
            s
        } else {
            scan_step(s, entries.last(), max_total)
        }
    }
}

/// A scan that has failed stays as it is.
proof fn lemma_scan_failed(entries: Seq<Option<EntryV>>, i: int, max_total: u64)
    requires
        0 <= i <= entries.len(),
        scan_of(entries.take(i), max_total).failure is Some,
    ensures
        scan_of(entries, max_total) == scan_of(entries.take(i), max_total),
    decreases entries.len() - i,
{
    if i == entries.len() {
        assert(entries.take(i) == entries);
    } else {
        assert(entries.take(i + 1).drop_last() == entries.take(i));
        lemma_scan_failed(entries, i + 1, max_total);
    }
}

/// What is found in the bytes of a backup.
pub open spec fn backup_scan(bytes: Seq<u8>, max_total: u64) -> Result<ScanV, BackupError> {
    match zip_entries(bytes) {
        None => Err(BackupError::NotAnArchive),
        Some(entries) => if entries.len() > MAX_ENTRIES {
            Err(BackupError::TooManyEntries)
        } else {
            Ok(scan_of(entries, max_total))
        },
    }
}

/// Looks through a backup that may unpack to no more than `max_total` bytes.
pub fn parse_backup_zip(bytes: Vec<u8>, max_total: u64) -> (r: Result<Scan, BackupError>)
    ensures
        match r {
            Ok(s) => backup_scan(bytes@, max_total) == Ok::<ScanV, BackupError>(s@),
            Err(e) => backup_scan(bytes@, max_total) == Err::<ScanV, BackupError>(e),
        },
{
    let mut a = match open_archive(bytes) {
        Some(a) => a,
        None => return Err(BackupError::NotAnArchive),
    };
    let ghost entries = archive_entries(a);
    let n: usize = archive_len(&a);
    if n > MAX_ENTRIES {
        return Err(BackupError::TooManyEntries);
    }
    let mut s = Scan { stores: Vec::new(), photos: Vec::new(), total: 0, failure: None };
    assert(s@ =~= nothing_found());
    let mut i: usize = 0;
    while i < n
        invariant
            i <= n,
            n == entries.len(),
            n <= MAX_ENTRIES,
            entries == archive_entries(a),
            zip_entries(bytes@) == Some(entries),
            s@ == scan_of(entries.take(i as int), max_total),
            s.failure is None,
        decreases n - i,
    {
        let ghost before = s@;
        proof {
            assert(entries.take(i + 1).drop_last() == entries.take(i as int));
            assert(entries.take(i + 1).last() == entries[i as int]);
        }
        let mut failure: Option<BackupError> = None;
        match entry_head(&mut a, i) {
            None => {
                failure = Some(BackupError::EntryUnreadable);
            },
            Some((name, size)) => match judge(s.total, name.as_str(), size, max_total) {
                Err(e) => {
                    failure = Some(e);
                },
                Ok((total, Want::Nothing)) => {
                    s.total = total;
                },
                Ok((total, Want::Store)) => match entry_data(&mut a, i) {
                    Some(d) => match utf8_text(d) {
                        Some(t) => {
                            let ghost meaning = t@;
                            s.stores.push(t);
                            s.total = total;
                            assert(views(s.stores@) =~= before.stores.push(meaning));
                        },
                        None => {
                            failure = Some(BackupError::StoreUnreadable);
                        },
                    },
                    None => {
                        failure = Some(BackupError::StoreUnreadable);
                    },
                },
                Ok((total, Want::Photo(rel))) => match entry_data(&mut a, i) {
                    Some(data) => {
                        let photo = BackupPhoto { rel, data };
                        let ghost meaning = photo@;
                        s.photos.push(photo);
                        s.total = total;
                        assert(views(s.photos@) =~= before.photos.push(meaning));
                    },
                    None => {
                        failure = Some(BackupError::PhotoUnreadable);
                    },
                },
            },
        }
        if failure.is_some() {
            s.failure = failure;
            assert(s@ =~= scan_step(before, entries[i as int], max_total));
            proof {
                lemma_scan_failed(entries, i + 1, max_total);
            }
            return Ok(s);
        }
        assert(s@ =~= scan_step(before, entries[i as int], max_total));
        i = i + 1;
    }
    assert(entries.take(i as int) == entries);
    Ok(s)
}

/// Which of the texts of the store counts, given for each whether it is a store; or why the backup
/// is turned down. A text that is no store is found before whatever made the scan end.
pub open spec fn restored(s: ScanV, valid: Seq<bool>) -> Result<nat, BackupError> {
    if valid.contains(false) {
        Err(BackupError::StoreInvalid)
    } else if s.failure is Some {
        Err(s.failure->0)
    } else if s.stores.len() == 0 {
        Err(BackupError::NoStore)
    } else {
        Ok((s.stores.len() - 1) as nat)
    }
}

/// Which of the texts of the store counts, given for each whether it is a store.
pub fn restore(s: &Scan, valid: &Vec<bool>) -> (r: Result<usize, BackupError>)
    requires
        valid@.len() == s@.stores.len(),
    ensures
        match r {
            Ok(i) => restored(s@, valid@) == Ok::<nat, BackupError>(i as nat) && i
                < s@.stores.len(),
            Err(e) => restored(s@, valid@) == Err::<nat, BackupError>(e),
        },
{
    let mut i: usize = 0;
    while i < valid.len()
        invariant
            i <= valid.len(),
            forall|k: int| 0 <= k < i ==> valid@[k],
        decreases valid.len() - i,
    {
        if !valid[i] {
            assert(valid@[i as int] == false);
            return Err(BackupError::StoreInvalid);
        }
        i = i + 1;
    }
    assert(!valid@.contains(false));
    match s.failure {
        Some(e) => Err(e),
        None => if s.stores.len() == 0 {
            Err(BackupError::NoStore)
        } else {
            Ok(s.stores.len() - 1)
        },
    }
}

/// Whether a photograph is a full one, not the small version of one.
pub open spec fn full_size() -> spec_fn(File) -> bool {
    |f: File| !begins_with(f.0, "thumb/"@)
}

/// How many photographs a backup holds, small versions not counted.
pub fn count_photos(photos: &Vec<BackupPhoto>) -> (r: usize)
    ensures
        r == views(photos@).filter(full_size()).len(),
{
    let ghost all = views(photos@);
    let mut n: usize = 0;
    let mut i: usize = 0;
    proof {
        reveal(Seq::filter);
        assert(all.take(0).filter(full_size()) =~= Seq::empty());
    }
    while i < photos.len()
        invariant
            i <= photos.len(),
            all == views(photos@),
            n <= i,
            n == all.take(i as int).filter(full_size()).len(),
        decreases photos.len() - i,
    {
        proof {
            assert(all[i as int] == photos@[i as int]@);
            crate::json::lemma_filter_take(all, full_size(), i as int);
        }
        if !starts_with(photos[i].rel.as_str(), "thumb/") {
            n = n + 1;
        }
        i = i + 1;
    }
    assert(all.take(i as int) == all);
    n
}

/// Whether a store refers to a photograph with the given id.
pub open spec fn knows_photo(s: StoreV, id: Seq<char>) -> bool {
    ||| exists|i: int, j: int|
        0 <= i < s.places.len() && 0 <= j < s.places[i].photos.len() && (
        #[trigger] s.places[i].photos[j]).id == id
    ||| exists|i: int| 0 <= i < s.unplaced.len() && (#[trigger] s.unplaced[i]).id == id
}

/// Whether a store refers to a photograph with the given id.
fn finds_photo(store: &Store, id: &str) -> (r: bool)
    ensures
        r == knows_photo(store@, id@),
{
    let ghost s = store@;
    let mut i: usize = 0;
    while i < store.places.len()
        invariant
            i <= store.places.len(),
            s == store@,
            forall|m: int, j: int|
                0 <= m < i && 0 <= j < s.places[m].photos.len() ==> (
                #[trigger] s.places[m].photos[j]).id != id@,
        decreases store.places.len() - i,
    {
        let p = &store.places[i];
        assert(s.places[i as int] == p@);
        match crate::model::find_photo(&p.photos, id) {
            Some(j) => {
                assert(s.places[i as int].photos[j as int] == p.photos@[j as int]@);
                return true;
            },
            None => {
                proof {
                    crate::model::lemma_index_of(crate::model::photo_ids(p@.photos), id@);
                    assert forall|j: int| 0 <= j < p@.photos.len() implies (
                    #[trigger] s.places[i as int].photos[j]).id != id@ by {
                        assert(crate::model::photo_ids(p@.photos)[j] == p@.photos[j].id);
                        assert(crate::model::photo_ids(p@.photos).contains(p@.photos[j].id));
                    }
                }
            },
        }
        i = i + 1;
    }
    match crate::model::find_unplaced(&store.unplaced, id) {
        Some(k) => {
            assert(s.unplaced[k as int] == store.unplaced@[k as int]@);
            true
        },
        None => {
            proof {
                crate::model::lemma_index_of(crate::model::unplaced_ids(s.unplaced), id@);
                assert forall|k: int| 0 <= k < s.unplaced.len() implies (
                #[trigger] s.unplaced[k]).id != id@ by {
                    assert(crate::model::unplaced_ids(s.unplaced)[k] == s.unplaced[k].id);
                    assert(crate::model::unplaced_ids(s.unplaced).contains(s.unplaced[k].id));
                }
            }
            false
        },
    }
}

/// The id of the photograph that a file is of, by its name; none if it is no `.jpg` file.
pub open spec fn file_photo(name: Seq<char>) -> Option<Seq<char>> {
    if ends_in(name, ".jpg"@) && name.len() > 4 {
        Some(name.take(name.len() - 4))
    } else {
        None
    }
}

/// Whether a file is of a photograph that the store does not refer to, by its name. Such files are
/// removed once a backup has been restored; files that are no `.jpg` files are left alone.
pub fn is_orphan(store: &Store, name: &str) -> (r: bool)
    ensures
        r == (file_photo(name@) matches Some(id) && !knows_photo(store@, id)),
{
    let v = chars_of(name);
    if !ends_with(name, ".jpg") || v.len() <= 4 {
        return false;
    }
    let id = text_of(&crate::text::cut(&v, v.len() - 4));
    assert(id@ =~= name@.take(name@.len() - 4));
    !finds_photo(store, id.as_str())
}

/// How many bytes files have in all.
pub open spec fn bytes_of(files: Seq<File>) -> nat
    decreases files.len(),
{
    if files.len() == 0 {
        0
    } else {
        bytes_of(files.drop_last()) + files.last().1.len()
    }
}

/// The files of a backup of a store's text, which is compressed, and of photographs, which are not.
pub open spec fn backup_files(text: Seq<char>, photos: Seq<File>) -> Seq<PackedV> {
    seq![packed("store.json"@, encode_utf8(text), true)] + Seq::new(
        photos.len(),
        |i: int| packed("photos/"@ + photos[i].0, photos[i].1, false),
    )
}

/// A backup that was begun holds the text of the store, and with each photograph that is added one
/// more.
pub proof fn law_backup_grows(text: Seq<char>, photos: Seq<File>, rel: Seq<char>, data: Seq<u8>)
    ensures
        backup_files(text, Seq::empty()) == seq![packed("store.json"@, encode_utf8(text), true)],
        backup_files(text, photos).push(packed("photos/"@ + rel, data, false)) == backup_files(
            text,
            photos.push((rel, data)),
        ),
{
    assert(backup_files(text, Seq::empty()) =~= seq![
        packed("store.json"@, encode_utf8(text), true),
    ]);
    assert(backup_files(text, photos).push(packed("photos/"@ + rel, data, false)) =~= backup_files(
        text,
        photos.push((rel, data)),
    ));
}

/// Whether a photograph can be both written to a backup and read back from it.
pub open spec fn restorable(photo: File) -> bool {
    safe_rel(photo.0) && importable(photo.0) && photo.1.len() <= MAX_FILE
}

/// A safe path does not end in a slash.
proof fn lemma_safe_end(rel: Seq<char>)
    requires
        safe_rel(rel),
    ensures
        rel.last() != '/',
{
    let parts = split_at_any(rel, seq!['/']);
    crate::text::lemma_split_nonempty(rel, seq!['/']);
    crate::text::lemma_split_nonempty(rel.drop_last(), seq!['/']);
    if rel.last() == '/' {
        assert(seq!['/'][0] == '/');
        assert(seq!['/'].contains(rel.last()));
        assert(parts[parts.len() - 1].len() == 0);
    }
}

/// A backup gives back what went into it. Where the archive holds the text of a store and some
/// photographs, within the limits, looking through it finds that text and those photographs, in
/// their order, and nothing else.
pub proof fn law_backup_comes_back(
    bytes: Seq<u8>,
    text: Seq<char>,
    photos: Seq<File>,
    max_total: u64,
)
    requires
        zip_entries(bytes) == Some(entries_of(backup_files(text, photos))),
        forall|i: int| 0 <= i < photos.len() ==> restorable(#[trigger] photos[i]),
        byte_len(text) <= MAX_FILE,
        byte_len(text) + bytes_of(photos) <= max_total,
        photos.len() < MAX_ENTRIES,
    ensures
        backup_scan(bytes, max_total) == Ok::<ScanV, BackupError>(
            ScanV {
                stores: seq![text],
                photos,
                total: (byte_len(text) + bytes_of(photos)) as u64,
                failure: None,
            },
        ),
        restored(
            ScanV {
                stores: seq![text],
                photos,
                total: (byte_len(text) + bytes_of(photos)) as u64,
                failure: None,
            },
            seq![true],
        ) == Ok::<nat, BackupError>(0),
{
    lemma_scan_backup(text, photos, max_total);
    assert(!seq![true].contains(false));
}

/// Looking through the files of a backup finds what went into it.
proof fn lemma_scan_backup(text: Seq<char>, photos: Seq<File>, max_total: u64)
    requires
        forall|i: int| 0 <= i < photos.len() ==> restorable(#[trigger] photos[i]),
        byte_len(text) <= MAX_FILE,
        byte_len(text) + bytes_of(photos) <= max_total,
    ensures
        scan_of(entries_of(backup_files(text, photos)), max_total) == (ScanV {
            stores: seq![text],
            photos,
            total: (byte_len(text) + bytes_of(photos)) as u64,
            failure: None,
        }),
    decreases photos.len(),
{
    let files = backup_files(text, photos);
    let entries = entries_of(files);
    reveal_strlit("store.json");
    reveal_strlit("photos/");
    reveal_strlit("/");
    if photos.len() == 0 {
        vstd::utf8::encode_utf8_valid_utf8(text);
        vstd::utf8::encode_utf8_decode_utf8(text);
        assert(entries.drop_last() =~= Seq::empty());
        assert(entries.last() == Some(
            EntryV {
                name: "store.json"@,
                size: byte_len(text) as u64,
                data: Some(encode_utf8(text)),
                method: Method::Deflated,
            },
        ));
        assert("store.json"@.skip(9) =~= seq!['n']);
        assert("/"@ =~= seq!['/']);
        assert(seq!['n'][0] != seq!['/'][0]);
        assert(!ends_in("store.json"@, "/"@));
        let s = scan_step(nothing_found(), entries.last(), max_total);
        assert(s.stores =~= seq![text]);
        assert(s.photos =~= photos);
        assert(scan_of(entries, max_total) == s);
    } else {
        let front = photos.drop_last();
        let (rel, data) = photos.last();
        assert(restorable(photos[photos.len() - 1]));
        assert forall|i: int| 0 <= i < front.len() implies restorable(#[trigger] front[i]) by {
            assert(front[i] == photos[i]);
        }
        lemma_scan_backup(text, front, max_total);
        assert(entries.drop_last() =~= entries_of(backup_files(text, front)));
        let name = "photos/"@ + rel;
        assert(entries.last() == Some(
            EntryV { name, size: data.len() as u64, data: Some(data), method: Method::Stored },
        ));
        lemma_safe_end(rel);
        assert("/"@ =~= seq!['/']);
        assert(name.last() == rel.last());
        assert(name.skip(name.len() - 1) =~= seq![rel.last()]);
        assert(seq![rel.last()][0] != seq!['/'][0]);
        assert(!ends_in(name, "/"@));
        assert(name[0] == 'p' && "store.json"@[0] == 's');
        assert(name != "store.json"@);
        assert(name.take(7) =~= "photos/"@);
        assert(name.skip(7) =~= rel);
        assert(after_prefix(name, "photos/"@) == Some(rel));
        let s = scan_of(entries.drop_last(), max_total);
        let t = scan_step(s, entries.last(), max_total);
        assert(t.photos =~= photos);
        assert(scan_of(entries, max_total) == t);
    }
}

/// Whatever a backup holds, the photographs that are taken from it stay below the photographs: no
/// path begins at the root, climbs, or holds a character that it should not. And what its entries
/// state to be stays within the limit.
pub proof fn law_imports_stay_below(entries: Seq<Option<EntryV>>, max_total: u64)
    ensures
        forall|i: int|
            0 <= i < scan_of(entries, max_total).photos.len() ==> importable(
                (#[trigger] scan_of(entries, max_total).photos[i]).0,
            ),
        scan_of(entries, max_total).total <= max_total,
    decreases entries.len(),
{
    if entries.len() > 0 {
        law_imports_stay_below(entries.drop_last(), max_total);
        let before = scan_of(entries.drop_last(), max_total);
        let s = scan_of(entries, max_total);
        assert forall|i: int| 0 <= i < s.photos.len() implies importable(
            (#[trigger] s.photos[i]).0,
        ) by {
            if i < before.photos.len() {
                assert(s.photos[i] == before.photos[i]);
            }
        }
    }
}

/// One bad entry refuses the whole backup; and of a backup that is taken, no file is larger than
/// one may be.
pub proof fn law_taken_backups_are_in_order(
    entries: Seq<Option<EntryV>>,
    max_total: u64,
    valid: Seq<bool>,
    i: int,
)
    requires
        0 <= i < entries.len(),
        restored(scan_of(entries, max_total), valid) is Ok,
    ensures
        entries[i] is Some,
        ends_in(entries[i]->0.name, "/"@) || entries[i]->0.size <= MAX_FILE,
{
    assert(scan_of(entries, max_total).failure is None);
    lemma_scan_in_order(entries, max_total, i);
}

/// A scan that does not fail has found no fault with an entry.
proof fn lemma_scan_in_order(entries: Seq<Option<EntryV>>, max_total: u64, i: int)
    requires
        0 <= i < entries.len(),
        scan_of(entries, max_total).failure is None,
    ensures
        entries[i] is Some,
        ends_in(entries[i]->0.name, "/"@) || entries[i]->0.size <= MAX_FILE,
    decreases entries.len(),
{
    if i < entries.len() - 1 {
        lemma_scan_in_order(entries.drop_last(), max_total, i);
        assert(entries.drop_last()[i] == entries[i]);
    }
}

/// Cleaning up after a restore leaves every file alone that the store refers to.
pub proof fn law_known_photos_stay(s: StoreV, id: Seq<char>)
    requires
        knows_photo(s, id),
    ensures
        !(file_photo(id + ".jpg"@) matches Some(x) && !knows_photo(s, x)),
{
    reveal_strlit(".jpg");
    let name = id + ".jpg"@;
    assert(name.skip(name.len() - 4) =~= ".jpg"@);
    assert(name.take(name.len() - 4) =~= id);
}

/// The digits of a numeral are lower-case hexadecimal digits.
proof fn lemma_numeral_digits(n: nat, i: int)
    requires
        0 <= i < numeral(n, 16).len(),
    ensures
        hex_char(numeral(n, 16)[i]),
    decreases n,
{
    if n >= 16 && i < numeral(n / 16, 16).len() {
        lemma_numeral_digits(n / 16, i);
    }
}

/// The lower-case hexadecimal digits.
pub open spec fn hex_char(c: char) -> bool {
    ('0' <= c && c <= '9') || ('a' <= c && c <= 'f')
}

/// The photographs that this site makes can all be backed up and restored: the addresses of a
/// photograph whose id is made from a moment refer to files with paths that are safe and are taken
/// back.
pub proof fn law_own_photos_are_restorable(nanos: nat, date: Option<Seq<char>>)
    ensures
        ({
            let id = numeral(nanos, 16);
            let ph = crate::upload::photo_of(id, date);
            &&& ref_of(ph.url) == Some(id + ".jpg"@)
            &&& ref_of(ph.thumb) == Some("thumb/"@ + id + ".jpg"@)
            &&& importable(id + ".jpg"@)
            &&& importable("thumb/"@ + id + ".jpg"@)
        }),
{
    let id = numeral(nanos, 16);
    let ph = crate::upload::photo_of(id, date);
    reveal_strlit("/photos/");
    reveal_strlit("/photos/thumb/");
    reveal_strlit("thumb/");
    reveal_strlit(".jpg");
    reveal_strlit("..");
    reveal_strlit(".");
    let file = id + ".jpg"@;
    let small = "thumb/"@ + file;
    assert("thumb/"@ + id + ".jpg"@ =~= small);
    assert(id.len() > 0);
    assert forall|i: int| 0 <= i < id.len() implies hex_char(#[trigger] id[i]) by {
        lemma_numeral_digits(nanos, i);
    }
    let seps = seq!['/'];
    assert(seps[0] == '/');
    assert forall|i: int| 0 <= i < file.len() implies !seps.contains(#[trigger] file[i])
        && path_char(file[i]) && file[i] != '\\' && file[i] != ':' by {
        if i < id.len() {
            assert(file[i] == id[i]);
            assert(hex_char(id[i]));
        } else {
            assert(file[i] == ".jpg"@[i - id.len()]);
        }
    }
    assert(hex_char(id[0]) && file[0] == id[0]);
    crate::text::lemma_single_piece(file, seps);
    assert(split_at_any(file, seps)[0] == file);
    assert(file.len() > 4);
    assert(file != ".."@ && file != "."@);
    lemma_no_climb(id);
    assert(safe_rel(file));
    assert(ph.url =~= "/photos/"@ + file);
    assert(ph.url.take(8) =~= "/photos/"@);
    assert(ph.url.skip(8) =~= file);
    let dir = seq!['t', 'h', 'u', 'm', 'b'];
    assert(small =~= dir + seq!['/'] + file);
    assert forall|i: int| 0 <= i < dir.len() implies !seps.contains(dir[i]) by {
        assert(dir[i] != '/');
    }
    crate::names::lemma_two_pieces(dir, '/', file, seps);
    assert(split_at_any(small, seps) =~= seq![dir, file]);
    assert forall|i: int| 0 <= i < small.len() implies path_char(#[trigger] small[i]) && small[i]
        != '\\' by {
        if i >= 6 {
            assert(small[i] == file[i - 6]);
        } else {
            assert(small[i] == "thumb/"@[i]);
        }
    }
    assert(small[0] == 't' && small[1] == 'h');
    assert(dir.len() == 5);
    assert(dir != ".."@ && dir != "."@);
    assert forall|i: int| 0 <= i < split_at_any(small, seps).len() implies {
        let part = #[trigger] split_at_any(small, seps)[i];
        part != ".."@ && part != "."@ && part.len() > 0
    } by {
        assert(i == 0 || i == 1);
    }
    assert(safe_rel(small));
    assert(ph.thumb =~= "/photos/"@ + small);
    assert(ph.thumb.take(8) =~= "/photos/"@);
    assert(ph.thumb.skip(8) =~= small);
}

/// The name of a photograph's file has one dot, and none before it.
proof fn lemma_no_climb(id: Seq<char>)
    requires
        forall|i: int| 0 <= i < id.len() ==> hex_char(#[trigger] id[i]),
    ensures
        !contains_text(id + ".jpg"@, ".."@),
        !contains_text("thumb/"@ + (id + ".jpg"@), ".."@),
{
    reveal_strlit("thumb/");
    reveal_strlit(".jpg");
    reveal_strlit("..");
    let file = id + ".jpg"@;
    let small = "thumb/"@ + file;
    if contains_text(file, ".."@) {
        let i = choose|i: int| occurs_at(file, ".."@, i);
        lemma_two_dots(file, i);
        assert(i + 1 != id.len());
        if i + 1 < id.len() {
            assert(hex_char(id[i + 1]));
        } else {
            assert(file[i + 1] == ".jpg"@[i + 1 - id.len()]);
        }
        if i < id.len() {
            assert(hex_char(id[i]));
        }
    }
    if contains_text(small, ".."@) {
        let i = choose|i: int| occurs_at(small, ".."@, i);
        lemma_two_dots(small, i);
        if i + 1 < 6 {
            assert(small[i + 1] == "thumb/"@[i + 1]);
        } else if i >= 6 {
            assert(file.subrange(i - 6, i - 4) =~= ".."@);
            assert(occurs_at(file, ".."@, i - 6));
        } else {
            assert(small[i] == "thumb/"@[i]);
        }
    }
}

/// Where `..` stands, two dots stand.
proof fn lemma_two_dots(s: Seq<char>, i: int)
    requires
        occurs_at(s, ".."@, i),
    ensures
        0 <= i,
        i + 2 <= s.len(),
        s[i] == '.',
        s[i + 1] == '.',
{
    reveal_strlit("..");
    let w = s.subrange(i, i + 2);
    assert(w[0] == ".."@[0] && w[1] == ".."@[1]);
    assert(w[0] == s[i] && w[1] == s[i + 1]);
}

/// How far a backup has been restored.
#[derive(Clone, Copy, Debug, PartialEq, Eq, Structural)]
pub enum Restoring {
    /// This photograph is to be written.
    Photo(usize),
    /// The store is to be replaced and written.
    Store,
    /// The files that the new store does not refer to are to be removed.
    CleanUp,
    /// All is done.
    Done,
    /// Something could not be written; the store is as before.
    Failed,
}

/// The first step of restoring a backup of so many photographs.
pub open spec fn first_step(photos: nat) -> Restoring {
    if photos > 0 {
        Restoring::Photo(0)
    } else {
        Restoring::Store
    }
}

/// The step that follows one, given whether that succeeded.
pub open spec fn step_after(step: Restoring, photos: nat, done: bool) -> Restoring {
    match step {
        Restoring::Photo(i) => if !done {
            Restoring::Failed
        } else if i + 1 < photos {
            Restoring::Photo((i + 1) as usize)
        } else {
            Restoring::Store
        },
        Restoring::Store => if done {
            Restoring::CleanUp
        } else {
            Restoring::Failed
        },
        Restoring::CleanUp => Restoring::Done,
        other => other,
    }
}

impl Restoring {
    /// The first step of restoring a backup of so many photographs.
    pub fn begin(photos: usize) -> (r: Restoring)
        ensures
            r == first_step(photos as nat),
    {
        if photos > 0 {
            Restoring::Photo(0)
        } else {
            Restoring::Store
        }
    }

    /// The step that follows this one, given whether it succeeded.
    pub fn next(self, photos: usize, done: bool) -> (r: Restoring)
        ensures
            r == step_after(self, photos as nat, done),
    {
        match self {
            Restoring::Photo(i) => if !done {
                Restoring::Failed
            } else if i < photos && i + 1 < photos {
                Restoring::Photo(i + 1)
            } else {
                Restoring::Store
            },
            Restoring::Store => if done {
                Restoring::CleanUp
            } else {
                Restoring::Failed
            },
            Restoring::CleanUp => Restoring::Done,
            other => other,
        }
    }
}

/// The step that is reached once steps have ended so.
pub open spec fn step_reached(photos: nat, outcomes: Seq<bool>) -> Restoring
    decreases outcomes.len(),
{
    if outcomes.len() == 0 {
        first_step(photos)
    } else {
        step_after(step_reached(photos, outcomes.drop_last()), photos, outcomes.last())
    }
}

/// A backup is restored as a whole or not at all: the store is replaced only after every
/// photograph was written, and old files are removed only after the store was.
pub proof fn law_the_store_is_replaced_last(photos: nat, outcomes: Seq<bool>)
    requires
        photos <= usize::MAX,
    ensures
        step_reached(photos, outcomes) matches Restoring::Photo(i) ==> i == outcomes.len() && i
            < photos && !outcomes.contains(false),
        step_reached(photos, outcomes) is Store ==> outcomes.len() == photos && !outcomes.contains(
            false,
        ),
        step_reached(photos, outcomes) is CleanUp ==> outcomes.len() == photos + 1
            && !outcomes.contains(false),
    decreases outcomes.len(),
{
    if outcomes.len() > 0 {
        let front = outcomes.drop_last();
        law_the_store_is_replaced_last(photos, front);
        if !front.contains(false) && outcomes.last() {
            assert forall|k: int| 0 <= k < outcomes.len() implies outcomes[k] by {
                if k < front.len() {
                    assert(front[k] == outcomes[k]);
                    if !front[k] {
                        assert(front.contains(false));
                    }
                }
            }
        }
    }
}

/// What a store refers to is in its backup: the two versions of each photograph, those without a
/// place too, and the covers.
pub proof fn law_backups_leave_no_picture_out(s: StoreV, rel: Seq<char>, i: int, j: int)
    requires
        safe_rel(rel),
    ensures
        0 <= i < s.places.len() && 0 <= j < s.places[i].photos.len() && (s.places[i].photos[j].url
            == "/photos/"@ + rel || s.places[i].photos[j].thumb == "/photos/"@ + rel) ==> refers(
            store_urls(s),
            rel,
        ),
        0 <= i < s.places.len() && s.places[i].cover == Some("/photos/"@ + rel) ==> refers(
            store_urls(s),
            rel,
        ),
        0 <= i < s.unplaced.len() && (s.unplaced[i].url == "/photos/"@ + rel || s.unplaced[i].thumb
            == "/photos/"@ + rel) ==> refers(store_urls(s), rel),
{
    let url = "/photos/"@ + rel;
    crate::text::law_beginnings_and_ends("/photos/"@, rel, rel);
    assert(ref_of(url) == Some(rel));
    let all = store_urls(s);
    if 0 <= i < s.places.len() {
        lemma_place_urls(s.places, i, j, url);
        if place_urls(s.places).contains(url) {
            let k = choose|k: int| 0 <= k < place_urls(s.places).len()
                && place_urls(s.places)[k] == url;
            assert(all[k] == url);
        }
    }
    if 0 <= i < s.unplaced.len() {
        lemma_unplaced_urls(s.unplaced, i, url);
        if unplaced_urls(s.unplaced).contains(url) {
            let k = choose|k: int|
                0 <= k < unplaced_urls(s.unplaced).len() && unplaced_urls(s.unplaced)[k] == url;
            assert(all[place_urls(s.places).len() + k] == url);
        }
    }
}

/// The addresses of a photograph are among those of its place.
proof fn lemma_place_urls(s: Seq<PlaceV>, i: int, j: int, url: Seq<char>)
    requires
        0 <= i < s.len(),
    ensures
        0 <= j < s[i].photos.len() && (s[i].photos[j].url == url || s[i].photos[j].thumb == url)
            ==> place_urls(s).contains(url),
        s[i].cover == Some(url) ==> place_urls(s).contains(url),
    decreases s.len(),
{
    let before = place_urls(s.drop_last());
    let own = photo_urls(s.last().photos);
    let all = place_urls(s);
    if i < s.len() - 1 {
        lemma_place_urls(s.drop_last(), i, j, url);
        assert(s.drop_last()[i] == s[i]);
        if before.contains(url) {
            let k = choose|k: int| 0 <= k < before.len() && before[k] == url;
            assert(all[k] == url);
        }
    } else {
        if 0 <= j < s[i].photos.len() {
            lemma_photo_urls(s[i].photos, j, url);
            if own.contains(url) {
                let k = choose|k: int| 0 <= k < own.len() && own[k] == url;
                assert(all[before.len() + k] == url);
            }
        }
        if s[i].cover == Some(url) {
            assert(all[before.len() as int + own.len()] == url);
        }
    }
}

/// The addresses of a photograph are among those of all.
proof fn lemma_photo_urls(s: Seq<PhotoV>, j: int, url: Seq<char>)
    requires
        0 <= j < s.len(),
    ensures
        s[j].url == url || s[j].thumb == url ==> photo_urls(s).contains(url),
    decreases s.len(),
{
    let before = photo_urls(s.drop_last());
    let all = photo_urls(s);
    if j < s.len() - 1 {
        lemma_photo_urls(s.drop_last(), j, url);
        assert(s.drop_last()[j] == s[j]);
        if before.contains(url) {
            let k = choose|k: int| 0 <= k < before.len() && before[k] == url;
            assert(all[k] == url);
        }
    } else {
        assert(all[before.len() as int] == s[j].url);
        assert(all[before.len() as int + 1] == s[j].thumb);
    }
}

/// The addresses of a photograph without a place are among those of all.
proof fn lemma_unplaced_urls(s: Seq<UnplacedPhotoV>, j: int, url: Seq<char>)
    requires
        0 <= j < s.len(),
    ensures
        s[j].url == url || s[j].thumb == url ==> unplaced_urls(s).contains(url),
    decreases s.len(),
{
    let before = unplaced_urls(s.drop_last());
    let all = unplaced_urls(s);
    if j < s.len() - 1 {
        lemma_unplaced_urls(s.drop_last(), j, url);
        assert(s.drop_last()[j] == s[j]);
        if before.contains(url) {
            let k = choose|k: int| 0 <= k < before.len() && before[k] == url;
            assert(all[k] == url);
        }
    } else {
        assert(all[before.len() as int] == s[j].url);
        assert(all[before.len() as int + 1] == s[j].thumb);
    }
}

/// A backup of a store holds nothing that the store does not refer to.
pub proof fn law_backups_hold_nothing_else(s: StoreV, url: Seq<char>)
    requires
        store_urls(s).contains(url),
    ensures
        ({
            ||| exists|i: int, j: int|
                0 <= i < s.places.len() && 0 <= j < s.places[i].photos.len() && ((
                #[trigger] s.places[i].photos[j]).url == url || s.places[i].photos[j].thumb == url)
            ||| exists|i: int| 0 <= i < s.places.len()
                && (#[trigger] s.places[i]).cover == Some(url)
            ||| exists|i: int|
                0 <= i < s.unplaced.len() && ((#[trigger] s.unplaced[i]).url == url
                    || s.unplaced[i].thumb == url)
        }),
{
    let all = store_urls(s);
    let k = choose|k: int| 0 <= k < all.len() && all[k] == url;
    let n = place_urls(s.places).len();
    if k < n {
        lemma_from_places(s.places, k);
    } else {
        lemma_from_unplaced(s.unplaced, k - n);
    }
}

/// Each address of places is that of a photograph or a cover.
proof fn lemma_from_places(s: Seq<PlaceV>, k: int)
    requires
        0 <= k < place_urls(s).len(),
    ensures
        ({
            let url = place_urls(s)[k];
            ||| exists|i: int, j: int|
                0 <= i < s.len() && 0 <= j < s[i].photos.len() && ((#[trigger] s[i].photos[j]).url
                    == url || s[i].photos[j].thumb == url)
            ||| exists|i: int| 0 <= i < s.len() && (#[trigger] s[i]).cover == Some(url)
        }),
    decreases s.len(),
{
    let rest = s.drop_last();
    let before = place_urls(rest);
    let own = photo_urls(s.last().photos);
    let url = place_urls(s)[k];
    let last = s.len() - 1;
    if k < before.len() {
        lemma_from_places(rest, k);
        assert(before[k] == url);
        if exists|i: int, j: int|
            0 <= i < rest.len() && 0 <= j < rest[i].photos.len() && ((
            #[trigger] rest[i].photos[j]).url == url || rest[i].photos[j].thumb == url) {
            let (i, j) = choose|i: int, j: int|
                0 <= i < rest.len() && 0 <= j < rest[i].photos.len() && ((
                #[trigger] rest[i].photos[j]).url == url || rest[i].photos[j].thumb == url);
            assert(s[i].photos[j] == rest[i].photos[j]);
        } else {
            let i = choose|i: int| 0 <= i < rest.len() && (#[trigger] rest[i]).cover == Some(url);
            assert(s[i].cover == Some(url));
        }
    } else if k < before.len() + own.len() {
        lemma_from_photos(s[last].photos, k - before.len());
        let j = choose|j: int|
            0 <= j < s[last].photos.len() && ((#[trigger] s[last].photos[j]).url == own[k
                - before.len()] || s[last].photos[j].thumb == own[k - before.len()]);
        assert(s[last].photos[j].url == url || s[last].photos[j].thumb == url);
    } else {
        assert(s[last].cover == Some(url));
    }
}

/// Each address of photographs is one of a photograph.
proof fn lemma_from_photos(s: Seq<PhotoV>, k: int)
    requires
        0 <= k < photo_urls(s).len(),
    ensures
        exists|j: int|
            0 <= j < s.len() && ((#[trigger] s[j]).url == photo_urls(s)[k] || s[j].thumb
                == photo_urls(s)[k]),
    decreases s.len(),
{
    let rest = s.drop_last();
    let before = photo_urls(rest);
    let last = s.len() - 1;
    if k < before.len() {
        lemma_from_photos(rest, k);
        let j = choose|j: int|
            0 <= j < rest.len() && ((#[trigger] rest[j]).url == before[k] || rest[j].thumb
                == before[k]);
        assert(s[j] == rest[j]);
    } else {
        assert(s[last].url == photo_urls(s)[k] || s[last].thumb == photo_urls(s)[k]);
    }
}

/// Each address of photographs without a place is one of such a photograph.
proof fn lemma_from_unplaced(s: Seq<UnplacedPhotoV>, k: int)
    requires
        0 <= k < unplaced_urls(s).len(),
    ensures
        exists|j: int|
            0 <= j < s.len() && ((#[trigger] s[j]).url == unplaced_urls(s)[k] || s[j].thumb
                == unplaced_urls(s)[k]),
    decreases s.len(),
{
    let rest = s.drop_last();
    let before = unplaced_urls(rest);
    let last = s.len() - 1;
    if k < before.len() {
        lemma_from_unplaced(rest, k);
        let j = choose|j: int|
            0 <= j < rest.len() && ((#[trigger] rest[j]).url == before[k] || rest[j].thumb
                == before[k]);
        assert(s[j] == rest[j]);
    } else {
        assert(s[last].url == unplaced_urls(s)[k] || s[last].thumb == unplaced_urls(s)[k]);
    }
}

/// An address refers to a file if it lies below the photographs and its path is safe.
pub proof fn law_what_addresses_refer_to(url: Seq<char>, rel: Seq<char>)
    ensures
        safe_rel(rel) ==> ref_of("/photos/"@ + rel) == Some(rel),
        !safe_rel(rel) ==> ref_of("/photos/"@ + rel) is None,
        url.len() > 0 && url[0] != '/' ==> ref_of(url) is None,
{
    reveal_strlit("/photos/");
    crate::text::law_beginnings_and_ends("/photos/"@, rel, url);
    if begins_with(url, "/photos/"@) {
        assert(url.take(8)[0] == url[0]);
    }
}

/// A path is safe if it is a plain name, or a plain name in one safe directory; it is never so if it
/// begins at the root or with a drive, has a backslash, or a part that climbs.
pub proof fn law_safe_paths(dir: Seq<char>, name: Seq<char>, rest: Seq<char>)
    ensures
        name.len() > 0 && !name.contains('/') && !name.contains('\\') && !name.contains(':') && name
            != "."@ && name != ".."@ ==> safe_rel(name),
        !safe_rel(Seq::empty()),
        !safe_rel(seq!['/'] + rest),
        rest.contains('\\') ==> !safe_rel(rest),
        !safe_rel(".."@ + seq!['/'] + rest),
        !safe_rel(dir + seq!['/'] + ".."@),
        !safe_rel(dir + seq!['/']),
{
    reveal_strlit(".");
    reveal_strlit("..");
    let seps = seq!['/'];
    assert(seps[0] == '/');
    if !name.contains('/') {
        assert forall|k: int| 0 <= k < name.len() implies !seps.contains(#[trigger] name[k]) by {
            assert(name.contains(name[k]));
        }
        crate::text::lemma_single_piece(name, seps);
        if name.len() >= 2 && !name.contains(':') {
            assert(name.contains(name[1]));
        }
        if name.len() > 0 {
            assert(name.contains(name[0]));
        }
    }
    let up = ".."@;
    assert forall|k: int| 0 <= k < up.len() implies !seps.contains(#[trigger] up[k]) by {}
    crate::text::lemma_split_head(up, '/', rest, seps);
    let parts = split_at_any(up + seq!['/'] + rest, seps);
    assert(parts[0] == ".."@);
    crate::text::lemma_last_piece(dir, '/', up, seps);
    let more = split_at_any(dir + seq!['/'] + up, seps);
    crate::text::lemma_split_nonempty(dir + seq!['/'] + up, seps);
    assert(more[more.len() - 1] == ".."@);
    crate::text::lemma_last_piece(dir, '/', Seq::empty(), seps);
    assert(dir + seq!['/'] + Seq::<char>::empty() =~= dir + seq!['/']);
    let open = split_at_any(dir + seq!['/'], seps);
    crate::text::lemma_split_nonempty(dir + seq!['/'], seps);
    assert(open[open.len() - 1].len() == 0);
}

/// Of an archive a directory is passed over; a file of more than 60 MiB, or one that brings the sum
/// over the limit, turns it down; `store.json` is the store, what lies below `photos/` under a plain
/// name a photograph, and all else is passed over.
pub proof fn law_how_entries_are_judged(
    total: u64,
    dir: Seq<char>,
    name: Seq<char>,
    rel: Seq<char>,
    size: u64,
    max_total: u64,
)
    requires
        total + size <= u64::MAX,
    ensures
        judged(total, dir + seq!['/'], size, max_total) == Ok::<(u64, WantV), BackupError>(
            (total, WantV::Nothing),
        ),
        name.len() > 0 && name.last() != '/' && size > 60 * 1024 * 1024 ==> judged(
            total,
            name,
            size,
            max_total,
        ) == Err::<(u64, WantV), BackupError>(BackupError::FileTooLarge),
        name.len() > 0 && name.last() != '/' && size <= 60 * 1024 * 1024 && total + size > max_total
            ==> judged(total, name, size, max_total) == Err::<(u64, WantV), BackupError>(
            BackupError::TooLarge,
        ),
        size <= 60 * 1024 * 1024 && total + size <= max_total ==> judged(
            total,
            "store.json"@,
            size,
            max_total,
        ) == Ok::<(u64, WantV), BackupError>(((total + size) as u64, WantV::Store)),
        size <= 60 * 1024 * 1024 && total + size <= max_total && importable(rel)
            && rel.last() != '/'
            ==> judged(total, "photos/"@ + rel, size, max_total) == Ok::<(u64, WantV), BackupError>(
            ((total + size) as u64, WantV::Photo(rel)),
        ),
        size <= 60 * 1024 * 1024 && total + size <= max_total && !importable(rel) && rel.len() > 0
            && rel.last() != '/' ==> judged(total, "photos/"@ + rel, size, max_total) == Ok::<
            (u64, WantV),
            BackupError,
        >(((total + size) as u64, WantV::Nothing)),
{
    reveal_strlit("/");
    reveal_strlit("photos/");
    reveal_strlit("store.json");
    assert("/"@ =~= seq!['/']);
    crate::text::law_beginnings_and_ends("/"@, dir, name);
    crate::text::law_beginnings_and_ends("photos/"@, rel, name);
    let full = "photos/"@ + rel;
    if ends_in(name, "/"@) {
        assert(name.skip(name.len() - 1)[0] == name.last());
    }
    if rel.len() > 0 {
        assert(full.last() == rel.last());
        if ends_in(full, "/"@) {
            assert(full.skip(full.len() - 1)[0] == full.last());
        }
    }
    if ends_in("store.json"@, "/"@) {
        assert("store.json"@.skip("store.json"@.len() - 1)[0] == 'n');
    }
    assert(full[0] == 'p' && "store.json"@[0] == 's');
}

/// A photograph of a backup is taken if its path is made of letters, digits, `.`, `_`, `/` and `-`,
/// does not begin at the root and does not climb.
pub proof fn law_importable_paths(rel: Seq<char>, rest: Seq<char>)
    ensures
        importable(rel) ==> rel.len() > 0 && rel[0] != '/' && forall|i: int|
            0 <= i < rel.len() ==> {
                let c = #[trigger] rel[i];
                'a' <= c <= 'z' || 'A' <= c <= 'Z' || '0' <= c <= '9' || c == '.' || c == '_' || c
                    == '/' || c == '-'
            },
        rel.len() > 0 && (forall|i: int|
            0 <= i < rel.len() ==> {
                let c = #[trigger] rel[i];
                'a' <= c <= 'z' || 'A' <= c <= 'Z' || '0' <= c <= '9' || c == '_' || c == '-'
            }) ==> importable(rel),
        !importable(rel + ".."@ + rest),
{
    reveal_strlit("..");
    assert forall|i: int| 0 <= i < rel.len() implies ascii_alphanumeric(#[trigger] rel[i]) == ({
        let c = rel[i];
        'a' <= c <= 'z' || 'A' <= c <= 'Z' || '0' <= c <= '9'
    }) by {
        crate::text::law_letters_and_digits(rel[i]);
    }
    let up = rel + ".."@ + rest;
    assert(up.subrange(rel.len() as int, rel.len() as int + 2) =~= ".."@);
    assert(occurs_at(up, ".."@, rel.len() as int));
    if rel.len() > 0 && (forall|i: int|
        0 <= i < rel.len() ==> {
            let c = #[trigger] rel[i];
            'a' <= c <= 'z' || 'A' <= c <= 'Z' || '0' <= c <= '9' || c == '_' || c == '-'
        }) {
        if contains_text(rel, ".."@) {
            let k = choose|k: int| occurs_at(rel, ".."@, k);
            assert(rel.subrange(k, k + 2)[0] == rel[k]);
        }
    }
}

/// Reading an archive takes one entry after the other: a store, a photograph or nothing is found,
/// and after the first that is wrong no more is.
pub proof fn law_what_is_found_in_an_entry(
    front: Seq<Option<EntryV>>,
    e: EntryV,
    total: u64,
    rel: Seq<char>,
    d: Seq<u8>,
    max_total: u64,
)
    requires
        scan_of(front, max_total).failure is None,
        e.data == Some(d),
    ensures
        ({
            let s = scan_of(front, max_total);
            let t = scan_of(front.push(Some(e)), max_total);
            let verdict = judged(s.total, e.name, e.size, max_total);
            &&& verdict == Ok::<(u64, WantV), BackupError>((total, WantV::Photo(rel))) ==> {
                &&& t.photos == s.photos.push((rel, d))
                &&& t.stores == s.stores && t.total == total && t.failure is None
            }
            &&& verdict == Ok::<(u64, WantV), BackupError>((total, WantV::Store)) && valid_utf8(d)
                ==> {
                &&& t.stores == s.stores.push(decode_utf8(d))
                &&& t.photos == s.photos && t.total == total && t.failure is None
            }
            &&& verdict == Ok::<(u64, WantV), BackupError>((total, WantV::Nothing)) ==> {
                &&& t.photos == s.photos && t.stores == s.stores
                &&& t.total == total && t.failure is None
            }
            &&& verdict matches Err(x) ==> t.failure == Some(x) && t.photos == s.photos && t.stores
                == s.stores
        }),
        scan_of(front.push(None), max_total).failure == Some(BackupError::EntryUnreadable),
{
    assert(front.push(Some(e)).drop_last() =~= front);
    assert(front.push(None).drop_last() =~= front);
}

/// Of several texts of the store the last one counts. A text that is no store turns the backup down,
/// and so does whatever ended the reading, and the lack of any.
pub proof fn law_which_store_counts(s: ScanV, valid: Seq<bool>)
    ensures
        (exists|i: int| 0 <= i < valid.len() && !#[trigger] valid[i])
            ==> restored(s, valid) == Err::<
            nat,
            BackupError,
        >(BackupError::StoreInvalid),
        (forall|i: int| 0 <= i < valid.len() ==> #[trigger] valid[i]) ==> {
            &&& s.failure matches Some(e) ==> restored(s, valid) == Err::<nat, BackupError>(e)
            &&& s.failure is None && s.stores.len() == 0 ==> restored(s, valid) == Err::<
                nat,
                BackupError,
            >(BackupError::NoStore)
            &&& s.failure is None && s.stores.len() > 0 ==> restored(s, valid) == Ok::<
                nat,
                BackupError,
            >((s.stores.len() - 1) as nat)
        },
{
    if exists|i: int| 0 <= i < valid.len() && !#[trigger] valid[i] {
        let i = choose|i: int| 0 <= i < valid.len() && !#[trigger] valid[i];
        assert(valid[i] == false);
        assert(valid.contains(false));
    }
}

/// A photograph counts once: its small version does not.
pub proof fn law_small_versions_do_not_count(front: Seq<File>, rest: Seq<char>, f: File)
    ensures
        front.push(("thumb/"@ + rest, f.1)).filter(full_size()).len() == front.filter(
            full_size(),
        ).len(),
        f.0.len() > 0 && f.0[0] != 't' ==> front.push(f).filter(full_size()).len() == front.filter(
            full_size(),
        ).len() + 1,
{
    reveal(Seq::filter);
    reveal_strlit("thumb/");
    let small = ("thumb/"@ + rest, f.1);
    crate::text::law_beginnings_and_ends("thumb/"@, rest, f.0);
    assert(front.push(small).drop_last() =~= front);
    assert(front.push(f).drop_last() =~= front);
    if begins_with(f.0, "thumb/"@) {
        assert(f.0.take(6)[0] == f.0[0]);
    }
}

/// The file of a photograph is called by the photograph's id and `.jpg`; other files are of none.
pub proof fn law_files_are_called_by_id(id: Seq<char>, name: Seq<char>)
    ensures
        id.len() > 0 ==> file_photo(id + ".jpg"@) == Some(id),
        file_photo(".jpg"@) is None,
        name.len() > 0 && name.last() != 'g' ==> file_photo(name) is None,
{
    reveal_strlit(".jpg");
    crate::text::law_beginnings_and_ends(".jpg"@, id, name);
    assert((id + ".jpg"@).take(id.len() as int) =~= id);
    if ends_in(name, ".jpg"@) {
        assert(name.skip(name.len() - 4)[3] == name.last());
    }
}

/// What a backup is turned down for is said in these words.
pub proof fn law_the_words_of_a_refused_backup()
    ensures
        backup_message(BackupError::NotAnArchive) == "不是有效的 zip 备份包"@,
        backup_message(BackupError::TooManyEntries) == "备份包条目过多，疑似异常文件"@,
        backup_message(BackupError::EntryUnreadable) == "zip 读取失败"@,
        backup_message(BackupError::FileTooLarge) == "备份包内有超大文件，已拒绝"@,
        backup_message(BackupError::TooLarge) == "备份包解压后体积过大，已拒绝"@,
        backup_message(BackupError::StoreTooLarge) == "store.json 过大，疑似异常"@,
        backup_message(BackupError::StoreUnreadable) == "store.json 读取失败"@,
        backup_message(BackupError::StoreInvalid) == "store.json 结构不合法"@,
        backup_message(BackupError::PhotoUnreadable) == "照片读取失败"@,
        backup_message(BackupError::NoStore) == "备份包里没有 store.json"@,
{
}

/// The limits of a backup: 20 000 entries, and 60 MiB for a file.
pub proof fn law_the_limits_of_a_backup(bytes: Seq<u8>, max_total: u64)
    ensures
        MAX_ENTRIES == 20_000,
        MAX_FILE == 60 * 1024 * 1024,
        MAX_STORE_JSON == 64 * 1024 * 1024,
        zip_entries(bytes) is None ==> backup_scan(bytes, max_total) == Err::<ScanV, BackupError>(
            BackupError::NotAnArchive,
        ),
        zip_entries(bytes) matches Some(e) ==> if e.len() > 20_000 {
            backup_scan(bytes, max_total) == Err::<ScanV, BackupError>(BackupError::TooManyEntries)
        } else {
            backup_scan(bytes, max_total) == Ok::<ScanV, BackupError>(scan_of(e, max_total))
        },
{
}

/// A store knows the photographs of its places and those without a place, and no others.
pub proof fn law_which_photos_are_known(s: StoreV, id: Seq<char>, i: int, j: int)
    ensures
        0 <= i < s.places.len() && 0 <= j < s.places[i].photos.len()
            && s.places[i].photos[j].id == id
            ==> knows_photo(s, id),
        0 <= i < s.unplaced.len() && s.unplaced[i].id == id ==> knows_photo(s, id),
        (forall|a: int, b: int|
            0 <= a < s.places.len() && 0 <= b < s.places[a].photos.len() ==> (
            #[trigger] s.places[a].photos[b]).id != id) && (forall|a: int|
            0 <= a < s.unplaced.len() ==> (#[trigger] s.unplaced[a]).id != id) ==> !knows_photo(
            s,
            id,
        ),
{
}

/// In a backup the text of the store comes first, compressed; behind it come the photographs, as
/// they are, below `photos/`.
pub proof fn law_what_a_backup_holds(text: Seq<char>, photos: Seq<File>, i: int)
    ensures
        ({
            let files = backup_files(text, photos);
            &&& files.len() == photos.len() + 1
            &&& files[0].name == "store.json"@
            &&& files[0].data == encode_utf8(text)
            &&& files[0].method is Deflated
            &&& 0 <= i < photos.len() ==> {
                &&& files[i + 1].name == "photos/"@ + photos[i].0
                &&& files[i + 1].data == photos[i].1
                &&& files[i + 1].method is Stored
            }
        }),
{
}

/// Sizes that add up to more than can be counted are too large for any limit below that.
pub proof fn law_uncountable_sums(total: u64, name: Seq<char>, size: u64, max_total: u64)
    requires
        total + size > u64::MAX,
        max_total < u64::MAX,
        name.len() > 0,
        name.last() != '/',
        size <= 60 * 1024 * 1024,
    ensures
        judged(total, name, size, max_total) == Err::<(u64, WantV), BackupError>(
            BackupError::TooLarge,
        ),
{
    reveal_strlit("/");
    assert("/"@ =~= seq!['/']);
    if ends_in(name, "/"@) {
        assert(name.skip(name.len() - 1)[0] == name.last());
    }
}

/// How restoring a backup goes on: the photographs one by one, then the store, then the files that
/// are needed no more. The first failure ends it.
pub proof fn law_how_restoring_goes_on(i: usize, photos: nat, done: bool)
    requires
        i < usize::MAX,
    ensures
        photos > 0 ==> first_step(photos) == Restoring::Photo(0),
        photos == 0 ==> first_step(photos) is Store,
        i + 1 < photos ==> step_after(Restoring::Photo(i), photos, true) == Restoring::Photo(
            (i + 1) as usize,
        ),
        i + 1 >= photos ==> step_after(Restoring::Photo(i), photos, true) is Store,
        step_after(Restoring::Photo(i), photos, false) is Failed,
        step_after(Restoring::Store, photos, true) is CleanUp,
        step_after(Restoring::Store, photos, false) is Failed,
        step_after(Restoring::CleanUp, photos, done) is Done,
        step_after(Restoring::Done, photos, done) is Done,
        step_after(Restoring::Failed, photos, done) is Failed,
{
}

} // verus!
