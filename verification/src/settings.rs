//! Where things are kept, and what the environment variables mean.

use vstd::prelude::*;
use crate::codes::{decimal, numeral_of, parse_number, parsed_number};
use crate::text::{join2, join3, opt_str, same};

verus! {

/// The directory of everything that is kept.
pub fn data_dir() -> (r: String)
    ensures
        r@ == "data"@,
{
    "data".to_owned()
}

/// A file or directory in another directory.
pub open spec fn inside(dir: Seq<char>, name: Seq<char>) -> Seq<char> {
    dir + "/"@ + name
}

/// The directory of the map tiles.
pub fn cache_dir() -> (r: String)
    ensures
        r@ == inside("data"@, "tilecache"@),
{
    join3(data_dir().as_str(), "/", "tilecache")
}

/// The directory of the photographs.
pub fn photo_dir() -> (r: String)
    ensures
        r@ == inside("data"@, "photos"@),
{
    join3(data_dir().as_str(), "/", "photos")
}

/// The directory of the small versions of the photographs.
pub fn thumb_dir() -> (r: String)
    ensures
        r@ == inside(inside("data"@, "photos"@), "thumb"@),
{
    join3(photo_dir().as_str(), "/", "thumb")
}

/// The file of the store.
pub fn store_file() -> (r: String)
    ensures
        r@ == inside("data"@, "store.json"@),
{
    join3(data_dir().as_str(), "/", "store.json")
}

/// The file of the sessions.
pub fn sessions_file() -> (r: String)
    ensures
        r@ == inside("data"@, "sessions.json"@),
{
    join3(data_dir().as_str(), "/", "sessions.json")
}

/// The name of the file of a photograph, and of its small version.
pub fn photo_file_name(id: &str) -> (r: String)
    ensures
        r@ == id@ + ".jpg"@,
{
    join2(id, ".jpg")
}

/// The most bytes that a request may have.
pub const BODY_LIMIT: usize = 65_536;

/// The most bytes that a request may have that brings photographs or a backup.
pub const UPLOAD_LIMIT: usize = 268_435_456;

/// The name of the copy that is made, at the given Unix time, of a store that cannot be read.
pub fn corrupt_copy_name(now: u64) -> (r: String)
    ensures
        r@ == "store.corrupt."@ + decimal(now as nat) + ".json"@,
{
    join3("store.corrupt.", numeral_of(now as u128, 10).as_str(), ".json")
}

/// The name of the copy that is made, at the given Unix time, of a store that a backup replaces.
pub fn replaced_copy_name(now: u64) -> (r: String)
    ensures
        r@ == "store.pre-import."@ + decimal(now as nat) + ".bak.json"@,
{
    join3("store.pre-import.", numeral_of(now as u128, 10).as_str(), ".bak.json")
}

/// The value of a variable, or else the given text.
pub open spec fn value_or(value: Option<Seq<char>>, otherwise: Seq<char>) -> Seq<char> {
    match value {
        Some(s) => s,
        None => otherwise,
    }
}

/// The value of a variable, or else the given text.
fn or_default(value: Option<&str>, otherwise: &str) -> (r: String)
    ensures
        r@ == value_or(opt_str(value), otherwise@),
{
    match value {
        Some(s) => s.to_owned(),
        None => otherwise.to_owned(),
    }
}

/// The style of the vector map, from `OFM_STYLE`.
pub fn ofm_style(value: Option<&str>) -> (r: String)
    ensures
        r@ == value_or(opt_str(value), "liberty"@),
{
    or_default(value, "liberty")
}

/// Whether the map is made of pictures or of vectors, from `MAP_MODE`.
pub fn map_mode(value: Option<&str>) -> (r: String)
    ensures
        r@ == value_or(opt_str(value), "raster"@),
{
    or_default(value, "raster")
}

/// The beginning of the site's own addresses, from `SITE_ORIGIN`.
pub fn site_origin(value: Option<&str>) -> (r: String)
    ensures
        r@ == value_or(opt_str(value), "https://atlas.sol42.cn"@),
{
    or_default(value, "https://atlas.sol42.cn")
}

/// The address to listen on, from `BIND_ADDR`: only this machine, unless it says otherwise.
pub fn bind_addr(value: Option<&str>) -> (r: String)
    ensures
        r@ == value_or(opt_str(value), "127.0.0.1"@),
{
    or_default(value, "127.0.0.1")
}

/// Whether an empty map shows the samples, from `DEMO_SEED`.
pub fn demo_seed(value: Option<&str>) -> (r: bool)
    ensures
        r == (opt_str(value) == Some("1"@)),
{
    match value {
        Some(s) => same(s, "1"),
        None => false,
    }
}

/// The number of a variable, or else the given one where there is none or it is no number of at
/// most `max`.
pub open spec fn number_or(value: Option<Seq<char>>, max: nat, otherwise: nat) -> nat {
    match value {
        Some(s) => match parsed_number(s, max) {
            Some(n) => n,
            None => otherwise,
        },
        None => otherwise,
    }
}

/// The number of a variable, or else the given one.
fn number_or_default(value: Option<&str>, max: u64, otherwise: u64) -> (r: u64)
    ensures
        r == number_or(opt_str(value), max as nat, otherwise as nat),
{
    match value {
        Some(s) => match parse_number(s, max) {
            Some(n) => n,
            None => otherwise,
        },
        None => otherwise,
    }
}

/// The port to listen on, from `PORT`.
pub fn port(value: Option<&str>) -> (r: u16)
    ensures
        r == number_or(opt_str(value), 0xffff, 8080),
{
    let n: u64 = number_or_default(value, 0xffff, 8080);
    proof {
        assert(number_or(opt_str(value), 0xffff, 8080) <= 0xffff);
    }
    n as u16
}

/// Bytes in a number of megabytes. Where that is more than the machine counts, there is none.
pub open spec fn megabytes(n: nat) -> Option<u64> {
    if n * 0x10_0000 <= u64::MAX {
        Some((n * 0x10_0000) as u64)
    } else {
        None
    }
}

/// Bytes in a number of megabytes.
fn in_bytes(n: u64) -> (r: Option<u64>)
    ensures
        r == megabytes(n as nat),
{
    n.checked_mul(0x10_0000)
}

/// How many bytes of map tiles are kept, from `TILE_CACHE_MAX_MB`; none where that many cannot be
/// counted.
pub fn tile_cache_cap_bytes(value: Option<&str>) -> (r: Option<u64>)
    ensures
        r == megabytes(number_or(opt_str(value), u64::MAX as nat, 2048)),
{
    in_bytes(number_or_default(value, 0xffff_ffff_ffff_ffff, 2048))
}

/// How many bytes a backup may unpack to, from `IMPORT_MAX_MB`; none where that many cannot be
/// counted.
pub fn import_cap_bytes(value: Option<&str>) -> (r: Option<u64>)
    ensures
        r == megabytes(number_or(opt_str(value), u64::MAX as nat, 512)),
{
    in_bytes(number_or_default(value, 0xffff_ffff_ffff_ffff, 512))
}

/// A variable that spells a number in decimal sets it; one that is missing, or spells none, leaves
/// what is usual.
pub proof fn law_numbers_are_set(n: nat, max: nat, otherwise: nat)
    ensures
        n <= max ==> number_or(Some(decimal(n)), max, otherwise) == n,
        n > max ==> number_or(Some(decimal(n)), max, otherwise) == otherwise,
        number_or(None, max, otherwise) == otherwise,
        number_or(Some(Seq::empty()), max, otherwise) == otherwise,
{
    crate::codes::law_decimals_are_read_back(n, max);
    crate::codes::law_what_is_no_number(Seq::empty(), max, 0);
}

/// A megabyte has 1024 times 1024 bytes.
pub proof fn law_a_megabyte(n: nat)
    ensures
        n <= 0xfff_ffff_ffff ==> megabytes(n) == Some((n * 1024 * 1024) as u64),
        n > 0xfff_ffff_ffff ==> megabytes(n) is None,
{
}

/// A variable that is set counts, and one that is not leaves what is usual.
pub proof fn law_texts_are_set(s: Seq<char>, otherwise: Seq<char>)
    ensures
        value_or(Some(s), otherwise) == s,
        value_or(None, otherwise) == otherwise,
        BODY_LIMIT == 64 * 1024,
        UPLOAD_LIMIT == 256 * 1024 * 1024,
{
}

/// What is kept inside a directory is named behind the directory and a slash.
pub proof fn law_paths_are_joined_by_a_slash(dir: Seq<char>, name: Seq<char>)
    requires
        !name.contains('/'),
    ensures
        inside(dir, name) == dir + seq!['/'] + name,
        crate::text::split_at_any(inside(dir, name), seq!['/']).last() == name,
{
    reveal_strlit("/");
    assert("/"@ =~= seq!['/']);
    let seps = seq!['/'];
    assert(seps[0] == '/');
    assert forall|k: int| 0 <= k < name.len() implies !seps.contains(#[trigger] name[k]) by {
        assert(name.contains(name[k]));
    }
    crate::text::lemma_last_piece(dir, '/', name, seps);
}

} // verus!
