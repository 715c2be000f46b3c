//! A forgiving reader for the TIFF directories inside photographs: it looks tags up one by one,
//! follows no chain of directories, and gives up with `None` on anything out of bounds.

use vstd::prelude::*;
use vstd::slice::slice_subrange;
use vstd::utf8::{decode_utf8, valid_utf8};
use crate::text::{byte_len, chars_of, opt_text, split, split_at_any, text_of};

verus! {

/// The text that `String::from_utf8_lossy` reads from these bytes.
pub uninterp spec fn utf8_lossy(bytes: Seq<u8>) -> Seq<char>;

/// `String::from_utf8_lossy` of the standard library. Its result depends on the bytes alone, and
/// is their UTF-8 text wherever they are valid UTF-8; what stands in for invalid bytes is not
/// stated.
#[verifier::external_body]
pub(crate) fn from_utf8_lossy(bytes: &[u8]) -> (r: String)
    ensures
        r@ == utf8_lossy(bytes@),
        valid_utf8(bytes@) ==> r@ == decode_utf8(bytes@),
{
    String::from_utf8_lossy(bytes).into_owned()
}

/// The tags of the fields that are looked up.
pub const TAG_ORIENTATION: u16 = 0x0112;

pub const TAG_DATE_TIME: u16 = 0x0132;

pub const TAG_EXIF_IFD: u16 = 0x8769;

pub const TAG_GPS_IFD: u16 = 0x8825;

pub const TAG_DATE_TIME_ORIGINAL: u16 = 0x9003;

pub const TAG_GPS_LATITUDE_REF: u16 = 0x0001;

pub const TAG_GPS_LATITUDE: u16 = 0x0002;

pub const TAG_GPS_LONGITUDE_REF: u16 = 0x0003;

pub const TAG_GPS_LONGITUDE: u16 = 0x0004;

/// The most entries that a directory may claim to have.
pub const MAX_ENTRIES: u16 = 512;

/// The 16-bit number at position `o`.
pub open spec fn u16_at(d: Seq<u8>, be: bool, o: int) -> Option<u16> {
    if 0 <= o && o + 2 <= d.len() {
        Some(
            if be {
                (d[o] * 0x100 + d[o + 1]) as u16
            } else {
                (d[o + 1] * 0x100 + d[o]) as u16
            },
        )
    } else {
        None
    }
}

/// The 32-bit number at position `o`.
pub open spec fn u32_at(d: Seq<u8>, be: bool, o: int) -> Option<u32> {
    if 0 <= o && o + 4 <= d.len() {
        Some(
            if be {
                (d[o] * 0x100_0000 + d[o + 1] * 0x1_0000 + d[o + 2] * 0x100 + d[o + 3]) as u32
            } else {
                (d[o + 3] * 0x100_0000 + d[o + 2] * 0x1_0000 + d[o + 1] * 0x100 + d[o]) as u32
            },
        )
    } else {
        None
    }
}

/// The size in bytes of one value of a field type, for the types that are understood.
pub open spec fn unit_size(typ: u16) -> Option<u32> {
    if typ == 1 || typ == 2 || typ == 7 {
        Some(1u32)
    } else if typ == 3 {
        Some(2u32)
    } else if typ == 4 || typ == 9 {
        Some(4u32)
    } else if typ == 5 || typ == 10 {
        Some(8u32)
    } else {
        None
    }
}

/// A directory entry that was found: its type, its count, and where its value stands.
pub type Entry = (u16, u32, usize);

/// What the directory entry at position `e` says: its type, count, and where its value stands.
/// A value of at most four bytes stands in the entry itself.
pub open spec fn entry_at(d: Seq<u8>, be: bool, e: int) -> Option<(u16, u32, int)> {
    match (u16_at(d, be, e + 2), u32_at(d, be, e + 4)) {
        (Some(typ), Some(count)) => match unit_size(typ) {
            Some(unit) => if unit * count > u32::MAX {
                None
            } else if unit * count <= 4 {
                Some((typ, count, e + 8))
            } else {
                match u32_at(d, be, e + 8) {
                    Some(off) => Some((typ, count, off as int)),
                    None => None,
                }
            },
            None => None,
        },
        _ => None,
    }
}

/// The first of the entries `i..n` of the directory at `ifd` that carries the tag.
pub open spec fn entry_from(d: Seq<u8>, be: bool, ifd: int, tag: u16, i: int, n: int) -> Option<
    (u16, u32, int),
>
    decreases n - i,
{
    if i >= n {
        None
    } else {
        match u16_at(d, be, ifd + 2 + i * 12) {
            None => None,
            Some(t) => if t == tag {
                entry_at(d, be, ifd + 2 + i * 12)
            } else {
                entry_from(d, be, ifd, tag, i + 1, n)
            },
        }
    }
}

/// The entry of the directory at `ifd` that carries the tag.
pub open spec fn entry_of(d: Seq<u8>, be: bool, ifd: int, tag: u16) -> Option<(u16, u32, int)> {
    match u16_at(d, be, ifd) {
        Some(n) => if n > MAX_ENTRIES {
            None
        } else {
            entry_from(d, be, ifd, tag, 0, n as int)
        },
        None => None,
    }
}

/// Where the directory that the entry points to begins.
pub open spec fn sub_ifd_of(d: Seq<u8>, be: bool, ifd: int, tag: u16) -> Option<u32> {
    match entry_of(d, be, ifd, tag) {
        Some(e) => u32_at(d, be, e.2),
        None => None,
    }
}

/// The bytes of a text field.
pub open spec fn ascii_bytes(d: Seq<u8>, be: bool, ifd: int, tag: u16) -> Option<Seq<u8>> {
    match entry_of(d, be, ifd, tag) {
        Some((typ, count, off)) => if typ == 2 && off + count <= d.len() {
            Some(d.subrange(off, off + count))
        } else {
            None
        },
        None => None,
    }
}

/// A text without the NUL characters at its end.
pub open spec fn without_nuls(s: Seq<char>) -> Seq<char>
    decreases s.len(),
{
    if s.len() > 0 && s.last() == '\0' {
        without_nuls(s.drop_last())
    } else {
        s
    }
}

/// The text of a text field.
pub open spec fn ascii_of(d: Seq<u8>, be: bool, ifd: int, tag: u16) -> Option<Seq<char>> {
    match ascii_bytes(d, be, ifd, tag) {
        Some(b) => Some(without_nuls(utf8_lossy(b))),
        None => None,
    }
}

/// A fraction, as numerator and denominator.
#[derive(Clone, Copy, Debug, PartialEq, Eq, Structural)]
pub struct Ratio {
    pub num: u32,
    pub den: u32,
}

/// The fraction at position `o`; a zero denominator is no fraction.
pub open spec fn ratio_at(d: Seq<u8>, be: bool, o: int) -> Option<Ratio> {
    match (u32_at(d, be, o), u32_at(d, be, o + 4)) {
        (Some(num), Some(den)) => if den == 0 {
            None
        } else {
            Some(Ratio { num, den })
        },
        _ => None,
    }
}

/// An angle in degrees, minutes and seconds.
#[derive(Clone, Copy, Debug, PartialEq, Eq, Structural)]
pub struct Angle {
    pub degrees: Ratio,
    pub minutes: Ratio,
    pub seconds: Ratio,
}

/// The angle of a field of three fractions.
pub open spec fn angle_of(d: Seq<u8>, be: bool, ifd: int, tag: u16) -> Option<Angle> {
    match entry_of(d, be, ifd, tag) {
        Some((typ, count, off)) => if typ != 5 || count < 3 {
            None
        } else {
            match (ratio_at(d, be, off), ratio_at(d, be, off + 8), ratio_at(d, be, off + 16)) {
                (Some(degrees), Some(minutes), Some(seconds)) => Some(
                    Angle { degrees, minutes, seconds },
                ),
                _ => None,
            }
        },
        None => None,
    }
}

/// The number of a field of 16-bit numbers.
pub open spec fn short_of(d: Seq<u8>, be: bool, ifd: int, tag: u16) -> Option<u16> {
    match entry_of(d, be, ifd, tag) {
        Some((typ, _, off)) => if typ != 3 {
            None
        } else {
            u16_at(d, be, off)
        },
        None => None,
    }
}

/// TIFF data and its byte order.
pub struct TiffLite<'a> {
    pub d: &'a [u8],
    pub be: bool,
}

impl<'a> TiffLite<'a> {
    /// The 16-bit number at position `o`.
    pub fn u16(&self, o: usize) -> (r: Option<u16>)
        ensures
            r == u16_at(self.d@, self.be, o as int),
    {
        if self.d.len() < 2 || o > self.d.len() - 2 {
            return None;
        }
        let (a, b) = (self.d[o] as u16, self.d[o + 1] as u16);
        Some(if self.be { a * 0x100 + b } else { b * 0x100 + a })
    }

    /// The 32-bit number at position `o`.
    pub fn u32(&self, o: usize) -> (r: Option<u32>)
        ensures
            r == u32_at(self.d@, self.be, o as int),
    {
        if self.d.len() < 4 || o > self.d.len() - 4 {
            return None;
        }
        let a: u32 = self.d[o] as u32;
        let b: u32 = self.d[o + 1] as u32;
        let c: u32 = self.d[o + 2] as u32;
        let e: u32 = self.d[o + 3] as u32;
        Some(
            if self.be {
                a * 0x100_0000 + b * 0x1_0000 + c * 0x100 + e
            } else {
                e * 0x100_0000 + c * 0x1_0000 + b * 0x100 + a
            },
        )
    }

    /// What the directory entry at position `e` says.
    fn entry(&self, e: usize) -> (r: Option<Entry>)
        requires
            e + 2 <= self.d@.len(),
        ensures
            match r {
                Some((typ, count, off)) => entry_at(self.d@, self.be, e as int) == Some(
                    (typ, count, off as int),
                ),
                None => entry_at(self.d@, self.be, e as int) is None,
            },
    {
        let room: usize = self.d.len() - e;
        if room < 8 {
            return None;
        }
        let typ: u16 = match self.u16(e + 2) {
            Some(t) => t,
            None => return None,
        };
        let count: u32 = match self.u32(e + 4) {
            Some(c) => c,
            None => return None,
        };
        let unit: u32 = if typ == 1 || typ == 2 || typ == 7 {
            1
        } else if typ == 3 {
            2
        } else if typ == 4 || typ == 9 {
            4
        } else if typ == 5 || typ == 10 {
            8
        } else {
            return None;
        };
        assert(unit * count <= 8 * 0xffff_ffff) by (nonlinear_arith)
            requires
                unit <= 8,
                count <= 0xffff_ffff,
        ;
        let total: u64 = unit as u64 * count as u64;
        if total > u32::MAX as u64 {
            return None;
        }
        if total <= 4 {
            return Some((typ, count, e + 8));
        }
        match self.u32(e + 8) {
            Some(off) => Some((typ, count, off as usize)),
            None => None,
        }
    }

    /// Looks a tag up in the directory at `ifd`.
    pub fn find(&self, ifd: usize, tag: u16) -> (r: Option<Entry>)
        ensures
            match r {
                Some((typ, count, off)) => entry_of(self.d@, self.be, ifd as int, tag) == Some(
                    (typ, count, off as int),
                ),
                None => entry_of(self.d@, self.be, ifd as int, tag) is None,
            },
    {
        let n: u16 = match self.u16(ifd) {
            Some(n) => n,
            None => return None,
        };
        if n > MAX_ENTRIES {
            return None;
        }
        assert(ifd + 2 <= self.d.len());
        let mut e: usize = ifd + 2;
        let mut i: u16 = 0;
        while i < n
            invariant
                i <= n <= 512,
                e == ifd + 2 + i * 12,
                e <= self.d@.len(),
                entry_of(self.d@, self.be, ifd as int, tag) == entry_from(
                    self.d@,
                    self.be,
                    ifd as int,
                    tag,
                    i as int,
                    n as int,
                ),
            decreases n - i,
        {
            match self.u16(e) {
                None => return None,
                Some(t) => {
                    if t == tag {
                        return self.entry(e);
                    }
                },
            }
            let room: usize = self.d.len() - e;
            if room < 12 {
                proof {
                    assert(u16_at(self.d@, self.be, ifd + 2 + (i + 1) * 12) is None);
                    assert(entry_from(
                        self.d@,
                        self.be,
                        ifd as int,
                        tag,
                        i + 1,
                        n as int,
                    ) is None);
                }
                return None;
            }
            e = e + 12;
            i = i + 1;
        }
        None
    }

    /// Where the directory that an entry points to begins.
    pub fn sub_ifd(&self, ifd0: usize, tag: u16) -> (r: Option<usize>)
        ensures
            match r {
                Some(o) => sub_ifd_of(self.d@, self.be, ifd0 as int, tag) == Some(o as u32) && o
                    <= u32::MAX,
                None => sub_ifd_of(self.d@, self.be, ifd0 as int, tag) is None,
            },
    {
        match self.find(ifd0, tag) {
            Some((_, _, off)) => match self.u32(off) {
                Some(o) => Some(o as usize),
                None => None,
            },
            None => None,
        }
    }

    /// The text of a text field.
    pub fn ascii(&self, ifd: usize, tag: u16) -> (r: Option<String>)
        ensures
            opt_text(r) == ascii_of(self.d@, self.be, ifd as int, tag),
    {
        match self.find(ifd, tag) {
            Some((typ, count, off)) => {
                if typ != 2 {
                    return None;
                }
                if off > self.d.len() || count as usize > self.d.len() - off {
                    return None;
                }
                let b = slice_subrange(self.d, off, off + count as usize);
                Some(drop_nuls(from_utf8_lossy(b).as_str()))
            },
            None => None,
        }
    }

    /// The fraction at position `off`.
    pub fn rat(&self, off: usize) -> (r: Option<Ratio>)
        ensures
            r == ratio_at(self.d@, self.be, off as int),
    {
        match self.u32(off) {
            Some(num) => {
                assert(off + 4 <= self.d.len());
                match self.u32(off + 4) {
                    Some(den) => if den == 0 {
                        None
                    } else {
                        Some(Ratio { num, den })
                    },
                    None => None,
                }
            },
            None => None,
        }
    }

    /// The angle of a field of three fractions: degrees, minutes and seconds.
    pub fn dms(&self, ifd: usize, tag: u16) -> (r: Option<Angle>)
        ensures
            r == angle_of(self.d@, self.be, ifd as int, tag),
    {
        match self.find(ifd, tag) {
            Some((typ, count, off)) => {
                if typ != 5 || count < 3 {
                    return None;
                }
                if self.d.len() < 24 || off > self.d.len() - 24 {
                    return None;
                }
                match (self.rat(off), self.rat(off + 8), self.rat(off + 16)) {
                    (Some(degrees), Some(minutes), Some(seconds)) => Some(
                        Angle { degrees, minutes, seconds },
                    ),
                    _ => None,
                }
            },
            None => None,
        }
    }

    /// The number of a field of 16-bit numbers.
    pub fn short(&self, ifd: usize, tag: u16) -> (r: Option<u16>)
        ensures
            r == short_of(self.d@, self.be, ifd as int, tag),
    {
        match self.find(ifd, tag) {
            Some((typ, _, off)) => if typ != 3 {
                None
            } else {
                self.u16(off)
            },
            None => None,
        }
    }
}

/// Takes the NUL characters off the end of a text.
fn drop_nuls(s: &str) -> (r: String)
    ensures
        r@ == without_nuls(s@),
{
    let mut v = chars_of(s);
    while v.len() > 0 && v[v.len() - 1] == '\0'
        invariant
            without_nuls(v@) == without_nuls(s@),
        decreases v.len(),
    {
        v.pop();
    }
    text_of(&v)
}

/// Whether the data begins with one of the two byte order marks.
pub open spec fn has_order_mark(b: Seq<u8>) -> bool {
    b.len() >= 2 && ((b[0] == 0x49 && b[1] == 0x49) || (b[0] == 0x4d && b[1] == 0x4d))
}

/// Whether the six bytes at `p` are `Exif` and two NULs.
pub open spec fn exif_header_at(b: Seq<u8>, p: int) -> bool {
    &&& 0 <= p && p + 6 <= b.len()
    &&& b[p] == 0x45 && b[p + 1] == 0x78 && b[p + 2] == 0x69 && b[p + 3] == 0x66
    &&& b[p + 4] == 0 && b[p + 5] == 0
}

/// Where the Exif data of a JPEG file lies, looking from the segment at `p` on: the segments are
/// passed one by one, up to the start of the scan, the end of the image, or anything that is no
/// segment.
pub open spec fn exif_segment(b: Seq<u8>, p: int) -> Option<(int, int)>
    decreases b.len() - p,
{
    if p < 0 || p + 4 > b.len() || b[p] != 0xff || b[p + 1] == 0xda || b[p + 1] == 0xd9 {
        None
    } else {
        let len = b[p + 2] * 0x100 + b[p + 3];
        if len < 2 || p + 2 + len > b.len() {
            None
        } else if b[p + 1] == 0xe1 && exif_header_at(b, p + 4) {
            if len < 8 {
                None
            } else {
                Some((p + 10, p + 2 + len))
            }
        } else {
            exif_segment(b, p + 2 + len)
        }
    }
}

/// The TIFF data of a file: the file itself if it is a bare TIFF, else the Exif segment of a JPEG.
pub open spec fn tiff_data(b: Seq<u8>) -> Option<Seq<u8>> {
    if b.len() >= 8 && has_order_mark(b) {
        Some(b)
    } else if b.len() < 2 || b[0] != 0xff || b[1] != 0xd8 {
        None
    } else {
        match exif_segment(b, 2) {
            Some((i, j)) => if j - i >= 8 && has_order_mark(b.subrange(i, j)) {
                Some(b.subrange(i, j))
            } else {
                None
            },
            None => None,
        }
    }
}

/// The position of the first directory of TIFF data.
pub open spec fn first_ifd(d: Seq<u8>) -> int {
    match u32_at(d, d[0] == 0x4d, 4) {
        Some(o) => o as int,
        None => 0,
    }
}

/// Looks for the Exif data of a JPEG file.
fn find_exif_segment(bytes: &[u8]) -> (r: Option<(usize, usize)>)
    ensures
        match r {
            Some((i, j)) => exif_segment(bytes@, 2) == Some((i as int, j as int)) && i <= j
                <= bytes@.len(),
            None => exif_segment(bytes@, 2) is None,
        },
{
    let mut p: usize = 2;
    while p <= bytes.len() && bytes.len() - p >= 4
        invariant
            exif_segment(bytes@, 2) == exif_segment(bytes@, p as int),
        decreases bytes.len() - p,
    {
        if bytes[p] != 0xff {
            return None;
        }
        let marker: u8 = bytes[p + 1];
        if marker == 0xda || marker == 0xd9 {
            return None;
        }
        let len: usize = bytes[p + 2] as usize * 0x100 + bytes[p + 3] as usize;
        if len < 2 || len > bytes.len() - p - 2 {
            return None;
        }
        let room: usize = bytes.len() - p;
        if marker == 0xe1 && room >= 10 && bytes[p + 4] == 0x45 && bytes[p + 5] == 0x78 && bytes[p
            + 6] == 0x69 && bytes[p + 7] == 0x66 && bytes[p + 8] == 0 && bytes[p + 9] == 0 {
            assert(exif_header_at(bytes@, p + 4));
            if len < 8 {
                return None;
            }
            return Some((p + 10, p + 2 + len));
        }
        p = p + 2 + len;
    }
    None
}

/// Opens the TIFF data of a photograph, and says where its first directory is.
pub fn tiff_lite(bytes: &[u8]) -> (r: Option<(TiffLite<'_>, usize)>)
    ensures
        match r {
            Some((t, ifd0)) => tiff_data(bytes@) == Some(t.d@) && t.be == (t.d@[0] == 0x4d)
                && ifd0 as int == first_ifd(t.d@),
            None => tiff_data(bytes@) is None,
        },
{
    let whole: bool = bytes.len() >= 8 && ((bytes[0] == 0x49 && bytes[1] == 0x49) || (bytes[0]
        == 0x4d && bytes[1] == 0x4d));
    let d: &[u8] = if whole {
        bytes
    } else {
        if bytes.len() < 2 || bytes[0] != 0xff || bytes[1] != 0xd8 {
            return None;
        }
        match find_exif_segment(bytes) {
            Some((i, j)) => slice_subrange(bytes, i, j),
            None => return None,
        }
    };
    if d.len() < 8 || !((d[0] == 0x49 && d[1] == 0x49) || (d[0] == 0x4d && d[1] == 0x4d)) {
        return None;
    }
    let t = TiffLite { d, be: d[0] == 0x4d };
    match t.u32(4) {
        Some(o) => Some((t, o as usize)),
        None => None,
    }
}

/// A text up to its first space, with colons turned into dots.
pub open spec fn dotted_date(s: Seq<char>) -> Seq<char> {
    split_at_any(s, seq![' '])[0].map_values(
        |c: char|
            if c == ':' {
                '.'
            } else {
                c
            },
    )
}

/// The year and month of a camera's time stamp: `2026:06:19 14:30:00` gives `2026.06`. The day is
/// left out on purpose. What comes out shorter than six bytes is no date.
pub open spec fn year_month_of(s: Seq<char>) -> Option<Seq<char>> {
    let parts = split_at_any(dotted_date(s), seq!['.']);
    let ym = if parts.len() >= 2 {
        parts[0] + seq!['.'] + parts[1]
    } else {
        parts[0]
    };
    if byte_len(ym) >= 6 {
        Some(ym)
    } else {
        None
    }
}

/// The year and month of a camera's time stamp.
pub fn year_month(s: &str) -> (r: Option<String>)
    ensures
        opt_text(r) == year_month_of(s@),
{
    let space: Vec<char> = vec![' '];
    assert(space@ =~= seq![' ']);
    let tokens = split(&chars_of(s), &space);
    let first: &Vec<char> = &tokens[0];
    assert(first@ == split_at_any(s@, seq![' '])[0]) by {
        assert(crate::text::pieces(tokens@)[0] == first@);
    }
    let mut dotted: Vec<char> = Vec::new();
    let mut i: usize = 0;
    while i < first.len()
        invariant
            i <= first.len(),
            dotted@.len() == i,
            forall|k: int|
                0 <= k < i ==> #[trigger] dotted@[k] == (if first@[k] == ':' {
                    '.'
                } else {
                    first@[k]
                }),
        decreases first.len() - i,
    {
        let c: char = first[i];
        dotted.push(if c == ':' { '.' } else { c });
        i = i + 1;
    }
    assert(dotted@ =~= dotted_date(s@));
    let dot: Vec<char> = vec!['.'];
    assert(dot@ =~= seq!['.']);
    let parts = split(&dotted, &dot);
    let ghost pieces = crate::text::pieces(parts@);
    assert(pieces[0] == parts@[0]@);
    let mut ym: String = text_of(&parts[0]);
    if parts.len() >= 2 {
        assert(pieces[1] == parts@[1]@);
        ym.push('.');
        ym.append(text_of(&parts[1]).as_str());
        assert(ym@ =~= pieces[0] + seq!['.'] + pieces[1]);
    }
    if ym.as_str().as_bytes().len() >= 6 {
        Some(ym)
    } else {
        None
    }
}

/// A position read from a photograph: two angles, and whether they lie south and west.
#[derive(Clone, Copy, Debug, PartialEq, Eq, Structural)]
pub struct GpsReading {
    pub lat: Angle,
    pub south: bool,
    pub lng: Angle,
    pub west: bool,
}

/// Whether a field is a text that begins with the given letter.
pub open spec fn ascii_begins(d: Seq<u8>, be: bool, ifd: int, tag: u16, c: char) -> bool {
    match ascii_of(d, be, ifd, tag) {
        Some(s) => s.len() > 0 && s[0] == c,
        None => false,
    }
}

/// The position in the GPS directory of a photograph.
pub open spec fn tiff_gps(b: Seq<u8>) -> Option<GpsReading> {
    match tiff_data(b) {
        Some(d) => {
            let be = d[0] == 0x4d;
            match sub_ifd_of(d, be, first_ifd(d), TAG_GPS_IFD) {
                Some(g) => match (
                    angle_of(d, be, g as int, TAG_GPS_LATITUDE),
                    angle_of(d, be, g as int, TAG_GPS_LONGITUDE),
                ) {
                    (Some(lat), Some(lng)) => Some(
                        GpsReading {
                            lat,
                            south: ascii_begins(d, be, g as int, TAG_GPS_LATITUDE_REF, 'S'),
                            lng,
                            west: ascii_begins(d, be, g as int, TAG_GPS_LONGITUDE_REF, 'W'),
                        },
                    ),
                    _ => None,
                },
                None => None,
            }
        },
        None => None,
    }
}

/// Whether an optional text begins with the given letter.
fn begins(s: &Option<String>, c: char) -> (r: bool)
    ensures
        r == match opt_text(*s) {
            Some(t) => t.len() > 0 && t[0] == c,
            None => false,
        },
{
    match s {
        Some(t) => {
            let v = chars_of(t.as_str());
            v.len() > 0 && v[0] == c
        },
        None => false,
    }
}

/// The position in the GPS directory of a photograph. Angles are exact fractions; whether they
/// make a latitude and a longitude on the globe is for the caller to see.
pub fn fb_exif_gps(bytes: &[u8]) -> (r: Option<GpsReading>)
    ensures
        r == tiff_gps(bytes@),
{
    match tiff_lite(bytes) {
        Some((t, ifd0)) => match t.sub_ifd(ifd0, TAG_GPS_IFD) {
            Some(g) => match (t.dms(g, TAG_GPS_LATITUDE), t.dms(g, TAG_GPS_LONGITUDE)) {
                (Some(lat), Some(lng)) => Some(
                    GpsReading {
                        lat,
                        south: begins(&t.ascii(g, TAG_GPS_LATITUDE_REF), 'S'),
                        lng,
                        west: begins(&t.ascii(g, TAG_GPS_LONGITUDE_REF), 'W'),
                    },
                ),
                _ => None,
            },
            None => None,
        },
        None => None,
    }
}

/// The time stamp of a photograph: that of the exposure, else that of the file.
pub open spec fn tiff_time_stamp(b: Seq<u8>) -> Option<Seq<char>> {
    match tiff_data(b) {
        Some(d) => {
            let be = d[0] == 0x4d;
            let exposure = match sub_ifd_of(d, be, first_ifd(d), TAG_EXIF_IFD) {
                Some(e) => ascii_of(d, be, e as int, TAG_DATE_TIME_ORIGINAL),
                None => None,
            };
            match exposure {
                Some(s) => Some(s),
                None => ascii_of(d, be, first_ifd(d), TAG_DATE_TIME),
            }
        },
        None => None,
    }
}

/// The year and month of a photograph.
pub open spec fn tiff_date(b: Seq<u8>) -> Option<Seq<char>> {
    match tiff_time_stamp(b) {
        Some(s) => year_month_of(s),
        None => None,
    }
}

/// The year and month of a photograph.
pub fn fb_exif_date(bytes: &[u8]) -> (r: Option<String>)
    ensures
        opt_text(r) == tiff_date(bytes@),
{
    match tiff_lite(bytes) {
        Some((t, ifd0)) => {
            let exposure: Option<String> = match t.sub_ifd(ifd0, TAG_EXIF_IFD) {
                Some(e) => t.ascii(e, TAG_DATE_TIME_ORIGINAL),
                None => None,
            };
            let stamp: Option<String> = match exposure {
                Some(s) => Some(s),
                None => t.ascii(ifd0, TAG_DATE_TIME),
            };
            match stamp {
                Some(s) => year_month(s.as_str()),
                None => None,
            }
        },
        None => None,
    }
}

/// The orientation of a photograph.
pub open spec fn tiff_orientation(b: Seq<u8>) -> Option<u16> {
    match tiff_data(b) {
        Some(d) => short_of(d, d[0] == 0x4d, first_ifd(d), TAG_ORIENTATION),
        None => None,
    }
}

/// The orientation of a photograph.
pub fn fb_exif_orientation(bytes: &[u8]) -> (r: Option<u16>)
    ensures
        r == tiff_orientation(bytes@),
{
    match tiff_lite(bytes) {
        Some((t, ifd0)) => t.short(ifd0, TAG_ORIENTATION),
        None => None,
    }
}

/// The box type `ftyp`, as a big-endian number.
pub const FTYP: u32 = 0x6674_7970;

/// The brands of the HEIF family, as big-endian numbers: `heic`, `heix`, `heim`, `heis`, `hevc`,
/// `hevx`, `mif1`, `msf1`, `avif`, `avis`.
pub open spec fn heif_brand(b: u32) -> bool {
    ||| b == 0x6865_6963
    ||| b == 0x6865_6978
    ||| b == 0x6865_696d
    ||| b == 0x6865_6973
    ||| b == 0x6865_7663
    ||| b == 0x6865_7678
    ||| b == 0x6d69_6631
    ||| b == 0x6d73_6631
    ||| b == 0x6176_6966
    ||| b == 0x6176_6973
}

/// Whether a file is an ISO base media file of one of the HEIF brands.
pub open spec fn is_heif(b: Seq<u8>) -> bool {
    u32_at(b, true, 4) == Some(FTYP) && match u32_at(b, true, 8) {
        Some(brand) => heif_brand(brand),
        None => false,
    }
}

/// Whether a file looks like HEIC, HEIF or AVIF.
pub fn looks_like_heic(bytes: &[u8]) -> (r: bool)
    ensures
        r == is_heif(bytes@),
{
    let t = TiffLite { d: bytes, be: true };
    match (t.u32(4), t.u32(8)) {
        (Some(kind), Some(b)) => kind == FTYP && (b == 0x6865_6963 || b == 0x6865_6978 || b
            == 0x6865_696d || b == 0x6865_6973 || b == 0x6865_7663 || b == 0x6865_7678 || b
            == 0x6d69_6631 || b == 0x6d73_6631 || b == 0x6176_6966 || b == 0x6176_6973),
        _ => false,
    }
}

/// A number is read as it was written, with the high byte first or with the low byte first, and only
/// where all of it is there.
pub proof fn law_numbers_are_read_as_written(d: Seq<u8>, o: int, n: u16, m: u32)
    ensures
        0 <= o && o + 2 <= d.len() && d[o] == n / 0x100 && d[o + 1] == n % 0x100 ==> u16_at(
            d,
            true,
            o,
        ) == Some(n),
        0 <= o && o + 2 <= d.len() && d[o + 1] == n / 0x100 && d[o] == n % 0x100 ==> u16_at(
            d,
            false,
            o,
        ) == Some(n),
        0 <= o && o + 4 <= d.len() && d[o] == m / 0x100_0000 && d[o + 1] == m / 0x1_0000 % 0x100
            && d[o + 2] == m / 0x100 % 0x100 && d[o + 3] == m % 0x100
                ==> u32_at(d, true, o) == Some(
            m,
        ),
        0 <= o && o + 4 <= d.len() && d[o + 3] == m / 0x100_0000 && d[o + 2] == m / 0x1_0000 % 0x100
            && d[o + 1] == m / 0x100 % 0x100 && d[o] == m % 0x100 ==> u32_at(d, false, o) == Some(
            m,
        ),
        o < 0 || o + 2 > d.len() ==> u16_at(d, true, o) is None && u16_at(d, false, o) is None,
        o < 0 || o + 4 > d.len() ==> u32_at(d, true, o) is None && u32_at(d, false, o) is None,
{
    lemma_bytes_of_a_number(m);
    assert(n / 0x100 * 0x100 + n % 0x100 == n);
}

/// A number is made of its bytes.
proof fn lemma_bytes_of_a_number(m: u32)
    ensures
        m / 0x100_0000 * 0x100_0000 + m / 0x1_0000 % 0x100 * 0x1_0000 + m / 0x100 % 0x100 * 0x100 + m
            % 0x100 == m,
{
    assert(m / 0x100_0000 * 0x100_0000 + m / 0x1_0000 % 0x100 * 0x1_0000 + m / 0x100 % 0x100 * 0x100
        + m % 0x100 == m) by (bit_vector);
}

/// A field is the first entry of its directory with the field's tag. Its value stands in the entry
/// if it has at most four bytes, else where the entry points to: one byte for each unit of type 1, 2
/// or 7, two of type 3, four of type 4 or 9, eight of type 5 or 10. A directory has at most 512
/// entries.
pub proof fn law_fields_are_found(
    d: Seq<u8>,
    be: bool,
    ifd: int,
    tag: u16,
    n: u16,
    i: int,
    typ: u16,
    count: u32,
    off: u32,
)
    requires
        u16_at(d, be, ifd) == Some(n),
        0 <= i < n,
        forall|j: int|
            0 <= j < i ==> (#[trigger] u16_at(d, be, ifd + 2 + j * 12)) is Some && u16_at(
                d,
                be,
                ifd + 2 + j * 12,
            ) != Some(tag),
        u16_at(d, be, ifd + 2 + i * 12) == Some(tag),
        u16_at(d, be, ifd + 4 + i * 12) == Some(typ),
        u32_at(d, be, ifd + 6 + i * 12) == Some(count),
        u32_at(d, be, ifd + 10 + i * 12) == Some(off),
    ensures
        ({
            let r = entry_of(d, be, ifd, tag);
            let here = Some((typ, count, ifd + 10 + i * 12));
            let there = Some((typ, count, off as int));
            &&& n > 512 ==> r is None
            &&& n <= 512 && (typ == 1 || typ == 2 || typ == 7) ==> r == if count <= 4 {
                here
            } else {
                there
            }
            &&& n <= 512 && typ == 3 && 2 * count <= 0xffff_ffff ==> r == if count <= 2 {
                here
            } else {
                there
            }
            &&& n <= 512 && (typ == 4 || typ == 9) && 4 * count <= 0xffff_ffff ==> r == if count
                <= 1 {
                here
            } else {
                there
            }
            &&& n <= 512 && (typ == 5 || typ == 10) && 8 * count <= 0xffff_ffff ==> r == if count
                == 0 {
                here
            } else {
                there
            }
            &&& typ == 0 || typ == 6 || typ == 8 || typ > 10 ==> r is None
        }),
{
    lemma_entry_from(d, be, ifd, tag, 0, i, n as int);
    let e = ifd + 2 + i * 12;
    assert(e + 2 == ifd + 4 + i * 12 && e + 4 == ifd + 6 + i * 12 && e + 8 == ifd + 10 + i * 12);
    if unit_size(typ) is Some {
        let unit = unit_size(typ)->0;
        assert(unit == 1u32 ==> unit * count == count) by (nonlinear_arith);
        assert(unit == 2u32 ==> unit * count == 2 * count) by (nonlinear_arith);
        assert(unit == 4u32 ==> unit * count == 4 * count) by (nonlinear_arith);
        assert(unit == 8u32 ==> unit * count == 8 * count) by (nonlinear_arith);
    }
}

/// Entries with other tags are passed over.
proof fn lemma_entry_from(d: Seq<u8>, be: bool, ifd: int, tag: u16, k: int, i: int, n: int)
    requires
        0 <= k <= i < n,
        forall|j: int|
            0 <= j < i ==> (#[trigger] u16_at(d, be, ifd + 2 + j * 12)) is Some && u16_at(
                d,
                be,
                ifd + 2 + j * 12,
            ) != Some(tag),
        u16_at(d, be, ifd + 2 + i * 12) == Some(tag),
    ensures
        entry_from(d, be, ifd, tag, k, n) == entry_at(d, be, ifd + 2 + i * 12),
    decreases i - k,
{
    if k < i {
        assert(u16_at(d, be, ifd + 2 + k * 12) is Some);
        lemma_entry_from(d, be, ifd, tag, k + 1, i, n);
    }
}

/// A tag that no entry has is not found.
pub proof fn law_missing_fields_are_missing(d: Seq<u8>, be: bool, ifd: int, tag: u16)
    requires
        u16_at(d, be, ifd) is None || forall|j: int|
            0 <= j < u16_at(d, be, ifd)->0 ==> (#[trigger] u16_at(d, be, ifd + 2 + j * 12)) != Some(
                tag,
            ),
    ensures
        entry_of(d, be, ifd, tag) is None,
        ascii_of(d, be, ifd, tag) is None,
        angle_of(d, be, ifd, tag) is None,
        short_of(d, be, ifd, tag) is None,
        sub_ifd_of(d, be, ifd, tag) is None,
{
    if u16_at(d, be, ifd) is Some {
        lemma_no_entry(d, be, ifd, tag, 0, u16_at(d, be, ifd)->0 as int);
    }
}

/// Where no entry has the tag, none is found.
proof fn lemma_no_entry(d: Seq<u8>, be: bool, ifd: int, tag: u16, k: int, n: int)
    requires
        0 <= k,
        forall|j: int|
            0 <= j < n ==> (#[trigger] u16_at(d, be, ifd + 2 + j * 12)) != Some(tag),
    ensures
        entry_from(d, be, ifd, tag, k, n) is None,
    decreases n - k,
{
    if k < n {
        assert(u16_at(d, be, ifd + 2 + k * 12) != Some(tag));
        lemma_no_entry(d, be, ifd, tag, k + 1, n);
    }
}

/// What a field says depends on its type: a text is of type 2 and lies within the data, an angle is
/// of type 5 and has three fractions without a zero below, a short number is of type 3.
pub proof fn law_fields_say_what_their_types_allow(
    d: Seq<u8>,
    be: bool,
    ifd: int,
    tag: u16,
    typ: u16,
    count: u32,
    off: int,
)
    requires
        entry_of(d, be, ifd, tag) == Some((typ, count, off)),
    ensures
        typ == 2 && 0 <= off && off + count <= d.len() ==> ascii_of(d, be, ifd, tag) == Some(
            without_nuls(utf8_lossy(d.subrange(off, off + count))),
        ),
        typ != 2 || off + count > d.len() ==> ascii_of(d, be, ifd, tag) is None,
        match (
            u32_at(d, be, off),
            u32_at(d, be, off + 4),
            u32_at(d, be, off + 8),
            u32_at(d, be, off + 12),
            u32_at(d, be, off + 16),
            u32_at(d, be, off + 20),
        ) {
            (Some(a), Some(b), Some(c), Some(e), Some(f), Some(g)) => {
                &&& typ == 5 && count >= 3 && b > 0 && e > 0 && g > 0 ==> {
                    &&& angle_of(d, be, ifd, tag) matches Some(x)
                    &&& x.degrees.num == a && x.degrees.den == b
                    &&& x.minutes.num == c && x.minutes.den == e
                    &&& x.seconds.num == f && x.seconds.den == g
                }
                &&& b == 0 || e == 0 || g == 0 ==> angle_of(d, be, ifd, tag) is None
            },
            _ => angle_of(d, be, ifd, tag) is None,
        },
        typ != 5 || count < 3 ==> angle_of(d, be, ifd, tag) is None,
        typ == 3 ==> short_of(d, be, ifd, tag) == u16_at(d, be, off),
        typ != 3 ==> short_of(d, be, ifd, tag) is None,
        sub_ifd_of(d, be, ifd, tag) == u32_at(d, be, off),
{
}

/// NULs at the end of a text do not matter, and no others are taken away.
pub proof fn law_nuls_at_the_end_are_dropped(s: Seq<char>)
    ensures
        without_nuls(s.push('\0')) == without_nuls(s),
        s.len() > 0 && s.last() != '\0' ==> without_nuls(s) == s,
        s.len() == 0 ==> without_nuls(s) == s,
{
    assert(s.push('\0').drop_last() =~= s);
}

/// The position stands in the directory that the tag 0x8825 points to: the latitude under 2 and the
/// longitude under 4, and the letters of their sides under 1 and 3. `S` is the south, `W` the west.
pub proof fn law_where_the_position_stands(b: Seq<u8>, d: Seq<u8>, start: u32)
    requires
        tiff_data(b) == Some(d),
        u32_at(d, d[0] as char == 'M', 4) == Some(start),
    ensures
        ({
            let be = d[0] as char == 'M';
            match sub_ifd_of(d, be, start as int, 0x8825) {
                Some(g) => match (
                    angle_of(d, be, g as int, 0x0002),
                    angle_of(d, be, g as int, 0x0004),
                ) {
                    (Some(lat), Some(lng)) => {
                        &&& tiff_gps(b) matches Some(p)
                        &&& p.lat == lat && p.lng == lng
                        &&& match ascii_of(d, be, g as int, 0x0001) {
                            Some(s) => s.len() > 0 ==> (p.south <==> s[0] == 'S'),
                            None => !p.south,
                        }
                        &&& match ascii_of(d, be, g as int, 0x0003) {
                            Some(s) => s.len() > 0 ==> (p.west <==> s[0] == 'W'),
                            None => !p.west,
                        }
                    },
                    _ => tiff_gps(b) is None,
                },
                None => tiff_gps(b) is None,
            }
        }),
{
}

/// The moment of taking stands under 0x9003 in the directory that the tag 0x8769 points to; where it
/// is missing, the one under 0x0132 in the first directory counts. The orientation stands under
/// 0x0112 in the first directory.
pub proof fn law_where_the_date_stands(b: Seq<u8>, d: Seq<u8>, start: u32)
    requires
        tiff_data(b) == Some(d),
        u32_at(d, d[0] as char == 'M', 4) == Some(start),
    ensures
        ({
            let be = d[0] as char == 'M';
            let changed = ascii_of(d, be, start as int, 0x0132);
            &&& match sub_ifd_of(d, be, start as int, 0x8769) {
                Some(e) => match ascii_of(d, be, e as int, 0x9003) {
                    Some(s) => tiff_date(b) == year_month_of(s),
                    None => changed is Some ==> tiff_date(b) == year_month_of(changed->0),
                },
                None => changed is Some ==> tiff_date(b) == year_month_of(changed->0),
            }
            &&& tiff_orientation(b) == short_of(d, be, start as int, 0x0112)
        }),
{
}

/// What begins with `II` or `MM` is TIFF data by itself; what begins neither so nor as a JPEG file
/// holds none.
pub proof fn law_bare_data(b: Seq<u8>)
    requires
        b.len() >= 8,
    ensures
        b[0] as char == 'I' && b[1] as char == 'I' || b[0] as char == 'M' && b[1] as char == 'M'
            ==> tiff_data(b) == Some(b),
        b[0] as char != 'I' && b[0] as char != 'M' && b[0] != 0xff ==> tiff_data(b) is None
            && tiff_gps(
            b,
        ) is None && tiff_date(b) is None && tiff_orientation(b) is None,
{
}

/// In a JPEG file the TIFF data is the contents of the first segment of type 0xe1 that begins with
/// `Exif` and two NULs; segments of other types before it do not matter.
pub proof fn law_data_in_a_segment(
    marker: u8,
    high: u8,
    low: u8,
    payload: Seq<u8>,
    rest: Seq<u8>,
)
    requires
        high * 0x100 + low == payload.len() + 2,
    ensures
        ({
            let begin = seq![0xffu8, 0xd8u8];
            let b = begin + (seq![0xffu8, marker, high, low] + payload + rest);
            &&& marker != 0xe1 && marker != 0xda && marker != 0xd9 ==> tiff_data(b) == tiff_data(
                begin + rest,
            )
            &&& marker == 0xda || marker == 0xd9 ==> tiff_data(b) is None
            &&& marker == 0xe1 && payload.len() >= 14 && payload[0] as char == 'E' && payload[1]
                as char == 'x' && payload[2] as char == 'i' && payload[3] as char == 'f'
                    && payload[4]
                == 0 && payload[5] == 0 && (payload[6] as char == 'I' && payload[7] as char == 'I'
                || payload[6] as char == 'M' && payload[7] as char == 'M') ==> tiff_data(b) == Some(
                payload.skip(6),
            )
        }),
{
    let begin = seq![0xffu8, 0xd8u8];
    let head = seq![0xffu8, marker, high, low];
    let b = begin + (head + payload + rest);
    let n = payload.len() as int;
    assert(b[2] == 0xff && b[3] == marker && b[4] == high && b[5] == low);
    if marker == 0xe1 {
        if n >= 14 {
            assert(b[6] == payload[0] && b[7] == payload[1] && b[8] == payload[2]);
            assert(b[9] == payload[3] && b[10] == payload[4] && b[11] == payload[5]);
            let t = payload.skip(6);
            assert(b.subrange(12, 6 + n) =~= t);
            assert(t[0] == payload[6] && t[1] == payload[7]);
        }
    } else if marker != 0xda && marker != 0xd9 {
        let a = begin + rest;
        let front = begin + head + payload;
        assert(b =~= front + rest);
        lemma_shifted_segments(begin, front, rest, 0);
        let at = exif_segment(a, 2);
        assert(exif_segment(b, 2) == exif_segment(b, 6 + n));
        if at is Some {
            let (i, j) = at->0;
            lemma_segment_bounds(a, 2);
            assert(a.subrange(i, j) =~= b.subrange(i + 4 + n, j + 4 + n));
        }
    }
}

/// Where segments stand does not matter to what is in them.
proof fn lemma_shifted_segments(x: Seq<u8>, y: Seq<u8>, rest: Seq<u8>, p: int)
    requires
        0 <= p,
    ensures
        exif_segment(y + rest, y.len() + p) == match exif_segment(x + rest, x.len() + p) {
            Some((i, j)) => Some((i - x.len() + y.len(), j - x.len() + y.len())),
            None => None,
        },
    decreases rest.len() - p,
{
    let (a, b) = (x + rest, y + rest);
    if p + 4 <= rest.len() {
        lemma_same_bytes(x, rest, p);
        lemma_same_bytes(y, rest, p);
        let len = rest[p + 2] * 0x100 + rest[p + 3];
        if len >= 2 && p + 2 + len <= rest.len() {
            lemma_shifted_segments(x, y, rest, p + 2 + len);
            assert(x.len() + (p + 2 + len) == x.len() + p + 2 + len);
            assert(y.len() + (p + 2 + len) == y.len() + p + 2 + len);
        }
    }
}

/// The bytes of a segment are the same behind other bytes.
proof fn lemma_same_bytes(x: Seq<u8>, rest: Seq<u8>, p: int)
    requires
        0 <= p,
        p + 4 <= rest.len(),
    ensures
        (x + rest)[x.len() + p] == rest[p],
        (x + rest)[x.len() + p + 1] == rest[p + 1],
        (x + rest)[x.len() + p + 2] == rest[p + 2],
        (x + rest)[x.len() + p + 3] == rest[p + 3],
        exif_header_at(x + rest, x.len() + p + 4) == exif_header_at(rest, p + 4),
{
    if p + 10 <= rest.len() {
        let a = x + rest;
        let k = x.len() + p;
        assert(a[k + 4] == rest[p + 4] && a[k + 5] == rest[p + 5] && a[k + 6] == rest[p + 6]);
        assert(a[k + 7] == rest[p + 7] && a[k + 8] == rest[p + 8] && a[k + 9] == rest[p + 9]);
    }
}

/// A segment lies behind the position from which it is looked for, and within the file.
proof fn lemma_segment_bounds(b: Seq<u8>, p: int)
    requires
        0 <= p,
    ensures
        exif_segment(b, p) matches Some((i, j)) ==> p <= i <= j <= b.len(),
    decreases b.len() - p,
{
    if p + 4 <= b.len() {
        let len = b[p + 2] * 0x100 + b[p + 3];
        if len >= 2 && p + 2 + len <= b.len() {
            lemma_segment_bounds(b, p + 2 + len);
        }
    }
}

/// The files of the HEIF family are told by the letters `ftyp` at their fifth byte, and by the name
/// of their brand behind that.
pub proof fn law_the_heif_brands(b: Seq<u8>, named: Seq<char>)
    requires
        b.len() >= 12,
        named.len() == 4,
        forall|i: int| 0 <= i < 4 ==> b[8 + i] as char == #[trigger] named[i],
    ensures
        is_heif(b) <==> b[4] as char == 'f' && b[5] as char == 't' && b[6] as char == 'y' && b[7]
            as char == 'p' && (named == "heic"@ || named == "heix"@ || named == "heim"@
                || named == "heis"@ || named == "hevc"@ || named == "hevx"@ || named == "mif1"@
                || named == "msf1"@ || named == "avif"@ || named == "avis"@),
{
    reveal_strlit("heic");
    reveal_strlit("heix");
    reveal_strlit("heim");
    reveal_strlit("heis");
    reveal_strlit("hevc");
    reveal_strlit("hevx");
    reveal_strlit("mif1");
    reveal_strlit("msf1");
    reveal_strlit("avif");
    reveal_strlit("avis");
    assert(b[8] as char == named[0] && b[9] as char == named[1]);
    assert(b[10] as char == named[2] && b[11] as char == named[3]);
    let brand = u32_at(b, true, 8)->0;
    assert(brand == 0x6865_6963 <==> named =~= "heic"@);
    assert(brand == 0x6865_6978 <==> named =~= "heix"@);
    assert(brand == 0x6865_696d <==> named =~= "heim"@);
    assert(brand == 0x6865_6973 <==> named =~= "heis"@);
    assert(brand == 0x6865_7663 <==> named =~= "hevc"@);
    assert(brand == 0x6865_7678 <==> named =~= "hevx"@);
    assert(brand == 0x6d69_6631 <==> named =~= "mif1"@);
    assert(brand == 0x6d73_6631 <==> named =~= "msf1"@);
    assert(brand == 0x6176_6966 <==> named =~= "avif"@);
    assert(brand == 0x6176_6973 <==> named =~= "avis"@);
}

} // verus!
