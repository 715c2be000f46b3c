//! Photographs: what is read from them, how they are turned, shrunk and encoded, and the colour
//! that stands for them.

use exif::{Context, In, Reader, Tag, Value};
use std::io::Cursor;
use vstd::prelude::*;
use crate::codes::{hex_of, hex_text};
use crate::json::{views, Duplicate};
use crate::model::{Place, PlaceV, Store, StoreV};
use crate::share::{picture_of, place_picture};
use crate::text::{chars_of, join2, opt_text, split, split_at_any, text_of};
use crate::tiff::{
    fb_exif_date, fb_exif_gps, fb_exif_orientation, from_utf8_lossy, is_heif, looks_like_heic,
    tiff_date, tiff_gps, tiff_orientation, utf8_lossy, year_month, year_month_of, Angle,
    GpsReading, Ratio, TAG_DATE_TIME, TAG_DATE_TIME_ORIGINAL, TAG_GPS_LATITUDE,
    TAG_GPS_LATITUDE_REF, TAG_GPS_LONGITUDE, TAG_GPS_LONGITUDE_REF, TAG_ORIENTATION,
};

verus! {

/// The directory that a field of Exif data stands in.
#[derive(Clone, Copy, Debug, PartialEq, Eq, Structural)]
pub enum Directory {
    Main,
    Exif,
    Gps,
}

/// The value of a field of Exif data.
#[derive(Debug, PartialEq, Eq)]
pub enum ExifValue {
    Ascii(Vec<Vec<u8>>),
    Rational(Vec<(u32, u32)>),
    Byte(Vec<u8>),
    Short(Vec<u16>),
    Long(Vec<u32>),
    /// Of any other type.
    Other,
}

/// What an [`ExifValue`] means.
pub enum ExifValueV {
    Ascii(Seq<Seq<u8>>),
    Rational(Seq<(u32, u32)>),
    Byte(Seq<u8>),
    Short(Seq<u16>),
    Long(Seq<u32>),
    Other,
}

impl View for ExifValue {
    type V = ExifValueV;

    open spec fn view(&self) -> ExifValueV {
        match self {
            ExifValue::Ascii(v) => ExifValueV::Ascii(views(v@)),
            ExifValue::Rational(v) => ExifValueV::Rational(v@),
            ExifValue::Byte(v) => ExifValueV::Byte(v@),
            ExifValue::Short(v) => ExifValueV::Short(v@),
            ExifValue::Long(v) => ExifValueV::Long(v@),
            ExifValue::Other => ExifValueV::Other,
        }
    }
}

/// An optional value, seen as what it means.
pub open spec fn opt_value(o: Option<ExifValue>) -> Option<ExifValueV> {
    match o {
        Some(v) => Some(v@),
        None => None,
    }
}

/// The field with this number in this directory of the Exif data of the main image in a file; none
/// if the file has no Exif data that can be read, or they have no such field.
pub uninterp spec fn exif_value(bytes: Seq<u8>, dir: Directory, number: u16) -> Option<ExifValueV>;

/// `Reader::read_from_container` and `Exif::get_field` of the `exif` crate (kamadak-exif): a field
/// of the main image's Exif data, as the file's bytes alone determine it.
#[verifier::external_body]
fn exif_field(bytes: &[u8], dir: Directory, number: u16) -> (r: Option<ExifValue>)
    ensures
        opt_value(r) == exif_value(bytes@, dir, number),
{
    let context = match dir {
        Directory::Main => Context::Tiff,
        Directory::Exif => Context::Exif,
        Directory::Gps => Context::Gps,
    };
    let ex = Reader::new().read_from_container(&mut Cursor::new(bytes)).ok()?;
    Some(match &ex.get_field(Tag(context, number), In::PRIMARY)?.value {
        Value::Ascii(v) => ExifValue::Ascii(v.clone()),
        Value::Rational(v) => ExifValue::Rational(v.iter().map(|r| (r.num, r.denom)).collect()),
        Value::Byte(v) => ExifValue::Byte(v.clone()),
        Value::Short(v) => ExifValue::Short(v.clone()),
        Value::Long(v) => ExifValue::Long(v.clone()),
        _ => ExifValue::Other,
    })
}

/// The angle of a field of at least three fractions.
pub open spec fn angle_value(v: Option<ExifValueV>) -> Option<Angle> {
    match v {
        Some(ExifValueV::Rational(s)) => if s.len() >= 3 {
            Some(
                Angle {
                    degrees: Ratio { num: s[0].0, den: s[0].1 },
                    minutes: Ratio { num: s[1].0, den: s[1].1 },
                    seconds: Ratio { num: s[2].0, den: s[2].1 },
                },
            )
        } else {
            None
        },
        _ => None,
    }
}

/// The angle of a field of at least three fractions.
pub fn angle_of_value(v: &Option<ExifValue>) -> (r: Option<Angle>)
    ensures
        r == angle_value(opt_value(*v)),
{
    match v {
        Some(ExifValue::Rational(s)) => if s.len() >= 3 {
            Some(
                Angle {
                    degrees: Ratio { num: s[0].0, den: s[0].1 },
                    minutes: Ratio { num: s[1].0, den: s[1].1 },
                    seconds: Ratio { num: s[2].0, den: s[2].1 },
                },
            )
        } else {
            None
        },
        _ => None,
    }
}

/// The first text of a field.
pub open spec fn first_ascii(v: Option<ExifValueV>) -> Option<Seq<u8>> {
    match v {
        Some(ExifValueV::Ascii(s)) => if s.len() > 0 {
            Some(s[0])
        } else {
            None
        },
        _ => None,
    }
}

/// Whether a field says that an angle counts to the south or to the west: its text begins with `S`
/// or `W`.
pub open spec fn negative_value(v: Option<ExifValueV>) -> bool {
    match first_ascii(v) {
        Some(s) => s.len() > 0 && (s[0] == 0x53 || s[0] == 0x57),
        None => false,
    }
}

/// Whether a field says that an angle counts to the south or to the west.
pub fn is_negative(v: &Option<ExifValue>) -> (r: bool)
    ensures
        r == negative_value(opt_value(*v)),
{
    match v {
        Some(ExifValue::Ascii(s)) => {
            if s.len() > 0 {
                assert(views(s@)[0] == s@[0]@);
                s[0].len() > 0 && (s[0][0] == 0x53 || s[0][0] == 0x57)
            } else {
                false
            }
        },
        _ => false,
    }
}

/// A position, and whether it is still to be seen if it lies on the globe.
#[derive(Clone, Copy, Debug, PartialEq, Eq, Structural)]
pub enum Position {
    /// Taken as it is.
    Stated(GpsReading),
    /// To be dropped if it is not within ±90 and ±180 degrees.
    Unchecked(GpsReading),
}

/// A position made of the four fields that tell it; none if an angle is missing.
pub open spec fn stated_position(
    lat: Option<ExifValueV>,
    lat_ref: Option<ExifValueV>,
    lng: Option<ExifValueV>,
    lng_ref: Option<ExifValueV>,
) -> Option<GpsReading> {
    match (angle_value(lat), angle_value(lng)) {
        (Some(a), Some(b)) => Some(
            GpsReading {
                lat: a,
                south: negative_value(lat_ref),
                lng: b,
                west: negative_value(lng_ref),
            },
        ),
        _ => None,
    }
}

/// A position made of the four fields that tell it.
pub fn position_of(
    lat: &Option<ExifValue>,
    lat_ref: &Option<ExifValue>,
    lng: &Option<ExifValue>,
    lng_ref: &Option<ExifValue>,
) -> (r: Option<GpsReading>)
    ensures
        r == stated_position(
            opt_value(*lat),
            opt_value(*lat_ref),
            opt_value(*lng),
            opt_value(*lng_ref),
        ),
{
    match (angle_of_value(lat), angle_of_value(lng)) {
        (Some(a), Some(b)) => Some(
            GpsReading { lat: a, south: is_negative(lat_ref), lng: b, west: is_negative(lng_ref) },
        ),
        _ => None,
    }
}

/// The position in a photograph's Exif data, or else in its TIFF directories.
pub open spec fn photo_position(b: Seq<u8>) -> Option<Position> {
    match stated_position(
        exif_value(b, Directory::Gps, TAG_GPS_LATITUDE),
        exif_value(b, Directory::Gps, TAG_GPS_LATITUDE_REF),
        exif_value(b, Directory::Gps, TAG_GPS_LONGITUDE),
        exif_value(b, Directory::Gps, TAG_GPS_LONGITUDE_REF),
    ) {
        Some(p) => Some(Position::Stated(p)),
        None => match tiff_gps(b) {
            Some(p) => Some(Position::Unchecked(p)),
            None => None,
        },
    }
}

/// Where a photograph was taken, if it says so.
pub fn exif_gps(bytes: &[u8]) -> (r: Option<Position>)
    ensures
        r == photo_position(bytes@),
        match (exif_value(bytes@, Directory::Gps, 0x0002), exif_value(bytes@, Directory::Gps, 0x0004)) {
            (Some(ExifValueV::Rational(lat)), Some(ExifValueV::Rational(lng))) => lat.len() >= 3
                && lng.len() >= 3 ==> {
                &&& r matches Some(Position::Stated(g))
                &&& (g.lat.degrees.num, g.lat.degrees.den) == lat[0]
                &&& (g.lat.minutes.num, g.lat.minutes.den) == lat[1]
                &&& (g.lat.seconds.num, g.lat.seconds.den) == lat[2]
                &&& (g.lng.degrees.num, g.lng.degrees.den) == lng[0]
                &&& (g.lng.minutes.num, g.lng.minutes.den) == lng[1]
                &&& (g.lng.seconds.num, g.lng.seconds.den) == lng[2]
                &&& match exif_value(bytes@, Directory::Gps, 0x0001) {
                    Some(ExifValueV::Ascii(t)) => t.len() > 0 && t[0].len() > 0 ==> {
                        &&& t[0][0] as char == 'S' ==> g.south
                        &&& t[0][0] as char == 'N' ==> !g.south
                    },
                    _ => !g.south,
                }
                &&& match exif_value(bytes@, Directory::Gps, 0x0003) {
                    Some(ExifValueV::Ascii(t)) => t.len() > 0 && t[0].len() > 0 ==> {
                        &&& t[0][0] as char == 'W' ==> g.west
                        &&& t[0][0] as char == 'E' ==> !g.west
                    },
                    _ => !g.west,
                }
            },
            _ => match tiff_gps(bytes@) {
                Some(g) => r == Some(Position::Unchecked(g)),
                None => r is None,
            },
        },
{
    let lat = exif_field(bytes, Directory::Gps, TAG_GPS_LATITUDE);
    let lat_ref = exif_field(bytes, Directory::Gps, TAG_GPS_LATITUDE_REF);
    let lng = exif_field(bytes, Directory::Gps, TAG_GPS_LONGITUDE);
    let lng_ref = exif_field(bytes, Directory::Gps, TAG_GPS_LONGITUDE_REF);
    match position_of(&lat, &lat_ref, &lng, &lng_ref) {
        Some(p) => Some(Position::Stated(p)),
        None => match fb_exif_gps(bytes) {
            Some(p) => Some(Position::Unchecked(p)),
            None => None,
        },
    }
}

/// The month that a field's text tells.
pub open spec fn month_value(v: Option<ExifValueV>) -> Option<Seq<char>> {
    match first_ascii(v) {
        Some(s) => year_month_of(utf8_lossy(s)),
        None => None,
    }
}

/// The month that a field's text tells.
fn month_of_value(v: &Option<ExifValue>) -> (r: Option<String>)
    ensures
        opt_text(r) == month_value(opt_value(*v)),
{
    match v {
        Some(ExifValue::Ascii(s)) => {
            if s.len() > 0 {
                assert(views(s@)[0] == s@[0]@);
                let t = from_utf8_lossy(s[0].as_slice());
                year_month(t.as_str())
            } else {
                None
            }
        },
        _ => None,
    }
}

/// The month in a photograph's Exif data, or else in its TIFF directories. The moment the
/// photograph was taken counts before the moment the file was changed.
pub open spec fn photo_month(b: Seq<u8>) -> Option<Seq<char>> {
    let taken = exif_value(b, Directory::Exif, TAG_DATE_TIME_ORIGINAL);
    let found = if taken is Some {
        taken
    } else {
        exif_value(b, Directory::Main, TAG_DATE_TIME)
    };
    match month_value(found) {
        Some(m) => Some(m),
        None => tiff_date(b),
    }
}

/// The month in which a photograph was taken, if it says so. The day is never kept.
pub fn exif_date(bytes: &[u8]) -> (r: Option<String>)
    ensures
        opt_text(r) == photo_month(bytes@),
{
    let taken = exif_field(bytes, Directory::Exif, TAG_DATE_TIME_ORIGINAL);
    let found: Option<ExifValue> = if taken.is_some() {
        taken
    } else {
        exif_field(bytes, Directory::Main, TAG_DATE_TIME)
    };
    match month_of_value(&found) {
        Some(m) => Some(m),
        None => fb_exif_date(bytes),
    }
}

/// Of the date of a photograph only the year and the month are read: whatever the file says, there
/// is no third part.
pub proof fn law_no_day_is_read(b: Seq<u8>)
    ensures
        photo_month(b) matches Some(m) ==> split_at_any(m, seq!['.']).len() <= 2,
{
    let taken = exif_value(b, Directory::Exif, TAG_DATE_TIME_ORIGINAL);
    let found = if taken is Some {
        taken
    } else {
        exif_value(b, Directory::Main, TAG_DATE_TIME)
    };
    if first_ascii(found) is Some {
        lemma_two_parts(utf8_lossy(first_ascii(found)->0));
    }
    if crate::tiff::tiff_time_stamp(b) is Some {
        lemma_two_parts(crate::tiff::tiff_time_stamp(b)->0);
    }
}

/// A month has at most two parts.
proof fn lemma_two_parts(s: Seq<char>)
    ensures
        year_month_of(s) matches Some(m) ==> split_at_any(m, seq!['.']).len() <= 2,
{
    let seps = seq!['.'];
    let dotted = crate::tiff::dotted_date(s);
    let parts = split_at_any(dotted, seps);
    crate::text::lemma_split_nonempty(dotted, seps);
    assert forall|k: int| 0 <= k < parts[0].len() implies !seps.contains(parts[0][k]) by {
        crate::names::lemma_pieces_are_clean(dotted, seps, 0, k);
    }
    if parts.len() >= 2 {
        assert forall|k: int| 0 <= k < parts[1].len() implies !seps.contains(parts[1][k]) by {
            crate::names::lemma_pieces_are_clean(dotted, seps, 1, k);
        }
        assert(seps[0] == '.');
        crate::names::lemma_two_pieces(parts[0], '.', parts[1], seps);
    } else {
        crate::text::lemma_single_piece(parts[0], seps);
    }
}

/// The first number of a field of non-negative integers.
pub open spec fn first_uint(v: Option<ExifValueV>) -> Option<u32> {
    match v {
        Some(ExifValueV::Byte(s)) => if s.len() > 0 {
            Some(s[0] as u32)
        } else {
            None
        },
        Some(ExifValueV::Short(s)) => if s.len() > 0 {
            Some(s[0] as u32)
        } else {
            None
        },
        Some(ExifValueV::Long(s)) => if s.len() > 0 {
            Some(s[0])
        } else {
            None
        },
        _ => None,
    }
}

/// The first number of a field of non-negative integers.
pub fn uint_of_value(v: &Option<ExifValue>) -> (r: Option<u32>)
    ensures
        r == first_uint(opt_value(*v)),
{
    match v {
        Some(ExifValue::Byte(s)) => if s.len() > 0 {
            Some(s[0] as u32)
        } else {
            None
        },
        Some(ExifValue::Short(s)) => if s.len() > 0 {
            Some(s[0] as u32)
        } else {
            None
        },
        Some(ExifValue::Long(s)) => if s.len() > 0 {
            Some(s[0])
        } else {
            None
        },
        _ => None,
    }
}

/// The orientation in a photograph's Exif data, or else in its TIFF directories; upright if
/// neither says. Of a number of more than 16 bits the low ones count.
pub open spec fn photo_orientation(b: Seq<u8>) -> u16 {
    match first_uint(exif_value(b, Directory::Main, TAG_ORIENTATION)) {
        Some(n) => (n % 0x1_0000) as u16,
        None => match tiff_orientation(b) {
            Some(n) => n,
            None => 1,
        },
    }
}

/// How a photograph is to be turned.
pub fn exif_orientation(bytes: &[u8]) -> (r: u16)
    ensures
        r == photo_orientation(bytes@),
{
    match uint_of_value(&exif_field(bytes, Directory::Main, TAG_ORIENTATION)) {
        Some(n) => (n % 0x1_0000) as u16,
        None => match fb_exif_orientation(bytes) {
            Some(n) => n,
            None => 1,
        },
    }
}

/// A picture of the `image` crate, in whatever form it was decoded to.
#[verifier::external_type_specification]
#[verifier::external_body]
pub struct ExDynamicImage(image::DynamicImage);

/// Whether the bytes of a file may be decoded to this picture, or to none.
pub uninterp spec fn may_load(bytes: Seq<u8>, r: Option<image::DynamicImage>) -> bool;

/// `image::load_from_memory`: a picture decoded from the bytes of a file, or none if they are no
/// picture of a known format. Decoders may round differently on different machines, so all that
/// is said is that the picture is one that these bytes may give.
#[verifier::external_body]
fn load(bytes: &[u8]) -> (r: Option<image::DynamicImage>)
    ensures
        may_load(bytes@, r),
{
    image::load_from_memory(bytes).ok()
}

/// A picture of three bytes for each pixel, row by row.
pub struct Rgb {
    pub width: u32,
    pub height: u32,
    pub bytes: Vec<u8>,
}

/// What a [`Rgb`] means.
#[verifier::ext_equal]
pub struct RgbV {
    pub width: u32,
    pub height: u32,
    pub bytes: Seq<u8>,
}

impl View for Rgb {
    type V = RgbV;

    open spec fn view(&self) -> RgbV {
        RgbV { width: self.width, height: self.height, bytes: self.bytes@ }
    }
}

/// A picture with its colours in red, green and blue of eight bits.
pub uninterp spec fn rgb_of(img: image::DynamicImage) -> RgbV;

/// The colour of a pixel.
pub open spec fn pixel(p: RgbV, x: int, y: int) -> (u8, u8, u8) {
    let k = 3 * (y * p.width + x);
    (p.bytes[k], p.bytes[k + 1], p.bytes[k + 2])
}

/// Whether `b` is `a` turned by a quarter, clockwise: pixel by pixel.
pub open spec fn by_quarter(a: RgbV, b: RgbV) -> bool {
    &&& b.width == a.height && b.height == a.width
    &&& forall|x: int, y: int|
        0 <= x < a.width && 0 <= y < a.height ==> pixel(b, a.height - 1 - y, x) == #[trigger] pixel(
            a,
            x,
            y,
        )
}

/// Whether `b` is `a` turned upside down: pixel by pixel.
pub open spec fn by_half(a: RgbV, b: RgbV) -> bool {
    &&& b.width == a.width && b.height == a.height
    &&& forall|x: int, y: int|
        0 <= x < a.width && 0 <= y < a.height ==> pixel(b, a.width - 1 - x, a.height - 1 - y)
            == #[trigger] pixel(a, x, y)
}

/// Whether `b` is `a` turned by three quarters, clockwise: pixel by pixel.
pub open spec fn by_three_quarters(a: RgbV, b: RgbV) -> bool {
    &&& b.width == a.height && b.height == a.width
    &&& forall|x: int, y: int|
        0 <= x < a.width && 0 <= y < a.height ==> pixel(b, y, a.width - 1 - x) == #[trigger] pixel(
            a,
            x,
            y,
        )
}

/// `DynamicImage::to_rgb8`: the picture in red, green and blue, three bytes for each pixel.
#[verifier::external_body]
fn to_rgb(img: &image::DynamicImage) -> (r: Rgb)
    ensures
        r@ == rgb_of(*img),
        r@.bytes.len() == 3 * r@.width * r@.height,
{
    let rgb = img.to_rgb8();
    Rgb {
        width: rgb.width(),
        height: rgb.height(),
        bytes: rgb.pixels().flat_map(|p| p.0).collect(),
    }
}

/// A picture turned by a quarter, clockwise.
pub uninterp spec fn quarter_turned(img: image::DynamicImage) -> image::DynamicImage;

/// A picture turned upside down.
pub uninterp spec fn half_turned(img: image::DynamicImage) -> image::DynamicImage;

/// A picture turned by three quarters, clockwise.
pub uninterp spec fn back_turned(img: image::DynamicImage) -> image::DynamicImage;

/// `DynamicImage::rotate90`: the picture turned by a quarter, clockwise.
#[verifier::external_body]
fn rotate90(img: &image::DynamicImage) -> (r: image::DynamicImage)
    ensures
        r == quarter_turned(*img),
        by_quarter(rgb_of(*img), rgb_of(r)),
{
    img.rotate90()
}

/// `DynamicImage::rotate180`: the picture turned upside down.
#[verifier::external_body]
fn rotate180(img: &image::DynamicImage) -> (r: image::DynamicImage)
    ensures
        r == half_turned(*img),
        by_half(rgb_of(*img), rgb_of(r)),
{
    img.rotate180()
}

/// `DynamicImage::rotate270`: the picture turned by three quarters, clockwise.
#[verifier::external_body]
fn rotate270(img: &image::DynamicImage) -> (r: image::DynamicImage)
    ensures
        r == back_turned(*img),
        by_three_quarters(rgb_of(*img), rgb_of(r)),
{
    img.rotate270()
}

/// A picture set upright, given the orientation that its file tells.
pub open spec fn upright(img: image::DynamicImage, orient: u16) -> image::DynamicImage {
    if orient == 3 {
        half_turned(img)
    } else if orient == 6 {
        quarter_turned(img)
    } else if orient == 8 {
        back_turned(img)
    } else {
        img
    }
}

/// Sets a picture upright.
pub fn set_upright(img: image::DynamicImage, orient: u16) -> (r: image::DynamicImage)
    ensures
        r == upright(img, orient),
        if orient == 3 {
            by_half(rgb_of(img), rgb_of(r))
        } else if orient == 6 {
            by_quarter(rgb_of(img), rgb_of(r))
        } else if orient == 8 {
            by_three_quarters(rgb_of(img), rgb_of(r))
        } else {
            r == img
        },
{
    if orient == 3 {
        rotate180(&img)
    } else if orient == 6 {
        rotate90(&img)
    } else if orient == 8 {
        rotate270(&img)
    } else {
        img
    }
}

/// Whether a photograph may be decoded to this picture, or to none. A HEIF file is decoded from
/// what it was converted to, which stands upright already.
pub open spec fn may_decode(
    bytes: Seq<u8>,
    converted: Option<Seq<u8>>,
    orient: u16,
    r: Option<image::DynamicImage>,
) -> bool {
    if is_heif(bytes) {
        match converted {
            Some(c) => may_load(c, r),
            None => r is None,
        }
    } else {
        match r {
            Some(img) => exists|raw: image::DynamicImage| #[trigger]
                may_load(bytes, Some(raw)) && img == upright(raw, orient),
            None => may_load(bytes, None),
        }
    }
}

/// The bytes of an optional vector.
pub open spec fn opt_bytes(o: Option<Vec<u8>>) -> Option<Seq<u8>> {
    match o {
        Some(v) => Some(v@),
        None => None,
    }
}

/// Decodes a photograph and sets it upright. `converted` is what a HEIF file was converted to;
/// none if it could not be.
pub fn decode_oriented(bytes: &[u8], converted: &Option<Vec<u8>>, orient: u16) -> (r: Option<
    image::DynamicImage,
>)
    ensures
        may_decode(bytes@, opt_bytes(*converted), orient, r),
{
    if looks_like_heic(bytes) {
        match converted {
            Some(c) => load(c.as_slice()),
            None => None,
        }
    } else {
        match load(bytes) {
            Some(raw) => Some(set_upright(raw, orient)),
            None => None,
        }
    }
}

/// How a picture is resampled.
#[derive(Clone, Copy, Debug, PartialEq, Eq, Structural)]
pub enum Filter {
    Triangle,
    Lanczos3,
}

/// Whether a picture may become this one when it is fitted into `side` by `side` pixels.
pub uninterp spec fn may_fit(
    img: image::DynamicImage,
    side: u32,
    filter: Filter,
    r: image::DynamicImage,
) -> bool;

/// Whether a picture of one size becomes one of the other when it is fitted into `side` by `side`
/// pixels: the longer side becomes as long as asked for, and the other one so long that, but for
/// less than a pixel, the proportions are kept. No side becomes empty.
pub open spec fn fitted(a: RgbV, side: u32, b: RgbV) -> bool {
    let (w, h) = (a.width as int, a.height as int);
    &&& 1 <= b.width <= side && 1 <= b.height <= side
    &&& 1 <= h <= w ==> b.width == side && -w < side * h - b.height * w < w
    &&& 1 <= w <= h ==> b.height == side && -h < side * w - b.width * h < h
}

/// `DynamicImage::resize` to a square: the picture as large as fits, its proportions kept. The
/// resampling is done in floating point, with a sine, so the pixels may differ between machines;
/// all that is said of them is that this picture may give them.
#[verifier::external_body]
fn fit(img: &image::DynamicImage, side: u32, filter: Filter) -> (r: image::DynamicImage)
    ensures
        may_fit(*img, side, filter, r),
        side >= 1 ==> fitted(rgb_of(*img), side, rgb_of(r)),
{
    let filter = match filter {
        Filter::Triangle => image::imageops::FilterType::Triangle,
        Filter::Lanczos3 => image::imageops::FilterType::Lanczos3,
    };
    img.resize(side, side, filter)
}

/// A picture encoded as JPEG with the given quality.
pub uninterp spec fn jpeg(picture: RgbV, quality: u8) -> Seq<u8>;

/// `JpegEncoder::encode` with `new_with_quality`: the picture as JPEG. It fails where a side is
/// empty or longer than 65535 pixels, and panics where the bytes are too few or too many.
#[verifier::external_body]
fn to_jpeg(picture: &Rgb, quality: u8) -> (r: Option<Vec<u8>>)
    requires
        picture@.bytes.len() == 3 * picture@.width * picture@.height,
    ensures
        opt_bytes(r) == (if 1 <= picture@.width <= 0xffff && 1 <= picture@.height <= 0xffff {
            Some(jpeg(picture@, quality))
        } else {
            None
        }),
{
    let mut out = Vec::new();
    image::codecs::jpeg::JpegEncoder::new_with_quality(&mut out, quality)
        .encode(&picture.bytes, picture.width, picture.height, image::ExtendedColorType::Rgb8)
        .ok()?;
    Some(out)
}

/// Whether a picture, fitted into `max` by `max` pixels, may be encoded to these bytes.
pub open spec fn may_encode(img: image::DynamicImage, max: u32, quality: u8, r: Seq<u8>) -> bool {
    exists|small: image::DynamicImage| #[trigger]
        may_fit(img, max, Filter::Lanczos3, small) && (max >= 1 ==> fitted(
            rgb_of(img),
            max,
            rgb_of(small),
        )) && r == jpeg(rgb_of(small), quality)
}

/// A picture fitted into `max` by `max` pixels, as JPEG. That never fails where `max` is a size
/// that the format knows.
pub fn encode_jpeg(img: &image::DynamicImage, max: u32, quality: u8) -> (r: Option<Vec<u8>>)
    ensures
        match r {
            Some(out) => may_encode(*img, max, quality, out@),
            None => max == 0 || max > 0xffff,
        },
{
    let small = fit(img, max, Filter::Lanczos3);
    to_jpeg(&to_rgb(&small), quality)
}

/// A photograph decoded, set upright, fitted into `max` by `max` pixels and encoded as JPEG.
pub fn process_image(
    bytes: &[u8],
    converted: &Option<Vec<u8>>,
    max: u32,
    quality: u8,
    orient: u16,
) -> (r: Option<Vec<u8>>)
    ensures
        match r {
            Some(out) => exists|img: image::DynamicImage| #[trigger]
                may_decode(bytes@, opt_bytes(*converted), orient, Some(img)) && may_encode(
                    img,
                    max,
                    quality,
                    out@,
                ),
            None => may_decode(bytes@, opt_bytes(*converted), orient, None) || max == 0 || max
                > 0xffff,
        },
{
    match decode_oriented(bytes, converted, orient) {
        Some(img) => encode_jpeg(&img, max, quality),
        None => None,
    }
}

/// Whether the `k`-th pixel counts: one that is nearly black or nearly white does not.
pub open spec fn counts(b: Seq<u8>, k: int) -> bool {
    90 <= b[3 * k] + b[3 * k + 1] + b[3 * k + 2] <= 690
}

/// How many of the first `n` pixels count.
pub open spec fn counted(b: Seq<u8>, n: int) -> nat
    decreases n,
{
    if n <= 0 {
        0
    } else {
        counted(b, n - 1) + if counts(b, n - 1) {
            1nat
        } else {
            0
        }
    }
}

/// The sum of one channel over those of the first `n` pixels that count.
pub open spec fn channel_sum(b: Seq<u8>, n: int, channel: int) -> nat
    decreases n,
{
    if n <= 0 {
        0
    } else {
        channel_sum(b, n - 1, channel) + if counts(b, n - 1) {
            b[3 * (n - 1) + channel] as nat
        } else {
            0
        }
    }
}

/// A channel made a little brighter, but not white.
pub open spec fn brightened(v: nat) -> u8 {
    if v * 108 / 100 < 235 {
        (v * 108 / 100) as u8
    } else {
        235
    }
}

/// The mean of the pixels that count, made a little brighter, as `#rrggbb`.
pub open spec fn mean_color(b: Seq<u8>) -> Seq<char> {
    let n = (b.len() / 3) as int;
    "#"@ + hex_text(
        seq![
            brightened(channel_sum(b, n, 0) / counted(b, n)),
            brightened(channel_sum(b, n, 1) / counted(b, n)),
            brightened(channel_sum(b, n, 2) / counted(b, n)),
        ],
    )
}

/// The colour that stands for a picture: the mean of its pixels that are neither nearly black nor
/// nearly white; a warm grey if there are none such.
pub open spec fn main_color(b: Seq<u8>) -> Seq<char> {
    let n = (b.len() / 3) as int;
    if counted(b, n) > 0 {
        mean_color(b)
    } else {
        "#8a8172"@
    }
}

/// No channel adds up to more than the number of pixels allows.
proof fn lemma_mean_bound(b: Seq<u8>, n: int, channel: int)
    requires
        0 <= channel < 3,
    ensures
        channel_sum(b, n, channel) <= 255 * counted(b, n),
    decreases n,
{
    if n > 0 {
        lemma_mean_bound(b, n - 1, channel);
    }
}

/// A channel made a little brighter, but not white.
fn brighten(v: u8) -> (r: u8)
    ensures
        r == brightened(v as nat),
{
    let x: u32 = v as u32 * 108 / 100;
    if x < 235 {
        x as u8
    } else {
        235
    }
}

/// The mean of one channel.
fn mean(sum: u128, n: u128) -> (r: u8)
    requires
        n > 0,
        sum <= 255 * n,
    ensures
        r == sum as nat / n as nat,
{
    assert(sum / n <= 255) by (nonlinear_arith)
        requires
            n > 0,
            sum <= 255 * n,
    ;
    (sum / n) as u8
}

/// The mean of the pixels that count, as `#rrggbb`; none if no pixel counts.
fn mean_color_of(b: &Vec<u8>) -> (r: Option<String>)
    ensures
        match r {
            Some(s) => counted(b@, (b@.len() / 3) as int) > 0 && s@ == mean_color(b@),
            None => counted(b@, (b@.len() / 3) as int) == 0,
        },
{
    let pixels: usize = b.len() / 3;
    let (mut sr, mut sg, mut sb): (u128, u128, u128) = (0, 0, 0);
    let mut n: u128 = 0;
    let mut k: usize = 0;
    while k < pixels
        invariant
            k <= pixels,
            pixels == b@.len() / 3,
            n == counted(b@, k as int),
            n <= k,
            sr == channel_sum(b@, k as int, 0),
            sg == channel_sum(b@, k as int, 1),
            sb == channel_sum(b@, k as int, 2),
            sr <= 255 * k,
            sg <= 255 * k,
            sb <= 255 * k,
        decreases pixels - k,
    {
        assert(3 * k + 2 < b.len());
        let (pr, pg, pb): (u8, u8, u8) = (b[3 * k], b[3 * k + 1], b[3 * k + 2]);
        let sum: u32 = pr as u32 + pg as u32 + pb as u32;
        if 90 <= sum && sum <= 690 {
            sr = sr + pr as u128;
            sg = sg + pg as u128;
            sb = sb + pb as u128;
            n = n + 1;
        }
        k = k + 1;
    }
    if n == 0 {
        return None;
    }
    proof {
        lemma_mean_bound(b@, k as int, 0);
        lemma_mean_bound(b@, k as int, 1);
        lemma_mean_bound(b@, k as int, 2);
    }
    let v: Vec<u8> = vec![brighten(mean(sr, n)), brighten(mean(sg, n)), brighten(mean(sb, n))];
    assert(v@ =~= seq![
        brightened(sr as nat / n as nat),
        brightened(sg as nat / n as nat),
        brightened(sb as nat / n as nat),
    ]);
    Some(join2("#", hex_of(v.as_slice()).as_str()))
}

/// The colour that stands for a picture, given three bytes for each of its pixels.
pub fn color_of_pixels(b: &Vec<u8>) -> (r: String)
    ensures
        r@ == main_color(b@),
{
    match mean_color_of(b) {
        Some(s) => s,
        None => "#8a8172".to_owned(),
    }
}

/// A colour is written as `#` and six digits, whatever the picture.
pub proof fn law_colors_have_six_digits(b: Seq<u8>)
    ensures
        main_color(b).len() == 7,
        main_color(b)[0] == '#',
{
    reveal_strlit("#");
    reveal_strlit("#8a8172");
}

/// A picture that is nearly black or nearly white all over, or has no pixel at all, has the warm
/// grey for its colour.
pub proof fn law_colorless_pictures_are_grey(b: Seq<u8>)
    requires
        forall|k: int| 0 <= k < b.len() / 3 ==> !#[trigger] counts(b, k),
    ensures
        main_color(b) == "#8a8172"@,
{
    lemma_none_counted(b, (b.len() / 3) as int);
}

/// Where no pixel counts, none is counted.
proof fn lemma_none_counted(b: Seq<u8>, n: int)
    requires
        n <= b.len() / 3,
        forall|k: int| 0 <= k < b.len() / 3 ==> !#[trigger] counts(b, k),
    ensures
        counted(b, n) == 0,
    decreases n,
{
    if n > 0 {
        lemma_none_counted(b, n - 1);
        assert(!counts(b, n - 1));
    }
}

/// Whether this colour may stand for a picture: that of the picture fitted into 40 by 40 pixels.
pub open spec fn may_color(img: image::DynamicImage, r: Seq<char>) -> bool {
    exists|small: image::DynamicImage| #[trigger]
        may_fit(img, 40, Filter::Triangle, small) && fitted(rgb_of(img), 40, rgb_of(small)) && r
            == main_color(rgb_of(small).bytes)
}

/// The colour that stands for a picture.
pub fn dominant_color_of(img: &image::DynamicImage) -> (r: String)
    ensures
        may_color(*img, r@),
{
    let small = fit(img, 40, Filter::Triangle);
    color_of_pixels(&to_rgb(&small).bytes)
}

/// What is kept of an uploaded photograph.
pub struct Developed {
    pub main: Vec<u8>,
    pub thumb: Vec<u8>,
    pub color: String,
}

/// Makes of an uploaded photograph what is kept of it: the picture in two sizes, and its colour.
/// None if it cannot be decoded.
pub fn develop(bytes: &[u8], converted: &Option<Vec<u8>>, orient: u16) -> (r: Option<Developed>)
    ensures
        match r {
            Some(d) => exists|img: image::DynamicImage| #[trigger]
                may_decode(bytes@, opt_bytes(*converted), orient, Some(img)) && may_encode(
                    img,
                    1600,
                    82,
                    d.main@,
                ) && may_encode(img, 600, 72, d.thumb@) && may_color(img, d.color@),
            None => may_decode(bytes@, opt_bytes(*converted), orient, None),
        },
{
    let img = match decode_oriented(bytes, converted, orient) {
        Some(img) => img,
        None => return None,
    };
    let color = dominant_color_of(&img);
    match (encode_jpeg(&img, 1600, 82), encode_jpeg(&img, 600, 72)) {
        (Some(main), Some(thumb)) => Some(Developed { main, thumb, color }),
        _ => None,
    }
}

/// What the owner is told of a photograph that cannot be decoded.
pub fn undecodable_hint(bytes: &[u8]) -> (r: &'static str)
    ensures
        r@ == if is_heif(bytes@) {
            "这张 HEIC 照片无法解码（可能已损坏或为特殊子格式），请换一张或导出为 JPG 再传"@
        } else {
            "无法识别的图片格式，请改用 JPG/PNG"@
        },
{
    if looks_like_heic(bytes) {
        "这张 HEIC 照片无法解码（可能已损坏或为特殊子格式），请换一张或导出为 JPG 再传"
    } else {
        "无法识别的图片格式，请改用 JPG/PNG"
    }
}

/// The file from which the colour of a place is to be computed; none if it has a colour, or no
/// picture.
pub open spec fn color_source(p: PlaceV) -> Option<Seq<char>> {
    if p.color is Some {
        None
    } else {
        match picture_of(p) {
            Some(u) => Some(split_at_any(u, seq!['/']).last()),
            None => None,
        }
    }
}

/// The name of the file from which the colour of a place is to be computed.
pub fn color_file(p: &Place) -> (r: Option<String>)
    ensures
        opt_text(r) == color_source(p@),
{
    if p.color.is_some() {
        return None;
    }
    match place_picture(p) {
        Some(u) => {
            let seps: Vec<char> = vec!['/'];
            assert(seps@ =~= seq!['/']);
            let parts = split(&chars_of(u.as_str()), &seps);
            assert(crate::text::pieces(parts@).last() == parts@.last()@);
            Some(text_of(&parts[parts.len() - 1]))
        },
        None => None,
    }
}

/// Gives the `i`-th place the colour of the picture in a file. Whether there is such a picture;
/// if not, the store is as before.
pub fn fill_color(store: &mut Store, i: usize, bytes: &[u8]) -> (r: bool)
    requires
        i < old(store)@.places.len(),
    ensures
        r ==> exists|img: image::DynamicImage, color: Seq<char>|
            #![trigger may_load(bytes@, Some(img)), may_color(img, color)]
            may_load(bytes@, Some(img)) && may_color(img, color) && final(store)@ == (StoreV {
                places: old(store)@.places.update(
                    i as int,
                    PlaceV { color: Some(color), ..old(store)@.places[i as int] },
                ),
                ..old(store)@
            }),
        !r ==> may_load(bytes@, None) && final(store)@ == old(store)@,
{
    let img = match load(bytes) {
        Some(img) => img,
        None => return false,
    };
    let color = dominant_color_of(&img);
    let ghost before = store@;
    let ghost shade = color@;
    assert(before.places[i as int] == store.places@[i as int]@);
    let mut p = store.places[i].copy();
    p.color = Some(color);
    let ghost meaning = p@;
    assert(meaning =~= PlaceV { color: Some(shade), ..before.places[i as int] });
    store.places.set(i, p);
    assert(views(store.places@) =~= before.places.update(i as int, meaning));
    assert(store@ =~= StoreV { places: before.places.update(i as int, meaning), ..before });
    assert(may_load(bytes@, Some(img)) && may_color(img, shade));
    true
}

/// The position of a photograph is that of its fields, fraction by fraction, and the letters of the
/// two references tell on which side of the equator and of the first meridian it lies: `S` and `W`
/// count as negative, `N` and `E` do not, nor does a missing letter. Only a file without both
/// angles is looked through a second time.
pub proof fn law_letters_tell_the_side(b: Seq<u8>)
    ensures
        match (exif_value(b, Directory::Gps, 0x0002), exif_value(b, Directory::Gps, 0x0004)) {
            (Some(ExifValueV::Rational(lat)), Some(ExifValueV::Rational(lng))) => lat.len() >= 3
                && lng.len() >= 3 ==> {
                &&& photo_position(b) matches Some(Position::Stated(g))
                &&& (g.lat.degrees.num, g.lat.degrees.den) == lat[0]
                &&& (g.lat.minutes.num, g.lat.minutes.den) == lat[1]
                &&& (g.lat.seconds.num, g.lat.seconds.den) == lat[2]
                &&& (g.lng.degrees.num, g.lng.degrees.den) == lng[0]
                &&& (g.lng.minutes.num, g.lng.minutes.den) == lng[1]
                &&& (g.lng.seconds.num, g.lng.seconds.den) == lng[2]
                &&& match exif_value(b, Directory::Gps, 0x0001) {
                    Some(ExifValueV::Ascii(t)) => t.len() > 0 && t[0].len() > 0 ==> {
                        &&& t[0][0] as char == 'S' ==> g.south
                        &&& t[0][0] as char == 'N' ==> !g.south
                    },
                    _ => !g.south,
                }
                &&& match exif_value(b, Directory::Gps, 0x0003) {
                    Some(ExifValueV::Ascii(t)) => t.len() > 0 && t[0].len() > 0 ==> {
                        &&& t[0][0] as char == 'W' ==> g.west
                        &&& t[0][0] as char == 'E' ==> !g.west
                    },
                    _ => !g.west,
                }
            },
            _ => match tiff_gps(b) {
                Some(g) => photo_position(b) == Some(Position::Unchecked(g)),
                None => photo_position(b) is None,
            },
        },
{
}

/// A time stamp of a year, a month and more, whichever colons and dots are between them, gives the
/// year and the month.
pub proof fn law_the_month_of_a_stamp(y: Seq<char>, m: Seq<char>, d: Seq<char>, rest: Seq<char>)
    requires
        forall|i: int| 0 <= i < y.len() ==> y[i] != ' ' && y[i] != '.' && y[i] != ':',
        forall|i: int| 0 <= i < m.len() ==> m[i] != ' ' && m[i] != '.' && m[i] != ':',
        forall|i: int| 0 <= i < d.len() ==> d[i] != ' ',
    ensures
        ({
            let stamp = y + seq![':'] + (m + seq![':'] + d);
            let ym = y + seq!['.'] + m;
            &&& crate::text::byte_len(ym) >= 6 ==> {
                &&& year_month_of(stamp) == Some(ym)
                &&& year_month_of(stamp + seq![' '] + rest) == Some(ym)
            }
            &&& crate::text::byte_len(ym) < 6 ==> year_month_of(stamp) is None
        }),
{
    let stamp = y + seq![':'] + (m + seq![':'] + d);
    let spaces = seq![' '];
    let dots = seq!['.'];
    let dot = |c: char|
        if c == ':' {
            '.'
        } else {
            c
        };
    assert(spaces[0] == ' ' && dots[0] == '.');
    assert forall|i: int| 0 <= i < stamp.len() implies !spaces.contains(#[trigger] stamp[i]) by {
        if i < y.len() {
            assert(stamp[i] == y[i]);
        } else if i > y.len() && i < y.len() + 1 + m.len() {
            assert(stamp[i] == m[i - y.len() - 1]);
        } else if i > y.len() + 1 + m.len() {
            assert(stamp[i] == d[i - y.len() - m.len() - 2]);
        }
    }
    crate::text::lemma_single_piece(stamp, spaces);
    crate::text::lemma_split_head(stamp, ' ', rest, spaces);
    let tail = m + seq!['.'] + d.map_values(dot);
    let dotted = y + seq!['.'] + tail;
    assert(stamp.map_values(dot) =~= dotted);
    assert(crate::tiff::dotted_date(stamp) =~= dotted);
    assert(crate::tiff::dotted_date(stamp + seq![' '] + rest) =~= dotted);
    crate::text::lemma_split_head(y, '.', tail, dots);
    crate::text::lemma_split_head(m, '.', d.map_values(dot), dots);
    let parts = split_at_any(dotted, dots);
    crate::text::lemma_split_nonempty(d.map_values(dot), dots);
    assert(parts[0] == y);
    assert(parts[1] == m);
}

/// The moment at which a photograph was taken counts before the moment at which its file was
/// changed, and both count before what a second look at the file finds.
pub proof fn law_the_moment_of_taking_counts(b: Seq<u8>, t: Seq<Seq<u8>>)
    requires
        t.len() > 0,
        year_month_of(utf8_lossy(t[0])) is Some,
    ensures
        exif_value(b, Directory::Exif, 0x9003) == Some(ExifValueV::Ascii(t)) ==> photo_month(b)
            == year_month_of(utf8_lossy(t[0])),
        exif_value(b, Directory::Exif, 0x9003) is None && exif_value(b, Directory::Main, 0x0132)
            == Some(ExifValueV::Ascii(t)) ==> photo_month(b) == year_month_of(utf8_lossy(t[0])),
        exif_value(b, Directory::Exif, 0x9003) is None && exif_value(
            b,
            Directory::Main,
            0x0132,
        ) is None ==> photo_month(b) == tiff_date(b),
{
}

/// The orientation is the number in the file, of whichever width it is; a file that says nothing is
/// upright.
pub proof fn law_the_orientation_is_the_number(b: Seq<u8>)
    ensures
        match exif_value(b, Directory::Main, 0x0112) {
            Some(ExifValueV::Short(n)) => n.len() > 0 ==> photo_orientation(b) == n[0],
            Some(ExifValueV::Byte(n)) => n.len() > 0 ==> photo_orientation(b) == n[0],
            Some(ExifValueV::Long(n)) => n.len() > 0 ==> photo_orientation(b) == n[0] % 0x1_0000,
            _ => match tiff_orientation(b) {
                Some(n) => photo_orientation(b) == n,
                None => photo_orientation(b) == 1,
            },
        },
{
}

/// The colour of a picture is the mean of its pixels, eight hundredths brighter and at most 235:
/// for one that has `m` pixels of one colour and `n` of another, it is worked out here.
pub proof fn law_the_color_is_the_mean(b: Seq<u8>, m: int, n: int, x: Seq<u8>, y: Seq<u8>)
    requires
        m >= 0,
        n >= 0,
        m + n > 0,
        b.len() == 3 * (m + n),
        x.len() == 3,
        y.len() == 3,
        90 <= x[0] + x[1] + x[2] <= 690,
        90 <= y[0] + y[1] + y[2] <= 690,
        forall|k: int|
            0 <= k < m + n ==> (#[trigger] b[3 * k], b[3 * k + 1], b[3 * k + 2]) == (if k < m {
                (x[0], x[1], x[2])
            } else {
                (y[0], y[1], y[2])
            }),
    ensures
        main_color(b) == "#"@ + hex_text(
            Seq::new(
                3,
                |c: int|
                    {
                        let mean = (m * x[c] + n * y[c]) / (m + n);
                        if mean * 108 / 100 < 235 {
                            (mean * 108 / 100) as u8
                        } else {
                            235
                        }
                    },
            ),
        ),
{
    let all = m + n;
    lemma_two_colors(b, m, n, x, y, all, 0);
    lemma_two_colors(b, m, n, x, y, all, 1);
    lemma_two_colors(b, m, n, x, y, all, 2);
    assert(b.len() / 3 == all);
    let bytes = seq![
        brightened(channel_sum(b, all, 0) / counted(b, all)),
        brightened(channel_sum(b, all, 1) / counted(b, all)),
        brightened(channel_sum(b, all, 2) / counted(b, all)),
    ];
    let told = Seq::new(
        3,
        |c: int|
            {
                let mean = (m * x[c] + n * y[c]) / (m + n);
                if mean * 108 / 100 < 235 {
                    (mean * 108 / 100) as u8
                } else {
                    235
                }
            },
    );
    assert forall|c: int| 0 <= c < 3 implies bytes[c] == #[trigger] told[c] by {
        let (xc, yc) = (x[c] as int, y[c] as int);
        assert(0 * yc == 0) by (nonlinear_arith);
        assert(channel_sum(b, all, c) == m * xc + n * yc);
        assert(channel_sum(b, all, c) as int / counted(b, all) as int == (m * xc + n * yc) / (m
            + n));
    }
    assert(bytes =~= told);
}

/// What the first pixels of a picture of two colours add up to.
proof fn lemma_two_colors(
    b: Seq<u8>,
    m: int,
    n: int,
    x: Seq<u8>,
    y: Seq<u8>,
    k: int,
    channel: int,
)
    requires
        m >= 0,
        n >= 0,
        0 <= k <= m + n,
        b.len() == 3 * (m + n),
        x.len() == 3,
        y.len() == 3,
        0 <= channel < 3,
        90 <= x[0] + x[1] + x[2] <= 690,
        90 <= y[0] + y[1] + y[2] <= 690,
        forall|k: int|
            0 <= k < m + n ==> (#[trigger] b[3 * k], b[3 * k + 1], b[3 * k + 2]) == (if k < m {
                (x[0], x[1], x[2])
            } else {
                (y[0], y[1], y[2])
            }),
    ensures
        counted(b, k) == k,
        channel_sum(b, k, channel) == if k <= m {
            k * x[channel]
        } else {
            m * x[channel] + (k - m) * y[channel]
        },
    decreases k,
{
    if k > 0 {
        lemma_two_colors(b, m, n, x, y, k - 1, channel);
        assert(0 <= k - 1 < m + n);
        let first = b[3 * (k - 1)];
        let (xc, yc) = (x[channel] as int, y[channel] as int);
        assert((k - 1) * xc + xc == k * xc) by (nonlinear_arith);
        assert((k - 1 - m) * yc + yc == (k - m) * yc) by (nonlinear_arith);
        assert((m - m) * yc == 0) by (nonlinear_arith);
    } else {
        assert(0 * (x[channel] as int) == 0);
    }
}

/// A pixel that is nearly black or nearly white does not touch the colour of a picture.
pub proof fn law_extreme_pixels_do_not_matter(b: Seq<u8>, x: u8, y: u8, z: u8)
    requires
        b.len() % 3 == 0,
        x + y + z < 90 || x + y + z > 690,
    ensures
        main_color(b + seq![x, y, z]) == main_color(b),
{
    let c = b + seq![x, y, z];
    let n = (b.len() / 3) as int;
    assert(c.len() / 3 == n + 1);
    assert(c[3 * n] == x && c[3 * n + 1] == y && c[3 * n + 2] == z);
    lemma_same_pixels(b, c, n, 0);
    lemma_same_pixels(b, c, n, 1);
    lemma_same_pixels(b, c, n, 2);
}

/// What pixels add up to depends on them alone.
proof fn lemma_same_pixels(b: Seq<u8>, c: Seq<u8>, n: int, channel: int)
    requires
        0 <= channel < 3,
        3 * n <= b.len() <= c.len(),
        forall|i: int| 0 <= i < b.len() ==> b[i] == c[i],
    ensures
        counted(b, n) == counted(c, n),
        channel_sum(b, n, channel) == channel_sum(c, n, channel),
    decreases n,
{
    if n > 0 {
        lemma_same_pixels(b, c, n - 1, channel);
    }
}

/// The colour of a place that has none is taken from the file of its picture: what stands behind
/// the last slash of the picture's address. One that has a colour keeps it.
pub proof fn law_the_source_of_a_color(p: PlaceV, dir: Seq<char>, file: Seq<char>)
    requires
        !file.contains('/'),
    ensures
        p.color is None && picture_of(p) == Some(dir + seq!['/'] + file) ==> color_source(p)
            == Some(file),
        p.color is Some || picture_of(p) is None ==> color_source(p) is None,
{
    let seps = seq!['/'];
    assert(seps[0] == '/');
    assert forall|k: int| 0 <= k < file.len() implies !seps.contains(#[trigger] file[k]) by {
        assert(file.contains(file[k]));
    }
    crate::text::lemma_last_piece(dir, '/', file, seps);
}

/// A HEIF file is shown as it was converted; any other is decoded itself and turned as its
/// orientation says: 3 upside down, 6 by a quarter, 8 by three quarters, and not at all otherwise.
pub proof fn law_how_photos_are_decoded(
    b: Seq<u8>,
    converted: Option<Seq<u8>>,
    orient: u16,
    img: image::DynamicImage,
)
    requires
        may_decode(b, converted, orient, Some(img)),
    ensures
        is_heif(b) ==> converted is Some && may_load(converted->0, Some(img)),
        !is_heif(b) && orient == 3 ==> exists|raw: image::DynamicImage| #[trigger]
            may_load(b, Some(raw)) && img == half_turned(raw),
        !is_heif(b) && orient == 6 ==> exists|raw: image::DynamicImage| #[trigger]
            may_load(b, Some(raw)) && img == quarter_turned(raw),
        !is_heif(b) && orient == 8 ==> exists|raw: image::DynamicImage| #[trigger]
            may_load(b, Some(raw)) && img == back_turned(raw),
        !is_heif(b) && orient != 3 && orient != 6 && orient != 8 ==> may_load(b, Some(img)),
{
}

/// A photograph that cannot be decoded gives no picture: a HEIF file that was not converted, or one
/// that is no picture.
pub proof fn law_what_cannot_be_decoded(b: Seq<u8>, converted: Option<Seq<u8>>, orient: u16)
    ensures
        is_heif(b) && converted is None ==> may_decode(b, converted, orient, None),
        is_heif(b) ==> (converted matches Some(c) ==> (may_decode(b, converted, orient, None)
            <==> may_load(c, None))),
        !is_heif(b) ==> (may_decode(b, converted, orient, None) <==> may_load(b, None)),
{
}

/// The colour of a picture is that of the picture fitted into 40 by 40 pixels.
pub proof fn law_the_color_is_that_of_the_small_picture(img: image::DynamicImage, r: Seq<char>)
    requires
        may_color(img, r),
    ensures
        exists|small: image::DynamicImage| #[trigger]
            may_fit(img, 40, Filter::Triangle, small) && rgb_of(small).width <= 40 && rgb_of(
                small,
            ).height <= 40 && r == main_color(rgb_of(small).bytes),
{
    let small = choose|small: image::DynamicImage| #[trigger]
        may_fit(img, 40, Filter::Triangle, small) && fitted(rgb_of(img), 40, rgb_of(small)) && r
            == main_color(rgb_of(small).bytes);
    assert(may_fit(img, 40, Filter::Triangle, small));
}

/// What is kept of a photograph is no larger than asked for, and keeps its proportions but for less
/// than a pixel.
pub proof fn law_pictures_are_fitted(img: image::DynamicImage, max: u32, quality: u8, r: Seq<u8>)
    requires
        may_encode(img, max, quality, r),
        max >= 1,
    ensures
        exists|small: image::DynamicImage| #[trigger]
            may_fit(img, max, Filter::Lanczos3, small) && rgb_of(small).width <= max && rgb_of(
                small,
            ).height <= max && r == jpeg(rgb_of(small), quality),
{
    let small = choose|small: image::DynamicImage| #[trigger]
        may_fit(img, max, Filter::Lanczos3, small) && (max >= 1 ==> fitted(
            rgb_of(img),
            max,
            rgb_of(small),
        )) && r == jpeg(rgb_of(small), quality);
    assert(may_fit(img, max, Filter::Lanczos3, small));
}

} // verus!
