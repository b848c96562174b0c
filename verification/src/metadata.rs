//! Metadata extraction: camera rating, GPS position, capture time and
//! orientation of a RAW file, from its structured tags and from XMP.
//!
//! Extraction never fails. A file without readable tags gives a result in
//! which every field is absent.

use crate::exif::{
    container_fields, find_field, find_numbered, numbered_field, read_exif, tagged_field,
    ExifField, ExifValue, Rational, TagContext, PRIMARY_IFD,
};
use crate::text::{chars_of, clamp_rating, clamp_stars, trim, trim_spec, utf8_lossy};
use crate::xmp::{embedded_rating, extract_xmp_rating_from_bytes, rating_view};
use vstd::prelude::*;

verus! {

/// Tag number of the rating, 0 to 5 stars.
pub const TAG_RATING: u16 = 0x4746;

/// Tag number of the rating as a percentage.
pub const TAG_RATING_PERCENT: u16 = 0x4749;

/// Tag number of the orientation of the image.
pub const TAG_ORIENTATION: u16 = 0x112;

/// Tag number of the date and time of the file.
pub const TAG_DATE_TIME: u16 = 0x132;

/// Tag number of the date and time at which the picture was taken.
pub const TAG_DATE_TIME_ORIGINAL: u16 = 0x9003;

/// Tag number of the latitude reference, `N` or `S`.
pub const TAG_GPS_LATITUDE_REF: u16 = 0x1;

/// Tag number of the latitude.
pub const TAG_GPS_LATITUDE: u16 = 0x2;

/// Tag number of the longitude reference, `E` or `W`.
pub const TAG_GPS_LONGITUDE_REF: u16 = 0x3;

/// Tag number of the longitude.
pub const TAG_GPS_LONGITUDE: u16 = 0x4;

// ---------------------------------------------------------------------------
// Types
// ---------------------------------------------------------------------------

impl Rational {
    /// Numerator of the number that the pair stands for.
    pub open spec fn numer(self) -> int {
        if self.denom == 0 {
            0
        } else {
            self.num as int
        }
    }

    /// Denominator of the number that the pair stands for; never zero.
    pub open spec fn denominator(self) -> int {
        if self.denom == 0 {
            1
        } else {
            self.denom as int
        }
    }
}

/// A latitude or longitude: degrees, minutes and seconds as the file gives
/// them, and whether the angle lies south of the equator or west of the
/// prime meridian.
///
/// In decimal degrees the angle is `degrees + minutes / 60 + seconds / 3600`,
/// negated when `negative` is set. `magnitude` gives that value exactly, as
/// a fraction of integers.
#[derive(Clone, Copy, Debug, PartialEq, Eq, Structural)]
pub struct GpsAngle {
    pub negative: bool,
    pub degrees: Rational,
    pub minutes: Rational,
    pub seconds: Rational,
}

impl GpsAngle {
    /// Numerator of `degrees + minutes / 60 + seconds / 3600` over
    /// `magnitude_denom`.
    pub open spec fn magnitude_numer(self) -> int {
        3600 * (self.degrees.numer() * self.minutes.denominator() * self.seconds.denominator())
            + 60 * (self.minutes.numer() * self.degrees.denominator()
            * self.seconds.denominator()) + self.seconds.numer() * self.degrees.denominator()
            * self.minutes.denominator()
    }

    /// The common denominator, `3600` times the three denominators.
    pub open spec fn magnitude_denom(self) -> int {
        3600 * (self.degrees.denominator() * self.minutes.denominator()
            * self.seconds.denominator())
    }

    /// The angle without its sign, in decimal degrees, as an exact fraction
    /// `(numerator, denominator)`.
    pub fn magnitude(&self) -> (r: (u128, u128))
        ensures
            r.0 == self.magnitude_numer(),
            r.1 == self.magnitude_denom(),
            r.1 > 0,
    {
        let (dn, dd) = parts(self.degrees);
        let (mn, md) = parts(self.minutes);
        let (sn, sd) = parts(self.seconds);
        let a = product(dn, md, sd);
        let b = product(mn, dd, sd);
        let c = product(sn, dd, md);
        let d = product(dd, md, sd);
        assert(d > 0) by (nonlinear_arith)
            requires
                d == dd * md * sd,
                dd > 0,
                md > 0,
                sd > 0,
        ;
        (3600 * a + 60 * b + c, 3600 * d)
    }
}

fn parts(r: Rational) -> (p: (u128, u128))
    ensures
        p.0 == r.numer(),
        p.1 == r.denominator(),
        p.0 <= 0xFFFF_FFFF,
        0 < p.1 <= 0xFFFF_FFFF,
{
    if r.denom == 0 {
        (0, 1)
    } else {
        (r.num as u128, r.denom as u128)
    }
}

fn product(a: u128, b: u128, c: u128) -> (p: u128)
    requires
        a <= 0xFFFF_FFFF,
        b <= 0xFFFF_FFFF,
        c <= 0xFFFF_FFFF,
    ensures
        p == a * b * c,
        p <= 0xFFFF_FFFF * 0xFFFF_FFFF * 0xFFFF_FFFF,
{
    assert(a * b <= 0xFFFF_FFFF * 0xFFFF_FFFF) by (nonlinear_arith)
        requires
            a <= 0xFFFF_FFFF,
            b <= 0xFFFF_FFFF,
    ;
    let ab = a * b;
    assert(ab * c <= 0xFFFF_FFFF * 0xFFFF_FFFF * 0xFFFF_FFFF) by (nonlinear_arith)
        requires
            ab <= 0xFFFF_FFFF * 0xFFFF_FFFF,
            c <= 0xFFFF_FFFF,
    ;
    ab * c
}

/// What extraction finds in one file. Every field may be absent.
#[derive(Clone, Debug, PartialEq, Eq)]
pub struct ExtractedMeta {
    pub camera_rating: Option<i32>,
    pub gps_lat: Option<GpsAngle>,
    pub gps_lon: Option<GpsAngle>,
    pub taken_at: Option<String>,
    pub orientation: Option<i32>,
}

/// `ExtractedMeta` as mathematical values.
pub struct ExtractedMetaView {
    pub camera_rating: Option<i32>,
    pub gps_lat: Option<GpsAngle>,
    pub gps_lon: Option<GpsAngle>,
    pub taken_at: Option<Seq<char>>,
    pub orientation: Option<i32>,
}

/// The text of an optional string.
pub open spec fn text_view(s: Option<String>) -> Option<Seq<char>> {
    match s {
        Some(s) => Some(s@),
        None => None,
    }
}

impl View for ExtractedMeta {
    type V = ExtractedMetaView;

    open spec fn view(&self) -> ExtractedMetaView {
        ExtractedMetaView {
            camera_rating: self.camera_rating,
            gps_lat: self.gps_lat,
            gps_lon: self.gps_lon,
            taken_at: text_view(self.taken_at),
            orientation: self.orientation,
        }
    }
}

/// The result in which every field is absent.
pub open spec fn nothing_extracted() -> ExtractedMetaView {
    ExtractedMetaView {
        camera_rating: None,
        gps_lat: None,
        gps_lon: None,
        taken_at: None,
        orientation: None,
    }
}

// ---------------------------------------------------------------------------
// Numbers
// ---------------------------------------------------------------------------

/// A 32-bit unsigned number reinterpreted as signed, as a cast does.
pub open spec fn wrap_i32(n: u32) -> int {
    if n <= i32::MAX {
        n as int
    } else {
        n - 0x1_0000_0000
    }
}

/// The first element of an integer value, as a 32-bit signed number; `None`
/// for an empty value and for any other kind of value.
pub open spec fn numeric_of(value: ExifValue) -> Option<int> {
    match value {
        ExifValue::Byte(v) => if v@.len() > 0 {
            Some(v@[0] as int)
        } else {
            None
        },
        ExifValue::Short(v) => if v@.len() > 0 {
            Some(v@[0] as int)
        } else {
            None
        },
        ExifValue::Long(v) => if v@.len() > 0 {
            Some(wrap_i32(v@[0]))
        } else {
            None
        },
        ExifValue::SShort(v) => if v@.len() > 0 {
            Some(v@[0] as int)
        } else {
            None
        },
        ExifValue::SLong(v) => if v@.len() > 0 {
            Some(v@[0] as int)
        } else {
            None
        },
        _ => None,
    }
}

/// Reads the first element of an integer value.
pub fn parse_numeric(value: &ExifValue) -> (r: Option<i32>)
    ensures
        rating_view(r) == numeric_of(*value),
{
    match value {
        ExifValue::Byte(v) => if v.len() > 0 {
            Some(v[0] as i32)
        } else {
            None
        },
        ExifValue::Short(v) => if v.len() > 0 {
            Some(v[0] as i32)
        } else {
            None
        },
        ExifValue::Long(v) => if v.len() > 0 {
            let n: u32 = v[0];
            if n <= 0x7FFF_FFFF {
                Some(n as i32)
            } else {
                Some((n as i64 - 0x1_0000_0000) as i32)
            }
        } else {
            None
        },
        ExifValue::SShort(v) => if v.len() > 0 {
            Some(v[0] as i32)
        } else {
            None
        },
        ExifValue::SLong(v) => if v.len() > 0 {
            Some(v[0])
        } else {
            None
        },
        _ => None,
    }
}

// ---------------------------------------------------------------------------
// Rating
// ---------------------------------------------------------------------------

/// Stars for a rating given as a percentage: `percent / 20` rounded to the
/// nearest integer, halves upward, confined to 0 through 5.
pub open spec fn percent_stars(percent: int) -> int {
    if percent < 10 {
        0
    } else if percent >= 90 {
        5
    } else {
        (percent + 10) / 20
    }
}

/// Converts a rating given as a percentage to stars.
pub fn stars_from_percent(percent: i32) -> (stars: i32)
    ensures
        stars == percent_stars(percent as int),
        0 <= stars <= 5,
{
    if percent < 10 {
        0
    } else if percent >= 90 {
        5
    } else {
        (percent + 10) / 20
    }
}

/// The number that the last field with the given tag number holds.
pub open spec fn numbered_value(fields: Seq<ExifField>, number: u16) -> Option<int> {
    match numbered_field(fields, number) {
        Some(i) => numeric_of(fields[i].value),
        None => None,
    }
}

/// The rating that the tags give: the rating tag, confined to 0 through 5;
/// without one, the rating-percent tag converted to stars. Where a tag
/// repeats, its last field counts.
pub open spec fn tag_rating(fields: Seq<ExifField>) -> Option<int> {
    match numbered_value(fields, TAG_RATING) {
        Some(v) => Some(clamp_stars(v)),
        None => match numbered_value(fields, TAG_RATING_PERCENT) {
            Some(p) => Some(percent_stars(p)),
            None => None,
        },
    }
}

fn read_numbered(fields: &[ExifField], number: u16) -> (r: Option<i32>)
    ensures
        rating_view(r) == numbered_value(fields@, number),
{
    match find_numbered(fields, number) {
        Some(i) => parse_numeric(&fields[i].value),
        None => None,
    }
}

/// Reads the camera's rating from the tags.
pub fn extract_rating(fields: &[ExifField]) -> (r: Option<i32>)
    ensures
        rating_view(r) == tag_rating(fields@),
        r matches Some(v) ==> 0 <= v <= 5,
{
    if let Some(value) = read_numbered(fields, TAG_RATING) {
        return Some(clamp_rating(value));
    }
    if let Some(percent) = read_numbered(fields, TAG_RATING_PERCENT) {
        return Some(stars_from_percent(percent));
    }
    None
}

/// The rating of a file: the first source that yields one, in the order
/// tags, embedded XMP packet, sidecar XMP packet. Sources are never merged.
pub open spec fn first_rating(tags: Option<int>, embedded: Option<int>, sidecar: Option<int>)
    -> Option<int> {
    match tags {
        Some(v) => Some(v),
        None => match embedded {
            Some(v) => Some(v),
            None => sidecar,
        },
    }
}

/// Picks the rating of a file from its sources, first hit first.
pub fn resolve_rating(tags: Option<i32>, embedded: Option<i32>, sidecar: Option<i32>) -> (r:
    Option<i32>)
    ensures
        rating_view(r) == first_rating(
            rating_view(tags),
            rating_view(embedded),
            rating_view(sidecar),
        ),
{
    match tags {
        Some(v) => Some(v),
        None => match embedded {
            Some(v) => Some(v),
            None => sidecar,
        },
    }
}

// ---------------------------------------------------------------------------
// Orientation and capture time
// ---------------------------------------------------------------------------

/// The orientation tag of the primary image, where it holds a number from 1
/// through 8.
pub open spec fn tag_orientation(fields: Seq<ExifField>) -> Option<int> {
    match tagged_field(fields, TagContext::Tiff, TAG_ORIENTATION, PRIMARY_IFD) {
        Some(i) => match numeric_of(fields[i].value) {
            Some(v) => if 1 <= v <= 8 {
                Some(v)
            } else {
                None
            },
            None => None,
        },
        None => None,
    }
}

/// Reads the orientation of the primary image; a value outside 1 through 8
/// counts as absent.
pub fn extract_orientation(fields: &[ExifField]) -> (r: Option<i32>)
    ensures
        rating_view(r) == tag_orientation(fields@),
        r matches Some(v) ==> 1 <= v <= 8,
{
    match find_field(fields, TagContext::Tiff, TAG_ORIENTATION, PRIMARY_IFD) {
        Some(i) => match parse_numeric(&fields[i].value) {
            Some(v) => if 1 <= v && v <= 8 {
                Some(v)
            } else {
                None
            },
            None => None,
        },
        None => None,
    }
}

/// The capture time of the primary image in display form: the original
/// date and time where the file has it, else the date and time of the file.
pub open spec fn tag_datetime(fields: Seq<ExifField>) -> Option<Seq<char>> {
    match tagged_field(fields, TagContext::Exif, TAG_DATE_TIME_ORIGINAL, PRIMARY_IFD) {
        Some(i) => Some(fields[i].display@),
        None => match tagged_field(fields, TagContext::Tiff, TAG_DATE_TIME, PRIMARY_IFD) {
            Some(i) => Some(fields[i].display@),
            None => None,
        },
    }
}

/// Reads the capture time of the primary image.
pub fn extract_datetime(fields: &[ExifField]) -> (r: Option<String>)
    ensures
        text_view(r) == tag_datetime(fields@),
{
    match find_field(fields, TagContext::Exif, TAG_DATE_TIME_ORIGINAL, PRIMARY_IFD) {
        Some(i) => Some(fields[i].display.clone()),
        None => match find_field(fields, TagContext::Tiff, TAG_DATE_TIME, PRIMARY_IFD) {
            Some(i) => Some(fields[i].display.clone()),
            None => None,
        },
    }
}

// ---------------------------------------------------------------------------
// GPS
// ---------------------------------------------------------------------------

/// Degrees, minutes and seconds of a coordinate: the first three elements
/// of a rational value that has at least three.
pub open spec fn dms_of(value: ExifValue) -> Option<(Rational, Rational, Rational)> {
    match value {
        ExifValue::Rational(v) => if v@.len() >= 3 {
            Some((v@[0], v@[1], v@[2]))
        } else {
            None
        },
        _ => None,
    }
}

/// Reads degrees, minutes and seconds from the value of a coordinate.
pub fn gps_value(value: &ExifValue) -> (r: Option<(Rational, Rational, Rational)>)
    ensures
        r == dms_of(*value),
{
    match value {
        ExifValue::Rational(v) => if v.len() >= 3 {
            Some((v[0], v[1], v[2]))
        } else {
            None
        },
        _ => None,
    }
}

/// The reference of a coordinate names the given hemisphere: apart from
/// surrounding whitespace, it begins with the hemisphere's letter.
pub open spec fn names_hemisphere(reference: Seq<char>, letter: char) -> bool {
    trim_spec(reference).len() > 0 && trim_spec(reference)[0] == letter
}

fn in_hemisphere(reference: &str, letter: char) -> (b: bool)
    ensures
        b == names_hemisphere(reference@, letter),
{
    let chars = chars_of(reference);
    let trimmed = trim(chars.as_slice());
    trimmed.len() > 0 && trimmed[0] == letter
}

/// A coordinate put together from its value and its reference.
pub open spec fn angle_of(dms: (Rational, Rational, Rational), reference: Seq<char>, letter: char)
    -> GpsAngle {
    GpsAngle {
        negative: names_hemisphere(reference, letter),
        degrees: dms.0,
        minutes: dms.1,
        seconds: dms.2,
    }
}

/// The reference decides the sign and nothing else: `S` makes a latitude
/// negative, `N` leaves it positive, and the magnitude is the same either
/// way.
pub proof fn lemma_reference_decides_sign(dms: (Rational, Rational, Rational))
    ensures
        angle_of(dms, seq!['S'], 'S').negative,
        !angle_of(dms, seq!['N'], 'S').negative,
        angle_of(dms, seq!['W'], 'W').negative,
        !angle_of(dms, seq!['E'], 'W').negative,
        angle_of(dms, seq!['S'], 'S').magnitude_numer() == angle_of(
            dms,
            seq!['N'],
            'S',
        ).magnitude_numer(),
        angle_of(dms, seq!['S'], 'S').magnitude_denom() == angle_of(
            dms,
            seq!['N'],
            'S',
        ).magnitude_denom(),
{
    lemma_single_letter_is_trimmed('S');
    lemma_single_letter_is_trimmed('N');
    lemma_single_letter_is_trimmed('W');
    lemma_single_letter_is_trimmed('E');
}

proof fn lemma_single_letter_is_trimmed(letter: char)
    requires
        !crate::text::is_space(letter),
    ensures
        trim_spec(seq![letter]) == seq![letter],
{
    let s = seq![letter];
    assert(crate::text::text_start(s, 0) == 0);
    assert(crate::text::text_end(s, 0, 1) == 1);
    assert(s.subrange(0, 1) =~= s);
}

/// The position that the tags of the primary image give. All four of
/// latitude, latitude reference, longitude and longitude reference must be
/// present, and both coordinates must hold degrees, minutes and seconds.
/// The latitude is negative for the reference `S`, the longitude for `W`.
pub open spec fn tag_gps(fields: Seq<ExifField>) -> Option<(GpsAngle, GpsAngle)> {
    let lat = tagged_field(fields, TagContext::Gps, TAG_GPS_LATITUDE, PRIMARY_IFD);
    let lat_ref = tagged_field(fields, TagContext::Gps, TAG_GPS_LATITUDE_REF, PRIMARY_IFD);
    let lon = tagged_field(fields, TagContext::Gps, TAG_GPS_LONGITUDE, PRIMARY_IFD);
    let lon_ref = tagged_field(fields, TagContext::Gps, TAG_GPS_LONGITUDE_REF, PRIMARY_IFD);
    if lat is Some && lat_ref is Some && lon is Some && lon_ref is Some {
        match (dms_of(fields[lat->0].value), dms_of(fields[lon->0].value)) {
            (Some(lat_dms), Some(lon_dms)) => Some(
                (
                    angle_of(lat_dms, fields[lat_ref->0].display@, 'S'),
                    angle_of(lon_dms, fields[lon_ref->0].display@, 'W'),
                ),
            ),
            _ => None,
        }
    } else {
        None
    }
}

/// Reads the position of the primary image, latitude first.
pub fn extract_gps(fields: &[ExifField]) -> (r: Option<(GpsAngle, GpsAngle)>)
    ensures
        r == tag_gps(fields@),
{
    let lat = match find_field(fields, TagContext::Gps, TAG_GPS_LATITUDE, PRIMARY_IFD) {
        Some(i) => i,
        None => {
            return None;
        },
    };
    let lat_ref = match find_field(fields, TagContext::Gps, TAG_GPS_LATITUDE_REF, PRIMARY_IFD) {
        Some(i) => i,
        None => {
            return None;
        },
    };
    let lon = match find_field(fields, TagContext::Gps, TAG_GPS_LONGITUDE, PRIMARY_IFD) {
        Some(i) => i,
        None => {
            return None;
        },
    };
    let lon_ref = match find_field(fields, TagContext::Gps, TAG_GPS_LONGITUDE_REF, PRIMARY_IFD) {
        Some(i) => i,
        None => {
            return None;
        },
    };
    let lat_dms = match gps_value(&fields[lat].value) {
        Some(dms) => dms,
        None => {
            return None;
        },
    };
    let lon_dms = match gps_value(&fields[lon].value) {
        Some(dms) => dms,
        None => {
            return None;
        },
    };
    let south = in_hemisphere(fields[lat_ref].display.as_str(), 'S');
    let west = in_hemisphere(fields[lon_ref].display.as_str(), 'W');
    Some(
        (
            GpsAngle {
                negative: south,
                degrees: lat_dms.0,
                minutes: lat_dms.1,
                seconds: lat_dms.2,
            },
            GpsAngle { negative: west, degrees: lon_dms.0, minutes: lon_dms.1, seconds: lon_dms.2 },
        ),
    )
}

// ---------------------------------------------------------------------------
// The whole record
// ---------------------------------------------------------------------------

/// The 32-bit value of an optional mathematical integer that is known to
/// fit, for stating results.
pub open spec fn as_i32(v: Option<int>) -> Option<i32> {
    match v {
        Some(v) => Some(v as i32),
        None => None,
    }
}

/// What the tags of a container give; nothing where the container could not
/// be parsed.
pub open spec fn tag_metadata(fields: Option<Seq<ExifField>>) -> ExtractedMetaView {
    match fields {
        Some(fields) => ExtractedMetaView {
            camera_rating: as_i32(tag_rating(fields)),
            gps_lat: match tag_gps(fields) {
                Some(position) => Some(position.0),
                None => None,
            },
            gps_lon: match tag_gps(fields) {
                Some(position) => Some(position.1),
                None => None,
            },
            taken_at: tag_datetime(fields),
            orientation: as_i32(tag_orientation(fields)),
        },
        None => nothing_extracted(),
    }
}

/// What extraction gives for a file: the metadata of its tags, with the
/// rating taken from the first source that has one.
pub open spec fn file_metadata(
    fields: Option<Seq<ExifField>>,
    text: Seq<char>,
    sidecar: Option<Seq<char>>,
) -> ExtractedMetaView {
    let tags = tag_metadata(fields);
    ExtractedMetaView {
        camera_rating: as_i32(
            first_rating(
                rating_view(tags.camera_rating),
                embedded_rating(text),
                match sidecar {
                    Some(s) => embedded_rating(s),
                    None => None,
                },
            ),
        ),
        ..tags
    }
}

/// Collects the metadata that the tags of a container give. `None` stands
/// for a container that could not be parsed and gives an empty result.
pub fn metadata_from_fields(fields: Option<&[ExifField]>) -> (meta: ExtractedMeta)
    ensures
        meta@ == tag_metadata(
            match fields {
                Some(f) => Some(f@),
                None => None,
            },
        ),
{
    match fields {
        Some(fields) => {
            let camera_rating = extract_rating(fields);
            let taken_at = extract_datetime(fields);
            let (gps_lat, gps_lon) = match extract_gps(fields) {
                Some((lat, lon)) => (Some(lat), Some(lon)),
                None => (None, None),
            };
            let orientation = extract_orientation(fields);
            ExtractedMeta { camera_rating, gps_lat, gps_lon, taken_at, orientation }
        },
        None => ExtractedMeta {
            camera_rating: None,
            gps_lat: None,
            gps_lon: None,
            taken_at: None,
            orientation: None,
        },
    }
}

/// The lenient reading of optional bytes as text.
pub open spec fn lossy_view(bytes: Option<&[u8]>) -> Option<Seq<char>> {
    match bytes {
        Some(b) => Some(utf8_lossy(b@)),
        None => None,
    }
}

/// Extracts the metadata of a RAW file from its bytes and, where there is
/// one, from the bytes of its XMP sidecar file.
///
/// The rating comes from the tags; failing that, from the XMP packet
/// embedded in the file; failing that, from the sidecar. A file whose
/// container cannot be parsed still yields a result, with the tag fields
/// absent.
pub fn read_metadata(data: &[u8], sidecar: Option<&[u8]>) -> (meta: ExtractedMeta)
    ensures
        meta@ == file_metadata(container_fields(data@), utf8_lossy(data@), lossy_view(sidecar)),
{
    let fields = read_exif(data);
    let mut meta = match &fields {
        Some(f) => metadata_from_fields(Some(f.as_slice())),
        None => metadata_from_fields(None),
    };
    if meta.camera_rating.is_none() {
        let embedded = extract_xmp_rating_from_bytes(data);
        let from_sidecar = match embedded {
            Some(_) => None,
            None => match sidecar {
                Some(bytes) => extract_xmp_rating_from_bytes(bytes),
                None => None,
            },
        };
        meta.camera_rating = resolve_rating(None, embedded, from_sidecar);
    }
    meta
}

/// What extraction gives once the rating of a sidecar is taken into account:
/// the sidecar fills in the rating where no earlier source gave one, and
/// changes nothing else.
pub open spec fn completed(meta: ExtractedMetaView, sidecar: Seq<char>) -> ExtractedMetaView {
    ExtractedMetaView {
        camera_rating: match meta.camera_rating {
            Some(v) => Some(v),
            None => as_i32(embedded_rating(sidecar)),
        },
        ..meta
    }
}

/// Whether the sidecar of a file has anything to add to what was extracted
/// from the file alone: only where that gave no rating.
pub fn needs_sidecar(meta: &ExtractedMeta) -> (b: bool)
    ensures
        b == (meta.camera_rating is None),
{
    meta.camera_rating.is_none()
}

/// Completes what was extracted from a file alone with the rating of its
/// XMP sidecar.
pub fn with_sidecar(meta: ExtractedMeta, sidecar: &[u8]) -> (r: ExtractedMeta)
    ensures
        r@ == completed(meta@, utf8_lossy(sidecar@)),
{
    if meta.camera_rating.is_some() {
        return meta;
    }
    let mut r = meta;
    r.camera_rating = extract_xmp_rating_from_bytes(sidecar);
    r
}

/// Reading a file together with its sidecar gives what reading the file
/// alone gives, completed by the sidecar.
pub proof fn lemma_sidecar_comes_last(
    fields: Option<Seq<ExifField>>,
    text: Seq<char>,
    sidecar: Seq<char>,
)
    ensures
        file_metadata(fields, text, Some(sidecar)) == completed(
            file_metadata(fields, text, None),
            sidecar,
        ),
{
    let tags = rating_view(tag_metadata(fields).camera_rating);
    crate::xmp::lemma_embedded_rating_in_range(text);
    crate::xmp::lemma_embedded_rating_in_range(sidecar);
    if let Some(fields) = fields {
        lemma_tag_rating_in_range(fields);
    }
}

/// A rating read from tags is within 0 through 5.
pub proof fn lemma_tag_rating_in_range(fields: Seq<ExifField>)
    ensures
        tag_rating(fields) matches Some(v) ==> 0 <= v <= 5,
{
}

} // verus!
