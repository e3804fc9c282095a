//! What a photo's EXIF says of the shot.

use vstd::prelude::*;

use crate::stamp;
use crate::stamp::{parse_refish_stamp, RefishStamp};

verus! {

/// A quotient of two counts, as EXIF stores it. The denominator may be zero.
#[derive(Clone, Copy, PartialEq, Eq, Debug, Structural)]
pub struct Ratio {
    pub num: u32,
    pub den: u32,
}

// ---------------------------------------------------------------------------
// Fields of a container
// ---------------------------------------------------------------------------

/// A field of the primary image: its numbers where it holds quotients, its
/// first number where it holds unsigned integers, and how it is displayed.
pub struct ExifField {
    pub ratios: Option<Vec<(u32, u32)>>,
    pub uint: Option<u32>,
    pub text: String,
}

impl View for ExifField {
    type V = (Option<Seq<(u32, u32)>>, Option<u32>, Seq<char>);

    open spec fn view(&self) -> (Option<Seq<(u32, u32)>>, Option<u32>, Seq<char>) {
        (
            match self.ratios {
                Some(v) => Some(v@),
                None => None,
            },
            self.uint,
            self.text@,
        )
    }
}

/// Tag number of ImageDescription, in the main directory.
pub const IMAGE_DESCRIPTION: u16 = 0x010e;

/// Tag number of Model, in the main directory.
pub const MODEL: u16 = 0x0110;

/// Tag number of Software, in the main directory.
pub const SOFTWARE: u16 = 0x0131;

/// Tag number of FocalLength, in the Exif directory.
pub const FOCAL_LENGTH: u16 = 0x920a;

/// Tag number of FocalPlaneXResolution, in the Exif directory.
pub const FOCAL_PLANE_X_RESOLUTION: u16 = 0xa20e;

/// Tag number of FocalPlaneResolutionUnit, in the Exif directory.
pub const FOCAL_PLANE_RESOLUTION_UNIT: u16 = 0xa210;

/// The field with number `tag` of the primary image in the image file
/// `container`, from the Exif directory or the main one.
pub uninterp spec fn exif_field(container: Seq<u8>, exif_directory: bool, tag: u16) -> Option<
    (Option<Seq<(u32, u32)>>, Option<u32>, Seq<char>),
>;

/// Reads one field with `exif::Reader::read_from_container` and
/// `Exif::get_field`; the field's numbers come from its `Value`, the first
/// unsigned integer from `Value::get_uint` and the text from
/// `Field::display_value`. There is none where the container cannot be parsed
/// or lacks the field. All of it depends on the bytes alone.
#[verifier::external_body]
fn primary_field(container: &[u8], exif_directory: bool, tag: u16) -> (r: Option<ExifField>)
    ensures
        match r {
            Some(f) => exif_field(container@, exif_directory, tag) == Some(f@),
            None => exif_field(container@, exif_directory, tag) is None,
        },
{
    let mut reader = std::io::Cursor::new(container);
    let exif = exif::Reader::new().read_from_container(&mut reader).ok()?;
    let context = if exif_directory { exif::Context::Exif } else { exif::Context::Tiff };
    let field = exif.get_field(exif::Tag(context, tag), exif::In::PRIMARY)?;
    let ratios = match &field.value {
        exif::Value::Rational(v) => Some(v.iter().map(|q| (q.num, q.denom)).collect()),
        _ => None,
    };
    let (uint, text) = (field.value.get_uint(0), field.display_value().to_string());
    Some(ExifField { ratios, uint, text })
}

// ---------------------------------------------------------------------------
// Focal length, camera model, description
// ---------------------------------------------------------------------------

/// The first quotient of a field.
pub open spec fn first_ratio(
    field: Option<(Option<Seq<(u32, u32)>>, Option<u32>, Seq<char>)>,
) -> Option<Ratio> {
    match field {
        Some((Some(v), _, _)) => if v.len() > 0 {
            Some(Ratio { num: v[0].0, den: v[0].1 })
        } else {
            None
        },
        _ => None,
    }
}

/// How a field is displayed.
pub open spec fn shown(
    field: Option<(Option<Seq<(u32, u32)>>, Option<u32>, Seq<char>)>,
) -> Option<Seq<char>> {
    match field {
        Some((_, _, text)) => Some(text),
        None => None,
    }
}

/// The content of a field that may be missing.
pub open spec fn field_view(field: Option<ExifField>) -> Option<
    (Option<Seq<(u32, u32)>>, Option<u32>, Seq<char>),
> {
    match field {
        Some(f) => Some(f@),
        None => None,
    }
}

/// The first quotient that a field holds.
pub fn first_ratio_of(field: &Option<ExifField>) -> (r: Option<Ratio>)
    ensures
        r == first_ratio(field_view(*field)),
{
    match field {
        Some(f) => match &f.ratios {
            Some(v) => if v.len() > 0 {
                Some(Ratio { num: v[0].0, den: v[0].1 })
            } else {
                None
            },
            None => None,
        },
        None => None,
    }
}

/// The focal length in millimeters from EXIF, as the quotient stored there.
pub fn read_exif_focal_length(container: &[u8]) -> (r: Option<Ratio>)
    ensures
        r == first_ratio(exif_field(container@, true, FOCAL_LENGTH)),
{
    let field = primary_field(container, true, FOCAL_LENGTH);
    first_ratio_of(&field)
}

/// The camera model from EXIF, as it is displayed.
pub fn read_exif_model(container: &[u8]) -> (r: Option<String>)
    ensures
        match r {
            Some(m) => shown(exif_field(container@, false, MODEL)) == Some(m@),
            None => shown(exif_field(container@, false, MODEL)) is None,
        },
{
    match primary_field(container, false, MODEL) {
        Some(f) => Some(f.text),
        None => None,
    }
}

/// The image description from EXIF, as it is displayed.
pub fn read_exif_image_description(container: &[u8]) -> (r: Option<String>)
    ensures
        match r {
            Some(d) => shown(exif_field(container@, false, IMAGE_DESCRIPTION)) == Some(d@),
            None => shown(exif_field(container@, false, IMAGE_DESCRIPTION)) is None,
        },
{
    match primary_field(container, false, IMAGE_DESCRIPTION) {
        Some(f) => Some(f.text),
        None => None,
    }
}

/// The refish stamp in the image description of `container`.
pub open spec fn container_stamp(container: Seq<u8>) -> Option<stamp::StampView> {
    match shown(exif_field(container, false, IMAGE_DESCRIPTION)) {
        Some(desc) => stamp::stamp_in(desc),
        None => None,
    }
}

/// Parses a refish stamp out of the image description, if one is present.
pub fn read_refish_stamp(container: &[u8]) -> (r: Option<RefishStamp>)
    ensures
        match r {
            Some(s) => container_stamp(container@) == Some(s@),
            None => container_stamp(container@) is None,
        },
{
    match read_exif_image_description(container) {
        Some(desc) => parse_refish_stamp(desc.as_str()),
        None => None,
    }
}

// ---------------------------------------------------------------------------
// Pixel pitch
// ---------------------------------------------------------------------------

/// Pixel spacing on the sensor as EXIF gives it: how many pixels fill a unit of
/// length, and the unit in micrometers.
#[derive(Clone, Copy, PartialEq, Eq, Debug, Structural)]
pub struct ExifPitch {
    pub unit_um: u32,
    pub pixels: Ratio,
}

/// The length of a unit that EXIF numbers, in micrometers. Inch is the default.
pub open spec fn resolution_unit_um(unit: Option<u32>) -> u32 {
    match unit {
        Some(3) => 10000,
        Some(4) => 1000,
        Some(5) => 1,
        _ => 25400,
    }
}

/// The first unsigned integer of a field.
pub open spec fn first_uint(
    field: Option<(Option<Seq<(u32, u32)>>, Option<u32>, Seq<char>)>,
) -> Option<u32> {
    match field {
        Some((_, uint, _)) => uint,
        None => None,
    }
}

/// The pixel spacing that a resolution and a unit give. A resolution of zero
/// gives none.
pub open spec fn pitch_from(resolution: Option<Ratio>, unit: Option<u32>) -> Option<ExifPitch> {
    match resolution {
        Some(q) => if q.num == 0 {
            None
        } else {
            Some(ExifPitch { unit_um: resolution_unit_um(unit), pixels: q })
        },
        None => None,
    }
}

/// The pixel spacing that a resolution and a unit give.
pub fn exif_pitch(resolution: Option<Ratio>, unit: Option<u32>) -> (r: Option<ExifPitch>)
    ensures
        r == pitch_from(resolution, unit),
{
    match resolution {
        Some(q) => {
            if q.num == 0 {
                return None;
            }
            let unit_um: u32 = match unit {
                Some(3) => 10000,
                Some(4) => 1000,
                Some(5) => 1,
                _ => 25400,
            };
            Some(ExifPitch { unit_um, pixels: q })
        },
        None => None,
    }
}

/// Sensor pixel spacing from FocalPlaneXResolution, if present. This is what
/// converts a focal length in millimeters to one in pixels.
pub fn exif_pixel_pitch(container: &[u8]) -> (r: Option<ExifPitch>)
    ensures
        r == pitch_from(
            first_ratio(exif_field(container@, true, FOCAL_PLANE_X_RESOLUTION)),
            first_uint(exif_field(container@, true, FOCAL_PLANE_RESOLUTION_UNIT)),
        ),
{
    let field = primary_field(container, true, FOCAL_PLANE_X_RESOLUTION);
    let resolution = first_ratio_of(&field);
    let unit = match primary_field(container, true, FOCAL_PLANE_RESOLUTION_UNIT) {
        Some(f) => f.uint,
        None => None,
    };
    exif_pitch(resolution, unit)
}

// ---------------------------------------------------------------------------
// Laws
// ---------------------------------------------------------------------------

/// A resolution counts by its unit: centimeters, millimeters or micrometers where
/// EXIF says so, and inches by any other number or none. One of zero counts for
/// nothing.
pub proof fn law_resolutions_count_by_their_unit(q: Ratio, unit: Option<u32>)
    ensures
        pitch_from(None, unit) is None,
        pitch_from(Some(q), unit) is None <==> q.num == 0,
        q.num > 0 ==> pitch_from(Some(q), unit)->Some_0.pixels == q,
        q.num > 0 ==> pitch_from(Some(q), unit)->Some_0.unit_um == (if unit == Some(3u32) {
            10_000u32
        } else if unit == Some(4u32) {
            1_000
        } else if unit == Some(5u32) {
            1
        } else {
            25_400
        }),
{
}

/// Of a field that holds quotients the first counts, and a field that holds none
/// gives none.
pub proof fn law_first_quotient_counts(
    v: Seq<(u32, u32)>,
    uint: Option<u32>,
    text: Seq<char>,
)
    ensures
        v.len() > 0 ==> first_ratio(Some((Some(v), uint, text))) == Some(
            Ratio { num: v[0].0, den: v[0].1 },
        ),
        v.len() == 0 ==> first_ratio(Some((Some(v), uint, text))) is None,
        first_ratio(Some((None, uint, text))) is None,
        first_ratio(None) is None,
        shown(Some((Some(v), uint, text))) == Some(text),
        first_uint(Some((Some(v), uint, text))) == uint,
{
}

} // verus!
