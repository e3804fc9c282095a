//! Camera bodies: which sensor a model has, and how far apart its pixels are.

use vstd::prelude::*;
use vstd::string::*;

use crate::metadata;
use crate::metadata::{exif_pixel_pitch, ExifPitch};
use crate::text;
use crate::text::{contains, contains_any, to_lower};

verus! {

/// The sensor format of a camera body.
#[derive(Clone, Copy, PartialEq, Eq, Debug, Structural)]
pub enum Body {
    /// Fuji GFX medium format.
    MediumFormat,
    /// A 35 mm full-frame sensor.
    FullFrame,
    /// A model that is not known.
    Unknown,
}

/// The names by which full-frame bodies are known.
pub open spec fn full_frame_names() -> Seq<Seq<char>> {
    seq![
        "z 8"@,
        "z8"@,
        "z 9"@,
        "z9"@,
        "z6"@,
        "z7"@,
        "d850"@,
        "d800"@,
        "d810"@,
        "a7"@,
        "a1"@,
        "a9"@,
        "r5"@,
        "r3"@,
        "r6"@,
    ]
}

/// The format of the sensor in a camera whose model, in lower case, is `model`.
pub open spec fn body_of(model: Seq<char>) -> Body {
    if text::occurs(model, "gfx"@) {
        Body::MediumFormat
    } else if exists|k: int|
        0 <= k < full_frame_names().len() && text::occurs(model, #[trigger] full_frame_names()[k]) {
        Body::FullFrame
    } else {
        Body::Unknown
    }
}

/// The format of the sensor in a camera whose model, in lower case, is `model`.
pub fn identify(model: &str) -> (r: Body)
    ensures
        r == body_of(model@),
{
    if contains(model, "gfx") {
        return Body::MediumFormat;
    }
    let names: Vec<&str> = vec![
        "z 8",
        "z8",
        "z 9",
        "z9",
        "z6",
        "z7",
        "d850",
        "d800",
        "d810",
        "a7",
        "a1",
        "a9",
        "r5",
        "r3",
        "r6",
    ];
    assert(names@.len() == full_frame_names().len());
    assert forall|k: int| 0 <= k < names@.len() implies (#[trigger] names@[k])@
        == full_frame_names()[k] by {}
    let known = contains_any(model, &names);
    proof {
        if known {
            let k = choose|k: int|
                0 <= k < names@.len() && text::occurs(model@, #[trigger] names@[k]@);
            assert(text::occurs(model@, full_frame_names()[k]));
        } else {
            assert forall|k: int| 0 <= k < full_frame_names().len() implies !text::occurs(
                model@,
                #[trigger] full_frame_names()[k],
            ) by {
                assert(!text::occurs(model@, names@[k]@));
            }
        }
    }
    if known {
        Body::FullFrame
    } else {
        Body::Unknown
    }
}

/// A crop factor against full frame, in thousandths, and whether the body was
/// recognised.
#[derive(Clone, Copy, PartialEq, Eq, Debug, Structural)]
pub struct CropFactor {
    pub thousandths: u32,
    pub recognised: bool,
}

/// The crop factor of a body; an unknown body counts as full frame.
pub open spec fn crop_of(body: Body) -> CropFactor {
    match body {
        Body::MediumFormat => CropFactor { thousandths: 790, recognised: true },
        Body::FullFrame => CropFactor { thousandths: 1000, recognised: true },
        Body::Unknown => CropFactor { thousandths: 1000, recognised: false },
    }
}

/// The crop factor of the body that `model` names.
pub fn detect_crop_factor(model: &str) -> (r: CropFactor)
    ensures
        r == crop_of(body_of(text::lower(model@))),
{
    let name = to_lower(model);
    match identify(name.as_str()) {
        Body::MediumFormat => CropFactor { thousandths: 790, recognised: true },
        Body::FullFrame => CropFactor { thousandths: 1000, recognised: true },
        Body::Unknown => CropFactor { thousandths: 1000, recognised: false },
    }
}

/// The physical sensor width of a body in micrometers.
pub open spec fn width_um_of(body: Body) -> Option<u32> {
    match body {
        Body::MediumFormat => Some(43800),
        Body::FullFrame => Some(35900),
        Body::Unknown => None,
    }
}

/// The physical sensor width in micrometers of the body that `model` names.
pub fn sensor_width_um(model: &str) -> (r: Option<u32>)
    ensures
        r == width_um_of(body_of(text::lower(model@))),
{
    let name = to_lower(model);
    match identify(name.as_str()) {
        Body::MediumFormat => Some(43800),
        Body::FullFrame => Some(35900),
        Body::Unknown => None,
    }
}

/// The width of a 35 mm frame in micrometers.
pub const FRAME_WIDTH_UM: u32 = 36000;

/// Where a pixel spacing comes from, with the numbers that make it up.
pub enum PixelPitch<C> {
    /// From EXIF.
    Exif(ExifPitch),
    /// A sensor of known width that so many pixels fill.
    Sensor { width_um: u32, pixels: u32 },
    /// A 35 mm frame divided by a crop factor, filled by so many pixels.
    Cropped { width_um: u32, crop_factor: C, pixels: u32 },
}

/// The best estimate of the pixel spacing: EXIF first, then the width of the
/// model's sensor, then a width derived from the crop factor.
pub open spec fn best_pitch<C>(
    exif: Option<ExifPitch>,
    model: Option<Seq<char>>,
    crop_factor: C,
    img_w: u32,
) -> PixelPitch<C> {
    let width = match model {
        Some(m) => width_um_of(body_of(text::lower(m))),
        None => None,
    };
    match (exif, width) {
        (Some(p), _) => PixelPitch::Exif(p),
        (None, Some(width_um)) => PixelPitch::Sensor { width_um, pixels: img_w },
        (None, None) => PixelPitch::Cropped {
            width_um: FRAME_WIDTH_UM,
            crop_factor,
            pixels: img_w,
        },
    }
}

/// Best estimate of the pixel spacing, from the pixel spacing in EXIF where it
/// has one.
pub fn choose_pixel_pitch<C>(
    exif: Option<ExifPitch>,
    model: Option<&str>,
    crop_factor: C,
    img_w: u32,
) -> (r: PixelPitch<C>)
    ensures
        r == best_pitch(
            exif,
            match model {
                Some(m) => Some(m@),
                None => None,
            },
            crop_factor,
            img_w,
        ),
{
    if let Some(p) = exif {
        return PixelPitch::Exif(p);
    }
    if let Some(m) = model {
        if let Some(width_um) = sensor_width_um(m) {
            return PixelPitch::Sensor { width_um, pixels: img_w };
        }
    }
    PixelPitch::Cropped { width_um: FRAME_WIDTH_UM, crop_factor, pixels: img_w }
}

/// Best estimate of the pixel spacing of a photo: EXIF first, then the sensor
/// width of its camera model, then a width derived from the crop factor.
pub fn sensor_pixel_pitch_mm<C>(
    container: &[u8],
    model: Option<&str>,
    crop_factor: C,
    img_w: u32,
) -> (r: PixelPitch<C>)
    ensures
        r == best_pitch(
            metadata::pitch_from(
                metadata::first_ratio(
                    metadata::exif_field(container@, true, metadata::FOCAL_PLANE_X_RESOLUTION),
                ),
                metadata::first_uint(
                    metadata::exif_field(container@, true, metadata::FOCAL_PLANE_RESOLUTION_UNIT),
                ),
            ),
            match model {
                Some(m) => Some(m@),
                None => None,
            },
            crop_factor,
            img_w,
        ),
{
    choose_pixel_pitch(exif_pixel_pitch(container), model, crop_factor, img_w)
}

// ---------------------------------------------------------------------------
// Laws
// ---------------------------------------------------------------------------

/// A model is medium format by the name of Fuji's, full frame by one of fifteen
/// names, and unknown by any other.
pub proof fn law_bodies_go_by_their_names(model: Seq<char>)
    ensures
        body_of(model) == Body::MediumFormat <==> text::occurs(model, "gfx"@),
        body_of(model) == Body::FullFrame <==> !text::occurs(model, "gfx"@) && (text::occurs(
            model,
            "z 8"@,
        ) || text::occurs(model, "z8"@) || text::occurs(model, "z 9"@) || text::occurs(model, "z9"@)
            || text::occurs(model, "z6"@) || text::occurs(model, "z7"@) || text::occurs(
            model,
            "d850"@,
        ) || text::occurs(model, "d800"@) || text::occurs(model, "d810"@) || text::occurs(
            model,
            "a7"@,
        ) || text::occurs(model, "a1"@) || text::occurs(model, "a9"@) || text::occurs(model, "r5"@)
            || text::occurs(model, "r3"@) || text::occurs(model, "r6"@)),
{
    let names = full_frame_names();
    assert(names[0] == "z 8"@ && names[1] == "z8"@ && names[2] == "z 9"@ && names[3] == "z9"@
        && names[4] == "z6"@ && names[5] == "z7"@ && names[6] == "d850"@ && names[7] == "d800"@
        && names[8] == "d810"@ && names[9] == "a7"@ && names[10] == "a1"@ && names[11] == "a9"@
        && names[12] == "r5"@ && names[13] == "r3"@ && names[14] == "r6"@);
    assert(names.len() == 15);
}

/// Medium format is larger than full frame: its crop factor is 0.79 and its
/// sensor 43.8 mm wide, against 1 and 35.9 mm. An unknown body counts as full
/// frame, but its width is not known.
pub proof fn law_sensors_have_their_sizes(body: Body)
    ensures
        crop_of(body).thousandths == (if body == Body::MediumFormat {
            790u32
        } else {
            1000
        }),
        crop_of(body).recognised <==> body != Body::Unknown,
        width_um_of(body) is Some <==> body != Body::Unknown,
        width_um_of(Body::MediumFormat) == Some(43_800u32),
        width_um_of(Body::FullFrame) == Some(35_900u32),
{
}

/// EXIF decides on the pixel spacing where it has one, else the model's sensor
/// where that is known, else the crop factor of a 36 mm frame.
pub proof fn law_pitch_goes_by_the_best_source<C>(
    p: ExifPitch,
    model: Option<Seq<char>>,
    crop_factor: C,
    img_w: u32,
)
    ensures
        best_pitch(Some(p), model, crop_factor, img_w) == PixelPitch::<C>::Exif(p),
        model matches Some(m) ==> match width_um_of(body_of(text::lower(m))) {
            Some(width_um) => best_pitch(None, model, crop_factor, img_w) == (
            PixelPitch::<C>::Sensor { width_um, pixels: img_w }),
            None => best_pitch(None, model, crop_factor, img_w) == best_pitch(
                None,
                None,
                crop_factor,
                img_w,
            ),
        },
        best_pitch(None, None, crop_factor, img_w) == (PixelPitch::Cropped {
            width_um: 36_000,
            crop_factor,
            pixels: img_w,
        }),
{
}

} // verus!
