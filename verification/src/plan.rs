//! Settling the parameters of a run: what the command line says wins, then what
//! the photo's metadata says, then an assumption.

use vstd::prelude::*;
use vstd::string::*;

use crate::body;
use crate::body::{detect_crop_factor, CropFactor};
use crate::metadata;
use crate::metadata::{read_exif_focal_length, read_refish_stamp, Ratio};
use crate::output;
use crate::projection;
use crate::projection::Projection;
use crate::stamp;
use crate::stamp::RefishStamp;
use crate::text;

verus! {

// ---------------------------------------------------------------------------
// Focal length
// ---------------------------------------------------------------------------

/// A focal length in EXIF that means one: manual lenses report zero.
pub open spec fn usable(exif: Option<Ratio>) -> Option<Ratio> {
    match exif {
        Some(q) => if q.num > 0 {
            Some(q)
        } else {
            None
        },
        None => None,
    }
}

/// Where a focal length comes from.
pub enum FocalSource<F> {
    /// Given on the command line.
    Given(F),
    /// Read from EXIF, in millimeters.
    Exif(Ratio),
    /// Neither.
    Unknown,
}

/// The focal length: the one that was given, else a usable one from EXIF.
pub open spec fn focal_from<F>(given: Option<F>, exif: Option<Ratio>) -> FocalSource<F> {
    match (given, usable(exif)) {
        (Some(f), _) => FocalSource::Given(f),
        (None, Some(q)) => FocalSource::Exif(q),
        (None, None) => FocalSource::Unknown,
    }
}

/// The focal length that a given one and one from EXIF settle.
pub fn choose_focal<F>(given: Option<F>, exif: Option<Ratio>) -> (r: FocalSource<F>)
    ensures
        r == focal_from(given, exif),
{
    match given {
        Some(f) => FocalSource::Given(f),
        None => match exif {
            Some(q) => if q.num > 0 {
                FocalSource::Exif(q)
            } else {
                FocalSource::Unknown
            },
            None => FocalSource::Unknown,
        },
    }
}

/// The focal length of a photo: the one that was given, else the one in its
/// EXIF.
pub fn focal_source<F>(given: Option<F>, container: &[u8]) -> (r: FocalSource<F>)
    ensures
        r == focal_from(
            given,
            metadata::first_ratio(
                metadata::exif_field(container@, true, metadata::FOCAL_LENGTH),
            ),
        ),
{
    choose_focal(given, read_exif_focal_length(container))
}

// ---------------------------------------------------------------------------
// Crop factor
// ---------------------------------------------------------------------------

/// Where a crop factor comes from.
pub enum CropSource<C> {
    /// Given on the command line.
    Given(C),
    /// That of the camera model.
    Model(CropFactor),
    /// No model is known, and full frame is assumed.
    Assumed,
}

/// The crop factor: the one that was given, else that of the model.
pub open spec fn crop_from<C>(given: Option<C>, model: Option<Seq<char>>) -> CropSource<C> {
    match (given, model) {
        (Some(c), _) => CropSource::Given(c),
        (None, Some(m)) => CropSource::Model(body::crop_of(body::body_of(text::lower(m)))),
        (None, None) => CropSource::Assumed,
    }
}

/// The crop factor that a given one and the camera model settle.
pub fn crop_source<C>(given: Option<C>, model: Option<&str>) -> (r: CropSource<C>)
    ensures
        r == crop_from(
            given,
            match model {
                Some(m) => Some(m@),
                None => None,
            },
        ),
{
    match given {
        Some(c) => CropSource::Given(c),
        None => match model {
            Some(m) => CropSource::Model(detect_crop_factor(m)),
            None => CropSource::Assumed,
        },
    }
}

// ---------------------------------------------------------------------------
// Stamped geometry
// ---------------------------------------------------------------------------

/// Which parts of the geometry the command line gives.
#[derive(Clone, Copy, PartialEq, Eq, Debug, Structural)]
pub struct Overrides {
    pub focal_length: bool,
    pub crop_factor: bool,
    pub circle_radius: bool,
    pub projection: bool,
}

/// The command line leaves the geometry to the photo.
pub open spec fn is_bare(overrides: Overrides) -> bool {
    !overrides.focal_length && !overrides.crop_factor && !overrides.circle_radius
        && !overrides.projection
}

/// The stamp by which a photo is flattened: the one it carries, unless the
/// command line says anything of the geometry.
pub open spec fn stamp_for(
    overrides: Overrides,
    carried: Option<stamp::StampView>,
) -> Option<stamp::StampView> {
    if is_bare(overrides) {
        carried
    } else {
        None
    }
}

/// The stamp by which a photo that carries one, or none, is flattened.
pub fn choose_stamp(overrides: Overrides, carried: Option<RefishStamp>) -> (r: Option<
    RefishStamp,
>)
    ensures
        is_bare(overrides) ==> r == carried,
        !is_bare(overrides) ==> r is None,
{
    if overrides.focal_length || overrides.crop_factor || overrides.circle_radius
        || overrides.projection {
        None
    } else {
        carried
    }
}

/// The stamp by which a photo is flattened: a bare `flatten` inverts the
/// `refish` that left one.
pub fn flatten_stamp(overrides: Overrides, container: &[u8]) -> (r: Option<RefishStamp>)
    ensures
        match r {
            Some(s) => stamp_for(overrides, metadata::container_stamp(container@)) == Some(s@),
            None => stamp_for(overrides, metadata::container_stamp(container@)) is None,
        },
{
    choose_stamp(overrides, read_refish_stamp(container))
}

/// Where the geometry of a flatten comes from.
pub enum GeometrySource {
    /// From the stamp that a refish left: the photo is a disc, and the stamp
    /// gives its radius, its angle and the projection.
    Stamped(RefishStamp),
    /// From the photo's circle and its lens, with this projection.
    Measured { proj: Projection },
}

impl GeometrySource {
    /// Whether the photo counts as a circular fisheye, if `measured` says what
    /// its circle shows.
    pub fn is_circular(&self, measured: bool) -> (r: bool)
        ensures
            r == (self is Stamped || measured),
    {
        match self {
            GeometrySource::Stamped(_) => true,
            GeometrySource::Measured { .. } => measured,
        }
    }

    /// The projection of the output.
    pub fn projection(&self) -> (r: Projection)
        ensures
            r == (match *self {
                GeometrySource::Stamped(s) => s.proj,
                GeometrySource::Measured { proj } => proj,
            }),
    {
        match self {
            GeometrySource::Stamped(s) => s.proj,
            GeometrySource::Measured { proj } => *proj,
        }
    }
}

/// The geometry of a flatten of a photo that carries a stamp, or none: a stamp
/// that counts, else what suits the photo.
pub fn choose_geometry(
    overrides: Overrides,
    carried: Option<RefishStamp>,
    asked: Option<Projection>,
    is_circular: bool,
) -> (r: GeometrySource)
    ensures
        r == (match (is_bare(overrides), carried) {
            (true, Some(s)) => GeometrySource::Stamped(s),
            _ => GeometrySource::Measured {
                proj: projection::chosen_projection(asked, is_circular),
            },
        }),
{
    match choose_stamp(overrides, carried) {
        Some(s) => GeometrySource::Stamped(s),
        None => GeometrySource::Measured { proj: Projection::suited(asked, is_circular) },
    }
}

/// The geometry of a flatten: a stamp that the photo carries and the command line
/// leaves in force, else what suits the photo.
pub fn geometry_source(
    overrides: Overrides,
    asked: Option<Projection>,
    is_circular: bool,
    container: &[u8],
) -> (r: GeometrySource)
    ensures
        match r {
            GeometrySource::Stamped(s) => stamp_for(
                overrides,
                metadata::container_stamp(container@),
            ) == Some(s@),
            GeometrySource::Measured { proj } => stamp_for(
                overrides,
                metadata::container_stamp(container@),
            ) is None && proj == projection::chosen_projection(asked, is_circular),
        },
{
    choose_geometry(overrides, read_refish_stamp(container), asked, is_circular)
}

// ---------------------------------------------------------------------------
// Field of view of a flat photo
// ---------------------------------------------------------------------------

/// Where the field of view of a flat photo comes from.
pub enum FovSource<F> {
    /// The angle itself, given on the command line.
    Angle(F),
    /// A focal length given on the command line.
    Focal(F),
    /// A focal length in EXIF, in millimeters.
    ExifFocal(Ratio),
    /// Nothing is known, and a right angle is assumed.
    Assumed,
}

/// The field of view: the angle that was given, else what a focal length makes
/// of it.
pub open spec fn fov_from<F>(
    angle: Option<F>,
    focal: Option<F>,
    exif: Option<Ratio>,
) -> FovSource<F> {
    match (angle, focal_from(focal, exif)) {
        (Some(a), _) => FovSource::Angle(a),
        (None, FocalSource::Given(f)) => FovSource::Focal(f),
        (None, FocalSource::Exif(q)) => FovSource::ExifFocal(q),
        (None, FocalSource::Unknown) => FovSource::Assumed,
    }
}

/// The field of view that a given angle, a given focal length and one from EXIF
/// settle.
pub fn choose_fov<F>(angle: Option<F>, focal: Option<F>, exif: Option<Ratio>) -> (r: FovSource<F>)
    ensures
        r == fov_from(angle, focal, exif),
{
    match angle {
        Some(a) => FovSource::Angle(a),
        None => match choose_focal(focal, exif) {
            FocalSource::Given(f) => FovSource::Focal(f),
            FocalSource::Exif(q) => FovSource::ExifFocal(q),
            FocalSource::Unknown => FovSource::Assumed,
        },
    }
}

/// The field of view of a flat photo: given, else by its focal length.
pub fn fov_source<F>(angle: Option<F>, focal: Option<F>, container: &[u8]) -> (r: FovSource<F>)
    ensures
        r == fov_from(
            angle,
            focal,
            metadata::first_ratio(
                metadata::exif_field(container@, true, metadata::FOCAL_LENGTH),
            ),
        ),
{
    choose_fov(angle, focal, read_exif_focal_length(container))
}

// ---------------------------------------------------------------------------
// Laws
// ---------------------------------------------------------------------------

/// What the command line gives wins over whatever the photo says.
pub proof fn law_given_values_win<F, C>(
    f: F,
    c: C,
    exif: Option<Ratio>,
    model: Option<Seq<char>>,
    focal: Option<F>,
)
    ensures
        focal_from(Some(f), exif) == FocalSource::Given(f),
        crop_from(Some(c), model) == CropSource::Given(c),
        fov_from(Some(f), focal, exif) == FovSource::Angle(f),
        fov_from(None, Some(f), exif) == FovSource::Focal(f),
{
}

/// A bare `flatten` inverts a `refish` precisely: from a file in which `refish`
/// recorded its settings, it takes the very geometry that was used.
pub proof fn law_bare_flatten_inverts_refish(
    file: Seq<u8>,
    version: Seq<char>,
    settings: output::RefishSettings,
    overrides: Overrides,
)
    requires
        is_bare(overrides),
        text::is_number(settings.theta_max@),
        text::is_number(settings.r_circle@),
        output::holds_text(
            metadata::exif_field(file, false, metadata::IMAGE_DESCRIPTION),
            stamp::stamp_token(output::stamp_of(settings)) + output::refish_summary(
                version,
                settings,
            ),
        ),
    ensures
        stamp_for(overrides, metadata::container_stamp(file)) == Some(output::stamp_of(settings)),
{
    output::law_stamp_survives_the_file(
        file,
        output::stamp_of(settings),
        output::refish_summary(version, settings),
    );
}

/// A focal length of zero in EXIF counts for none.
pub proof fn law_zero_focal_length_is_none<F>(given: Option<F>, den: u32)
    ensures
        focal_from(given, Some(Ratio { num: 0, den })) == focal_from(given, None),
{
}

/// Any focal length in EXIF but zero counts where none is given, however it is
/// written as a quotient.
pub proof fn law_exif_focal_length_counts<F>(q: Ratio)
    requires
        q.num > 0,
    ensures
        focal_from(None::<F>, Some(q)) == FocalSource::<F>::Exif(q),
        fov_from(None::<F>, None, Some(q)) == FovSource::<F>::ExifFocal(q),
        focal_from(None::<F>, None) == FocalSource::<F>::Unknown,
        fov_from(None::<F>, None, None) == FovSource::<F>::Assumed,
{
}

/// The model decides on the crop factor where none is given.
pub proof fn law_model_decides_on_the_crop<C>(model: Seq<char>)
    ensures
        crop_from(None::<C>, Some(model)) == CropSource::<C>::Model(
            body::crop_of(body::body_of(text::lower(model))),
        ),
        crop_from(None::<C>, None) == CropSource::<C>::Assumed,
{
}

/// A stamp counts exactly where the command line says nothing of focal length,
/// crop factor, radius and projection.
pub proof fn law_stamp_counts_only_when_bare(overrides: Overrides, carried: stamp::StampView)
    ensures
        stamp_for(overrides, Some(carried)) == (if overrides.focal_length || overrides.crop_factor
            || overrides.circle_radius || overrides.projection {
            None
        } else {
            Some(carried)
        }),
        stamp_for(overrides, None) is None,
{
}

} // verus!
