//! Writing a result: file names, JPEG files, and the settings that travel with
//! them in EXIF.

use little_exif::exif_tag::ExifTag;
use little_exif::filetype::FileExtension;
use little_exif::metadata::Metadata;
use vstd::prelude::*;
use vstd::string::*;

use crate::metadata;
use crate::projection;
use crate::projection::Projection;
use crate::raster;
use crate::raster::{encode_jpeg, rgb_bytes, Canvas};
use crate::stamp;
use crate::stamp::refish_stamp_token;
use crate::text;
use crate::text::{same_text, to_decimal, to_lower, to_ascii};

verus! {

// ---------------------------------------------------------------------------
// File names
// ---------------------------------------------------------------------------

/// A file extension of JPEG files, in lower case.
pub open spec fn is_jpeg_ext(ext: Seq<char>) -> bool {
    ext == "jpg"@ || ext == "jpeg"@ || ext == "jpe"@ || ext == "jfif"@
}

/// A file with this extension, or none, is a JPEG file.
pub open spec fn names_jpeg(ext: Option<&str>) -> bool {
    match ext {
        Some(e) => is_jpeg_ext(text::lower(e@)),
        None => false,
    }
}

/// Whether a file with extension `ext` is a JPEG file.
pub fn is_jpeg(ext: Option<&str>) -> (r: bool)
    ensures
        r == names_jpeg(ext),
{
    match ext {
        Some(e) => {
            let low = to_lower(e);
            let l = low.as_str();
            same_text(l, "jpg") || same_text(l, "jpeg") || same_text(l, "jpe") || same_text(
                l,
                "jfif",
            )
        },
        None => false,
    }
}

/// A file: the directory it is in, and its name there.
pub struct FilePath<D> {
    pub dir: D,
    pub name: String,
}

/// The name that an output is given by default.
pub open spec fn output_name(stem: Seq<char>, suffix: Seq<char>, ext: Seq<char>) -> Seq<char> {
    stem + "_"@ + suffix + "."@ + ext
}

/// The default output: the name of the input with a suffix, next to the input.
pub fn default_output<D>(dir: D, stem: &str, suffix: &str, ext: &str) -> (r: FilePath<D>)
    ensures
        r.dir == dir,
        r.name@ == output_name(stem@, suffix@, ext@),
{
    let mut name = stem.to_owned();
    name.append("_");
    name.append(suffix);
    name.append(".");
    name.append(ext);
    FilePath { dir, name }
}

// ---------------------------------------------------------------------------
// Encoding
// ---------------------------------------------------------------------------

/// A quality from 1 to 100.
pub open spec fn clamped(quality: u8) -> u8 {
    if quality < 1 {
        1
    } else if quality > 100 {
        100
    } else {
        quality
    }
}

/// The nearest quality from 1 to 100.
pub fn clamp_quality(quality: u8) -> (r: u8)
    ensures
        r == clamped(quality),
        1 <= r <= 100,
{
    if quality < 1 {
        1
    } else if quality > 100 {
        100
    } else {
        quality
    }
}

/// Some canvas was encoded to these bytes.
pub open spec fn is_encoded(bytes: Seq<u8>) -> bool {
    exists|canvas: Canvas, quality: u8| #[trigger]
        encoded(canvas, quality) == bytes && raster::jpeg_size(raster::canvas_size(canvas))
}

/// The JPEG file of a canvas.
pub open spec fn encoded(canvas: Canvas, quality: u8) -> Seq<u8> {
    raster::jpeg_bytes(raster::canvas_size(canvas), raster::canvas_pixels(canvas), quality)
}

/// A JPEG file as the encoder wrote it.
pub struct JpegFile {
    bytes: Vec<u8>,
}

impl View for JpegFile {
    type V = Seq<u8>;

    closed spec fn view(&self) -> Seq<u8> {
        self.bytes@
    }
}

impl JpegFile {
    #[verifier::type_invariant]
    spec fn wf(self) -> bool {
        is_encoded(self.bytes@)
    }

    /// The bytes of the file.
    pub fn into_bytes(self) -> (r: Vec<u8>)
        ensures
            r@ == self@,
    {
        self.bytes
    }
}

/// An image ready to be written.
pub enum Saved {
    /// A JPEG file.
    Jpeg(JpegFile),
    /// Plain pixels, row by row, for the default encoder of another format.
    Pixels(Vec<u8>),
}

/// Prepares an image for a file with extension `ext`: a JPEG file is encoded at
/// the requested quality, as the default of 75 is well below camera output; for
/// any other format the pixels go to its default encoder.
pub fn save_image(img: &Canvas, ext: Option<&str>, quality: u8) -> (r: Result<
    Saved,
    image::ImageError,
>)
    ensures
        match r {
            Ok(Saved::Jpeg(file)) => names_jpeg(ext) && raster::jpeg_size(raster::canvas_size(*img))
                && file@ == encoded(*img, clamped(quality)),
            Ok(Saved::Pixels(bytes)) => !names_jpeg(ext) && raster::are_rows(*img, bytes@),
            Err(_) => names_jpeg(ext) && !raster::jpeg_size(raster::canvas_size(*img)),
        },
{
    if is_jpeg(ext) {
        match encode_jpeg(img, clamp_quality(quality)) {
            Ok(bytes) => {
                assert(bytes@ == encoded(*img, clamped(quality)));
                Ok(Saved::Jpeg(JpegFile { bytes }))
            },
            Err(e) => Err(e),
        }
    } else {
        Ok(Saved::Pixels(rgb_bytes(img)))
    }
}

// ---------------------------------------------------------------------------
// Settings in EXIF
// ---------------------------------------------------------------------------

/// How many characters the two settings may have together, to fit in the
/// segment of a JPEG file that holds them.
pub const SETTINGS_LIMIT: usize = 65479;

/// The hexadecimal numeral for `d` below sixteen.
pub open spec fn hex_digit(d: nat) -> char {
    if d < 10 {
        (('0' as nat) + d) as char
    } else {
        (('a' as nat) + d - 10) as char
    }
}

/// How a character of an EXIF text is displayed: a backslash stands in front of a
/// backslash and of a quotation mark, a character that does not print shows its
/// code, and NUL, which ends one text of several, ends the quotation and starts
/// another.
pub open spec fn displayed(c: char) -> Seq<char> {
    if c == '\\' || c == '"' {
        seq!['\\', c]
    } else if text::is_printable(c) {
        seq![c]
    } else if c == '\0' {
        seq!['"', ',', ' ', '"']
    } else {
        seq!['\\', 'x', hex_digit(c as nat / 16), hex_digit(c as nat % 16)]
    }
}

/// `s` with every character as it is displayed.
pub open spec fn escaped(s: Seq<char>) -> Seq<char>
    decreases s.len(),
{
    if s.len() == 0 {
        s
    } else {
        escaped(s.drop_last()) + displayed(s.last())
    }
}

/// How an EXIF text is displayed: escaped, in quotation marks.
pub open spec fn quoted(s: Seq<char>) -> Seq<char> {
    seq!['"'] + escaped(s) + seq!['"']
}

/// A JPEG file with a description and a tool tag written into its EXIF.
pub uninterp spec fn settings_bytes(
    file: Seq<u8>,
    description: Seq<char>,
    software: Seq<char>,
) -> Seq<u8>;

/// `out` is `file` with bytes put in behind its first two, the mark at the front
/// of every JPEG file; all else of it is kept.
pub open spec fn keeps_picture(file: Seq<u8>, out: Seq<u8>) -> bool {
    &&& 2 <= file.len() <= out.len()
    &&& out.take(2) == file.take(2)
    &&& out.skip(out.len() - file.len() + 2) == file.skip(2)
}

/// `Metadata::write_to_vec` of little_exif, after `Metadata::set_tag` for
/// ImageDescription and Software, puts the two texts into the EXIF of a JPEG
/// file. It succeeds on a file that the encoder wrote; it would panic on
/// malformed segments and on texts that do not fit in one. Both texts, which
/// are ASCII, are then fields of the main directory, displayed in quotation
/// marks. They go in behind the first two bytes, and all other bytes stay.
#[verifier::external_body]
fn write_tags(file: &Vec<u8>, description: &str, software: &str) -> (r: Result<Vec<u8>, String>)
    requires
        is_encoded(file@),
        text::ascii(description@),
        text::ascii(software@),
        description@.len() + software@.len() <= SETTINGS_LIMIT,
    ensures
        r is Ok,
        r->Ok_0@ == settings_bytes(file@, description@, software@),
        keeps_picture(file@, r->Ok_0@),
        metadata::exif_field(r->Ok_0@, false, metadata::IMAGE_DESCRIPTION) == Some(
            (None::<Seq<(u32, u32)>>, None::<u32>, quoted(description@)),
        ),
        metadata::exif_field(r->Ok_0@, false, metadata::SOFTWARE) == Some(
            (None::<Seq<(u32, u32)>>, None::<u32>, quoted(software@)),
        ),
{
    let mut meta = Metadata::new();
    meta.set_tag(ExifTag::ImageDescription(description.to_string()));
    meta.set_tag(ExifTag::Software(software.to_string()));
    let mut bytes = file.clone();
    meta.write_to_vec(&mut bytes, FileExtension::JPEG).map_err(|e| e.to_string())?;
    Ok(bytes)
}

/// Embeds the effective settings into the EXIF of a JPEG file.
///
/// The summary goes into ImageDescription, the field that photo galleries show
/// as the description, and a short tool tag goes into Software, the standard
/// "processed by" field. Both are ASCII fields: a question mark stands for every
/// character beyond ASCII.
pub fn write_settings_exif(file: &JpegFile, description: &str, software: &str) -> (r: Result<
    Vec<u8>,
    String,
>)
    requires
        description@.len() + software@.len() <= SETTINGS_LIMIT,
    ensures
        r is Ok,
        r->Ok_0@ == settings_bytes(
            file@,
            text::ascii_form(description@),
            text::ascii_form(software@),
        ),
        keeps_picture(file@, r->Ok_0@),
        holds_text(
            metadata::exif_field(r->Ok_0@, false, metadata::IMAGE_DESCRIPTION),
            description@,
        ),
        holds_text(metadata::exif_field(r->Ok_0@, false, metadata::SOFTWARE), software@),
{
    proof {
        use_type_invariant(file);
    }
    let d = to_ascii(description);
    let s = to_ascii(software);
    write_tags(&file.bytes, d.as_str(), s.as_str())
}

/// What a file is written from.
pub enum Content {
    /// Its bytes.
    Bytes(Vec<u8>),
    /// Plain pixels, row by row, for the default encoder of its format.
    Pixels(Vec<u8>),
}

/// `field` is an EXIF text field that displays `s`, made ASCII.
pub open spec fn holds_text(
    field: Option<(Option<Seq<(u32, u32)>>, Option<u32>, Seq<char>)>,
    s: Seq<char>,
) -> bool {
    field == Some((None::<Seq<(u32, u32)>>, None::<u32>, quoted(text::ascii_form(s))))
}

/// Embeds a settings summary and a tool tag in a JPEG file; other formats are
/// left as they are.
pub fn embed_exif(saved: Saved, description: &str, software: &str) -> (r: Result<Content, String>)
    requires
        description@.len() + software@.len() <= SETTINGS_LIMIT,
    ensures
        r is Ok,
        match (saved, r->Ok_0) {
            (Saved::Jpeg(file), Content::Bytes(bytes)) => {
                &&& bytes@ == settings_bytes(
                    file@,
                    text::ascii_form(description@),
                    text::ascii_form(software@),
                )
                &&& keeps_picture(file@, bytes@)
                &&& holds_text(
                    metadata::exif_field(bytes@, false, metadata::IMAGE_DESCRIPTION),
                    description@,
                )
                &&& holds_text(metadata::exif_field(bytes@, false, metadata::SOFTWARE), software@)
            },
            (Saved::Pixels(before), Content::Pixels(after)) => after@ == before@,
            _ => false,
        },
{
    match saved {
        Saved::Jpeg(file) => match write_settings_exif(&file, description, software) {
            Ok(bytes) => Ok(Content::Bytes(bytes)),
            Err(e) => Err(e),
        },
        Saved::Pixels(bytes) => Ok(Content::Pixels(bytes)),
    }
}

// ---------------------------------------------------------------------------
// What is recorded
// ---------------------------------------------------------------------------

/// The version that is recorded.
pub const VERSION: &'static str = "0.1.0";

/// The tool tag.
pub open spec fn software_of(version: Seq<char>) -> Seq<char> {
    "defish (fisheye-flatten) v"@ + version
}

/// The tool tag of a version.
pub fn software_tag(version: &str) -> (r: String)
    ensures
        r@ == software_of(version@),
{
    let mut r = "defish (fisheye-flatten) v".to_owned();
    r.append(version);
    r
}

/// The settings of a flatten. Measures are decimal numerals.
pub struct FlattenSettings {
    pub projection: Projection,
    pub focal_mm: String,
    pub crop_factor: String,
    pub equivalent_mm: String,
    pub is_circular: bool,
    pub radius_px: String,
    pub strip_percent: String,
    pub scale: String,
    pub quality: u8,
    pub azimuth_deg: String,
    pub elevation_deg: String,
    pub out_w: u32,
    pub out_h: u32,
    pub source: String,
}

/// What kind of fisheye a photo is.
pub open spec fn lens_kind_of(is_circular: bool) -> Seq<char> {
    if is_circular {
        "circular"@
    } else {
        "full-frame"@
    }
}

/// The summary of a flatten. The source's name is made ASCII.
pub open spec fn flatten_summary(version: Seq<char>, s: FlattenSettings) -> Seq<char> {
    "defish (fisheye-flatten v"@ + version + "): projection="@ + projection::full_name_of(
        s.projection,
    ) + ", focal="@ + s.focal_mm@ + "mm, crop="@ + s.crop_factor@ + "x, FF-equiv="@
        + s.equivalent_mm@ + "mm, lens="@ + lens_kind_of(s.is_circular) + " R="@ + s.radius_px@
        + "px, strip="@ + s.strip_percent@ + "%, scale="@ + s.scale@ + ", quality="@
        + text::decimal(clamped(s.quality) as nat) + ", coverage=az+/-"@ + s.azimuth_deg@
        + "deg/el+/-"@ + s.elevation_deg@ + "deg, output="@ + text::decimal(s.out_w as nat) + "x"@
        + text::decimal(s.out_h as nat) + "px, source="@ + text::ascii_form(s.source@)
}

/// Summarizes the settings of a flatten.
pub fn flatten_description(version: &str, s: &FlattenSettings) -> (r: String)
    ensures
        r@ == flatten_summary(version@, *s),
{
    let mut r = "defish (fisheye-flatten v".to_owned();
    r.append(version);
    r.append("): projection=");
    r.append(s.projection.full_name());
    r.append(", focal=");
    r.append(s.focal_mm.as_str());
    r.append("mm, crop=");
    r.append(s.crop_factor.as_str());
    r.append("x, FF-equiv=");
    r.append(s.equivalent_mm.as_str());
    r.append("mm, lens=");
    if s.is_circular {
        r.append("circular");
    } else {
        r.append("full-frame");
    }
    r.append(" R=");
    r.append(s.radius_px.as_str());
    r.append("px, strip=");
    r.append(s.strip_percent.as_str());
    r.append("%, scale=");
    r.append(s.scale.as_str());
    r.append(", quality=");
    let quality = to_decimal(clamp_quality(s.quality) as u32);
    r.append(quality.as_str());
    r.append(", coverage=az+/-");
    r.append(s.azimuth_deg.as_str());
    r.append("deg/el+/-");
    r.append(s.elevation_deg.as_str());
    r.append("deg, output=");
    let width = to_decimal(s.out_w);
    r.append(width.as_str());
    r.append("x");
    let height = to_decimal(s.out_h);
    r.append(height.as_str());
    r.append("px, source=");
    let source = to_ascii(s.source.as_str());
    r.append(source.as_str());
    r
}

/// The settings of a refish. Measures are decimal numerals.
pub struct RefishSettings {
    pub theta_max: String,
    pub r_circle: String,
    pub source_fov_deg: String,
    pub coverage_deg: String,
    pub size: u32,
    pub quality: u8,
    pub source: String,
}

/// The geometry of a refish, whose source is always rectilinear.
pub open spec fn stamp_of(s: RefishSettings) -> stamp::StampView {
    stamp::StampView {
        theta_max: s.theta_max@,
        proj: Projection::Rectilinear,
        r_circle: s.r_circle@,
    }
}

/// The summary of a refish. The source's name is made ASCII.
pub open spec fn refish_summary(version: Seq<char>, s: RefishSettings) -> Seq<char> {
    " refish (fisheye-flatten v"@ + version + "): rectilinear->fisheye, source_hFoV="@
        + s.source_fov_deg@ + "deg, output_coverage="@ + s.coverage_deg@ + "deg, size="@
        + text::decimal(s.size as nat) + "px, quality="@ + text::decimal(clamped(s.quality) as nat)
        + ", source="@ + text::ascii_form(s.source@)
}

/// Summarizes the settings of a refish, behind the stamp from which a flatten
/// takes the geometry back.
pub fn refish_description(version: &str, s: &RefishSettings) -> (r: String)
    ensures
        r@ == stamp::stamp_token(stamp_of(*s)) + refish_summary(version@, *s),
{
    let mut r = refish_stamp_token(
        s.theta_max.as_str(),
        &Projection::Rectilinear,
        s.r_circle.as_str(),
    );
    r.append(" refish (fisheye-flatten v");
    r.append(version);
    r.append("): rectilinear->fisheye, source_hFoV=");
    r.append(s.source_fov_deg.as_str());
    r.append("deg, output_coverage=");
    r.append(s.coverage_deg.as_str());
    r.append("deg, size=");
    let size = to_decimal(s.size);
    r.append(size.as_str());
    r.append("px, quality=");
    let quality = to_decimal(clamp_quality(s.quality) as u32);
    r.append(quality.as_str());
    r.append(", source=");
    let source = to_ascii(s.source.as_str());
    r.append(source.as_str());
    assert(r@ =~= stamp::stamp_token(stamp_of(*s)) + refish_summary(version@, *s));
    r
}

/// The summary of a tunnel. The source's name is made ASCII.
pub open spec fn tunnel_summary(
    version: Seq<char>,
    strength: Seq<char>,
    exponent: Seq<char>,
    quality: u8,
    source: Seq<char>,
) -> Seq<char> {
    "tunnel (fisheye-flatten v"@ + version + "): radial warp, strength="@ + strength
        + ", exponent="@ + exponent + ", quality="@ + text::decimal(clamped(quality) as nat)
        + ", source="@ + text::ascii_form(source)
}

/// Summarizes the settings of a tunnel; strength and exponent are decimal
/// numerals.
pub fn tunnel_description(
    version: &str,
    strength: &str,
    exponent: &str,
    quality: u8,
    source: &str,
) -> (r: String)
    ensures
        r@ == tunnel_summary(version@, strength@, exponent@, quality, source@),
{
    let mut r = "tunnel (fisheye-flatten v".to_owned();
    r.append(version);
    r.append("): radial warp, strength=");
    r.append(strength);
    r.append(", exponent=");
    r.append(exponent);
    r.append(", quality=");
    let q = to_decimal(clamp_quality(quality) as u32);
    r.append(q.as_str());
    r.append(", source=");
    let name = to_ascii(source);
    r.append(name.as_str());
    r
}

// ---------------------------------------------------------------------------
// What is recorded can be read back
// ---------------------------------------------------------------------------

proof fn lemma_escaped_concat(a: Seq<char>, b: Seq<char>)
    ensures
        escaped(a + b) == escaped(a) + escaped(b),
    decreases b.len(),
{
    if b.len() == 0 {
        assert(a + b =~= a);
        assert(escaped(a) + b =~= escaped(a));
    } else {
        lemma_escaped_concat(a, b.drop_last());
        assert((a + b).drop_last() =~= a + b.drop_last());
        assert(escaped(a + b) =~= escaped(a) + escaped(b));
    }
}

proof fn lemma_escaped_same(s: Seq<char>)
    requires
        text::printable(s),
        text::without(s, '\\'),
        text::without(s, '"'),
    ensures
        escaped(s) == s,
    decreases s.len(),
{
    if s.len() > 0 {
        lemma_escaped_same(s.drop_last());
        assert(text::is_printable(s.last()));
        assert(escaped(s) =~= s);
    }
}

proof fn lemma_numbers_are_displayed_as_they_are(s: Seq<char>)
    requires
        text::is_number(s),
    ensures
        text::printable(s),
        text::without(s, '\\'),
        text::without(s, '"'),
{
    text::lemma_number_chars(s);
    assert forall|i: int| 0 <= i < s.len() implies text::is_printable(#[trigger] s[i]) && s[i]
        != '\\' && s[i] != '"' by {
        assert(text::is_number_char(s[i]));
    }
}

proof fn lemma_token_is_displayed_as_it_is(s: stamp::StampView)
    requires
        text::is_number(s.theta_max),
        text::is_number(s.r_circle),
    ensures
        text::printable(stamp::stamp_token(s)),
        escaped(stamp::stamp_token(s)) == stamp::stamp_token(s),
{
    reveal_strlit("[ff-refish ");
    reveal_strlit("theta=");
    reveal_strlit(" proj=");
    reveal_strlit(" r=");
    reveal_strlit("]");
    reveal_strlit("rect");
    reveal_strlit("cyl");
    lemma_numbers_are_displayed_as_they_are(s.theta_max);
    lemma_numbers_are_displayed_as_they_are(s.r_circle);
    let token = stamp::stamp_token(s);
    assert(text::printable(token) && text::without(token, '\\') && text::without(token, '"'));
    lemma_escaped_same(token);
}

/// The geometry of a refish survives the file: a file whose description, made
/// ASCII, starts with a stamp gives that very stamp back, whatever follows
/// it.
pub proof fn law_stamp_survives_the_file(
    file: Seq<u8>,
    s: stamp::StampView,
    rest: Seq<char>,
)
    requires
        text::is_number(s.theta_max),
        text::is_number(s.r_circle),
        holds_text(
            metadata::exif_field(file, false, metadata::IMAGE_DESCRIPTION),
            stamp::stamp_token(s) + rest,
        ),
    ensures
        metadata::container_stamp(file) == Some(s),
{
    let token = stamp::stamp_token(s);
    let tail = text::ascii_form(rest);
    lemma_token_is_displayed_as_it_is(s);
    assert forall|i: int| 0 <= i < token.len() implies (#[trigger] token[i]) as u32 <= 0x7f by {
        assert(text::is_printable(token[i]));
    }
    assert(text::ascii_form(token + rest) =~= token + tail);
    lemma_escaped_concat(token, tail);
    let after = escaped(tail) + seq!['"'];
    assert(quoted(token + tail) =~= seq!['"'] + token + after);
    reveal_strlit("[ff-refish ");
    assert(!text::occurs(seq!['"'], "[ff-refish "@));
    stamp::law_stamp_reads_back(seq!['"'], s, after);
}

// ---------------------------------------------------------------------------
// What is recorded is ASCII
// ---------------------------------------------------------------------------

#[verifier::opaque]
spec fn seven_bit(s: Seq<char>) -> bool {
    text::ascii(s)
}

proof fn lemma_seven_bit(s: Seq<char>)
    ensures
        seven_bit(s) == text::ascii(s),
{
    reveal(seven_bit);
}

proof fn lemma_seven_bit_joins()
    ensures
        forall|a: Seq<char>, b: Seq<char>|
            seven_bit(a) && seven_bit(b) ==> #[trigger] seven_bit(a + b),
{
    reveal(seven_bit);
}

proof fn lemma_seven_bit_parts(n: nat, source: Seq<char>)
    ensures
        seven_bit(text::decimal(n)),
        seven_bit(text::ascii_form(source)),
{
    reveal(seven_bit);
    text::lemma_decimal_is_ascii(n);
}

/// The measures of a flatten are ASCII texts.
pub open spec fn has_ascii_measures(s: FlattenSettings) -> bool {
    text::ascii(s.focal_mm@) && text::ascii(s.crop_factor@) && text::ascii(s.equivalent_mm@)
        && text::ascii(s.radius_px@) && text::ascii(s.strip_percent@) && text::ascii(s.scale@)
        && text::ascii(s.azimuth_deg@) && text::ascii(s.elevation_deg@)
}

proof fn lemma_flatten_literals()
    ensures
        seven_bit("defish (fisheye-flatten v"@),
        seven_bit("): projection="@),
        seven_bit("rectilinear"@),
        seven_bit("cylindrical"@),
        seven_bit(", focal="@),
        seven_bit("mm, crop="@),
        seven_bit("x, FF-equiv="@),
        seven_bit("mm, lens="@),
        seven_bit("circular"@),
        seven_bit("full-frame"@),
        seven_bit(" R="@),
        seven_bit("px, strip="@),
        seven_bit("%, scale="@),
        seven_bit(", quality="@),
        seven_bit(", coverage=az+/-"@),
        seven_bit("deg/el+/-"@),
        seven_bit("deg, output="@),
        seven_bit("x"@),
        seven_bit("px, source="@),
{
    reveal(seven_bit);
    reveal_strlit("defish (fisheye-flatten v");
    reveal_strlit("): projection=");
    reveal_strlit("rectilinear");
    reveal_strlit("cylindrical");
    reveal_strlit(", focal=");
    reveal_strlit("mm, crop=");
    reveal_strlit("x, FF-equiv=");
    reveal_strlit("mm, lens=");
    reveal_strlit("circular");
    reveal_strlit("full-frame");
    reveal_strlit(" R=");
    reveal_strlit("px, strip=");
    reveal_strlit("%, scale=");
    reveal_strlit(", quality=");
    reveal_strlit(", coverage=az+/-");
    reveal_strlit("deg/el+/-");
    reveal_strlit("deg, output=");
    reveal_strlit("x");
    reveal_strlit("px, source=");
}

/// The summary of a flatten is ASCII, whatever the name of its source.
pub proof fn law_flatten_summary_is_ascii(version: Seq<char>, s: FlattenSettings)
    requires
        text::ascii(version),
        has_ascii_measures(s),
    ensures
        text::ascii(flatten_summary(version, s)),
{
    lemma_flatten_literals();
    lemma_seven_bit(version);
    lemma_seven_bit(s.focal_mm@);
    lemma_seven_bit(s.crop_factor@);
    lemma_seven_bit(s.equivalent_mm@);
    lemma_seven_bit(s.radius_px@);
    lemma_seven_bit(s.strip_percent@);
    lemma_seven_bit(s.scale@);
    lemma_seven_bit(s.azimuth_deg@);
    lemma_seven_bit(s.elevation_deg@);
    lemma_seven_bit_parts(clamped(s.quality) as nat, s.source@);
    lemma_seven_bit_parts(s.out_w as nat, s.source@);
    lemma_seven_bit_parts(s.out_h as nat, s.source@);
    lemma_seven_bit_joins();
    assert(seven_bit(flatten_summary(version, s)));
    lemma_seven_bit(flatten_summary(version, s));
}

proof fn lemma_refish_literals()
    ensures
        seven_bit(" refish (fisheye-flatten v"@),
        seven_bit("): rectilinear->fisheye, source_hFoV="@),
        seven_bit("deg, output_coverage="@),
        seven_bit("deg, size="@),
        seven_bit("px, quality="@),
        seven_bit(", source="@),
{
    reveal(seven_bit);
    reveal_strlit(" refish (fisheye-flatten v");
    reveal_strlit("): rectilinear->fisheye, source_hFoV=");
    reveal_strlit("deg, output_coverage=");
    reveal_strlit("deg, size=");
    reveal_strlit("px, quality=");
    reveal_strlit(", source=");
}

proof fn lemma_seven_bit_printable(s: Seq<char>)
    requires
        text::printable(s),
    ensures
        seven_bit(s),
{
    reveal(seven_bit);
    assert forall|i: int| 0 <= i < s.len() implies (#[trigger] s[i]) as u32 <= 0x7f by {
        assert(text::is_printable(s[i]));
    }
}

/// The summary of a refish is ASCII, with its stamp, whatever the name of its
/// source.
pub proof fn law_refish_summary_is_ascii(version: Seq<char>, s: RefishSettings)
    requires
        text::ascii(version),
        text::is_number(s.theta_max@),
        text::is_number(s.r_circle@),
        text::ascii(s.source_fov_deg@),
        text::ascii(s.coverage_deg@),
    ensures
        text::ascii(stamp::stamp_token(stamp_of(s)) + refish_summary(version, s)),
{
    let token = stamp::stamp_token(stamp_of(s));
    lemma_token_is_displayed_as_it_is(stamp_of(s));
    lemma_seven_bit_printable(token);
    lemma_refish_literals();
    lemma_seven_bit(version);
    lemma_seven_bit(s.source_fov_deg@);
    lemma_seven_bit(s.coverage_deg@);
    lemma_seven_bit_parts(s.size as nat, s.source@);
    lemma_seven_bit_parts(clamped(s.quality) as nat, s.source@);
    lemma_seven_bit_joins();
    assert(seven_bit(refish_summary(version, s)));
    assert(seven_bit(token + refish_summary(version, s)));
    lemma_seven_bit(token + refish_summary(version, s));
}

proof fn lemma_tunnel_literals()
    ensures
        seven_bit("tunnel (fisheye-flatten v"@),
        seven_bit("): radial warp, strength="@),
        seven_bit(", exponent="@),
        seven_bit(", quality="@),
        seven_bit(", source="@),
{
    reveal(seven_bit);
    reveal_strlit("tunnel (fisheye-flatten v");
    reveal_strlit("): radial warp, strength=");
    reveal_strlit(", exponent=");
    reveal_strlit(", quality=");
    reveal_strlit(", source=");
}

/// The summary of a tunnel is ASCII, whatever the name of its source.
pub proof fn law_tunnel_summary_is_ascii(
    version: Seq<char>,
    strength: Seq<char>,
    exponent: Seq<char>,
    quality: u8,
    source: Seq<char>,
)
    requires
        text::ascii(version),
        text::ascii(strength),
        text::ascii(exponent),
    ensures
        text::ascii(tunnel_summary(version, strength, exponent, quality, source)),
{
    lemma_tunnel_literals();
    lemma_seven_bit(version);
    lemma_seven_bit(strength);
    lemma_seven_bit(exponent);
    lemma_seven_bit_parts(clamped(quality) as nat, source);
    lemma_seven_bit_joins();
    assert(seven_bit(tunnel_summary(version, strength, exponent, quality, source)));
    lemma_seven_bit(tunnel_summary(version, strength, exponent, quality, source));
}

// ---------------------------------------------------------------------------
// Names, qualities and summaries
// ---------------------------------------------------------------------------

/// JPEG files have one of four extensions and no others.
pub proof fn law_jpeg_files_have_one_of_four_extensions(ext: Seq<char>)
    ensures
        is_jpeg_ext(ext) <==> ext == "jpg"@ || ext == "jpeg"@ || ext == "jpe"@ || ext == "jfif"@,
{
}

/// An output is named by the input's stem, an underscore, the suffix, a point and
/// the input's extension, and nothing else.
pub proof fn law_output_names_tell_the_input(stem: Seq<char>, suffix: Seq<char>, ext: Seq<char>)
    ensures
        ({
            let name = output_name(stem, suffix, ext);
            let (n, m) = (stem.len() as int, stem.len() as int + 1 + suffix.len() as int);
            &&& name.len() == m + 1 + ext.len()
            &&& name.take(n) == stem
            &&& name[n] == '_'
            &&& name.subrange(n + 1, m) == suffix
            &&& name[m] == '.'
            &&& name.skip(m + 1) == ext
        }),
{
    reveal_strlit("_");
    reveal_strlit(".");
    let name = output_name(stem, suffix, ext);
    let (n, m) = (stem.len() as int, stem.len() as int + 1 + suffix.len() as int);
    assert(name =~= stem + seq!['_'] + suffix + seq!['.'] + ext);
    assert(name.take(n) =~= stem);
    assert(name.subrange(n + 1, m) =~= suffix);
    assert(name.skip(m + 1) =~= ext);
}

/// A quality from 1 to 100 counts as it is, and one beyond as the nearer end.
pub proof fn law_quality_counts_from_1_to_100(quality: u8)
    ensures
        1 <= quality <= 100 ==> clamped(quality) == quality,
        quality < 1 ==> clamped(quality) == 1,
        quality > 100 ==> clamped(quality) == 100,
{
}

#[verifier::opaque]
spec fn tells(s: Seq<char>, x: Seq<char>) -> bool {
    text::occurs(s, x)
}

proof fn lemma_tells(s: Seq<char>, x: Seq<char>)
    ensures
        tells(s, x) == text::occurs(s, x),
{
    reveal(tells);
}

proof fn lemma_tells_last(a: Seq<char>, b: Seq<char>, c: Seq<char>)
    ensures
        tells(a + b + c, b + c),
{
    reveal(tells);
    let s = a + b + c;
    let n = a.len() as int;
    assert(s.subrange(n, n + (b + c).len() as int) =~= b + c);
    assert(text::occurs_at(s, b + c, n));
}

proof fn lemma_tells_more(s: Seq<char>, t: Seq<char>, x: Seq<char>)
    requires
        tells(s, x),
    ensures
        tells(s + t, x),
{
    reveal(tells);
    let i = choose|i: int| text::occurs_at(s, x, i);
    assert((s + t).subrange(i, i + x.len() as int) =~= s.subrange(i, i + x.len() as int));
    assert(text::occurs_at(s + t, x, i));
}

proof fn lemma_tells_rules()
    ensures
        forall|a: Seq<char>, b: Seq<char>, c: Seq<char>| #[trigger] tells(a + b + c, b + c),
        forall|s: Seq<char>, t: Seq<char>, x: Seq<char>|
            tells(s, x) ==> #[trigger] tells(s + t, x),
{
    assert forall|a: Seq<char>, b: Seq<char>, c: Seq<char>| #[trigger]
        tells(a + b + c, b + c) by {
        lemma_tells_last(a, b, c);
    }
    assert forall|s: Seq<char>, t: Seq<char>, x: Seq<char>| tells(s, x) implies #[trigger] tells(
        s + t,
        x,
    ) by {
        lemma_tells_more(s, t, x);
    }
}

/// The summary of a flatten tells every setting: version, projection, focal
/// length, crop factor, equivalent, kind and radius of the circle, strip, scale,
/// quality, coverage, output size and source.
pub proof fn law_flatten_summary_tells_every_setting(version: Seq<char>, s: FlattenSettings)
    ensures
        ({
            let t = flatten_summary(version, s);
            &&& text::occurs(t, "): projection="@ + projection::full_name_of(s.projection))
            &&& text::occurs(t, ", focal="@ + s.focal_mm@)
            &&& text::occurs(t, "mm, crop="@ + s.crop_factor@)
            &&& text::occurs(t, "x, FF-equiv="@ + s.equivalent_mm@)
            &&& s.is_circular ==> text::occurs(t, "mm, lens="@ + "circular"@)
            &&& !s.is_circular ==> text::occurs(t, "mm, lens="@ + "full-frame"@)
            &&& text::occurs(t, " R="@ + s.radius_px@)
            &&& text::occurs(t, "px, strip="@ + s.strip_percent@)
            &&& text::occurs(t, "%, scale="@ + s.scale@)
            &&& text::occurs(t, ", quality="@ + text::decimal(clamped(s.quality) as nat))
            &&& text::occurs(t, ", coverage=az+/-"@ + s.azimuth_deg@)
            &&& text::occurs(t, "deg/el+/-"@ + s.elevation_deg@)
            &&& text::occurs(t, "deg, output="@ + text::decimal(s.out_w as nat))
            &&& text::occurs(t, "x"@ + text::decimal(s.out_h as nat))
            &&& text::occurs(t, "px, source="@ + text::ascii_form(s.source@))
        }),
{
    let t = flatten_summary(version, s);
    lemma_tells_rules();
    lemma_tells(t, "): projection="@ + projection::full_name_of(s.projection));
    lemma_tells(t, ", focal="@ + s.focal_mm@);
    lemma_tells(t, "mm, crop="@ + s.crop_factor@);
    lemma_tells(t, "x, FF-equiv="@ + s.equivalent_mm@);
    lemma_tells(t, "mm, lens="@ + lens_kind_of(s.is_circular));
    lemma_tells(t, " R="@ + s.radius_px@);
    lemma_tells(t, "px, strip="@ + s.strip_percent@);
    lemma_tells(t, "%, scale="@ + s.scale@);
    lemma_tells(t, ", quality="@ + text::decimal(clamped(s.quality) as nat));
    lemma_tells(t, ", coverage=az+/-"@ + s.azimuth_deg@);
    lemma_tells(t, "deg/el+/-"@ + s.elevation_deg@);
    lemma_tells(t, "deg, output="@ + text::decimal(s.out_w as nat));
    lemma_tells(t, "x"@ + text::decimal(s.out_h as nat));
    lemma_tells(t, "px, source="@ + text::ascii_form(s.source@));
}

/// The summary of a refish tells the field of view, the coverage, the size, the
/// quality and the source.
pub proof fn law_refish_summary_tells_every_setting(version: Seq<char>, s: RefishSettings)
    ensures
        ({
            let t = refish_summary(version, s);
            &&& text::occurs(t, "): rectilinear->fisheye, source_hFoV="@ + s.source_fov_deg@)
            &&& text::occurs(t, "deg, output_coverage="@ + s.coverage_deg@)
            &&& text::occurs(t, "deg, size="@ + text::decimal(s.size as nat))
            &&& text::occurs(t, "px, quality="@ + text::decimal(clamped(s.quality) as nat))
            &&& text::occurs(t, ", source="@ + text::ascii_form(s.source@))
        }),
{
    let t = refish_summary(version, s);
    lemma_tells_rules();
    lemma_tells(t, "): rectilinear->fisheye, source_hFoV="@ + s.source_fov_deg@);
    lemma_tells(t, "deg, output_coverage="@ + s.coverage_deg@);
    lemma_tells(t, "deg, size="@ + text::decimal(s.size as nat));
    lemma_tells(t, "px, quality="@ + text::decimal(clamped(s.quality) as nat));
    lemma_tells(t, ", source="@ + text::ascii_form(s.source@));
}

/// The summary of a tunnel tells the strength, the exponent, the quality and the
/// source.
pub proof fn law_tunnel_summary_tells_every_setting(
    version: Seq<char>,
    strength: Seq<char>,
    exponent: Seq<char>,
    quality: u8,
    source: Seq<char>,
)
    ensures
        ({
            let t = tunnel_summary(version, strength, exponent, quality, source);
            &&& text::occurs(t, "): radial warp, strength="@ + strength)
            &&& text::occurs(t, ", exponent="@ + exponent)
            &&& text::occurs(t, ", quality="@ + text::decimal(clamped(quality) as nat))
            &&& text::occurs(t, ", source="@ + text::ascii_form(source))
        }),
{
    let t = tunnel_summary(version, strength, exponent, quality, source);
    lemma_tells_rules();
    lemma_tells(t, "): radial warp, strength="@ + strength);
    lemma_tells(t, ", exponent="@ + exponent);
    lemma_tells(t, ", quality="@ + text::decimal(clamped(quality) as nat));
    lemma_tells(t, ", source="@ + text::ascii_form(source));
}

/// Text that prints, without backslashes and quotation marks, is displayed as it
/// is between two marks.
pub proof fn law_plain_text_is_displayed_as_it_is(s: Seq<char>)
    requires
        text::printable(s),
        text::without(s, '\\'),
        text::without(s, '"'),
    ensures
        quoted(s) == seq!['"'] + s + seq!['"'],
{
    lemma_escaped_same(s);
}

/// Settings of the greatest length just fill a segment: its length field holds
/// sixteen bits, and what stands around the two texts takes up to 56 bytes.
pub proof fn law_longest_settings_fill_a_segment()
    ensures
        SETTINGS_LIMIT + 56 == 0xffff,
{
}

} // verus!
