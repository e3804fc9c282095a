use fisheye_defish::body::{
    choose_pixel_pitch, detect_crop_factor, identify, sensor_pixel_pitch_mm, sensor_width_um, Body,
    CropFactor, PixelPitch,
};
use fisheye_defish::metadata::{
    exif_pitch, exif_pixel_pitch, first_ratio_of, read_exif_focal_length,
    read_exif_image_description, read_exif_model, read_refish_stamp, ExifField, ExifPitch, Ratio,
};
use fisheye_defish::output::{
    embed_exif, refish_description, save_image, software_tag, write_settings_exif, Content,
    RefishSettings, Saved, SETTINGS_LIMIT, VERSION,
};
use fisheye_defish::plan::{
    choose_focal, choose_fov, choose_geometry, choose_stamp, crop_source, flatten_stamp,
    focal_source, fov_source, geometry_source, CropSource, FocalSource, FovSource, GeometrySource,
    Overrides,
};
use fisheye_defish::projection::Projection;
use fisheye_defish::raster::{render, rgb_bytes, Canvas};
use fisheye_defish::stamp::RefishStamp;
use little_exif::exif_tag::ExifTag;
use little_exif::filetype::FileExtension;
use little_exif::metadata::Metadata;
use little_exif::rational::uR64;

const BARE: Overrides =
    Overrides { focal_length: false, crop_factor: false, circle_radius: false, projection: false };

fn canvas(w: u32, h: u32) -> Canvas {
    render(w, h, |x, y| [x as u8, y as u8, (x * y) as u8])
}

fn jpeg(w: u32, h: u32) -> Vec<u8> {
    match save_image(&canvas(w, h), Some("jpg"), 95) {
        Ok(Saved::Jpeg(file)) => file.into_bytes(),
        _ => unreachable!(),
    }
}

/// A JPEG file with these tags.
fn tagged(tags: Vec<ExifTag>) -> Vec<u8> {
    let mut bytes = jpeg(16, 16);
    let mut meta = Metadata::new();
    for tag in tags {
        meta.set_tag(tag);
    }
    meta.write_to_vec(&mut bytes, FileExtension::JPEG).unwrap();
    bytes
}

fn ratio(num: u32, den: u32) -> Vec<uR64> {
    vec![uR64 { nominator: num, denominator: den }]
}

// ------------------------------------------------------------------ saving ---

#[test]
fn canvas_is_drawn_pixel_by_pixel() {
    assert_eq!(rgb_bytes(&render(2, 2, |x, y| [x as u8, y as u8, 7])), [
        0, 0, 7, 1, 0, 7, 0, 1, 7, 1, 1, 7
    ]);
    assert_eq!(rgb_bytes(&render(0, 5, |_, _| [1, 2, 3])), Vec::<u8>::new());
}

#[test]
fn jpeg_is_encoded_at_the_quality_asked_for() {
    let c = canvas(64, 48);
    for (ext, quality) in [("jpg", 95), ("JPE", 20), ("jfif", 0), ("jpeg", 255)] {
        let bytes = match save_image(&c, Some(ext), quality) {
            Ok(Saved::Jpeg(file)) => file.into_bytes(),
            _ => panic!("{ext} is a JPEG"),
        };
        let img = image::load_from_memory(&bytes).unwrap();
        assert_eq!((img.width(), img.height()), (64, 48));
        let mut want = Vec::new();
        let raw = image::RgbImage::from_raw(64, 48, rgb_bytes(&c)).unwrap();
        image::codecs::jpeg::JpegEncoder::new_with_quality(&mut want, quality.clamp(1, 100))
            .encode_image(&raw)
            .unwrap();
        assert_eq!(bytes, want);
    }
}

#[test]
fn flatten_quality_affects_file_size() {
    let c = render(300, 200, |x, y| [(x * 7 % 256) as u8, (y * 5 % 256) as u8, (x * y % 256) as u8]);
    let size = |quality: u8| match save_image(&c, Some("jpg"), quality) {
        Ok(Saved::Jpeg(file)) => file.into_bytes().len(),
        _ => unreachable!(),
    };
    let (lo, hi) = (size(20), size(95));
    assert!(lo < hi, "lower quality should be smaller: {lo} vs {hi}");
}

#[test]
fn other_formats_get_the_pixels() {
    let c = canvas(3, 2);
    for ext in [Some("png"), Some("tif"), None] {
        match save_image(&c, ext, 95) {
            Ok(Saved::Pixels(bytes)) => assert_eq!(bytes, rgb_bytes(&c)),
            _ => panic!("no JPEG"),
        }
    }
}

#[test]
fn jpeg_cannot_be_empty_or_too_wide() {
    assert!(save_image(&canvas(0, 4), Some("jpg"), 95).is_err());
    assert!(save_image(&canvas(65536, 1), Some("jpg"), 95).is_err());
    assert!(save_image(&canvas(65535, 1), Some("jpg"), 95).is_ok());
    assert!(save_image(&canvas(65536, 1), Some("png"), 95).is_ok());
}

// ---------------------------------------------------------------- settings ---

#[test]
fn settings_are_read_back() {
    let saved = save_image(&canvas(32, 32), Some("jpg"), 95).unwrap();
    let file = match &saved {
        Saved::Jpeg(file) => file,
        _ => unreachable!(),
    };
    let bytes = write_settings_exif(file, "a \"b\\c\" µ", &software_tag(VERSION)).unwrap();
    assert_eq!(read_exif_image_description(&bytes), Some("\"a \\\"b\\\\c\\\" ?\"".to_string()));
    assert!(read_refish_stamp(&bytes).is_none());
    assert_eq!(image::load_from_memory(&bytes).unwrap().width(), 32);
    for (text, shown) in [
        ("a\tb", "\"a\\x09b\""),
        ("a\u{7f}\u{1f}", "\"a\\x7f\\x1f\""),
        ("a\0b", "\"a\", \"b\""),
        ("\0", "\"\", \"\""),
        ("abc\0def\0", "\"abc\", \"def\", \"\""),
        ("\0\0\0\0\0", "\"\", \"\", \"\", \"\", \"\", \"\""),
    ] {
        let bytes = write_settings_exif(file, text, "s").unwrap();
        assert_eq!(read_exif_image_description(&bytes).as_deref(), Some(shown), "{text:?}");
    }
    for text in ["", "x", "abc", "abcd", "abcde"] {
        let bytes = write_settings_exif(file, text, "s").unwrap();
        assert_eq!(read_exif_image_description(&bytes), Some(format!("\"{text}\"")));
    }
    let long = "y".repeat(SETTINGS_LIMIT - 10);
    let bytes = write_settings_exif(file, &long, "0123456789").unwrap();
    assert_eq!(read_exif_image_description(&bytes), Some(format!("\"{long}\"")));
    assert_eq!(image::load_from_memory(&bytes).unwrap().width(), 32);
}

#[test]
fn settings_leave_the_picture_as_it_is() {
    let plain = jpeg(32, 32);
    let file = match save_image(&canvas(32, 32), Some("jpg"), 95) {
        Ok(Saved::Jpeg(file)) => file,
        _ => unreachable!(),
    };
    let bytes = write_settings_exif(&file, "text", "tool").unwrap();
    assert!(bytes.len() > plain.len());
    assert_eq!(bytes[..2], plain[..2]);
    assert_eq!(bytes[bytes.len() - plain.len() + 2..], plain[2..]);
}

#[test]
fn only_jpeg_files_carry_settings() {
    let jpg = save_image(&canvas(8, 8), Some("jpg"), 95).unwrap();
    match embed_exif(jpg, "text", "tool") {
        Ok(Content::Bytes(bytes)) => {
            assert_eq!(read_exif_image_description(&bytes), Some("\"text\"".to_string()));
            let exif = exif::Reader::new()
                .read_from_container(&mut std::io::Cursor::new(&bytes))
                .unwrap();
            let software = exif.get_field(exif::Tag::Software, exif::In::PRIMARY).unwrap();
            assert_eq!(software.display_value().to_string(), "\"tool\"");
        }
        _ => unreachable!(),
    }
    let png = save_image(&canvas(8, 8), Some("png"), 95).unwrap();
    match embed_exif(png, "text", "tool") {
        Ok(Content::Pixels(bytes)) => assert_eq!(bytes, rgb_bytes(&canvas(8, 8))),
        _ => unreachable!(),
    }
}

#[test]
fn bare_flatten_takes_the_geometry_of_a_refish() {
    let settings = RefishSettings {
        theta_max: "0.872665".to_string(),
        r_circle: "200.00".to_string(),
        source_fov_deg: "100.0".to_string(),
        coverage_deg: "100.0".to_string(),
        size: 400,
        quality: 95,
        source: "\"odd\" [ff-refish theta=9 proj=cyl r=9].jpg".to_string(),
    };
    let saved = save_image(&canvas(40, 40), Some("jpg"), 95).unwrap();
    let text = refish_description(VERSION, &settings);
    let bytes = match embed_exif(saved, &text, &software_tag(VERSION)) {
        Ok(Content::Bytes(bytes)) => bytes,
        _ => unreachable!(),
    };
    match geometry_source(BARE, None, false, &bytes) {
        GeometrySource::Stamped(s) => {
            assert_eq!((s.theta_max.as_str(), s.r_circle.as_str()), ("0.872665", "200.00"));
            let source = GeometrySource::Stamped(s);
            assert_eq!(source.projection(), Projection::Rectilinear);
            assert!(source.is_circular(false));
        }
        _ => unreachable!(),
    }
    let stamp = flatten_stamp(BARE, &bytes).unwrap();
    assert_eq!(stamp.theta_max, "0.872665");
    assert_eq!(stamp.proj, Projection::Rectilinear);
    assert_eq!(stamp.r_circle, "200.00");
    for overrides in [
        Overrides { focal_length: true, ..BARE },
        Overrides { crop_factor: true, ..BARE },
        Overrides { circle_radius: true, ..BARE },
        Overrides { projection: true, ..BARE },
    ] {
        assert!(flatten_stamp(overrides, &bytes).is_none());
        assert!(choose_stamp(overrides, read_refish_stamp(&bytes)).is_none());
    }
    assert!(flatten_stamp(BARE, &jpeg(8, 8)).is_none());
}

#[test]
fn geometry_is_measured_without_a_stamp() {
    let plain = jpeg(8, 8);
    let suited = |asked, circular| match geometry_source(BARE, asked, circular, &plain) {
        GeometrySource::Measured { proj } => proj,
        _ => unreachable!(),
    };
    assert_eq!(suited(None, true), Projection::Cylindrical);
    assert_eq!(suited(None, false), Projection::Rectilinear);
    assert_eq!(suited(Some(Projection::Cylindrical), false), Projection::Cylindrical);
    let stamp = || {
        Some(RefishStamp {
            theta_max: "1".to_string(),
            proj: Projection::Cylindrical,
            r_circle: "2".to_string(),
        })
    };
    let asked = Overrides { projection: true, ..BARE };
    let given = choose_geometry(asked, stamp(), Some(Projection::Rectilinear), true);
    assert_eq!(given.projection(), Projection::Rectilinear);
    assert!(given.is_circular(true) && !given.is_circular(false));
    let kept = choose_geometry(BARE, stamp(), None, false);
    assert_eq!(kept.projection(), Projection::Cylindrical);
    assert!(kept.is_circular(false));
}

// -------------------------------------------------------------------- exif ---

#[test]
fn focal_length_is_read_from_exif() {
    let bytes = tagged(vec![ExifTag::FocalLength(ratio(25, 2))]);
    assert_eq!(read_exif_focal_length(&bytes), Some(Ratio { num: 25, den: 2 }));
    assert_eq!(read_exif_focal_length(&jpeg(8, 8)), None);
    assert_eq!(read_exif_focal_length(b"no image"), None);
    assert_eq!(read_exif_focal_length(&[]), None);
}

#[test]
fn first_quotient_of_a_field_counts() {
    let field = |ratios| Some(ExifField { ratios, uint: None, text: String::new() });
    assert_eq!(
        first_ratio_of(&field(Some(vec![(8, 1), (9, 1)]))),
        Some(Ratio { num: 8, den: 1 })
    );
    assert_eq!(first_ratio_of(&field(Some(Vec::new()))), None);
    assert_eq!(first_ratio_of(&field(None)), None);
    assert_eq!(first_ratio_of(&None), None);
}

#[test]
fn model_is_read_as_it_is_displayed() {
    let bytes = tagged(vec![ExifTag::Model("GFX100S II".to_string())]);
    assert_eq!(read_exif_model(&bytes), Some("\"GFX100S II\"".to_string()));
    assert_eq!(read_exif_model(&jpeg(8, 8)), None);
    assert_eq!(read_exif_image_description(&jpeg(8, 8)), None);
}

#[test]
fn pixel_pitch_goes_by_exif_then_model_then_crop_factor() {
    let bytes = tagged(vec![
        ExifTag::FocalPlaneXResolution(ratio(2659, 10)),
        ExifTag::FocalPlaneResolutionUnit(vec![4]),
    ]);
    let pitch = ExifPitch { unit_um: 1000, pixels: Ratio { num: 2659, den: 10 } };
    assert_eq!(exif_pixel_pitch(&bytes), Some(pitch));
    assert!(matches!(
        sensor_pixel_pitch_mm(&bytes, Some("GFX"), 1.0, 100),
        PixelPitch::Exif(p) if p == pitch
    ));
    let none = jpeg(8, 8);
    assert_eq!(exif_pixel_pitch(&none), None);
    assert!(matches!(
        sensor_pixel_pitch_mm(&none, Some("GFX 100S"), 1.0, 11648),
        PixelPitch::Sensor { width_um: 43800, pixels: 11648 }
    ));
    assert!(matches!(
        sensor_pixel_pitch_mm(&none, Some("COOLPIX"), 1.5, 6000),
        PixelPitch::Cropped { width_um: 36000, crop_factor, pixels: 6000 } if crop_factor == 1.5
    ));
    assert!(matches!(
        choose_pixel_pitch(None, None, 2.0, 6000),
        PixelPitch::Cropped { width_um: 36000, .. }
    ));
}

#[test]
fn resolution_units_are_those_of_exif() {
    let q = Ratio { num: 300, den: 1 };
    for (unit, unit_um) in
        [(None, 25400), (Some(2), 25400), (Some(3), 10000), (Some(4), 1000), (Some(5), 1)]
    {
        assert_eq!(exif_pitch(Some(q), unit), Some(ExifPitch { unit_um, pixels: q }));
    }
    assert_eq!(exif_pitch(Some(Ratio { num: 0, den: 1 }), Some(3)), None);
    assert_eq!(exif_pitch(None, Some(3)), None);
    let inch = tagged(vec![ExifTag::FocalPlaneXResolution(ratio(6000, 1))]);
    assert_eq!(exif_pixel_pitch(&inch).unwrap().unit_um, 25400);
}

// ------------------------------------------------------------------ bodies ---

#[test]
fn bodies_are_known_by_their_names() {
    let full = CropFactor { thousandths: 1000, recognised: true };
    assert_eq!(
        detect_crop_factor("\"GFX100S II\""),
        CropFactor { thousandths: 790, recognised: true }
    );
    for model in [
        "NIKON Z 8", "Z8", "NIKON Z 9", "z9", "Z6_2", "Z7", "D850", "D800E", "D810", "A7R", "A1",
        "a9", "EOS R5", "EOS R3", "EOS R6",
    ] {
        assert_eq!(detect_crop_factor(model), full, "{model}");
        assert_eq!(sensor_width_um(model), Some(35900), "{model}");
    }
    assert_eq!(
        detect_crop_factor("COOLPIX"),
        CropFactor { thousandths: 1000, recognised: false }
    );
    assert_eq!(sensor_width_um("Gfx 50"), Some(43800));
    assert_eq!(sensor_width_um("COOLPIX"), None);
    assert_eq!(identify("gfx z8"), Body::MediumFormat);
    assert_eq!(identify("GFX"), Body::Unknown);
}

// -------------------------------------------------------------------- plan ---

#[test]
fn given_values_win_over_the_photo() {
    let bytes = tagged(vec![ExifTag::FocalLength(ratio(12, 1))]);
    let zero = tagged(vec![ExifTag::FocalLength(ratio(0, 1))]);
    let twelve = Ratio { num: 12, den: 1 };
    assert!(matches!(focal_source(Some(8.0), &bytes), FocalSource::Given(f) if f == 8.0));
    assert!(matches!(focal_source(None::<u8>, &bytes), FocalSource::Exif(q) if q == twelve));
    assert!(matches!(focal_source(None::<u8>, &zero), FocalSource::Unknown));
    assert!(matches!(choose_focal(None::<u8>, None), FocalSource::Unknown));

    assert!(matches!(crop_source(Some(0.8), Some("Z8")), CropSource::Given(c) if c == 0.8));
    assert!(matches!(
        crop_source(None::<u8>, Some("GFX")),
        CropSource::Model(CropFactor { thousandths: 790, recognised: true })
    ));
    assert!(matches!(crop_source(None::<u8>, None), CropSource::Assumed));

    assert!(matches!(fov_source(Some(75), Some(35), &bytes), FovSource::Angle(75)));
    assert!(matches!(fov_source(None, Some(35), &bytes), FovSource::Focal(35)));
    assert!(matches!(fov_source(None::<u8>, None, &bytes), FovSource::ExifFocal(q) if q == twelve));
    assert!(matches!(choose_fov(None::<u8>, None, None), FovSource::Assumed));
}
