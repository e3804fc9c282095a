use fisheye_defish::animate::{
    assemble_command, cap_width, destination, frame_count, frame_name, frame_pattern,
    frame_position, frame_width, is_video_ext, morph, opening, sequence_ext, sequence_stem, video_args,
    video_codec_args, video_ext, CropStyle, Destination, Look, Morph, Span,
};
use fisheye_defish::cli::{leads, with_default_subcommand};
use fisheye_defish::metadata::Ratio;
use fisheye_defish::output::{
    clamp_quality, default_output, flatten_description, is_jpeg, refish_description, software_tag,
    tunnel_description, FlattenSettings, RefishSettings, VERSION,
};
use fisheye_defish::projection::Projection;
use fisheye_defish::sorting::sorted;
use fisheye_defish::stamp::{parse_refish_stamp, refish_stamp_token};
use fisheye_defish::text::{
    char_is_space, contains, contains_any, find_chars, reads_as_number, same_text, split_words,
    text_between, to_decimal, to_ascii, to_zero_padded,
};

fn words(v: &[&str]) -> Vec<String> {
    v.iter().map(|s| s.to_string()).collect()
}

// -------------------------------------------------------------------- text ---

#[test]
fn white_space_is_that_of_unicode() {
    for n in 0..=0x10ffffu32 {
        if let Some(c) = char::from_u32(n) {
            assert_eq!(char_is_space(c), c.is_whitespace(), "{n:x}");
        }
    }
}

#[test]
fn words_are_split_like_std_does() {
    for s in ["", " ", "a", "  a b\t\u{3000}c\n", "x\u{85}y", "theta=1 proj=cyl  r=2 "] {
        let want: Vec<String> = s.split_whitespace().map(|w| w.to_string()).collect();
        assert_eq!(split_words(s), want);
    }
}

#[test]
fn searching_finds_the_first_place() {
    let hay: Vec<char> = "abcabc".chars().collect();
    let bc: Vec<char> = "bc".chars().collect();
    assert_eq!(find_chars(&hay, &bc), Some(1));
    assert_eq!(find_chars(&bc, &hay), None);
    assert_eq!(find_chars(&hay, &Vec::new()), Some(0));
    assert!(contains("nikon z 8", "z 8"));
    assert!(!contains("nikon z 8", "z8"));
    assert!(contains_any("ilce-7rm5 a7", &vec!["z8", "a7"]));
    assert!(!contains_any("coolpix", &vec!["z8", "a7"]));
    assert!(same_text("é", "é"));
    assert!(!same_text("é", "e"));
    assert_eq!(text_between(&hay, 1, 3), "bc");
}

#[test]
fn numerals_are_decimal() {
    assert_eq!(to_decimal(0), "0");
    assert_eq!(to_decimal(90), "90");
    assert_eq!(to_decimal(u32::MAX), "4294967295");
    assert_eq!(to_zero_padded(7, 4), "0007");
    assert_eq!(to_zero_padded(12345, 4), "12345");
}

#[test]
fn numbers_are_read_like_std_does() {
    let parts = ["", "+", "-", "1", "23", ".", "e", "E", "inf", "NaN", "infinity", "Inf", "x", " "];
    for a in parts {
        for b in parts {
            for c in parts {
                for d in parts {
                    let s = format!("{a}{b}{c}{d}");
                    assert_eq!(reads_as_number(&s), s.parse::<f64>().is_ok(), "{s:?}");
                }
            }
        }
    }
    for s in ["1.134464", "-0.5e-12", ".5", "5.", "1e+3", "１", "1_0", "0x10", "1.2.3", "1e5e5"] {
        assert_eq!(reads_as_number(s), s.parse::<f64>().is_ok(), "{s:?}");
    }
}

#[test]
fn ascii_text_is_kept_and_the_rest_replaced() {
    assert_eq!(to_ascii("a\t\"b\" ~\u{7f}\0"), "a\t\"b\" ~\u{7f}\0");
    assert_eq!(to_ascii("Größe\n5µm\u{80}"), "Gr??e\n5?m?");
}

#[test]
fn values_are_sorted() {
    assert_eq!(sorted(&vec![3, 1, 2, 1]), vec![1, 1, 2, 3]);
    assert_eq!(sorted(&Vec::new()), Vec::<u64>::new());
}

// -------------------------------------------------------------- projection ---

#[test]
fn projections_go_by_short_and_full_names() {
    assert_eq!("rect".parse(), Ok(Projection::Rectilinear));
    assert_eq!("Rectilinear".parse(), Ok(Projection::Rectilinear));
    assert_eq!("CYL".parse(), Ok(Projection::Cylindrical));
    assert_eq!(Projection::parse("cylindrical"), Ok(Projection::Cylindrical));
    for p in [Projection::Rectilinear, Projection::Cylindrical] {
        assert_eq!(Projection::parse(p.short_name()), Ok(p));
        assert_eq!(Projection::parse(p.full_name()), Ok(p));
    }
}

#[test]
fn unknown_projection_is_refused() {
    assert_eq!(
        Projection::parse("banana"),
        Err("Unknown projection 'banana'. Use rect or cyl.".to_string())
    );
    assert_eq!(
        Projection::parse("Größe"),
        Err("Unknown projection 'Größe'. Use rect or cyl.".to_string())
    );
}

#[test]
fn errors_on_missing_input_and_bad_projection() {
    assert!(image::open("/no/such/file.jpg").is_err());
    assert!("banana".parse::<Projection>().is_err());
}

#[test]
fn projection_suits_the_photo() {
    assert_eq!(Projection::suited(None, true), Projection::Cylindrical);
    assert_eq!(Projection::suited(None, false), Projection::Rectilinear);
    assert_eq!(Projection::suited(Some(Projection::Rectilinear), true), Projection::Rectilinear);
}

// ------------------------------------------------------------------- stamp ---

#[test]
fn stamp_is_written_in_brackets() {
    assert_eq!(
        refish_stamp_token("1.134464", &Projection::Rectilinear, "512.00"),
        "[ff-refish theta=1.134464 proj=rect r=512.00]"
    );
    assert_eq!(
        refish_stamp_token("0.5", &Projection::Cylindrical, "1"),
        "[ff-refish theta=0.5 proj=cyl r=1]"
    );
}

#[test]
fn stamp_is_read_back_from_a_description() {
    let token = refish_stamp_token("1.134464", &Projection::Cylindrical, "512.00");
    let s = parse_refish_stamp(&format!("\"{token} refish (x): [more]\"")).unwrap();
    assert_eq!(s.theta_max, "1.134464");
    assert_eq!(s.proj, Projection::Cylindrical);
    assert_eq!(s.r_circle, "512.00");
}

#[test]
fn stamp_with_a_missing_or_bad_part_is_none() {
    assert!(parse_refish_stamp("").is_none());
    assert!(parse_refish_stamp("theta=1 proj=cyl r=2").is_none());
    assert!(parse_refish_stamp("[ff-refish theta=1 proj=cyl r=2").is_none());
    assert!(parse_refish_stamp("[ff-refish theta=1 proj=cyl]").is_none());
    assert!(parse_refish_stamp("[ff-refish theta=1 proj=banana r=2]").is_none());
    assert!(parse_refish_stamp("[ff-refish theta proj=cyl r=2]").is_none());
    assert!(parse_refish_stamp("[ff-refish theta=abc proj=cyl r=2]").is_none());
    assert!(parse_refish_stamp("[ff-refish theta=1 proj=cyl r=2px]").is_none());
    assert!(parse_refish_stamp("[ff-refish theta=1 theta=2=3 proj=cyl r=2]").is_none());
    assert!(parse_refish_stamp("[ff-refish theta= proj=cyl r=2]").is_none());
}

#[test]
fn later_values_of_a_stamp_win_and_unknown_keys_do_not_matter() {
    let s = parse_refish_stamp("x [[ff-refish k=v theta=abc\ttheta=2 proj=Rect r=4 ]").unwrap();
    assert_eq!(s.theta_max, "2");
    assert_eq!(s.proj, Projection::Rectilinear);
    assert_eq!(s.r_circle, "4");
}

// --------------------------------------------------------------------- cli ---

#[test]
fn bare_image_arg_defaults_to_flatten() {
    let bare = ["defish", "tests/test_fisheye.jpg", "-f", "15", "-c", "1", "-o", "cli_default.jpg"];
    let full =
        ["defish", "flatten", "tests/test_fisheye.jpg", "-f", "15", "-c", "1", "-o", "cli_default.jpg"];
    assert_eq!(with_default_subcommand(words(&bare)), words(&full));
    assert_eq!(with_default_subcommand(words(&full)), words(&full));
}

#[test]
fn subcommands_and_global_flags_stand_as_they_are() {
    for first in
        ["flatten", "refish", "tunnel", "animate", "help", "-h", "--help", "-V", "--version"]
    {
        assert!(leads(first));
        let argv = words(&["defish", first, "x"]);
        assert_eq!(with_default_subcommand(argv.clone()), argv);
    }
    assert_eq!(with_default_subcommand(words(&["defish"])), words(&["defish"]));
    assert_eq!(with_default_subcommand(Vec::new()), Vec::<String>::new());
    assert_eq!(
        with_default_subcommand(words(&["defish", "-v"])),
        words(&["defish", "flatten", "-v"])
    );
}

// ----------------------------------------------------------------- animate ---

#[test]
fn timeline_runs_from_zero_to_one() {
    assert_eq!(frame_count(0), 1);
    assert_eq!(frame_count(5), 5);
    let at: Vec<Ratio> = (0..5).map(|i| frame_position(i, 5)).collect();
    let want: Vec<Ratio> = (0..5).map(|i| Ratio { num: i, den: 4 }).collect();
    assert_eq!(at, want);
    assert_eq!(frame_position(0, 1), Ratio { num: 1, den: 1 });
}

#[test]
fn crop_styles_go_by_name() {
    assert_eq!("simul".parse(), Ok(CropStyle::Simul));
    assert_eq!(CropStyle::parse("Phased"), Ok(CropStyle::Phased));
    assert_eq!(
        CropStyle::parse("slow"),
        Err("Unknown crop style 'slow'. Use simul or phased.".to_string())
    );
}

#[test]
fn frames_morph_from_the_opening_to_flat() {
    let start = frame_position(0, 3);
    let middle = frame_position(1, 3);
    let end = frame_position(2, 3);
    let unroll = Morph::Blend { from: Look::Strip, to: Look::Flat, over: Span::Full };
    let whole = Morph::Blend { from: Look::Whole, to: Look::Flat, over: Span::Full };
    let crop = Morph::Blend { from: Look::Whole, to: Look::Strip, over: Span::CropPhase };
    let rest = Morph::Blend { from: Look::Strip, to: Look::Flat, over: Span::Rest };
    assert_eq!(morph(start, opening(false, CropStyle::Simul), true), unroll);
    assert_eq!(morph(middle, opening(false, CropStyle::Phased), false), unroll);
    assert_eq!(morph(start, opening(true, CropStyle::Simul), true), whole);
    assert_eq!(morph(start, opening(true, CropStyle::Phased), true), crop);
    assert_eq!(morph(middle, opening(true, CropStyle::Phased), false), rest);
    for style in [CropStyle::Simul, CropStyle::Phased] {
        for show_crop in [false, true] {
            assert_eq!(morph(end, opening(show_crop, style), false), Morph::Done);
        }
    }
}

#[test]
fn wide_frames_are_capped() {
    assert_eq!(cap_width(1920, 3840), Some(Ratio { num: 1920, den: 3840 }));
    assert_eq!(cap_width(1920, 1920), None);
    assert_eq!(cap_width(0, 3840), None);
    assert_eq!(frame_width(1920, 3840), 1920);
    assert_eq!(frame_width(1920, 1000), 1000);
    assert_eq!(frame_width(0, 3840), 3840);
}

#[test]
fn frames_go_to_a_video_unless_they_cannot() {
    assert_eq!(destination(true, true), Destination::Sequence);
    assert_eq!(destination(true, false), Destination::Sequence);
    assert_eq!(destination(false, false), Destination::SequenceForWantOfEncoder);
    assert_eq!(destination(false, true), Destination::Video);
}

#[test]
fn frame_files_are_numbered() {
    for i in 0..5 {
        assert_eq!(frame_name("cli_anim", i, "png"), format!("cli_anim_{i:04}.png"));
    }
    assert_eq!(frame_name("a", 12345, "jpg"), "a_12345.jpg");
    assert_eq!(frame_pattern("photo_anim", "png"), "photo_anim_%04d.png");
    let beside = sequence_stem("dir", "photo", None);
    assert_eq!((beside.dir, beside.name.as_str()), ("dir", "photo_anim"));
    let asked = sequence_stem("dir", "photo", Some(("tmp", "cli_sc")));
    assert_eq!((asked.dir, asked.name.as_str()), ("tmp", "cli_sc"));
    assert_eq!(sequence_ext(Some("png")), "png");
    assert_eq!(sequence_ext(Some("JPG")), "JPG");
    assert_eq!(sequence_ext(Some("MP4")), "png");
    assert_eq!(sequence_ext(None), "png");
    assert_eq!(
        assemble_command("30", "photo_anim_%04d.png", 16, "yuv420p"),
        "ffmpeg -framerate 30 -i photo_anim_%04d.png -c:v libx264 -crf 16 -pix_fmt yuv420p out.mp4"
    );
}

#[test]
fn videos_go_by_extension() {
    for e in ["mp4", "mov", "mkv", "webm", "avi", "m4v", "MOV"] {
        assert!(is_video_ext(e));
    }
    // The Kelvin sign is a k in lower case.
    assert!(is_video_ext("M\u{212a}V"));
    for e in ["gif", "png", "jpg", ""] {
        assert!(!is_video_ext(e));
    }
    assert_eq!(video_ext(Some("MOV")), "mov");
    assert_eq!(video_ext(None), "mp4");
}

#[test]
fn codec_goes_by_container() {
    let even = ["-vf", "crop=trunc(iw/2)*2:trunc(ih/2)*2"];
    let h264 = [&even[..], &["-c:v", "libx264", "-crf", "16", "-pix_fmt", "yuv420p"]].concat();
    assert_eq!(video_codec_args("mp4", 16, "yuv420p"), words(&h264));
    assert_eq!(video_codec_args("mkv", 16, "yuv420p"), words(&h264));
    let prores =
        [&even[..], &["-c:v", "prores_ks", "-profile:v", "3", "-pix_fmt", "yuv422p10le"]].concat();
    assert_eq!(video_codec_args("mov", 16, "yuv420p"), words(&prores));
    let vp9 = [
        &even[..],
        &["-c:v", "libvpx-vp9", "-crf", "24", "-b:v", "0", "-pix_fmt", "yuv444p"],
    ]
    .concat();
    assert_eq!(video_codec_args("webm", 24, "yuv444p"), words(&vp9));
}

#[test]
fn videos_are_encoded_at_a_constant_rate() {
    let args = video_args(640, 359, "12.5", "mp4", 16, "yuv420p");
    assert_eq!(
        args,
        words(&[
            "-hide_banner", "-loglevel", "error", "-y", "-f", "rawvideo", "-pix_fmt", "rgb24", "-s",
            "640x359", "-r", "12.5", "-i", "-", "-vf", "crop=trunc(iw/2)*2:trunc(ih/2)*2", "-c:v",
            "libx264", "-crf", "16", "-pix_fmt", "yuv420p", "-r", "30", "-movflags", "+faststart",
        ])
    );
    let webm = video_args(640, 359, "12.5", "webm", 16, "yuv420p");
    assert_eq!(webm[webm.len() - 2..], words(&["-r", "30"])[..]);
}

// ------------------------------------------------------------------ output ---

#[test]
fn flatten_default_output_is_written_next_to_input() {
    let out = default_output("cli_subdir", "photo", "defish", "jpg");
    assert_eq!(out.dir, "cli_subdir");
    assert_eq!(out.name, "photo_defish.jpg");
}

#[test]
fn jpeg_goes_by_extension() {
    for e in ["jpg", "jpeg", "jpe", "jfif", "JPG", "Jpeg"] {
        assert!(is_jpeg(Some(e)));
    }
    for e in ["png", "tiff", "jp2", ""] {
        assert!(!is_jpeg(Some(e)));
    }
    assert!(!is_jpeg(None));
}

#[test]
fn quality_is_clamped() {
    assert_eq!(clamp_quality(0), 1);
    assert_eq!(clamp_quality(1), 1);
    assert_eq!(clamp_quality(95), 95);
    assert_eq!(clamp_quality(255), 100);
}

#[test]
fn settings_are_summarized() {
    let flatten = FlattenSettings {
        projection: Projection::Rectilinear,
        focal_mm: "8.0".to_string(),
        crop_factor: "0.790".to_string(),
        equivalent_mm: "6.3".to_string(),
        is_circular: true,
        radius_px: "3360".to_string(),
        strip_percent: "50".to_string(),
        scale: "1".to_string(),
        quality: 95,
        azimuth_deg: "88.2".to_string(),
        elevation_deg: "45.0".to_string(),
        out_w: 8000,
        out_h: 2500,
        source: "DSCF1857.JPG".to_string(),
    };
    assert_eq!(
        flatten_description(VERSION, &flatten),
        "defish (fisheye-flatten v0.1.0): projection=rectilinear, focal=8.0mm, crop=0.790x, \
         FF-equiv=6.3mm, lens=circular R=3360px, strip=50%, scale=1, quality=95, \
         coverage=az+/-88.2deg/el+/-45.0deg, output=8000x2500px, source=DSCF1857.JPG"
    );
    let full = FlattenSettings { is_circular: false, quality: 0, ..flatten };
    let text = flatten_description("2.0", &full);
    assert!(text.contains("v2.0)") && text.contains("lens=full-frame R=") && text.contains("quality=1,"));

    let refish = RefishSettings {
        theta_max: "1.134464".to_string(),
        r_circle: "512.00".to_string(),
        source_fov_deg: "130.0".to_string(),
        coverage_deg: "130.0".to_string(),
        size: 1024,
        quality: 200,
        source: "checkerboard.jpg".to_string(),
    };
    assert_eq!(
        refish_description(VERSION, &refish),
        "[ff-refish theta=1.134464 proj=rect r=512.00] refish (fisheye-flatten v0.1.0): \
         rectilinear->fisheye, source_hFoV=130.0deg, output_coverage=130.0deg, size=1024px, \
         quality=100, source=checkerboard.jpg"
    );
    assert_eq!(
        tunnel_description(VERSION, "-0.5", "2.000", 95, "a.png"),
        "tunnel (fisheye-flatten v0.1.0): radial warp, strength=-0.5, exponent=2.000, quality=95, \
         source=a.png"
    );
    assert_eq!(software_tag(VERSION), "defish (fisheye-flatten) v0.1.0");

    let named = FlattenSettings { source: "Größe 5µ.jpg".to_string(), ..full };
    let text = flatten_description(VERSION, &named);
    assert!(text.is_ascii() && text.ends_with("source=Gr??e 5?.jpg"));
    let named = RefishSettings { source: "Größe 5µ.jpg".to_string(), ..refish };
    assert!(refish_description(VERSION, &named).ends_with("source=Gr??e 5?.jpg"));
    assert!(tunnel_description(VERSION, "1", "0.500", 95, "ß").ends_with("source=?"));
    assert!(tunnel_description(VERSION, "1", "0.500", 95, "a\tb").ends_with("source=a\tb"));
}
