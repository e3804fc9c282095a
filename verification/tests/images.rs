//! Whole runs on drawn photos: the library's decisions with the lens geometry
//! worked out here.

use fisheye_defish::animate::{
    cap_width, defish_source, frame_name, frame_position, frame_width, morph, render_frame, CropStyle, Look, Morph, Opening,
    Span,
};
use fisheye_defish::circle::{detect_circle_horizontal, detect_image_circle, ImageCircle, RAYS};
use fisheye_defish::lens::{
    auto_focal_length, closest_prediction, focal_candidates_from_circle, judge_candidates,
    laowa_half_aov_deg, AutoFocal, HalfAov, Side, FOCAL_STEPS,
};
use fisheye_defish::output::{save_image, Saved};
use fisheye_defish::projection::Projection;
use fisheye_defish::raster::{
    bilinear, fits, remap, render, rgb_bytes, sample_or_black, size_of, Canvas, SamplePoint,
};
use fisheye_defish::warp::{
    disc_pixel, refish, refish_size, tunnel, tunnel_ray, unwarped, DiscPixel, TunnelRay,
};
use image::{DynamicImage, GenericImageView, Rgb, RgbImage};

// ------------------------------------------------------------------- tools ---

fn lerp(a: u8, b: u8, t: f64) -> u8 {
    (a as f64 + (b as f64 - a as f64) * t).round() as u8
}

fn point(x: f64, y: f64) -> SamplePoint<f64> {
    SamplePoint { x: x.floor() as i64, y: y.floor() as i64, tx: x - x.floor(), ty: y - y.floor() }
}

fn photo(w: u32, h: u32, f: impl Fn(u32, u32) -> [u8; 3]) -> DynamicImage {
    DynamicImage::ImageRgb8(RgbImage::from_fn(w, h, |x, y| Rgb(f(x, y))))
}

/// A checkerboard with a red vertical and a green horizontal line through its
/// center.
fn checkerboard() -> DynamicImage {
    photo(1200, 900, |x, y| {
        if (597..603).contains(&x) {
            [220, 30, 30]
        } else if (447..453).contains(&y) {
            [30, 200, 30]
        } else if (x / 50 + y / 50) % 2 == 0 {
            [230, 230, 230]
        } else {
            [60, 60, 60]
        }
    })
}

/// A bright photo that fills its frame.
fn fisheye() -> DynamicImage {
    photo(900, 600, |x, y| {
        [(60 + x * 190 / 900) as u8, (60 + y * 190 / 600) as u8, (60 + (x + y) % 150) as u8]
    })
}

/// A bright disc on black.
fn disc(w: u32, h: u32, r: f64) -> DynamicImage {
    photo(w, h, |x, y| {
        let (dx, dy) = (x as f64 + 0.5 - w as f64 / 2.0, y as f64 + 0.5 - h as f64 / 2.0);
        if (dx * dx + dy * dy).sqrt() <= r { [200, 180, 160] } else { [5, 5, 5] }
    })
}

fn rays(w: u32, h: u32) -> Vec<Vec<(i64, i64)>> {
    let (cx, cy) = (w as f64 / 2.0, h as f64 / 2.0);
    let half_diag = (cx * cx + cy * cy).sqrt();
    (0..RAYS)
        .map(|i| {
            let a = std::f64::consts::TAU * i as f64 / RAYS as f64;
            (1..=(half_diag as u32))
                .map(|r| {
                    let (x, y) = (cx + r as f64 * a.cos(), cy + r as f64 * a.sin());
                    (x.round() as i64, y.round() as i64)
                })
                .collect()
        })
        .collect()
}

fn circle_of(img: &DynamicImage) -> ImageCircle {
    let (w, h) = img.dimensions();
    detect_image_circle(img, &rays(w, h))
}

fn radius_of(img: &DynamicImage) -> (f64, bool) {
    let (w, h) = img.dimensions();
    match circle_of(img) {
        ImageCircle::Full { radius } => (radius as f64, true),
        ImageCircle::Sides { quarter_pixels } => (quarter_pixels as f64 / 4.0, true),
        ImageCircle::Absent => {
            let (cx, cy) = (w as f64 / 2.0, h as f64 / 2.0);
            ((cx * cx + cy * cy).sqrt(), false)
        }
    }
}

fn half_aov_deg(focal_ff: f64) -> f64 {
    let f = if focal_ff.is_nan() { 15.0 } else { focal_ff.clamp(8.0, 15.0) };
    match laowa_half_aov_deg(f.floor() as u32, f.ceil() as u32) {
        HalfAov::Between { from, to } => {
            let (f0, a0) = (from.0 as f64, from.1 as f64 / 10.0);
            let (f1, a1) = (to.0 as f64, to.1 as f64 / 10.0);
            a0 + (f - f0) / (f1 - f0) * (a1 - a0)
        }
        HalfAov::Last { tenths } => tenths as f64 / 10.0,
    }
}

struct Geom {
    src: (f64, f64),
    out: (f64, f64),
    az_max: f64,
    el_max: f64,
    theta_max: f64,
    r: f64,
    scale: f64,
    proj: Projection,
    width: Option<u32>,
}

struct Flatten {
    focal: f64,
    strip: f64,
    proj: Option<Projection>,
    scale: f64,
    radius: Option<f64>,
}

const PLAIN: Flatten = Flatten { focal: 15.0, strip: 0.5, proj: None, scale: 1.0, radius: None };

fn geom(img: &DynamicImage, o: &Flatten) -> Geom {
    let (w, h) = img.dimensions();
    let src = (w as f64 / 2.0, h as f64 / 2.0);
    let (r, circular) = match o.radius {
        Some(r) => (r, r < 0.9 * (src.0 * src.0 + src.1 * src.1).sqrt()),
        None => radius_of(img),
    };
    let theta_max = half_aov_deg(o.focal).to_radians();
    let proj = Projection::suited(o.proj, circular);
    let strip = (if o.strip > 1.0 { o.strip / 100.0 } else { o.strip }).clamp(0.01, 0.99);
    let f_pix = r / theta_max;
    let el_max = (strip * (if circular { r } else { src.1 }) / f_pix).min(theta_max * 0.95);
    let az_max = if circular { theta_max * 0.98 } else { src.0 / r * theta_max };
    let out_x = match proj {
        Projection::Cylindrical => f_pix * az_max,
        Projection::Rectilinear => f_pix * az_max.tan(),
    } * o.scale;
    let out = (out_x, f_pix * el_max.tan() * o.scale);
    Geom { src, out, az_max, el_max, theta_max, r, scale: o.scale, proj, width: None }
}

/// The geometry of frames no wider than `max_width`.
fn capped_geom(img: &DynamicImage, max_width: u32) -> Geom {
    let full = geom(img, &PLAIN);
    let (w, _) = full.size();
    match cap_width(max_width, w) {
        Some(q) => {
            let scale = q.num as f64 / q.den as f64;
            let mut g = geom(img, &Flatten { scale, ..PLAIN });
            g.width = Some(frame_width(max_width, w));
            g
        }
        None => full,
    }
}

impl Geom {
    fn size(&self) -> (u32, u32) {
        (
            self.width.unwrap_or(((self.out.0 * 2.0).round() as u32).max(1)),
            ((self.out.1 * 2.0).round() as u32).max(1),
        )
    }

    fn look(&self, look: Look, x: u32, y: u32) -> (f64, f64) {
        let (dx, dy) = (x as f64 + 0.5 - self.out.0, y as f64 + 0.5 - self.out.1);
        match look {
            Look::Whole => {
                let fit = (self.out.0 / self.src.0).min(self.out.1 / self.src.1);
                (self.src.0 + dx / fit, self.src.1 + dy / fit)
            }
            Look::Strip => (self.src.0 + dx / self.scale, self.src.1 + dy / self.scale),
            Look::Flat => {
                let y = dy / self.out.1 * self.el_max.tan();
                let (x, z) = match self.proj {
                    Projection::Cylindrical => (dx / self.out.0 * self.az_max).sin_cos(),
                    Projection::Rectilinear => (dx / self.out.0 * self.az_max.tan(), 1.0),
                };
                let theta = x.hypot(y).atan2(z);
                if theta < 1e-9 {
                    return self.src;
                }
                let r = theta / self.theta_max * self.r / x.hypot(y);
                (self.src.0 + r * x, self.src.1 + r * y)
            }
        }
    }

    fn frame(&self, img: &DynamicImage, i: u32, steps: u32, opening: Opening) -> RgbImage {
        let at = frame_position(i, steps);
        let t = at.num as f64 / at.den as f64;
        let c = 0.4;
        let shown = morph(at, opening, t <= c);
        let (w, h) = self.size();
        let look = |l: Look, x: u32, y: u32| self.look(l, x, y);
        let blend = |a: (f64, f64), b: (f64, f64), over: Span| {
            let u = match over {
                Span::Full => t,
                Span::CropPhase => t / c,
                Span::Rest => (t - c) / (1.0 - c),
            };
            (a.0 + u * (b.0 - a.0), a.1 + u * (b.1 - a.1))
        };
        let place = |(x, y): (f64, f64)| point(x, y);
        image_of(&render_frame(img, w, h, shown, &look, &blend, &place, &lerp), w, h)
    }
}

fn flatten(img: &DynamicImage, o: &Flatten) -> RgbImage {
    geom(img, o).frame(img, 0, 1, Opening::Cropped)
}

fn image_of(canvas: &Canvas, w: u32, h: u32) -> RgbImage {
    RgbImage::from_raw(w, h, rgb_bytes(canvas)).unwrap()
}

/// The canvas after it went through a JPEG file.
fn through_jpeg(canvas: &Canvas) -> DynamicImage {
    match save_image(canvas, Some("jpg"), 95) {
        Ok(Saved::Jpeg(file)) => image::load_from_memory(&file.into_bytes()).unwrap(),
        _ => unreachable!(),
    }
}

fn refished(img: &DynamicImage, source_fov: f64, fov: f64, size: u32) -> DynamicImage {
    let (w, h) = img.dimensions();
    let (cx, cy) = (w as f64 / 2.0, h as f64 / 2.0);
    let f_src = cx / (source_fov.to_radians() / 2.0).tan();
    let theta_max = (fov.to_radians() / 2.0).min(89.9_f64.to_radians());
    let ray = |dx: i64, dy: i64| {
        let (dx, dy) = (dx as f64 / 2.0, dy as f64 / 2.0);
        let r = (dx * dx + dy * dy).sqrt();
        let theta = r / (size as f64 / 2.0) * theta_max;
        if theta >= 1.569 {
            return None;
        }
        let rr = f_src * theta.tan();
        Some(point(cx + rr * dx / r, cy + rr * dy / r))
    };
    through_jpeg(&refish(img, size, &point(cx, cy), &ray, &lerp))
}

fn tunneled(img: &DynamicImage, strength: f64) -> DynamicImage {
    let (w, h) = img.dimensions();
    let (cx, cy) = (w as f64 / 2.0, h as f64 / 2.0);
    let p = 1.0 / (1.0 + strength.max(-0.95));
    let warp = |ray: TunnelRay| {
        let scale = (ray.radius_num as f64 / ray.radius_den as f64).powf(p - 1.0);
        Some(point(cx + ray.dx as f64 / 2.0 * scale, cy + ray.dy as f64 / 2.0 * scale))
    };
    through_jpeg(&tunnel(img, &point(cx, cy), &warp, &lerp))
}

fn luma(p: &Rgb<u8>) -> f64 {
    let [r, g, b] = p.0;
    0.299 * r as f64 + 0.587 * g as f64 + 0.114 * b as f64
}

fn black_fraction(img: &RgbImage) -> f64 {
    let black = img.pixels().filter(|p| p.0.iter().all(|&c| c < 12)).count();
    black as f64 / (img.width() as f64 * img.height() as f64)
}

fn mean_abs_diff(a: &RgbImage, b: &RgbImage) -> f64 {
    assert_eq!(a.dimensions(), b.dimensions());
    let sum: f64 = a.iter().zip(b.iter()).map(|(&p, &q)| (p as f64 - q as f64).abs()).sum();
    sum / (a.width() as f64 * a.height() as f64 * 3.0)
}

fn central_stats(img: &RgbImage, frac: f64) -> (f64, f64) {
    let (w, h) = img.dimensions();
    let (cw, ch) = ((w as f64 * frac) as u32, (h as f64 * frac) as u32);
    let (x0, y0) = ((w - cw) / 2, (h - ch) / 2);
    let mut all = Vec::new();
    for y in y0..y0 + ch {
        for x in x0..x0 + cw {
            all.push(luma(img.get_pixel(x, y)));
        }
    }
    let n = all.len() as f64;
    let mean = all.iter().sum::<f64>() / n;
    let var = all.iter().map(|v| v * v).sum::<f64>() / n - mean * mean;
    (mean, var.max(0.0).sqrt())
}

fn red_band_fraction(img: &RgbImage, xc: u32) -> f64 {
    let (w, h) = img.dimensions();
    let band = (w / 200).max(2);
    let (x0, x1) = (xc.saturating_sub(band), (xc + band).min(w - 1));
    let (mut c, mut t) = (0u64, 0u64);
    for x in x0..=x1 {
        for y in 0..h {
            let [r, g, b] = img.get_pixel(x, y).0;
            t += 1;
            if r > 140 && g < 100 && b < 100 {
                c += 1;
            }
        }
    }
    c as f64 / t as f64
}

fn green_band_fraction(img: &RgbImage, yc: u32) -> f64 {
    let (w, h) = img.dimensions();
    let band = (h / 200).max(2);
    let (y0, y1) = (yc.saturating_sub(band), (yc + band).min(h - 1));
    let (mut c, mut t) = (0u64, 0u64);
    for y in y0..=y1 {
        for x in 0..w {
            let [r, g, b] = img.get_pixel(x, y).0;
            t += 1;
            if g > 130 && r < 110 && b < 110 {
                c += 1;
            }
        }
    }
    c as f64 / t as f64
}

// ---------------------------------------------------------------- sampling ---

#[test]
fn sampling_blends_four_pixels() {
    let img = photo(2, 2, |x, y| [(100 * x) as u8, (200 * y) as u8, 9]);
    let at = |x: f64, y: f64| bilinear(&img, point(x, y), &lerp);
    assert_eq!(at(0.0, 0.0), Some([0, 0, 9]));
    assert_eq!(at(1.0, 1.0), Some([100, 200, 9]));
    assert_eq!(at(0.5, 0.25), Some([50, 50, 9]));
    assert_eq!(at(1.9, 1.9), Some([100, 200, 9]));
    assert_eq!(at(-0.01, 0.0), None);
    assert_eq!(at(0.0, -0.01), None);
    assert_eq!(at(2.0, 0.0), None);
    assert_eq!(at(0.0, 2.0), None);
    assert_eq!(sample_or_black(&img, Some(point(5.0, 0.0)), &lerp), [0, 0, 0]);
    assert_eq!(sample_or_black(&img, None, &lerp), [0, 0, 0]);
    assert_eq!(sample_or_black(&img, Some(point(1.0, 0.0)), &lerp), [100, 0, 9]);
}

#[test]
fn rendering_asks_for_every_pixel() {
    let c = render(300, 200, |x, y| [(x % 256) as u8, (y % 256) as u8, (x / 256) as u8]);
    let img = image_of(&c, 300, 200);
    for (x, y, p) in img.enumerate_pixels() {
        assert_eq!(p.0, [(x % 256) as u8, (y % 256) as u8, (x / 256) as u8]);
    }
}

#[test]
fn sizes_are_known_before_drawing() {
    assert_eq!(size_of(&fisheye()), (900, 600));
    assert!(fits(900, 600) && fits(0, u32::MAX));
    assert!(!fits(u32::MAX, u32::MAX));
}

// ------------------------------------------------------------------ circle ---

#[test]
fn full_circle_is_found_by_its_rays() {
    match circle_of(&disc(400, 300, 120.0)) {
        ImageCircle::Full { radius } => assert!((119..=121).contains(&radius), "{radius}"),
        other => panic!("{other:?}"),
    }
}

#[test]
fn cropped_circle_is_found_by_its_sides() {
    let img = disc(400, 200, 150.0);
    let q = detect_circle_horizontal(&img).unwrap();
    assert!((q as f64 / 4.0 - 150.0).abs() <= 1.0, "{q}");
    assert_eq!(circle_of(&img), ImageCircle::Sides { quarter_pixels: q });
}

#[test]
fn no_circle_is_found_where_there_is_none() {
    assert_eq!(circle_of(&fisheye()), ImageCircle::Absent);
    assert_eq!(circle_of(&photo(40, 40, |_, _| [20, 20, 20])), ImageCircle::Absent);
    assert_eq!(circle_of(&photo(1, 1, |_, _| [255, 255, 255])), ImageCircle::Absent);
    assert_eq!(detect_circle_horizontal(&fisheye()), None);
    // Off center: the half-widths disagree.
    let off = photo(400, 200, |x, _| if (60..390).contains(&x) { [99, 0, 0] } else { [0, 0, 0] });
    assert_eq!(detect_circle_horizontal(&off), None);
    // Symmetric: columns 50 to 349 of 400, so that 150 and 149 pixels lie either side.
    let even = photo(400, 200, |x, _| if (50..350).contains(&x) { [0, 99, 0] } else { [0, 0, 0] });
    assert_eq!(detect_circle_horizontal(&even), Some(2 * (150 + 149)));
}

// -------------------------------------------------------------------- lens ---

#[test]
fn angle_of_view_goes_by_the_table() {
    for (focal, deg) in [
        (8.0, 90.0), (9.0, 77.0), (10.0, 65.0), (11.0, 57.5), (12.0, 53.0), (13.0, 48.0),
        (14.0, 43.5), (15.0, 40.0), (8.5, 83.5), (10.5, 61.25), (5.0, 90.0), (50.0, 40.0),
    ] {
        assert_eq!(half_aov_deg(focal), deg, "{focal}");
    }
    assert_eq!(half_aov_deg(f64::NAN), 40.0);
    assert_eq!(
        laowa_half_aov_deg(10, 10),
        HalfAov::Between { from: (9, 770), to: (10, 650) }
    );
    let widest = HalfAov::Between { from: (8, 900), to: (9, 770) };
    let narrowest = HalfAov::Between { from: (14, 435), to: (15, 400) };
    for mm in [0, 5, 7, 8] {
        assert_eq!(laowa_half_aov_deg(mm, mm), widest);
    }
    assert_eq!(laowa_half_aov_deg(7, 8), widest);
    for mm in [15, 16, 50, u32::MAX] {
        assert_eq!(laowa_half_aov_deg(mm, mm), narrowest);
    }
    assert_eq!(laowa_half_aov_deg(8, 15), HalfAov::Last { tenths: 400 });
}

fn model_radius(focal: f64, pitch: f64, crop: f64) -> f64 {
    focal / pitch * half_aov_deg((focal * crop).clamp(8.0, 15.0)).to_radians()
}

fn auto_focal(measured: f64, pitch: f64, crop: f64) -> (AutoFocal<f64>, Vec<f64>) {
    let f_at = |i: u32| 8.0 + (15.0 - 8.0) * i as f64 / FOCAL_STEPS as f64;
    let off = |i: u32| model_radius(f_at(i), pitch, crop) - measured;
    let side = |i: u32| {
        let v = off(i);
        if v < 0.0 {
            Side::Below
        } else if v == 0.0 {
            Side::On
        } else {
            Side::Above
        }
    };
    let root = |i: u32| {
        let (f0, f1, a, b) = (f_at(i - 1), f_at(i), off(i - 1), off(i));
        f0 + (if a != b { a / (a - b) } else { 0.0 }) * (f1 - f0)
    };
    auto_focal_length(true, &side, &f_at, &root, &|i| off(i).abs().to_bits())
}

#[test]
fn focal_length_is_recovered_from_the_circle() {
    let (pitch, crop) = (0.00376, 0.79);
    let (found, all) = auto_focal(model_radius(9.5, pitch, crop), pitch, crop);
    assert!(!all.is_empty());
    assert!(all.iter().any(|f| (f - 9.5).abs() < 0.01), "{all:?}");
    match found {
        AutoFocal::Unique(f) => assert_eq!(vec![f], all),
        AutoFocal::Ambiguous(f) => assert_eq!(Some(&f), all.last()),
        other => panic!("{other:?}"),
    }
}

#[test]
fn every_root_is_given_once() {
    // The radius of 15mm, which every shorter focal length exceeds.
    let (found, all) = auto_focal(model_radius(15.0, 0.004, 1.0), 0.004, 1.0);
    assert_eq!((found, all), (AutoFocal::Unique(15.0), vec![15.0]));
    // A focal length that a prediction was made for.
    let (found, all) = auto_focal(model_radius(8.5, 0.00376, 0.79), 0.00376, 0.79);
    assert_eq!((found, all), (AutoFocal::Unique(8.5), vec![8.5]));
}

#[test]
fn closest_focal_length_is_taken_out_of_range() {
    let (found, all) = auto_focal(4000.0, 0.004, 1.0);
    assert_eq!((found, all), (AutoFocal::OutOfRange(8.0), Vec::new()));
    let (found, all) = auto_focal(1.0, 0.004, 1.0);
    assert!(all.is_empty());
    match found {
        AutoFocal::OutOfRange(f) => {
            for i in 0..=FOCAL_STEPS {
                let g = 8.0 + 7.0 * i as f64 / FOCAL_STEPS as f64;
                assert!(model_radius(f, 0.004, 1.0) <= model_radius(g, 0.004, 1.0));
            }
        }
        other => panic!("{other:?}"),
    }
    assert_eq!(closest_prediction(&|i: u32| (i as u64).abs_diff(40)), 40);
    assert_eq!(closest_prediction(&|_: u32| 3), 0);
}

#[test]
fn every_crossing_is_a_candidate() {
    let (at, within) = (|i: u32| (i, true), |i: u32| (i, false));
    let side = |i: u32| if (100..200).contains(&i) { Side::Above } else { Side::Below };
    let two = vec![(100, false), (200, false)];
    let far = |i: u32| i as u64;
    assert_eq!(focal_candidates_from_circle(&side, &at, &within), two);
    assert_eq!(
        auto_focal_length(true, &side, &at, &within, &far),
        (AutoFocal::Ambiguous((200, false)), two)
    );
    assert_eq!(
        auto_focal_length(false, &side, &at, &within, &far),
        (AutoFocal::NoCircle, Vec::new())
    );
    // Met at a prediction: touching, crossing, at either end.
    let touching = |i: u32| if i == 7 { Side::On } else { Side::Above };
    assert_eq!(focal_candidates_from_circle(&touching, &at, &within), vec![(7, true)]);
    let crossing = |i: u32| match i {
        0..=6 => Side::Below,
        7 => Side::On,
        _ => Side::Above,
    };
    assert_eq!(focal_candidates_from_circle(&crossing, &at, &within), vec![(7, true)]);
    let first = |i: u32| if i == 0 { Side::On } else { Side::Below };
    assert_eq!(focal_candidates_from_circle(&first, &at, &within), vec![(0, true)]);
    let last = |i: u32| if i == FOCAL_STEPS { Side::On } else { Side::Above };
    assert_eq!(focal_candidates_from_circle(&last, &at, &within), vec![(FOCAL_STEPS, true)]);
    let rising = |i: u32| if i < 350 { Side::Below } else { Side::Above };
    assert_eq!(
        auto_focal_length(true, &rising, &at, &within, &far),
        (AutoFocal::Unique((350, false)), vec![(350, false)])
    );
    assert_eq!(focal_candidates_from_circle(&|_| Side::Above, &at, &within), Vec::new());
    assert_eq!(
        auto_focal_length(true, &|_| Side::Above, &at, &within, &far),
        (AutoFocal::OutOfRange((0, true)), Vec::new())
    );
    assert_eq!(judge_candidates(&Vec::new(), 9), AutoFocal::OutOfRange(9));
    assert_eq!(judge_candidates(&vec![8], 9), AutoFocal::Unique(8));
    assert_eq!(judge_candidates(&vec![8, 10], 9), AutoFocal::Ambiguous(10));
}

// -------------------------------------------------------------------- warp ---

#[test]
fn disc_has_an_inside_and_an_outside() {
    assert_eq!(disc_pixel(4, 0, 0), DiscPixel::Outside);
    assert_eq!(disc_pixel(3, 0, 0), DiscPixel::Ray { dx: -2, dy: -2 });
    assert_eq!(disc_pixel(3, 1, 1), DiscPixel::Center);
    assert_eq!(disc_pixel(400, 200, 0), DiscPixel::Ray { dx: 1, dy: -399 });
    assert_eq!(disc_pixel(1, 0, 0), DiscPixel::Center);
    assert_eq!(disc_pixel(u32::MAX, 0, 0), DiscPixel::Outside);
    assert_eq!(refish_size(None, 1200, 900), 900);
    assert_eq!(refish_size(Some(400), 1200, 900), 400);
    assert_eq!(refish_size(Some(0), 1200, 900), 1);
}

#[test]
fn tunnel_rays_end_in_the_frame() {
    assert_eq!(
        tunnel_ray(1200, 900, 0, 450),
        TunnelRay { dx: -1199, dy: 1, radius_num: 1199, radius_den: 1200 }
    );
    assert_eq!(
        tunnel_ray(1200, 900, 600, 899),
        TunnelRay { dx: 1, dy: 899, radius_num: 899, radius_den: 900 }
    );
    assert_eq!(tunnel_ray(5, 5, 2, 2), TunnelRay { dx: 0, dy: 0, radius_num: 0, radius_den: 5 });
}

// ----------------------------------------------------------------- flatten ---

#[test]
fn flatten_both_projections_produce_wide_output() {
    let fish = fisheye();
    let cyl = flatten(&fish, &Flatten { proj: Some(Projection::Cylindrical), ..PLAIN });
    let rect = flatten(&fish, &Flatten { proj: Some(Projection::Rectilinear), ..PLAIN });
    let (cw, ch) = cyl.dimensions();
    let (rw, rh) = rect.dimensions();
    assert!(cw > ch, "cylindrical should be wide: {cw}x{ch}");
    assert!(rw > rh, "rectilinear should be wide: {rw}x{rh}");
    assert_ne!(cw, rw, "the two projections should differ in width");
}

#[test]
fn flatten_strip_accepts_fraction_or_percent() {
    let fish = fisheye();
    let frac = flatten(&fish, &Flatten { strip: 0.3, ..PLAIN });
    let pct = flatten(&fish, &Flatten { strip: 30.0, ..PLAIN });
    assert_eq!(frac.dimensions(), pct.dimensions());
}

#[test]
fn flatten_scale_halves_dimensions() {
    let fish = fisheye();
    let (fw, fh) = flatten(&fish, &PLAIN).dimensions();
    let (hw, hh) = flatten(&fish, &Flatten { scale: 0.5, ..PLAIN }).dimensions();
    assert!((hw as i64 - (fw / 2) as i64).abs() <= 2, "width: {hw} vs {fw}/2");
    assert!((hh as i64 - (fh / 2) as i64).abs() <= 2, "height: {hh} vs {fh}/2");
}

#[test]
fn flatten_circle_radius_override_is_accepted() {
    let out = flatten(&fisheye(), &Flatten { focal: 8.0, radius: Some(300.0), ..PLAIN });
    let (w, h) = out.dimensions();
    assert!(w > 0 && h > 0);
}

// ------------------------------------------------------------------ refish ---

#[test]
fn refish_produces_a_circular_image() {
    let circ = refished(&checkerboard(), 100.0, 100.0, 400);
    assert_eq!(circ.dimensions(), (400, 400), "output should be a square of the requested size");
    let img = circ.to_rgb8();
    assert!(black_fraction(&img) > 0.1, "a circular fisheye has black corners");
    assert!(luma(img.get_pixel(200, 200)) > 15.0, "the center should contain image content");
}

#[test]
fn refish_wider_fov_packs_into_a_smaller_disc() {
    let checker = checkerboard();
    let narrow = refished(&checker, 100.0, 90.0, 400).to_rgb8();
    let wide = refished(&checker, 100.0, 180.0, 400).to_rgb8();
    assert!(black_fraction(&wide) > black_fraction(&narrow));
}

#[test]
fn refish_then_defish_recovers_similar_image() {
    let src = checkerboard();
    let fish = refished(&src, 130.0, 130.0, 1024);
    let out = flatten(
        &fish,
        &Flatten { focal: 10.0, strip: 60.0, proj: Some(Projection::Rectilinear), ..PLAIN },
    );
    let src = src.to_rgb8();
    let (rw, rh) = out.dimensions();
    assert!(rw > rh, "recovered should be wider than tall, got {rw}x{rh}");

    let (sm, ss) = central_stats(&src, 0.4);
    let (rm, rs) = central_stats(&out, 0.4);
    assert!((sm - rm).abs() < 15.0, "central brightness drifted: src {sm:.1} vs rec {rm:.1}");
    assert!((ss - rs).abs() < 20.0, "central contrast drifted: src {ss:.1} vs rec {rs:.1}");
    assert!(rs > 40.0, "recovered lost the checkerboard pattern (contrast {rs:.1})");

    let red_center = red_band_fraction(&out, rw / 2);
    let red_quarter = red_band_fraction(&out, rw / 4);
    let green_center = green_band_fraction(&out, rh / 2);
    assert!(red_center > 0.3, "red vertical center line missing ({red_center:.3})");
    assert!(
        red_center > 2.0 * red_quarter,
        "red line not centered (center {red_center:.3} vs quarter {red_quarter:.3})"
    );
    assert!(green_center > 0.3, "green horizontal center line missing ({green_center:.3})");
}

// ------------------------------------------------------------------ tunnel ---

#[test]
fn tunnel_fills_the_frame() {
    let checker = checkerboard();
    let out = tunneled(&checker, 1.5);
    assert_eq!(out.dimensions(), checker.dimensions(), "tunnel keeps the source dimensions");
    assert!(black_fraction(&out.to_rgb8()) < 0.02, "tunnel fills the frame");
}

#[test]
fn tunnel_accepts_negative_strength() {
    let checker = checkerboard();
    let out = tunneled(&checker, -0.5);
    assert_eq!(out.dimensions(), checker.dimensions());
}

#[test]
fn tunnel_of_no_strength_changes_nothing() {
    let checker = checkerboard();
    assert_eq!(image_of(&unwarped(&checker), 1200, 900), checker.to_rgb8());
    let clear = DynamicImage::ImageLumaA8(image::GrayAlphaImage::from_fn(3, 2, |x, y| {
        image::LumaA([(10 * x + y) as u8, 0])
    }));
    assert_eq!(
        rgb_bytes(&unwarped(&clear)),
        [0, 0, 0, 10, 10, 10, 20, 20, 20, 1, 1, 1, 11, 11, 11, 21, 21, 21]
    );
}

// ----------------------------------------------------------------- animate ---

#[test]
fn animate_frames_writes_a_progressing_sequence() {
    let fish = fisheye();
    let g = capped_geom(&fish, 300);
    assert_eq!(g.size().0, 300);
    for i in 0..5 {
        assert_eq!(frame_name("cli_anim", i, "png"), format!("cli_anim_{i:04}.png"));
    }
    let first = g.frame(&fish, 0, 5, Opening::Cropped);
    let last = g.frame(&fish, 4, 5, Opening::Cropped);
    assert!(mean_abs_diff(&first, &last) > 2.0, "frames should change over the animation");
    assert_eq!(last, g.frame(&fish, 0, 1, Opening::Cropped));
}

#[test]
fn pixels_come_from_the_looks_of_a_frame() {
    let look = |l: Look, x: u32, y: u32| (l, x, y, Span::Full);
    let blend = |a: (Look, u32, u32, Span), b: (Look, u32, u32, Span), over: Span| {
        (a.0, b.1, b.2, over)
    };
    assert_eq!(defish_source(Morph::Done, &look, &blend, 3, 4), (Look::Flat, 3, 4, Span::Full));
    let crop = Morph::Blend { from: Look::Whole, to: Look::Strip, over: Span::CropPhase };
    assert_eq!(defish_source(crop, &look, &blend, 3, 4), (Look::Whole, 3, 4, Span::CropPhase));
}

#[test]
fn remapping_paints_black_where_there_is_no_source() {
    let img = photo(2, 1, |x, _| [(x + 1) as u8, 7, 7]);
    let from = |x: u32, _: u32| if x == 0 { None } else { Some(point(x as f64 - 1.0, 0.0)) };
    assert_eq!(
        rgb_bytes(&remap(&img, 4, 1, &from, &lerp)),
        [0, 0, 0, 1, 7, 7, 2, 7, 7, 0, 0, 0]
    );
}

#[test]
fn animate_show_crop_starts_on_the_full_frame() {
    let fish = fisheye();
    let g = capped_geom(&fish, 300);
    assert_eq!(g.size().0, 300);
    for style in [CropStyle::Simul, CropStyle::Phased] {
        let first = g.frame(&fish, 0, 4, Opening::FullFrame(style));
        let last = g.frame(&fish, 3, 4, Opening::FullFrame(style));
        assert!(black_fraction(&first) > 0.1, "show-crop should start letterboxed");
        assert!(
            black_fraction(&first) > black_fraction(&last),
            "letterbox should shrink toward the strip"
        );
        assert_eq!(last, g.frame(&fish, 0, 1, Opening::Cropped));
    }
}
