//! Radial warps: wrapping a flat photo into a disc (`refish`), and pushing the
//! center of a photo back or bulging it forward (`tunnel`).
//!
//! Distances from the center of a frame are counted in half pixels, so that the
//! middle of every pixel lies at a whole number of them.

use image::DynamicImage;
use vstd::prelude::*;

use crate::raster;
use crate::raster::{dimensions, get_pixel, remap, render, Canvas, SamplePoint};

verus! {

/// How far the middle of pixel `i` lies from the center of a frame of `n`
/// pixels, in half pixels.
pub open spec fn offset(i: u32, n: u32) -> int {
    2 * i + 1 - n
}

/// The distance of `v` from zero.
pub open spec fn abs(v: int) -> int {
    if v < 0 {
        -v
    } else {
        v
    }
}

fn pixel_offset(i: u32, n: u32) -> (r: i64)
    ensures
        r == offset(i, n),
{
    2 * (i as i64) + 1 - n as i64
}

proof fn lemma_offset(i: u32, n: u32)
    requires
        i < n,
    ensures
        abs(offset(i, n)) < n,
{
}

// ---------------------------------------------------------------------------
// refish
// ---------------------------------------------------------------------------

/// Where a pixel of a square output lies with respect to the disc in it.
#[derive(Clone, Copy, PartialEq, Eq, Debug, Structural)]
pub enum DiscPixel {
    /// Outside the disc.
    Outside,
    /// On the axis of the lens.
    Center,
    /// In the disc, at this distance from the center in half pixels.
    Ray { dx: i64, dy: i64 },
}

/// The place of the pixel at column `x` and row `y` in a disc whose diameter is
/// `size` pixels.
pub open spec fn disc_pixel_at(size: u32, x: u32, y: u32) -> DiscPixel {
    let (dx, dy) = (offset(x, size), offset(y, size));
    if dx * dx + dy * dy > size * size {
        DiscPixel::Outside
    } else if dx == 0 && dy == 0 {
        DiscPixel::Center
    } else {
        DiscPixel::Ray { dx: dx as i64, dy: dy as i64 }
    }
}

/// The place of a pixel in a disc whose diameter is `size` pixels.
pub fn disc_pixel(size: u32, x: u32, y: u32) -> (r: DiscPixel)
    requires
        x < size,
        y < size,
    ensures
        r == disc_pixel_at(size, x, y),
{
    let dx: i64 = pixel_offset(x, size);
    let dy: i64 = pixel_offset(y, size);
    let side: i128 = size as i128;
    let (a, b): (i128, i128) = (dx as i128, dy as i128);
    proof {
        lemma_offset(x, size);
        lemma_offset(y, size);
        lemma_square_bound(dx as int, size as int);
        lemma_square_bound(dy as int, size as int);
        lemma_square_bound(size as int, size as int);
    }
    if a * a + b * b > side * side {
        DiscPixel::Outside
    } else if dx == 0 && dy == 0 {
        DiscPixel::Center
    } else {
        DiscPixel::Ray { dx, dy }
    }
}

proof fn lemma_square_bound(v: int, n: int)
    requires
        abs(v) <= n,
        n <= u32::MAX,
    ensures
        0 <= v * v <= 0xffff_ffff * 0xffff_ffff,
{
    assert(0 <= v * v <= 0xffff_ffff * 0xffff_ffff) by (nonlinear_arith)
        requires
            -0xffff_ffff <= v <= 0xffff_ffff,
    ;
}

/// `at` is the source point for the pixel at column `x` and row `y`: none
/// outside the disc, `center` on its axis, elsewhere what `ray` gives.
pub open spec fn refish_source<W, P: Fn(i64, i64) -> Option<SamplePoint<W>>>(
    size: u32,
    center: SamplePoint<W>,
    ray: P,
    x: u32,
    y: u32,
    at: Option<SamplePoint<W>>,
) -> bool {
    match disc_pixel_at(size, x, y) {
        DiscPixel::Outside => at is None,
        DiscPixel::Center => at == Some(center),
        DiscPixel::Ray { dx, dy } => call_ensures(ray, (dx, dy), at),
    }
}

/// `rgb` is what `refish` paints at column `x` and row `y`.
pub open spec fn refished<
    W,
    L: Fn(u8, u8, W) -> u8,
    P: Fn(i64, i64) -> Option<SamplePoint<W>>,
>(
    img: DynamicImage,
    size: u32,
    center: SamplePoint<W>,
    ray: P,
    lerp: L,
    x: u32,
    y: u32,
    rgb: [u8; 3],
) -> bool {
    exists|at: Option<SamplePoint<W>>| #[trigger]
        refish_source(size, center, ray, x, y, at) && raster::painted(img, at, lerp, rgb)
}

spec fn refish_sources<W, P: Fn(i64, i64) -> Option<SamplePoint<W>>>(
    size: u32,
    center: &SamplePoint<W>,
    ray: &P,
    x: u32,
    y: u32,
    at: Option<SamplePoint<W>>,
) -> bool {
    refish_source(size, *center, *ray, x, y, at)
}

spec fn casts<W, P: Fn(i64, i64) -> Option<SamplePoint<W>>>(ray: &P) -> bool {
    forall|dx: i64, dy: i64| call_requires(*ray, (dx, dy))
}

/// The side of the square that `refish` draws: the one asked for, else the
/// shorter side of the photo; at least one pixel.
pub open spec fn disc_size(asked: Option<u32>, w: u32, h: u32) -> u32 {
    let size = match asked {
        Some(s) => s,
        None => if w <= h {
            w
        } else {
            h
        },
    };
    if size == 0 {
        1
    } else {
        size
    }
}

/// The side of the square that `refish` draws.
pub fn refish_size(asked: Option<u32>, w: u32, h: u32) -> (r: u32)
    ensures
        r == disc_size(asked, w, h),
        r > 0,
{
    let size: u32 = match asked {
        Some(s) => s,
        None => if w <= h {
            w
        } else {
            h
        },
    };
    if size == 0 {
        1
    } else {
        size
    }
}

/// Wraps a flat photo into a disc of `size` pixels across, black outside.
/// `center` is the source point on the axis, and `ray` gives the source point
/// for a distance from the center in half pixels, or `None` where no flat photo
/// has one.
pub fn refish<
    W: Copy + Sync,
    L: Fn(u8, u8, W) -> u8 + Sync,
    P: Fn(i64, i64) -> Option<SamplePoint<W>> + Sync,
>(img: &DynamicImage, size: u32, center: &SamplePoint<W>, ray: &P, lerp: &L) -> (canvas: Canvas)
    requires
        raster::canvas_fits(size, size),
        forall|dx: i64, dy: i64| call_requires(*ray, (dx, dy)),
        forall|a: u8, b: u8, t: W| call_requires(*lerp, (a, b, t)),
    ensures
        raster::canvas_size(canvas) == (size, size),
        forall|x: u32, y: u32|
            x < size && y < size ==> refished(
                *img,
                size,
                *center,
                *ray,
                *lerp,
                x,
                y,
                #[trigger] raster::canvas_pixels(canvas)[(x as int, y as int)],
            ),
{
    let point = |x: u32, y: u32| -> (at: Option<SamplePoint<W>>)
        requires
            x < size,
            y < size,
            casts(ray),
        ensures
            refish_sources(size, center, ray, x, y, at),
        {
            match disc_pixel(size, x, y) {
                DiscPixel::Outside => None,
                DiscPixel::Center => Some(
                    SamplePoint { x: center.x, y: center.y, tx: center.tx, ty: center.ty },
                ),
                DiscPixel::Ray { dx, dy } => ray(dx, dy),
            }
        };
    let canvas = remap(img, size, size, &point, lerp);
    assert forall|x: u32, y: u32| x < size && y < size implies refished(
        *img,
        size,
        *center,
        *ray,
        *lerp,
        x,
        y,
        #[trigger] raster::canvas_pixels(canvas)[(x as int, y as int)],
    ) by {
        let rgb = raster::canvas_pixels(canvas)[(x as int, y as int)];
        let at = raster::lemma_source_of(*img, point, *lerp, x, y, rgb);
        assert(refish_sources(size, center, ray, x, y, at));
        assert(refish_source(size, *center, *ray, x, y, at));
    }
    canvas
}

/// `refish` paints black outside the disc, whatever the photo and the rays.
pub proof fn law_refish_is_black_outside_the_disc<
    W,
    L: Fn(u8, u8, W) -> u8,
    P: Fn(i64, i64) -> Option<SamplePoint<W>>,
>(
    img: DynamicImage,
    size: u32,
    center: SamplePoint<W>,
    ray: P,
    lerp: L,
    x: u32,
    y: u32,
    rgb: [u8; 3],
)
    requires
        refished(img, size, center, ray, lerp, x, y, rgb),
        disc_pixel_at(size, x, y) is Outside,
    ensures
        raster::is_black(rgb),
{
}

/// The corners of the square lie outside the disc, from four pixels on.
pub proof fn law_corners_are_outside_the_disc(size: u32)
    requires
        size >= 4,
    ensures
        disc_pixel_at(size, 0, 0) is Outside,
        disc_pixel_at(size, (size - 1) as u32, 0) is Outside,
        disc_pixel_at(size, 0, (size - 1) as u32) is Outside,
        disc_pixel_at(size, (size - 1) as u32, (size - 1) as u32) is Outside,
{
    let n = size as int;
    assert((1 - n) * (1 - n) + (1 - n) * (1 - n) > n * n && (n - 1) * (n - 1) + (1 - n) * (1 - n)
        > n * n && (n - 1) * (n - 1) + (n - 1) * (n - 1) > n * n) by (nonlinear_arith)
        requires
            n >= 4,
    ;
}

/// The middle of the square lies in the disc, whatever its size.
pub proof fn law_middle_is_in_the_disc(size: u32)
    requires
        size > 0,
    ensures
        !(disc_pixel_at(size, size / 2, size / 2) is Outside),
{
    let d = offset(size / 2, size);
    let n = size as int;
    assert(d == 0 || d == 1);
    assert(d * d + d * d <= n * n) by (nonlinear_arith)
        requires
            d == 0 || (d == 1 && n >= 2),
            n >= 1,
    ;
}

/// The disc is the same on either side of its center: mirrored pixels both lie
/// outside it or both lie in it, at opposite distances.
pub proof fn law_disc_is_symmetric(size: u32, x: u32, y: u32)
    requires
        x < size,
        y < size,
    ensures
        disc_pixel_at(size, (size - 1 - x) as u32, y) is Outside <==> disc_pixel_at(
            size,
            x,
            y,
        ) is Outside,
        disc_pixel_at(size, x, (size - 1 - y) as u32) is Outside <==> disc_pixel_at(
            size,
            x,
            y,
        ) is Outside,
        disc_pixel_at(size, y, x) is Outside <==> disc_pixel_at(size, x, y) is Outside,
        offset((size - 1 - x) as u32, size) == -offset(x, size),
{
    let dx = offset(x, size);
    let dy = offset(y, size);
    assert((-dx) * (-dx) == dx * dx && (-dy) * (-dy) == dy * dy) by (nonlinear_arith);
}

// ---------------------------------------------------------------------------
// tunnel
// ---------------------------------------------------------------------------

/// A distance from the center of a frame in half pixels, with its length as a
/// fraction `radius_num / radius_den` of the distance to the frame's edge in
/// the same direction.
#[derive(Clone, Copy, PartialEq, Eq, Debug, Structural)]
pub struct TunnelRay {
    pub dx: i64,
    pub dy: i64,
    pub radius_num: u64,
    pub radius_den: u64,
}

/// The ray to the pixel at column `x` and row `y` in a frame of `w` by `h`
/// pixels: its length is the greater of the two distances, each as a fraction
/// of half the frame's extent.
pub open spec fn tunnel_ray_at(w: u32, h: u32, x: u32, y: u32) -> TunnelRay {
    let (dx, dy) = (offset(x, w), offset(y, h));
    if abs(dx) * h >= abs(dy) * w {
        TunnelRay {
            dx: dx as i64,
            dy: dy as i64,
            radius_num: abs(dx) as u64,
            radius_den: w as u64,
        }
    } else {
        TunnelRay {
            dx: dx as i64,
            dy: dy as i64,
            radius_num: abs(dy) as u64,
            radius_den: h as u64,
        }
    }
}

/// A ray so short that its direction is of no account: under a millionth of the
/// distance to the edge.
pub open spec fn is_at_center(ray: TunnelRay) -> bool {
    ray.radius_num * 1_000_000 < ray.radius_den
}

/// The ray to a pixel in a frame of `w` by `h` pixels.
pub fn tunnel_ray(w: u32, h: u32, x: u32, y: u32) -> (r: TunnelRay)
    requires
        x < w,
        y < h,
    ensures
        r == tunnel_ray_at(w, h, x, y),
        r.radius_num < r.radius_den <= u32::MAX,
{
    let dx: i64 = pixel_offset(x, w);
    let dy: i64 = pixel_offset(y, h);
    proof {
        lemma_offset(x, w);
        lemma_offset(y, h);
    }
    let a: u64 = if dx < 0 {
        (-dx) as u64
    } else {
        dx as u64
    };
    let b: u64 = if dy < 0 {
        (-dy) as u64
    } else {
        dy as u64
    };
    assert(a * (h as u64) <= 0xffff_ffff * 0xffff_ffff) by (nonlinear_arith)
        requires
            a <= 0xffff_ffff,
            h <= 0xffff_ffff,
    ;
    assert(b * (w as u64) <= 0xffff_ffff * 0xffff_ffff) by (nonlinear_arith)
        requires
            b <= 0xffff_ffff,
            w <= 0xffff_ffff,
    ;
    if a * (h as u64) >= b * (w as u64) {
        TunnelRay { dx, dy, radius_num: a, radius_den: w as u64 }
    } else {
        TunnelRay { dx, dy, radius_num: b, radius_den: h as u64 }
    }
}

/// A ray ends before the edge of the frame, and its length is the greater of the
/// two fractions: in neither direction does it reach farther than the frame.
/// Whatever maps lengths up to 1 to lengths up to 1 therefore stays in the
/// frame and leaves no border.
pub proof fn law_tunnel_ray_ends_in_the_frame(w: u32, h: u32, x: u32, y: u32)
    requires
        x < w,
        y < h,
    ensures
        ({
            let ray = tunnel_ray_at(w, h, x, y);
            &&& ray.radius_num < ray.radius_den
            &&& abs(ray.dx as int) * ray.radius_den <= ray.radius_num * w
            &&& abs(ray.dy as int) * ray.radius_den <= ray.radius_num * h
        }),
{
    lemma_offset(x, w);
    lemma_offset(y, h);
}

/// `at` is the source point for the pixel at column `x` and row `y`: `center`
/// for a ray that ends there, else what `warp` gives.
pub open spec fn tunnel_source<W, P: Fn(TunnelRay) -> Option<SamplePoint<W>>>(
    size: (u32, u32),
    center: SamplePoint<W>,
    warp: P,
    x: u32,
    y: u32,
    at: Option<SamplePoint<W>>,
) -> bool {
    let ray = tunnel_ray_at(size.0, size.1, x, y);
    if is_at_center(ray) {
        at == Some(center)
    } else {
        call_ensures(warp, (ray,), at)
    }
}

/// `rgb` is what `tunnel` paints at column `x` and row `y`.
pub open spec fn tunneled<
    W,
    L: Fn(u8, u8, W) -> u8,
    P: Fn(TunnelRay) -> Option<SamplePoint<W>>,
>(
    img: DynamicImage,
    center: SamplePoint<W>,
    warp: P,
    lerp: L,
    x: u32,
    y: u32,
    rgb: [u8; 3],
) -> bool {
    exists|at: Option<SamplePoint<W>>| #[trigger]
        tunnel_source(raster::photo_size(img), center, warp, x, y, at) && raster::painted(
            img,
            at,
            lerp,
            rgb,
        )
}

spec fn tunnel_sources<W, P: Fn(TunnelRay) -> Option<SamplePoint<W>>>(
    size: (u32, u32),
    center: &SamplePoint<W>,
    warp: &P,
    x: u32,
    y: u32,
    at: Option<SamplePoint<W>>,
) -> bool {
    tunnel_source(size, *center, *warp, x, y, at)
}

spec fn warps<W, P: Fn(TunnelRay) -> Option<SamplePoint<W>>>(warp: &P) -> bool {
    forall|ray: TunnelRay| call_requires(*warp, (ray,))
}

/// Warps a photo along the rays from its center, to a canvas of the same size.
/// `center` is the source point at the center, and `warp` gives the source point
/// for every other ray.
pub fn tunnel<
    W: Copy + Sync,
    L: Fn(u8, u8, W) -> u8 + Sync,
    P: Fn(TunnelRay) -> Option<SamplePoint<W>> + Sync,
>(img: &DynamicImage, center: &SamplePoint<W>, warp: &P, lerp: &L) -> (canvas: Canvas)
    requires
        raster::canvas_fits(raster::photo_size(*img).0, raster::photo_size(*img).1),
        forall|ray: TunnelRay| call_requires(*warp, (ray,)),
        forall|a: u8, b: u8, t: W| call_requires(*lerp, (a, b, t)),
    ensures
        raster::canvas_size(canvas) == raster::photo_size(*img),
        forall|x: u32, y: u32|
            x < raster::photo_size(*img).0 && y < raster::photo_size(*img).1 ==> tunneled(
                *img,
                *center,
                *warp,
                *lerp,
                x,
                y,
                #[trigger] raster::canvas_pixels(canvas)[(x as int, y as int)],
            ),
{
    let (w, h) = dimensions(img);
    let point = |x: u32, y: u32| -> (at: Option<SamplePoint<W>>)
        requires
            x < w,
            y < h,
            warps(warp),
        ensures
            tunnel_sources((w, h), center, warp, x, y, at),
        {
            let ray = tunnel_ray(w, h, x, y);
            if ray.radius_num * 1_000_000 < ray.radius_den {
                Some(SamplePoint { x: center.x, y: center.y, tx: center.tx, ty: center.ty })
            } else {
                warp(ray)
            }
        };
    let canvas = remap(img, w, h, &point, lerp);
    assert forall|x: u32, y: u32| x < w && y < h implies tunneled(
        *img,
        *center,
        *warp,
        *lerp,
        x,
        y,
        #[trigger] raster::canvas_pixels(canvas)[(x as int, y as int)],
    ) by {
        let rgb = raster::canvas_pixels(canvas)[(x as int, y as int)];
        let at = raster::lemma_source_of(*img, point, *lerp, x, y, rgb);
        assert(tunnel_sources((w, h), center, warp, x, y, at));
        assert(tunnel_source(raster::photo_size(*img), *center, *warp, x, y, at));
    }
    canvas
}

/// A warp that keeps to the frame leaves no border: every pixel is a sample of
/// the photo.
pub proof fn law_tunnel_leaves_no_border<
    W,
    L: Fn(u8, u8, W) -> u8,
    P: Fn(TunnelRay) -> Option<SamplePoint<W>>,
>(
    img: DynamicImage,
    center: SamplePoint<W>,
    warp: P,
    lerp: L,
    x: u32,
    y: u32,
    rgb: [u8; 3],
)
    requires
        x < raster::photo_size(img).0,
        y < raster::photo_size(img).1,
        tunneled(img, center, warp, lerp, x, y, rgb),
        raster::in_frame(center, raster::photo_size(img)),
        forall|ray: TunnelRay, at: Option<SamplePoint<W>>|
            ray.radius_num < ray.radius_den && #[trigger] call_ensures(warp, (ray,), at) ==> at
                is Some && raster::in_frame(at->Some_0, raster::photo_size(img)),
    ensures
        exists|at: SamplePoint<W>| #[trigger]
            raster::sampled(img, at, lerp, rgb) && raster::in_frame(at, raster::photo_size(img)),
{
    let size = raster::photo_size(img);
    law_tunnel_ray_ends_in_the_frame(size.0, size.1, x, y);
    let at = choose|at: Option<SamplePoint<W>>| #[trigger]
        tunnel_source(size, center, warp, x, y, at) && raster::painted(img, at, lerp, rgb);
    assert(raster::sampled(img, at->Some_0, lerp, rgb));
}

/// `canvas` shows the photo as it is.
pub open spec fn shows_photo(canvas: Canvas, img: DynamicImage) -> bool {
    &&& raster::canvas_size(canvas) == raster::photo_size(img)
    &&& forall|x: u32, y: u32|
        x < raster::photo_size(img).0 && y < raster::photo_size(img).1 ==> same_color(
            raster::photo_pixels(img)[(x as int, y as int)],
            #[trigger] raster::canvas_pixels(canvas)[(x as int, y as int)],
        )
}

/// The color of a pixel, without its alpha.
pub open spec fn same_color(pixel: [u8; 4], rgb: [u8; 3]) -> bool {
    rgb@[0] == pixel@[0] && rgb@[1] == pixel@[1] && rgb@[2] == pixel@[2]
}

spec fn has_pixel(img: &DynamicImage, x: u32, y: u32) -> bool {
    x < raster::photo_size(*img).0 && y < raster::photo_size(*img).1
}

spec fn copies(img: &DynamicImage, x: u32, y: u32, rgb: [u8; 3]) -> bool {
    same_color(raster::photo_pixels(*img)[(x as int, y as int)], rgb)
}

/// The warp of no strength, which changes nothing.
pub fn unwarped(img: &DynamicImage) -> (canvas: Canvas)
    requires
        raster::canvas_fits(raster::photo_size(*img).0, raster::photo_size(*img).1),
    ensures
        shows_photo(canvas, *img),
{
    let (w, h) = dimensions(img);
    let sample = |x: u32, y: u32| -> (rgb: [u8; 3])
        requires
            has_pixel(img, x, y),
        ensures
            copies(img, x, y, rgb),
        {
            let p = get_pixel(img, x, y);
            [p[0], p[1], p[2]]
        };
    let canvas = render(w, h, sample);
    assert forall|x: u32, y: u32| x < w && y < h implies same_color(
        raster::photo_pixels(*img)[(x as int, y as int)],
        #[trigger] raster::canvas_pixels(canvas)[(x as int, y as int)],
    ) by {
        let rgb = raster::canvas_pixels(canvas)[(x as int, y as int)];
        assert(call_ensures(sample, (x, y), rgb));
        assert(copies(img, x, y, rgb));
    }
    canvas
}

// ---------------------------------------------------------------------------
// Where pixels come from
// ---------------------------------------------------------------------------

/// A pixel lies outside the disc exactly where the distance of its middle from
/// the center of the square exceeds half the side; inside, only the very center
/// is on the axis, and every other pixel is on the ray to its middle.
pub proof fn law_disc_is_round(size: u32, x: u32, y: u32)
    requires
        x < size,
        y < size,
    ensures
        ({
            let (dx, dy) = (2 * x + 1 - size, 2 * y + 1 - size);
            let pixel = disc_pixel_at(size, x, y);
            &&& pixel is Outside <==> dx * dx + dy * dy > size * size
            &&& pixel is Center <==> dx == 0 && dy == 0
            &&& pixel matches DiscPixel::Ray { dx: a, dy: b } ==> a == dx && b == dy
        }),
{
    let n = size as int;
    assert(0 * 0 + 0 * 0 <= n * n) by (nonlinear_arith);
}

/// Two pixels equally far from the center are both outside the disc or neither
/// is, and a pixel nearer than one inside is inside too.
pub proof fn law_distance_decides_on_the_disc(size: u32, x: u32, y: u32, u: u32, v: u32)
    requires
        x < size && y < size && u < size && v < size,
        ({
            let (dx, dy) = (2 * x + 1 - size, 2 * y + 1 - size);
            let (du, dv) = (2 * u + 1 - size, 2 * v + 1 - size);
            du * du + dv * dv <= dx * dx + dy * dy
        }),
    ensures
        disc_pixel_at(size, u, v) is Outside ==> disc_pixel_at(size, x, y) is Outside,
{
    law_disc_is_round(size, x, y);
    law_disc_is_round(size, u, v);
}

/// `refish` paints a pixel black where its middle is farther from the center than
/// the disc reaches, from the center's point at the center, and from the point of
/// its own ray everywhere else.
pub proof fn law_refish_takes_pixels_from_their_rays<
    W,
    L: Fn(u8, u8, W) -> u8,
    P: Fn(i64, i64) -> Option<SamplePoint<W>>,
>(
    img: DynamicImage,
    size: u32,
    center: SamplePoint<W>,
    ray: P,
    lerp: L,
    place: spec_fn(int, int) -> Option<SamplePoint<W>>,
    x: u32,
    y: u32,
    rgb: [u8; 3],
)
    requires
        x < size,
        y < size,
        refished(img, size, center, ray, lerp, x, y, rgb),
        forall|a: i64, b: i64, p: Option<SamplePoint<W>>| #[trigger]
            call_ensures(ray, (a, b), p) ==> p == place(a as int, b as int),
    ensures
        ({
            let (dx, dy) = (2 * x + 1 - size, 2 * y + 1 - size);
            &&& dx * dx + dy * dy > size * size ==> rgb@[0] == 0 && rgb@[1] == 0 && rgb@[2] == 0
            &&& dx == 0 && dy == 0 ==> raster::painted(img, Some(center), lerp, rgb)
            &&& dx * dx + dy * dy <= size * size && !(dx == 0 && dy == 0) ==> raster::painted(
                img,
                place(dx, dy),
                lerp,
                rgb,
            )
        }),
{
    law_disc_is_round(size, x, y);
}

/// The side of the square is the one asked for, or the shorter side of the photo
/// whichever way it is turned, and never zero.
pub proof fn law_square_takes_the_shorter_side(s: u32, w: u32, h: u32)
    ensures
        s > 0 ==> disc_size(Some(s), w, h) == s,
        w > 0 && h > 0 ==> disc_size(None, w, h) <= w && disc_size(None, w, h) <= h && (disc_size(
            None,
            w,
            h,
        ) == w || disc_size(None, w, h) == h),
        disc_size(Some(0), w, h) == 1,
        w == 0 || h == 0 ==> disc_size(None, w, h) == 1,
{
}

/// The ray to a pixel goes from the center of the frame to the pixel's middle.
/// Its length is the greater of the two distances, each as a fraction of the way
/// to the edge.
pub proof fn law_tunnel_ray_goes_to_its_pixel(w: u32, h: u32, x: u32, y: u32)
    requires
        x < w,
        y < h,
    ensures
        ({
            let ray = tunnel_ray_at(w, h, x, y);
            let (dx, dy) = (2 * x + 1 - w, 2 * y + 1 - h);
            let (a, b) = (if dx < 0 {
                -dx
            } else {
                dx
            }, if dy < 0 {
                -dy
            } else {
                dy
            });
            &&& ray.dx == dx && ray.dy == dy
            &&& (ray.radius_num == a && ray.radius_den == w) || (ray.radius_num == b
                && ray.radius_den == h)
            &&& a * ray.radius_den <= ray.radius_num * w
            &&& b * ray.radius_den <= ray.radius_num * h
        }),
{
    lemma_offset(x, w);
    lemma_offset(y, h);
}

proof fn lemma_lesser_fraction(a: int, w: int, b: int, h: int)
    requires
        0 <= a && 0 <= b && 0 < w && 0 < h,
        b * w <= a * h,
        a * 1_000_000 < w,
    ensures
        b * 1_000_000 < h,
{
    assert(b * 1_000_000 < h) by (nonlinear_arith)
        requires
            0 <= a && 0 <= b && 0 < w && 0 < h,
            b * w <= a * h,
            a * 1_000_000 < w,
    {
        assert((b * w) * 1_000_000 <= (a * h) * 1_000_000);
        assert((a * h) * 1_000_000 == (a * 1_000_000) * h);
        assert((a * 1_000_000) * h < w * h);
        assert((b * w) * 1_000_000 == (b * 1_000_000) * w);
        if b * 1_000_000 >= h {
            assert((b * 1_000_000) * w >= h * w);
        }
    }
}

/// `tunnel` paints a pixel from the center's point only where it lies within a
/// millionth of the way to the edge, both across and down, and from the point
/// that its own ray is warped to everywhere else. In a frame of up to a million
/// pixels a side the former is the very center alone.
pub proof fn law_tunnel_takes_pixels_from_their_rays<
    W,
    L: Fn(u8, u8, W) -> u8,
    P: Fn(TunnelRay) -> Option<SamplePoint<W>>,
>(
    img: DynamicImage,
    center: SamplePoint<W>,
    warp: P,
    lerp: L,
    place: spec_fn(TunnelRay) -> Option<SamplePoint<W>>,
    x: u32,
    y: u32,
    rgb: [u8; 3],
)
    requires
        x < raster::photo_size(img).0,
        y < raster::photo_size(img).1,
        tunneled(img, center, warp, lerp, x, y, rgb),
        forall|r: TunnelRay, p: Option<SamplePoint<W>>| #[trigger]
            call_ensures(warp, (r,), p) ==> p == place(r),
    ensures
        ({
            let (w, h) = raster::photo_size(img);
            let (dx, dy) = (2 * x + 1 - w, 2 * y + 1 - h);
            let near = -w < dx * 1_000_000 && dx * 1_000_000 < w && -h < dy * 1_000_000 && dy
                * 1_000_000 < h;
            &&& near ==> raster::painted(img, Some(center), lerp, rgb)
            &&& !near ==> raster::painted(img, place(tunnel_ray_at(w, h, x, y)), lerp, rgb)
            &&& w <= 1_000_000 && h <= 1_000_000 ==> (near <==> dx == 0 && dy == 0)
        }),
{
    let (w, h) = raster::photo_size(img);
    let (dx, dy) = (offset(x, w), offset(y, h));
    let ray = tunnel_ray_at(w, h, x, y);
    lemma_offset(x, w);
    lemma_offset(y, h);
    law_tunnel_ray_goes_to_its_pixel(w, h, x, y);
    if is_at_center(ray) {
        if abs(dx) * h >= abs(dy) * w {
            lemma_lesser_fraction(abs(dx), w as int, abs(dy), h as int);
        } else {
            lemma_lesser_fraction(abs(dy), h as int, abs(dx), w as int);
        }
    }
}

/// The warp of no strength keeps every channel of every pixel.
pub proof fn law_no_strength_keeps_every_channel(
    canvas: Canvas,
    img: DynamicImage,
    x: u32,
    y: u32,
    c: int,
)
    requires
        shows_photo(canvas, img),
        x < raster::photo_size(img).0,
        y < raster::photo_size(img).1,
        0 <= c < 3,
    ensures
        raster::canvas_size(canvas) == raster::photo_size(img),
        raster::canvas_pixels(canvas)[(x as int, y as int)]@[c] == raster::photo_pixels(
            img,
        )[(x as int, y as int)]@[c],
{
    assert(same_color(
        raster::photo_pixels(img)[(x as int, y as int)],
        raster::canvas_pixels(canvas)[(x as int, y as int)],
    ));
}

} // verus!
