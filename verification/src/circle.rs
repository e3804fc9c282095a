//! Finding the image circle of a fisheye photo in its frame.

use image::DynamicImage;
use vstd::prelude::*;

use crate::raster;
use crate::raster::{dimensions, get_pixel};
use crate::sorting;
use crate::sorting::sorted;

verus! {

/// The brightest channel value that still counts as black border.
pub const BLACK: u8 = 20;

/// How many rays are cast from the center of the frame.
pub const RAYS: u32 = 72;

/// The greatest of the three color channels.
pub open spec fn brightest(pixel: [u8; 4]) -> u8 {
    let rg = if pixel@[0] >= pixel@[1] {
        pixel@[0]
    } else {
        pixel@[1]
    };
    if rg >= pixel@[2] {
        rg
    } else {
        pixel@[2]
    }
}

/// Image content, not black border, stands at column `x` and row `y`.
pub open spec fn lit(img: DynamicImage, x: int, y: int) -> bool {
    &&& 0 <= x < raster::photo_size(img).0
    &&& 0 <= y < raster::photo_size(img).1
    &&& brightest(raster::photo_pixels(img)[(x, y)]) > BLACK
}

fn is_lit(img: &DynamicImage, x: u32, y: u32) -> (r: bool)
    requires
        x < raster::photo_size(*img).0,
        y < raster::photo_size(*img).1,
    ensures
        r == lit(*img, x as int, y as int),
{
    let p = get_pixel(img, x, y);
    let rg: u8 = if p[0] >= p[1] {
        p[0]
    } else {
        p[1]
    };
    let top: u8 = if rg >= p[2] {
        rg
    } else {
        p[2]
    };
    top > BLACK
}

// ---------------------------------------------------------------------------
// Rays from the center
// ---------------------------------------------------------------------------

/// The greatest radius up to `r` at which a ray meets image content. The point
/// at radius `k` of the ray is `ray[k - 1]`.
pub open spec fn reach(img: DynamicImage, ray: Seq<(i64, i64)>, r: nat) -> Option<nat>
    decreases r,
{
    if r == 0 {
        None
    } else if lit(img, ray[r - 1].0 as int, ray[r - 1].1 as int) {
        Some(r)
    } else {
        reach(img, ray, (r - 1) as nat)
    }
}

/// The radii at which the first `n` rays last meet image content, without the
/// rays that meet none.
pub open spec fn radii(img: DynamicImage, rays: Seq<Vec<(i64, i64)>>, n: nat) -> Seq<u64>
    decreases n,
{
    if n == 0 {
        Seq::empty()
    } else {
        let before = radii(img, rays, (n - 1) as nat);
        let ray = rays[n - 1]@;
        match reach(img, ray, ray.len()) {
            Some(r) => before.push(r as u64),
            None => before,
        }
    }
}

/// The radii agree: the greatest exceeds the least by less than 15 % of the
/// median.
pub open spec fn agree(radii: Seq<u64>) -> bool {
    &&& radii.len() > 0
    &&& 100 * (sorting::ascending(radii).last() - sorting::ascending(radii).first()) < 15
        * sorting::median(radii)
}

fn ray_reach(img: &DynamicImage, ray: &Vec<(i64, i64)>) -> (r: Option<usize>)
    ensures
        match r {
            Some(k) => reach(*img, ray@, ray@.len()) == Some(k as nat),
            None => reach(*img, ray@, ray@.len()) is None,
        },
{
    let (w, h) = dimensions(img);
    let mut k: usize = ray.len();
    while k > 0
        invariant
            (w, h) == raster::photo_size(*img),
            k <= ray@.len(),
            reach(*img, ray@, ray@.len()) == reach(*img, ray@, k as nat),
        decreases k,
    {
        let (x, y) = ray[k - 1];
        if x >= 0 && y >= 0 && x < w as i64 && y < h as i64 {
            if is_lit(img, x as u32, y as u32) {
                return Some(k);
            }
        }
        k -= 1;
    }
    None
}

fn ray_radii(img: &DynamicImage, rays: &Vec<Vec<(i64, i64)>>) -> (r: Vec<u64>)
    ensures
        r@ == radii(*img, rays@, rays@.len()),
{
    let mut r: Vec<u64> = Vec::new();
    let mut i: usize = 0;
    while i < rays.len()
        invariant
            i <= rays@.len(),
            r@ == radii(*img, rays@, i as nat),
        decreases rays.len() - i,
    {
        if let Some(k) = ray_reach(img, &rays[i]) {
            r.push(k as u64);
        }
        i += 1;
    }
    r
}

// ---------------------------------------------------------------------------
// Rows through the center
// ---------------------------------------------------------------------------

/// The first column from `x` on and before `end` with image content in row `y`.
pub open spec fn first_lit(img: DynamicImage, y: int, x: int, end: int) -> Option<int>
    decreases end - x,
{
    if x >= end {
        None
    } else if lit(img, x, y) {
        Some(x)
    } else {
        first_lit(img, y, x + 1, end)
    }
}

/// The last column from `start` on and before `end` with image content in row
/// `y`.
pub open spec fn last_lit(img: DynamicImage, y: int, start: int, end: int) -> Option<int>
    decreases end - start,
{
    if start >= end {
        None
    } else if lit(img, end - 1, y) {
        Some(end - 1)
    } else {
        last_lit(img, y, start, end - 1)
    }
}

/// The half-widths to the left and to the right of the center, in half pixels,
/// of the image content in row `y`. There are none where the row lies outside
/// the frame, where its center is black, or where a side has no content or no
/// real black margin.
pub open spec fn half_widths(img: DynamicImage, y: int) -> Option<(u64, u64)> {
    let w = raster::photo_size(img).0 as int;
    let center = w / 2;
    if !lit(img, center, y) {
        None
    } else {
        match (first_lit(img, y, 0, center), last_lit(img, y, center + 1, w)) {
            (Some(l), Some(r)) => if l <= 1 || r >= w - 2 {
                None
            } else {
                Some(((w - 2 * l) as u64, (2 * r - w) as u64))
            },
            _ => None,
        }
    }
}

/// The half-widths of the rows from `y` up to `end`, without the rows that
/// have none.
pub open spec fn band_half_widths(img: DynamicImage, y: int, end: int) -> Seq<(u64, u64)>
    decreases end - y,
{
    if y >= end {
        Seq::empty()
    } else {
        let before = band_half_widths(img, y, end - 1);
        match half_widths(img, end - 1) {
            Some(pair) => before.push(pair),
            None => before,
        }
    }
}

/// How many rows the band around the center row reaches up and down: half a
/// percent of the height, but at least one.
pub open spec fn band_reach(h: int) -> int {
    if h / 200 > 1 {
        h / 200
    } else {
        1
    }
}

/// The half-widths of the rows around the center row.
pub open spec fn center_half_widths(img: DynamicImage) -> Seq<(u64, u64)> {
    let h = raster::photo_size(img).1 as int;
    band_half_widths(img, h / 2 - band_reach(h), h / 2 + band_reach(h) + 1)
}

/// Four times the circle's radius in pixels, from the half-widths `a` and `b`
/// of either side in half pixels: their mean, unless they differ by more than
/// 10 % of the greater.
pub open spec fn centered(a: u64, b: u64) -> Option<int> {
    let gap = if a >= b {
        a - b
    } else {
        b - a
    };
    let greater = if a >= b {
        a
    } else {
        b
    };
    if 10 * gap > greater {
        None
    } else {
        Some(a + b)
    }
}

/// Four times the radius of a circle whose top and bottom are cropped, from
/// its horizontal extent; at least three rows have to show it.
pub open spec fn side_circle(img: DynamicImage) -> Option<int> {
    let pairs = center_half_widths(img);
    let left = pairs.map_values(|p: (u64, u64)| p.0);
    let right = pairs.map_values(|p: (u64, u64)| p.1);
    if pairs.len() < 3 {
        None
    } else {
        centered(sorting::median(left), sorting::median(right))
    }
}

fn row_half_widths(img: &DynamicImage, y: u32) -> (r: Option<(u64, u64)>)
    requires
        y < raster::photo_size(*img).1,
        raster::photo_size(*img).0 > 0,
    ensures
        r == half_widths(*img, y as int),
{
    let (w, _h) = dimensions(img);
    let center: u32 = w / 2;
    if !is_lit(img, center, y) {
        return None;
    }
    let mut l: u32 = 0;
    while l < center && !is_lit(img, l, y)
        invariant
            w == raster::photo_size(*img).0,
            y < raster::photo_size(*img).1,
            center < w,
            l <= center,
            first_lit(*img, y as int, 0, center as int) == first_lit(
                *img,
                y as int,
                l as int,
                center as int,
            ),
        decreases center - l,
    {
        l += 1;
    }
    if l == center {
        return None;
    }
    let mut end: u32 = w;
    while end > center + 1 && !is_lit(img, end - 1, y)
        invariant
            w == raster::photo_size(*img).0,
            y < raster::photo_size(*img).1,
            center + 1 <= end <= w,
            last_lit(*img, y as int, center + 1, w as int) == last_lit(
                *img,
                y as int,
                center + 1,
                end as int,
            ),
        decreases end,
    {
        end -= 1;
    }
    if end == center + 1 {
        return None;
    }
    let r: u32 = end - 1;
    if l <= 1 || r >= w - 2 {
        return None;
    }
    Some((w as u64 - 2 * l as u64, 2 * r as u64 - w as u64))
}

/// Measures the image circle from its horizontal extent across the vertical
/// center, for frames where the top and bottom are cropped but the left and
/// right edges fall off to black. Gives four times the radius in pixels.
pub fn detect_circle_horizontal(img: &DynamicImage) -> (r: Option<u64>)
    ensures
        match r {
            Some(q) => side_circle(*img) == Some(q as int),
            None => side_circle(*img) is None,
        },
{
    let (w, h) = dimensions(img);
    let cy: i64 = h as i64 / 2;
    let band: i64 = if h / 200 > 1 {
        h as i64 / 200
    } else {
        1
    };
    let mut left: Vec<u64> = Vec::new();
    let mut right: Vec<u64> = Vec::new();
    let ghost start = cy - band;
    let mut y: i64 = cy - band;
    while y < cy + band + 1
        invariant
            (w, h) == raster::photo_size(*img),
            0 <= cy <= u32::MAX,
            1 <= band <= u32::MAX,
            start == cy - band,
            start <= y <= cy + band + 1,
            left@ == band_half_widths(*img, start as int, y as int).map_values(
                |p: (u64, u64)| p.0,
            ),
            right@ == band_half_widths(*img, start as int, y as int).map_values(
                |p: (u64, u64)| p.1,
            ),
        decreases cy + band + 1 - y,
    {
        let ghost before = band_half_widths(*img, start as int, y as int);
        if y >= 0 && y < h as i64 && w > 0 {
            if let Some((a, b)) = row_half_widths(img, y as u32) {
                left.push(a);
                right.push(b);
                assert(left@ =~= before.push((a, b)).map_values(|p: (u64, u64)| p.0));
                assert(right@ =~= before.push((a, b)).map_values(|p: (u64, u64)| p.1));
            }
        }
        y += 1;
    }
    if left.len() < 3 {
        return None;
    }
    let l = sorted(&left);
    let r = sorted(&right);
    let a: u64 = l[left.len() / 2];
    let b: u64 = r[right.len() / 2];
    proof {
        lemma_band_bounds(*img, start as int, cy + band + 1);
        sorting::law_median_is_a_value(left@);
        sorting::law_median_is_a_value(right@);
    }
    let gap: u64 = if a >= b {
        a - b
    } else {
        b - a
    };
    let greater: u64 = if a >= b {
        a
    } else {
        b
    };
    if 10 * gap > greater {
        None
    } else {
        Some(a + b)
    }
}

proof fn lemma_first_lit(img: DynamicImage, y: int, x: int, end: int)
    ensures
        first_lit(img, y, x, end) matches Some(l) ==> x <= l < end && lit(img, l, y),
    decreases end - x,
{
    if x < end && !lit(img, x, y) {
        lemma_first_lit(img, y, x + 1, end);
    }
}

proof fn lemma_last_lit(img: DynamicImage, y: int, start: int, end: int)
    ensures
        last_lit(img, y, start, end) matches Some(r) ==> start <= r < end && lit(img, r, y),
    decreases end - start,
{
    if start < end && !lit(img, end - 1, y) {
        lemma_last_lit(img, y, start, end - 1);
    }
}

proof fn lemma_half_widths_bounds(img: DynamicImage, y: int)
    ensures
        half_widths(img, y) matches Some((a, b)) ==> 0 < a < raster::photo_size(img).0 && 0 < b
            < raster::photo_size(img).0,
{
    let w = raster::photo_size(img).0 as int;
    lemma_first_lit(img, y, 0, w / 2);
    lemma_last_lit(img, y, w / 2 + 1, w);
}

proof fn lemma_band_bounds(img: DynamicImage, y: int, end: int)
    ensures
        forall|i: int|
            0 <= i < band_half_widths(img, y, end).len() ==> {
                let p = #[trigger] band_half_widths(img, y, end)[i];
                0 < p.0 < raster::photo_size(img).0 && 0 < p.1 < raster::photo_size(img).0
            },
    decreases end - y,
{
    if y < end {
        lemma_band_bounds(img, y, end - 1);
        lemma_half_widths_bounds(img, end - 1);
        let before = band_half_widths(img, y, end - 1);
        let all = band_half_widths(img, y, end);
        assert forall|i: int| 0 <= i < all.len() implies {
            let p = #[trigger] all[i];
            0 < p.0 < raster::photo_size(img).0 && 0 < p.1 < raster::photo_size(img).0
        } by {
            if i < before.len() {
                assert(all[i] == before[i]);
            }
        }
    }
}

// ---------------------------------------------------------------------------
// The circle
// ---------------------------------------------------------------------------

/// What is known of a photo's image circle.
#[derive(Clone, Copy, PartialEq, Eq, Debug, Structural)]
pub enum ImageCircle {
    /// Black border all around: the median radius of the rays, in pixels.
    Full { radius: u64 },
    /// Top and bottom cropped, black on either side: four times the radius in
    /// pixels.
    Sides { quarter_pixels: u64 },
    /// The circle overflows the frame.
    Absent,
}

/// The image circle of `img`, as the rays and the rows through the center show
/// it.
pub open spec fn image_circle(img: DynamicImage, rays: Seq<Vec<(i64, i64)>>) -> ImageCircle {
    let found = radii(img, rays, rays.len());
    if agree(found) {
        ImageCircle::Full { radius: sorting::median(found) }
    } else {
        match side_circle(img) {
            Some(q) => ImageCircle::Sides { quarter_pixels: q as u64 },
            None => ImageCircle::Absent,
        }
    }
}

/// A photo that is black throughout shows no circle.
pub proof fn law_black_photo_has_no_circle(img: DynamicImage, rays: Seq<Vec<(i64, i64)>>)
    requires
        forall|x: int, y: int| !lit(img, x, y),
    ensures
        image_circle(img, rays) == ImageCircle::Absent,
{
    lemma_no_radii(img, rays, rays.len());
    let h = raster::photo_size(img).1 as int;
    lemma_no_half_widths(img, h / 2 - band_reach(h), h / 2 + band_reach(h) + 1);
}

proof fn lemma_no_reach(img: DynamicImage, ray: Seq<(i64, i64)>, r: nat)
    requires
        forall|x: int, y: int| !lit(img, x, y),
    ensures
        reach(img, ray, r) is None,
    decreases r,
{
    if r > 0 {
        lemma_no_reach(img, ray, (r - 1) as nat);
    }
}

proof fn lemma_no_radii(img: DynamicImage, rays: Seq<Vec<(i64, i64)>>, n: nat)
    requires
        forall|x: int, y: int| !lit(img, x, y),
    ensures
        radii(img, rays, n).len() == 0,
    decreases n,
{
    if n > 0 {
        lemma_no_radii(img, rays, (n - 1) as nat);
        lemma_no_reach(img, rays[n - 1]@, rays[n - 1]@.len());
    }
}

proof fn lemma_no_half_widths(img: DynamicImage, y: int, end: int)
    requires
        forall|x: int, y: int| !lit(img, x, y),
    ensures
        band_half_widths(img, y, end).len() == 0,
    decreases end - y,
{
    if y < end {
        lemma_no_half_widths(img, y, end - 1);
    }
}

/// A photo with image content throughout gives no circle by its rows: the circle
/// overflows the frame, and its extent cannot be measured.
pub proof fn law_overflowing_photo_has_no_side_circle(img: DynamicImage)
    requires
        forall|x: int, y: int|
            0 <= x < raster::photo_size(img).0 && 0 <= y < raster::photo_size(img).1 ==> lit(
                img,
                x,
                y,
            ),
    ensures
        side_circle(img) is None,
{
    let h = raster::photo_size(img).1 as int;
    lemma_overflowing_rows(img, h / 2 - band_reach(h), h / 2 + band_reach(h) + 1);
}

proof fn lemma_overflowing_rows(img: DynamicImage, y: int, end: int)
    requires
        forall|x: int, y: int|
            0 <= x < raster::photo_size(img).0 && 0 <= y < raster::photo_size(img).1 ==> lit(
                img,
                x,
                y,
            ),
    ensures
        band_half_widths(img, y, end).len() == 0,
    decreases end - y,
{
    if y < end {
        lemma_overflowing_rows(img, y, end - 1);
        let w = raster::photo_size(img).0 as int;
        if lit(img, w / 2, end - 1) && w / 2 > 0 {
            assert(lit(img, 0, end - 1));
        }
    }
}

/// A circle with black border all around has the radius at which one of the
/// rays last meets image content.
pub proof fn law_full_radius_is_a_ray_radius(img: DynamicImage, rays: Seq<Vec<(i64, i64)>>)
    ensures
        image_circle(img, rays) is Full ==> exists|i: int|
            0 <= i < rays.len() && #[trigger] ray_ends_at(
                img,
                rays[i]@,
                image_circle(img, rays)->radius,
            ),
{
    let found = radii(img, rays, rays.len());
    if agree(found) {
        sorting::law_median_is_a_value(found);
        let k = choose|k: int| 0 <= k < found.len() && found[k] == sorting::median(found);
        lemma_radius_has_a_ray(img, rays, rays.len(), k);
        let i = choose|i: int|
            0 <= i < rays.len() && #[trigger] ray_ends_at(img, rays[i]@, found[k]);
        assert(ray_ends_at(img, rays[i]@, image_circle(img, rays)->radius));
    }
}

/// The ray meets image content at `radius` and none farther out.
pub open spec fn ray_ends_at(img: DynamicImage, ray: Seq<(i64, i64)>, radius: u64) -> bool {
    &&& 1 <= radius <= ray.len()
    &&& lit(img, ray[radius - 1].0 as int, ray[radius - 1].1 as int)
    &&& forall|k: int|
        radius <= k < ray.len() ==> !lit(img, (#[trigger] ray[k]).0 as int, ray[k].1 as int)
}

proof fn lemma_reach(img: DynamicImage, ray: Seq<(i64, i64)>, r: nat)
    requires
        r <= ray.len(),
        forall|k: int| r <= k < ray.len() ==> !lit(img, (#[trigger] ray[k]).0 as int, ray[k].1 as int),
    ensures
        reach(img, ray, r) matches Some(k) ==> 1 <= k <= r && (k <= u64::MAX ==> ray_ends_at(
            img,
            ray,
            k as u64,
        )),
    decreases r,
{
    if r > 0 && !lit(img, ray[r - 1].0 as int, ray[r - 1].1 as int) {
        lemma_reach(img, ray, (r - 1) as nat);
    }
}

proof fn lemma_radius_has_a_ray(
    img: DynamicImage,
    rays: Seq<Vec<(i64, i64)>>,
    n: nat,
    k: int,
)
    requires
        n <= rays.len(),
        0 <= k < radii(img, rays, n).len(),
    ensures
        exists|i: int| 0 <= i < n && #[trigger] ray_ends_at(img, rays[i]@, radii(img, rays, n)[k]),
    decreases n,
{
    let before = radii(img, rays, (n - 1) as nat);
    if k < before.len() {
        lemma_radius_has_a_ray(img, rays, (n - 1) as nat, k);
        let i = choose|i: int| 0 <= i < n - 1 && #[trigger] ray_ends_at(img, rays[i]@, before[k]);
        assert(ray_ends_at(img, rays[i]@, radii(img, rays, n)[k]));
    } else {
        let ray = rays[n - 1]@;
        lemma_reach(img, ray, ray.len());
        assert(rays[n - 1].len() == ray.len());
        assert(ray_ends_at(img, rays[n - 1]@, radii(img, rays, n)[k]));
    }
}

/// A circle that is black on either side is narrower than the frame: its radius
/// is positive and less than half the width.
pub proof fn law_side_circle_is_inside_the_frame(img: DynamicImage, rays: Seq<Vec<(i64, i64)>>)
    ensures
        image_circle(img, rays) matches ImageCircle::Sides { quarter_pixels } ==> 0 < quarter_pixels
            < 2 * raster::photo_size(img).0,
{
    let pairs = center_half_widths(img);
    let h = raster::photo_size(img).1 as int;
    let left = pairs.map_values(|p: (u64, u64)| p.0);
    let right = pairs.map_values(|p: (u64, u64)| p.1);
    lemma_band_bounds(img, h / 2 - band_reach(h), h / 2 + band_reach(h) + 1);
    if pairs.len() >= 3 {
        sorting::law_median_is_a_value(left);
        sorting::law_median_is_a_value(right);
        let i = choose|i: int| 0 <= i < left.len() && left[i] == sorting::median(left);
        let j = choose|j: int| 0 <= j < right.len() && right[j] == sorting::median(right);
        assert(left[i] == pairs[i].0);
        assert(right[j] == pairs[j].1);
    }
}

/// Finds the image circle of `img`. `rays[i]` holds the points of ray `i` at
/// radius 1, 2 and so on, as columns and rows that may lie outside the frame.
///
/// Where rays in all directions end at about the same radius, that is the
/// circle. Otherwise the circle may be taller than the sensor but narrower, and
/// the rows through the center still span its diameter.
pub fn detect_image_circle(img: &DynamicImage, rays: &Vec<Vec<(i64, i64)>>) -> (r: ImageCircle)
    ensures
        r == image_circle(*img, rays@),
{
    let found = ray_radii(img, rays);
    if found.len() > 0 {
        let order = sorted(&found);
        let med: u64 = order[order.len() / 2];
        proof {
            sorting::law_ascending_rearranges(found@);
        }
        let spread: u64 = order[order.len() - 1] - order[0];
        if 100 * (spread as u128) < 15 * (med as u128) {
            return ImageCircle::Full { radius: med };
        }
    }
    match detect_circle_horizontal(img) {
        Some(q) => ImageCircle::Sides { quarter_pixels: q },
        None => ImageCircle::Absent,
    }
}

// ---------------------------------------------------------------------------
// What is measured
// ---------------------------------------------------------------------------

/// A pixel in the frame is image content exactly where red, green or blue is
/// greater than 20: anything darker is border, whatever its color and its alpha.
pub proof fn law_content_is_brighter_than_the_border(img: DynamicImage, x: int, y: int)
    ensures
        lit(img, x, y) <==> {
            let p = raster::photo_pixels(img)[(x, y)]@;
            &&& 0 <= x < raster::photo_size(img).0
            &&& 0 <= y < raster::photo_size(img).1
            &&& p[0] > 20 || p[1] > 20 || p[2] > 20
        },
{
}

/// Rays are cast five degrees apart, all around.
pub proof fn law_rays_go_all_around()
    ensures
        RAYS * 5 == 360,
{
}

/// A ray reaches as far as its outermost image content, whatever lies nearer to
/// the center; one without any reaches nowhere.
pub proof fn law_ray_reaches_its_outermost_content(img: DynamicImage, ray: Seq<(i64, i64)>, r: nat)
    requires
        r <= ray.len(),
        r > 0 ==> lit(img, ray[r - 1].0 as int, ray[r - 1].1 as int),
        forall|k: int| r <= k < ray.len() ==> !lit(img, (#[trigger] ray[k]).0 as int, ray[k].1 as int),
    ensures
        reach(img, ray, ray.len()) == (if r > 0 {
            Some(r)
        } else {
            None
        }),
{
    lemma_reach_skips(img, ray, r, ray.len());
}

proof fn lemma_reach_skips(img: DynamicImage, ray: Seq<(i64, i64)>, r: nat, n: nat)
    requires
        r <= n <= ray.len(),
        forall|k: int| r <= k < ray.len() ==> !lit(img, (#[trigger] ray[k]).0 as int, ray[k].1 as int),
    ensures
        reach(img, ray, n) == reach(img, ray, r),
    decreases n,
{
    if r < n {
        lemma_reach_skips(img, ray, r, (n - 1) as nat);
    }
}

/// `ends[i]` is the radius at which ray `i` last meets image content.
pub open spec fn are_ends(
    img: DynamicImage,
    rays: Seq<Vec<(i64, i64)>>,
    ends: Seq<u64>,
) -> bool {
    &&& ends.len() == rays.len()
    &&& forall|i: int|
        0 <= i < rays.len() ==> {
            let ray = rays[i]@;
            let r = #[trigger] ends[i];
            &&& 1 <= r <= ray.len()
            &&& lit(img, ray[r - 1].0 as int, ray[r - 1].1 as int)
            &&& forall|k: int|
                r <= k < ray.len() ==> !lit(img, (#[trigger] ray[k]).0 as int, ray[k].1 as int)
        }
}

proof fn lemma_radii_are_ends(
    img: DynamicImage,
    rays: Seq<Vec<(i64, i64)>>,
    ends: Seq<u64>,
    n: nat,
)
    requires
        are_ends(img, rays, ends),
        n <= rays.len(),
    ensures
        radii(img, rays, n) == ends.take(n as int),
    decreases n,
{
    if n > 0 {
        lemma_radii_are_ends(img, rays, ends, (n - 1) as nat);
        let ray = rays[n - 1]@;
        let r = ends[n - 1];
        law_ray_reaches_its_outermost_content(img, ray, r as nat);
        assert(ends.take(n as int) =~= ends.take(n - 1).push(r));
    } else {
        assert(ends.take(0) =~= Seq::<u64>::empty());
    }
}

/// Where every ray meets image content, the photo shows a full circle exactly
/// where the greatest radius exceeds the least by less than 15 % of the one in
/// the middle, and that is the circle's radius. Otherwise the rows through the
/// center decide.
pub proof fn law_full_circle_is_where_rays_agree(
    img: DynamicImage,
    rays: Seq<Vec<(i64, i64)>>,
    ends: Seq<u64>,
    order: Seq<u64>,
)
    requires
        rays.len() > 0,
        are_ends(img, rays, ends),
        forall|i: int, j: int| 0 <= i <= j < order.len() ==> order[i] <= order[j],
        order.to_multiset() == ends.to_multiset(),
    ensures
        ({
            let n = order.len() as int;
            let circle = image_circle(img, rays);
            &&& n == rays.len()
            &&& 100 * (order[n - 1] - order[0]) < 15 * order[n / 2] ==> circle
                == (ImageCircle::Full { radius: order[n / 2] })
            &&& 100 * (order[n - 1] - order[0]) >= 15 * order[n / 2] ==> match side_circle(img) {
                Some(q) => circle == (ImageCircle::Sides { quarter_pixels: q as u64 }),
                None => circle == ImageCircle::Absent,
            }
        }),
{
    lemma_radii_are_ends(img, rays, ends, rays.len());
    assert(ends.take(rays.len() as int) =~= ends);
    sorting::law_median_is_in_the_middle(ends, order);
}

/// Where along every ray exactly the points up to one radius are image content,
/// that is the radius of a full circle.
pub proof fn law_even_circle_is_found(
    img: DynamicImage,
    rays: Seq<Vec<(i64, i64)>>,
    radius: u64,
)
    requires
        rays.len() > 0,
        radius > 0,
        forall|i: int| 0 <= i < rays.len() ==> radius <= (#[trigger] rays[i])@.len(),
        forall|i: int, k: int|
            0 <= i < rays.len() && 0 <= k < rays[i]@.len() ==> (lit(
                img,
                (#[trigger] rays[i]@[k]).0 as int,
                rays[i]@[k].1 as int,
            ) <==> k < radius),
    ensures
        image_circle(img, rays) == (ImageCircle::Full { radius }),
{
    let ends = Seq::new(rays.len(), |i: int| radius);
    assert forall|i: int| 0 <= i < rays.len() implies {
        let ray = rays[i]@;
        let r = #[trigger] ends[i];
        &&& 1 <= r <= ray.len()
        &&& lit(img, ray[r - 1].0 as int, ray[r - 1].1 as int)
        &&& forall|k: int|
            r <= k < ray.len() ==> !lit(img, (#[trigger] ray[k]).0 as int, ray[k].1 as int)
    } by {
        assert(radius <= rays[i]@.len());
        let p = rays[i]@[radius - 1];
        assert(lit(img, p.0 as int, p.1 as int));
    }
    law_full_circle_is_where_rays_agree(img, rays, ends, ends);
}

/// A ray that meets no image content changes nothing.
pub proof fn law_dark_rays_do_not_count(
    img: DynamicImage,
    rays: Seq<Vec<(i64, i64)>>,
    i: int,
)
    requires
        0 <= i < rays.len(),
        forall|k: int|
            0 <= k < rays[i]@.len() ==> !lit(
                img,
                (#[trigger] rays[i]@[k]).0 as int,
                rays[i]@[k].1 as int,
            ),
    ensures
        image_circle(img, rays) == image_circle(img, rays.remove(i)),
{
    lemma_radii_without(img, rays, i, rays.len());
}

proof fn lemma_radii_without(
    img: DynamicImage,
    rays: Seq<Vec<(i64, i64)>>,
    i: int,
    n: nat,
)
    requires
        0 <= i < rays.len(),
        n <= rays.len(),
        forall|k: int|
            0 <= k < rays[i]@.len() ==> !lit(
                img,
                (#[trigger] rays[i]@[k]).0 as int,
                rays[i]@[k].1 as int,
            ),
    ensures
        n <= i ==> radii(img, rays, n) == radii(img, rays.remove(i), n),
        n > i ==> radii(img, rays, n) == radii(img, rays.remove(i), (n - 1) as nat),
    decreases n,
{
    if n > 0 {
        lemma_radii_without(img, rays, i, (n - 1) as nat);
        if n - 1 == i {
            law_ray_reaches_its_outermost_content(img, rays[i]@, 0);
        } else if n - 1 < i {
            assert(rays.remove(i)[n - 1] == rays[n - 1]);
        } else {
            assert(rays.remove(i)[n - 2] == rays[n - 1]);
        }
    }
}

/// The image content of row `y` reaches from column `l` to column `r`, with its
/// middle in between, and at least two black columns on either side.
pub open spec fn spans(img: DynamicImage, y: int, l: int, r: int) -> bool {
    let w = raster::photo_size(img).0 as int;
    &&& 2 <= l < w / 2 < r <= w - 3
    &&& lit(img, l, y) && lit(img, w / 2, y) && lit(img, r, y)
    &&& forall|x: int| 0 <= x < l ==> !#[trigger] lit(img, x, y)
    &&& forall|x: int| r < x < w ==> !#[trigger] lit(img, x, y)
}

proof fn lemma_first_lit_is(img: DynamicImage, y: int, x: int, end: int, l: int)
    requires
        x <= l < end,
        lit(img, l, y),
        forall|k: int| x <= k < l ==> !#[trigger] lit(img, k, y),
    ensures
        first_lit(img, y, x, end) == Some(l),
    decreases l - x,
{
    if x < l {
        assert(!lit(img, x, y));
        lemma_first_lit_is(img, y, x + 1, end, l);
    }
}

proof fn lemma_last_lit_is(img: DynamicImage, y: int, start: int, end: int, r: int)
    requires
        start <= r < end,
        lit(img, r, y),
        forall|k: int| r < k < end ==> !#[trigger] lit(img, k, y),
    ensures
        last_lit(img, y, start, end) == Some(r),
    decreases end - r,
{
    if r < end - 1 {
        assert(!lit(img, end - 1, y));
        lemma_last_lit_is(img, y, start, end - 1, r);
    }
}

proof fn lemma_first_lit_is_first(img: DynamicImage, y: int, x: int, end: int)
    ensures
        first_lit(img, y, x, end) matches Some(l) ==> forall|k: int|
            x <= k < l ==> !#[trigger] lit(img, k, y),
    decreases end - x,
{
    if x < end && !lit(img, x, y) {
        lemma_first_lit_is_first(img, y, x + 1, end);
    }
}

proof fn lemma_last_lit_is_last(img: DynamicImage, y: int, start: int, end: int)
    ensures
        last_lit(img, y, start, end) matches Some(r) ==> forall|k: int|
            r < k < end ==> !#[trigger] lit(img, k, y),
    decreases end - start,
{
    if start < end && !lit(img, end - 1, y) {
        lemma_last_lit_is_last(img, y, start, end - 1);
    }
}

/// A row that spans from `l` to `r` is measured from the center of the frame to
/// either side, in half pixels.
pub proof fn law_spanning_row_is_measured(img: DynamicImage, y: int, l: int, r: int)
    requires
        spans(img, y, l, r),
    ensures
        ({
            let w = raster::photo_size(img).0;
            half_widths(img, y) matches Some((left, right)) && left == w - 2 * l && right == 2 * r
                - w
        }),
{
    let w = raster::photo_size(img).0 as int;
    lemma_first_lit_is(img, y, 0, w / 2, l);
    lemma_last_lit_is(img, y, w / 2 + 1, w, r);
}

/// A row is measured only where it spans from some column to another.
pub proof fn law_measured_row_spans(img: DynamicImage, y: int) -> (span: (int, int))
    requires
        half_widths(img, y) is Some,
    ensures
        spans(img, y, span.0, span.1),
{
    let w = raster::photo_size(img).0 as int;
    lemma_first_lit(img, y, 0, w / 2);
    lemma_first_lit_is_first(img, y, 0, w / 2);
    lemma_last_lit(img, y, w / 2 + 1, w);
    lemma_last_lit_is_last(img, y, w / 2 + 1, w);
    (first_lit(img, y, 0, w / 2)->Some_0, last_lit(img, y, w / 2 + 1, w)->Some_0)
}

/// Row `y` is one of those around the center row that are measured: up to half a
/// percent of the height away, but at least one row.
pub open spec fn in_band(img: DynamicImage, y: int) -> bool {
    let h = raster::photo_size(img).1 as int;
    let away = if y < h / 2 {
        h / 2 - y
    } else {
        y - h / 2
    };
    away <= 1 || away <= h / 200
}

/// Only the rows around the center count: photos of one size in which those are
/// measured alike give the same circle by their sides.
pub proof fn law_only_the_band_counts(one: DynamicImage, other: DynamicImage)
    requires
        raster::photo_size(one) == raster::photo_size(other),
        forall|y: int| in_band(one, y) ==> #[trigger] half_widths(one, y) == half_widths(other, y),
    ensures
        side_circle(one) == side_circle(other),
{
    let h = raster::photo_size(one).1 as int;
    let start = h / 2 - band_reach(h);
    lemma_same_band(one, other, start, h / 2 + band_reach(h) + 1);
}

proof fn lemma_same_band(one: DynamicImage, other: DynamicImage, y: int, end: int)
    requires
        forall|k: int| y <= k < end ==> #[trigger] half_widths(one, k) == half_widths(other, k),
    ensures
        band_half_widths(one, y, end) == band_half_widths(other, y, end),
    decreases end - y,
{
    if y < end {
        lemma_same_band(one, other, y, end - 1);
        assert(half_widths(one, end - 1) == half_widths(other, end - 1));
    }
}

/// Every row around the center counts: where all of them are measured, they are
/// measured one by one from top to bottom.
pub proof fn law_every_row_of_the_band_counts(img: DynamicImage)
    requires
        forall|y: int| in_band(img, y) ==> (#[trigger] half_widths(img, y)) is Some,
    ensures
        ({
            let h = raster::photo_size(img).1 as int;
            let away = if h / 200 > 1 {
                h / 200
            } else {
                1
            };
            &&& center_half_widths(img).len() == 2 * away + 1
            &&& forall|i: int|
                0 <= i <= 2 * away ==> Some(#[trigger] center_half_widths(img)[i]) == half_widths(
                    img,
                    h / 2 - away + i,
                )
        }),
{
    let h = raster::photo_size(img).1 as int;
    lemma_full_band(img, h / 2 - band_reach(h), h / 2 + band_reach(h) + 1);
}

proof fn lemma_full_band(img: DynamicImage, y: int, end: int)
    requires
        y <= end,
        forall|k: int| y <= k < end ==> (#[trigger] half_widths(img, k)) is Some,
    ensures
        band_half_widths(img, y, end).len() == end - y,
        forall|i: int|
            0 <= i < end - y ==> Some(#[trigger] band_half_widths(img, y, end)[i]) == half_widths(
                img,
                y + i,
            ),
    decreases end - y,
{
    if y < end {
        lemma_full_band(img, y, end - 1);
        assert(half_widths(img, end - 1) is Some);
        let before = band_half_widths(img, y, end - 1);
        let all = band_half_widths(img, y, end);
        assert forall|i: int| 0 <= i < end - y implies Some(#[trigger] all[i]) == half_widths(
            img,
            y + i,
        ) by {
            if i < before.len() {
                assert(all[i] == before[i]);
            }
        }
    }
}

/// The circle by the sides is the mean of the middle half-widths, unless they
/// differ by more than a tenth of the greater or fewer than three rows show it.
pub proof fn law_side_circle_takes_the_middle_widths(
    img: DynamicImage,
    left: Seq<u64>,
    right: Seq<u64>,
)
    requires
        forall|i: int, j: int| 0 <= i <= j < left.len() ==> left[i] <= left[j],
        forall|i: int, j: int| 0 <= i <= j < right.len() ==> right[i] <= right[j],
        left.to_multiset() == center_half_widths(img).map_values(
            |p: (u64, u64)| p.0,
        ).to_multiset(),
        right.to_multiset() == center_half_widths(img).map_values(
            |p: (u64, u64)| p.1,
        ).to_multiset(),
    ensures
        ({
            let n = center_half_widths(img).len() as int;
            let (a, b) = (left[n / 2], right[n / 2]);
            &&& n < 3 ==> side_circle(img) is None
            &&& n >= 3 && (10 * (a - b) > a || 10 * (b - a) > b) ==> side_circle(img) is None
            &&& n >= 3 && 10 * (a - b) <= a && 10 * (b - a) <= b ==> side_circle(img) == Some(a + b)
        }),
{
    let pairs = center_half_widths(img);
    if pairs.len() >= 3 {
        let l = pairs.map_values(|p: (u64, u64)| p.0);
        let r = pairs.map_values(|p: (u64, u64)| p.1);
        sorting::law_median_is_in_the_middle(l, left);
        sorting::law_median_is_in_the_middle(r, right);
    }
}

/// Two rows are too few: where no other row around the center is measured, the
/// sides give no circle.
pub proof fn law_two_rows_are_too_few(img: DynamicImage, p: int, q: int)
    requires
        forall|y: int|
            in_band(img, y) && y != p && y != q ==> (#[trigger] half_widths(img, y)) is None,
    ensures
        side_circle(img) is None,
{
    let h = raster::photo_size(img).1 as int;
    lemma_few_rows(img, h / 2 - band_reach(h), h / 2 + band_reach(h) + 1, p, q);
}

proof fn lemma_few_rows(img: DynamicImage, y: int, end: int, p: int, q: int)
    requires
        forall|k: int|
            y <= k < end && k != p && k != q ==> (#[trigger] half_widths(img, k)) is None,
    ensures
        band_half_widths(img, y, end).len() <= (if y <= p < end {
            1int
        } else {
            0
        }) + (if y <= q < end && q != p {
            1int
        } else {
            0
        }),
    decreases end - y,
{
    if y < end {
        lemma_few_rows(img, y, end - 1, p, q);
        if end - 1 != p && end - 1 != q {
            assert(half_widths(img, end - 1) is None);
        }
    }
}

/// Three rows are enough: where at least three rows around the center are
/// measured, all alike, their mean is the circle, unless the sides differ by more
/// than a tenth of the greater.
pub proof fn law_three_rows_are_enough(
    img: DynamicImage,
    p: int,
    q: int,
    r: int,
    left: u64,
    right: u64,
)
    requires
        p < q < r,
        in_band(img, p) && in_band(img, q) && in_band(img, r),
        half_widths(img, p) is Some && half_widths(img, q) is Some && half_widths(img, r) is Some,
        forall|y: int|
            in_band(img, y) && (#[trigger] half_widths(img, y)) is Some ==> half_widths(img, y)
                == Some((left, right)),
    ensures
        side_circle(img) == (if 10 * (left - right) > left || 10 * (right - left) > right {
            None
        } else {
            Some(left + right)
        }),
{
    let h = raster::photo_size(img).1 as int;
    let (start, end) = (h / 2 - band_reach(h), h / 2 + band_reach(h) + 1);
    lemma_even_rows(img, start, end, p, q, r, left, right);
    let pairs = center_half_widths(img);
    let l = pairs.map_values(|p: (u64, u64)| p.0);
    let m = pairs.map_values(|p: (u64, u64)| p.1);
    sorting::law_median_is_in_the_middle(l, l);
    sorting::law_median_is_in_the_middle(m, m);
}

proof fn lemma_even_rows(
    img: DynamicImage,
    y: int,
    end: int,
    p: int,
    q: int,
    r: int,
    left: u64,
    right: u64,
)
    requires
        y <= p < q < r,
        half_widths(img, p) is Some && half_widths(img, q) is Some && half_widths(img, r) is Some,
        forall|k: int|
            y <= k < end && (#[trigger] half_widths(img, k)) is Some ==> half_widths(img, k)
                == Some((left, right)),
    ensures
        band_half_widths(img, y, end).len() >= (if p < end {
            1int
        } else {
            0
        }) + (if q < end {
            1int
        } else {
            0
        }) + (if r < end {
            1int
        } else {
            0
        }),
        forall|i: int|
            0 <= i < band_half_widths(img, y, end).len() ==> #[trigger] band_half_widths(
                img,
                y,
                end,
            )[i] == (left, right),
    decreases end - y,
{
    if y < end {
        lemma_even_rows(img, y, end - 1, p, q, r, left, right);
        let before = band_half_widths(img, y, end - 1);
        let all = band_half_widths(img, y, end);
        assert(half_widths(img, end - 1) is Some ==> half_widths(img, end - 1) == Some(
            (left, right),
        ));
        assert forall|i: int| 0 <= i < all.len() implies #[trigger] all[i] == (left, right) by {
            if i < before.len() {
                assert(all[i] == before[i]);
            }
        }
    }
}

} // verus!
