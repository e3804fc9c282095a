//! Photos, canvases, and the backward remap between them: for each output
//! pixel, find the source point and sample it.

use image::codecs::jpeg::JpegEncoder;
use image::{DynamicImage, GenericImageView, Rgb, RgbImage};
use rayon::iter::{IntoParallelIterator, ParallelIterator};
use vstd::prelude::*;

verus! {

// ---------------------------------------------------------------------------
// The source photo
// ---------------------------------------------------------------------------

/// A decoded photo of any pixel format.
#[verifier::external_type_specification]
#[verifier::external_body]
pub struct ExDynamicImage(image::DynamicImage);

/// The width and height of a photo, in pixels.
pub uninterp spec fn photo_size(img: DynamicImage) -> (u32, u32);

/// The pixels of a photo by column and row, each as red, green, blue and alpha
/// of eight bits.
pub uninterp spec fn photo_pixels(img: DynamicImage) -> Map<(int, int), [u8; 4]>;

/// `GenericImageView::dimensions` of a photo gives its width and height.
#[verifier::external_body]
pub(crate) fn dimensions(img: &DynamicImage) -> (size: (u32, u32))
    ensures
        size == photo_size(*img),
{
    img.dimensions()
}

/// `GenericImageView::get_pixel` of a photo gives the pixel at a column and a
/// row; it panics outside the frame.
#[verifier::external_body]
pub(crate) fn get_pixel(img: &DynamicImage, x: u32, y: u32) -> (pixel: [u8; 4])
    requires
        x < photo_size(*img).0,
        y < photo_size(*img).1,
    ensures
        photo_pixels(*img).contains_pair((x as int, y as int), pixel),
{
    img.get_pixel(x, y).0
}

/// The width and height of a photo, in pixels.
pub fn size_of(img: &DynamicImage) -> (size: (u32, u32))
    ensures
        size == photo_size(*img),
{
    dimensions(img)
}

// ---------------------------------------------------------------------------
// The output canvas
// ---------------------------------------------------------------------------

/// An image of eight-bit red, green and blue pixels that is being drawn.
#[verifier::external_body]
pub struct Canvas {
    pixels: RgbImage,
}

/// The width and height of a canvas, in pixels.
pub uninterp spec fn canvas_size(canvas: Canvas) -> (u32, u32);

/// The pixels of a canvas by column and row.
pub uninterp spec fn canvas_pixels(canvas: Canvas) -> Map<(int, int), [u8; 3]>;

/// A canvas of this size fits in memory as far as its length is concerned.
pub open spec fn canvas_fits(width: u32, height: u32) -> bool {
    width * 3 <= usize::MAX && width * height * 3 <= isize::MAX
}

/// Whether a canvas of this size fits in memory as far as its length is
/// concerned.
pub fn fits(width: u32, height: u32) -> (r: bool)
    ensures
        r == canvas_fits(width, height),
{
    assert(width * height <= 0xffff_ffff * 0xffff_ffff) by (nonlinear_arith)
        requires
            width <= 0xffff_ffff,
            height <= 0xffff_ffff,
    ;
    (width as u128) * 3 <= usize::MAX as u128 && (width as u128) * (height as u128) * 3
        <= isize::MAX as u128
}

/// `ImageBuffer::new` gives a canvas of the size asked for, all of it black;
/// it panics where the bytes outnumber what a vector can hold.
#[verifier::external_body]
fn new_canvas(width: u32, height: u32) -> (canvas: Canvas)
    requires
        canvas_fits(width, height),
    ensures
        canvas_size(canvas) == (width, height),
        forall|x: int, y: int|
            0 <= x < width && 0 <= y < height ==> canvas_pixels(canvas).dom().contains((x, y))
                && (#[trigger] canvas_pixels(canvas)[(x, y)])@ == seq![0u8, 0u8, 0u8],
{
    Canvas { pixels: RgbImage::new(width, height) }
}

/// `ImageBuffer::put_pixel` replaces the pixel at a column and a row and
/// nothing else; it panics outside the frame.
#[verifier::external_body]
fn put_pixel(canvas: &mut Canvas, x: u32, y: u32, rgb: [u8; 3])
    requires
        x < canvas_size(*old(canvas)).0,
        y < canvas_size(*old(canvas)).1,
    ensures
        canvas_size(*final(canvas)) == canvas_size(*old(canvas)),
        canvas_pixels(*final(canvas)) == canvas_pixels(*old(canvas)).insert(
            (x as int, y as int),
            rgb,
        ),
{
    canvas.pixels.put_pixel(x, y, Rgb(rgb))
}

/// `bytes` are the pixels of a canvas row by row, each as red, green and blue.
pub open spec fn are_rows(canvas: Canvas, bytes: Seq<u8>) -> bool {
    let (w, h) = canvas_size(canvas);
    &&& bytes.len() == w * h * 3
    &&& forall|x: int, y: int, c: int|
        0 <= x < w && 0 <= y < h && 0 <= c < 3 ==> bytes[(y * w + x) * 3 + c]
            == #[trigger] canvas_pixels(canvas)[(x, y)]@[c]
}

/// `ImageBuffer::as_raw` gives the pixels of a canvas row by row, each as red,
/// green and blue.
#[verifier::external_body]
fn as_raw(canvas: &Canvas) -> (bytes: Vec<u8>)
    ensures
        are_rows(*canvas, bytes@),
{
    canvas.pixels.as_raw().clone()
}

/// The pixels of a canvas row by row, each as red, green and blue.
pub fn rgb_bytes(canvas: &Canvas) -> (bytes: Vec<u8>)
    ensures
        are_rows(*canvas, bytes@),
{
    as_raw(canvas)
}

/// An error of the image library.
#[verifier::external_type_specification]
#[verifier::external_body]
pub struct ExImageError(image::ImageError);

/// A size that a JPEG file can have.
pub open spec fn jpeg_size(size: (u32, u32)) -> bool {
    1 <= size.0 <= 65535 && 1 <= size.1 <= 65535
}

/// The JPEG file, at a quality, of an image of some size and pixels.
pub uninterp spec fn jpeg_bytes(
    size: (u32, u32),
    pixels: Map<(int, int), [u8; 3]>,
    quality: u8,
) -> Seq<u8>;

/// `JpegEncoder::new_with_quality` and its `encode_image` write a canvas to a
/// vector as a JPEG file. They fail exactly where a side is zero or does not fit
/// in sixteen bits; the bytes depend on the size, the pixels and the quality
/// alone.
#[verifier::external_body]
pub(crate) fn encode_jpeg(canvas: &Canvas, quality: u8) -> (r: Result<Vec<u8>, image::ImageError>)
    ensures
        match r {
            Ok(bytes) => jpeg_size(canvas_size(*canvas)) && bytes@ == jpeg_bytes(
                canvas_size(*canvas),
                canvas_pixels(*canvas),
                quality,
            ),
            Err(_) => !jpeg_size(canvas_size(*canvas)),
        },
{
    let mut bytes = Vec::new();
    JpegEncoder::new_with_quality(&mut bytes, quality).encode_image(&canvas.pixels)?;
    Ok(bytes)
}

// ---------------------------------------------------------------------------
// Sampling
// ---------------------------------------------------------------------------

/// A point of the source between four pixels: the column and row of the one
/// at its upper left, and how far the point is towards the next column and
/// the next row.
pub struct SamplePoint<W> {
    pub x: i64,
    pub y: i64,
    pub tx: W,
    pub ty: W,
}

/// The point lies in a frame of `size`.
pub open spec fn in_frame<W>(at: SamplePoint<W>, size: (u32, u32)) -> bool {
    0 <= at.x < size.0 && 0 <= at.y < size.1
}

/// The column or row after `v`, or `v` itself at the far edge of `n`.
pub open spec fn next_within(v: int, n: int) -> int {
    if v + 1 < n {
        v + 1
    } else {
        n - 1
    }
}

/// `out` is a blend of four values: along the row at the top, along the row
/// at the bottom, then between the two.
pub open spec fn blended<W, L: Fn(u8, u8, W) -> u8>(
    lerp: L,
    p00: u8,
    p10: u8,
    p01: u8,
    p11: u8,
    tx: W,
    ty: W,
    out: u8,
) -> bool {
    exists|top: u8, bottom: u8|
        {
            &&& #[trigger] call_ensures(lerp, (p00, p10, tx), top)
            &&& #[trigger] call_ensures(lerp, (p01, p11, tx), bottom)
            &&& call_ensures(lerp, (top, bottom, ty), out)
        }
}

/// `rgb` is what sampling `img` at `at` gives: in each channel a blend of the
/// four pixels around the point.
pub open spec fn sampled<W, L: Fn(u8, u8, W) -> u8>(
    img: DynamicImage,
    at: SamplePoint<W>,
    lerp: L,
    rgb: [u8; 3],
) -> bool {
    let px = photo_pixels(img);
    let (x0, y0) = (at.x as int, at.y as int);
    let x1 = next_within(x0, photo_size(img).0 as int);
    let y1 = next_within(y0, photo_size(img).1 as int);
    forall|c: int|
        0 <= c < 3 ==> blended(
            lerp,
            px[(x0, y0)]@[c],
            px[(x1, y0)]@[c],
            px[(x0, y1)]@[c],
            px[(x1, y1)]@[c],
            at.tx,
            at.ty,
            #[trigger] rgb@[c],
        )
}

fn blend<W: Copy, L: Fn(u8, u8, W) -> u8>(
    lerp: &L,
    p00: u8,
    p10: u8,
    p01: u8,
    p11: u8,
    tx: W,
    ty: W,
) -> (out: u8)
    requires
        forall|a: u8, b: u8, t: W| call_requires(*lerp, (a, b, t)),
    ensures
        blended(*lerp, p00, p10, p01, p11, tx, ty, out),
{
    let top = lerp(p00, p10, tx);
    let bottom = lerp(p01, p11, tx);
    lerp(top, bottom, ty)
}

/// Bilinearly samples `img` at a fractional point, with `lerp` for the blend
/// of two values at a distance between them. Returns `None` outside the frame,
/// so callers can paint what lies there black.
pub fn bilinear<W: Copy, L: Fn(u8, u8, W) -> u8>(
    img: &DynamicImage,
    at: SamplePoint<W>,
    lerp: &L,
) -> (r: Option<[u8; 3]>)
    requires
        forall|a: u8, b: u8, t: W| call_requires(*lerp, (a, b, t)),
    ensures
        match r {
            Some(rgb) => in_frame(at, photo_size(*img)) && sampled(*img, at, *lerp, rgb),
            None => !in_frame(at, photo_size(*img)),
        },
{
    let (w, h) = dimensions(img);
    if at.x < 0 || at.y < 0 || at.x >= w as i64 || at.y >= h as i64 {
        return None;
    }
    let x0: u32 = at.x as u32;
    let y0: u32 = at.y as u32;
    let x1: u32 = if x0 < w - 1 {
        x0 + 1
    } else {
        w - 1
    };
    let y1: u32 = if y0 < h - 1 {
        y0 + 1
    } else {
        h - 1
    };
    let p00 = get_pixel(img, x0, y0);
    let p10 = get_pixel(img, x1, y0);
    let p01 = get_pixel(img, x0, y1);
    let p11 = get_pixel(img, x1, y1);
    let r: u8 = blend(lerp, p00[0], p10[0], p01[0], p11[0], at.tx, at.ty);
    let g: u8 = blend(lerp, p00[1], p10[1], p01[1], p11[1], at.tx, at.ty);
    let b: u8 = blend(lerp, p00[2], p10[2], p01[2], p11[2], at.tx, at.ty);
    Some([r, g, b])
}

/// Sampled at the very place of a pixel, a photo gives that pixel, if blending
/// at no distance gives the first value.
pub proof fn law_sampling_at_a_pixel_gives_it<W, L: Fn(u8, u8, W) -> u8>(
    img: DynamicImage,
    at: SamplePoint<W>,
    lerp: L,
    rgb: [u8; 3],
)
    requires
        sampled(img, at, lerp, rgb),
        forall|a: u8, b: u8, r: u8| #[trigger] call_ensures(lerp, (a, b, at.tx), r) ==> r == a,
        forall|a: u8, b: u8, r: u8| #[trigger] call_ensures(lerp, (a, b, at.ty), r) ==> r == a,
    ensures
        forall|c: int|
            0 <= c < 3 ==> #[trigger] rgb@[c] == photo_pixels(img)[(at.x as int, at.y as int)]@[c],
{
    assert forall|c: int| 0 <= c < 3 implies #[trigger] rgb@[c] == photo_pixels(
        img,
    )[(at.x as int, at.y as int)]@[c] by {
        let px = photo_pixels(img);
        let (x0, y0) = (at.x as int, at.y as int);
        let x1 = next_within(x0, photo_size(img).0 as int);
        let y1 = next_within(y0, photo_size(img).1 as int);
        assert(blended(
            lerp,
            px[(x0, y0)]@[c],
            px[(x1, y0)]@[c],
            px[(x0, y1)]@[c],
            px[(x1, y1)]@[c],
            at.tx,
            at.ty,
            rgb@[c],
        ));
    }
}

/// Where the four pixels around a point are alike, so is the sample, if blending
/// a value with itself gives that value.
pub proof fn law_sampling_keeps_a_flat_area<W, L: Fn(u8, u8, W) -> u8>(
    img: DynamicImage,
    at: SamplePoint<W>,
    lerp: L,
    rgb: [u8; 3],
    color: [u8; 4],
)
    requires
        sampled(img, at, lerp, rgb),
        forall|a: u8, t: W, r: u8| #[trigger] call_ensures(lerp, (a, a, t), r) ==> r == a,
        ({
            let (x, y) = (at.x as int, at.y as int);
            let x1 = next_within(x, photo_size(img).0 as int);
            let y1 = next_within(y, photo_size(img).1 as int);
            let px = photo_pixels(img);
            px[(x, y)] == color && px[(x1, y)] == color && px[(x, y1)] == color && px[(x1, y1)]
                == color
        }),
    ensures
        forall|c: int| 0 <= c < 3 ==> #[trigger] rgb@[c] == color@[c],
{
    assert forall|c: int| 0 <= c < 3 implies #[trigger] rgb@[c] == color@[c] by {
        assert(blended(
            lerp,
            color@[c],
            color@[c],
            color@[c],
            color@[c],
            at.tx,
            at.ty,
            rgb@[c],
        ));
    }
}

// ---------------------------------------------------------------------------
// Rendering
// ---------------------------------------------------------------------------

/// `row` is what `sample` gives along row `y`.
pub open spec fn is_row<F: Fn(u32, u32) -> [u8; 3]>(
    sample: F,
    width: u32,
    y: u32,
    row: Seq<[u8; 3]>,
) -> bool {
    &&& row.len() == width
    &&& forall|x: u32| x < width ==> call_ensures(sample, (x, y), #[trigger] row[x as int])
}

fn sample_row<F: Fn(u32, u32) -> [u8; 3]>(width: u32, y: u32, sample: &F) -> (row: Vec<[u8; 3]>)
    requires
        forall|x: u32| x < width ==> call_requires(*sample, (x, y)),
    ensures
        is_row(*sample, width, y, row@),
{
    let mut row: Vec<[u8; 3]> = Vec::new();
    let mut x: u32 = 0;
    while x < width
        invariant
            x <= width,
            row@.len() == x,
            forall|x: u32| x < width ==> call_requires(*sample, (x, y)),
            forall|k: u32| k < x ==> call_ensures(*sample, (k, y), #[trigger] row@[k as int]),
        decreases width - x,
    {
        row.push(sample(x, y));
        x += 1;
    }
    row
}

/// Samples every row with rayon's parallel iterator: `map` runs the closure
/// once for each row of the range, and `collect` keeps the rows in order.
#[verifier::external_body]
fn sample_rows<F: Fn(u32, u32) -> [u8; 3] + Sync>(width: u32, height: u32, sample: &F) -> (rows:
    Vec<Vec<[u8; 3]>>)
    requires
        forall|x: u32, y: u32| x < width && y < height ==> call_requires(*sample, (x, y)),
    ensures
        rows@.len() == height,
        forall|y: u32| y < height ==> is_row(*sample, width, y, (#[trigger] rows@[y as int])@),
{
    (0..height).into_par_iter().map(|y| sample_row(width, y, sample)).collect()
}

/// `canvas` shows at every pixel what `sample` gives there.
pub open spec fn shows<F: Fn(u32, u32) -> [u8; 3]>(canvas: Canvas, sample: F) -> bool {
    forall|x: u32, y: u32|
        x < canvas_size(canvas).0 && y < canvas_size(canvas).1 ==> call_ensures(
            sample,
            (x, y),
            #[trigger] canvas_pixels(canvas)[(x as int, y as int)],
        )
}

/// The shared backward-remap engine: a canvas of `out_w` by `out_h` pixels, each
/// of them what `sample` gives for its column and row. The rows are sampled in
/// parallel.
pub fn render<F: Fn(u32, u32) -> [u8; 3] + Sync>(out_w: u32, out_h: u32, sample: F) -> (canvas:
    Canvas)
    requires
        canvas_fits(out_w, out_h),
        forall|x: u32, y: u32| x < out_w && y < out_h ==> call_requires(sample, (x, y)),
    ensures
        canvas_size(canvas) == (out_w, out_h),
        shows(canvas, sample),
{
    let rows = sample_rows(out_w, out_h, &sample);
    let mut canvas = new_canvas(out_w, out_h);
    let mut y: u32 = 0;
    while y < out_h
        invariant
            y <= out_h,
            rows@.len() == out_h,
            forall|y: u32| y < out_h ==> is_row(sample, out_w, y, (#[trigger] rows@[y as int])@),
            canvas_size(canvas) == (out_w, out_h),
            forall|a: u32, b: u32|
                a < out_w && b < y ==> call_ensures(
                    sample,
                    (a, b),
                    #[trigger] canvas_pixels(canvas)[(a as int, b as int)],
                ),
        decreases out_h - y,
    {
        let row = &rows[y as usize];
        let mut x: u32 = 0;
        while x < out_w
            invariant
                x <= out_w,
                y < out_h,
                is_row(sample, out_w, y, row@),
                canvas_size(canvas) == (out_w, out_h),
                forall|a: u32, b: u32|
                    a < out_w && b < y ==> call_ensures(
                        sample,
                        (a, b),
                        #[trigger] canvas_pixels(canvas)[(a as int, b as int)],
                    ),
                forall|a: u32|
                    a < x ==> call_ensures(
                        sample,
                        (a, y),
                        #[trigger] canvas_pixels(canvas)[(a as int, y as int)],
                    ),
            decreases out_w - x,
        {
            put_pixel(&mut canvas, x, y, row[x as usize]);
            x += 1;
        }
        y += 1;
    }
    canvas
}

// ---------------------------------------------------------------------------
// Remapping a photo
// ---------------------------------------------------------------------------

/// The pixel that is painted where the source has nothing.
pub open spec fn is_black(rgb: [u8; 3]) -> bool {
    rgb@ == seq![0u8, 0u8, 0u8]
}

/// `rgb` is what is painted for the source point `at`: the sample there, or
/// black where there is no such point or it lies outside the frame.
pub open spec fn painted<W, L: Fn(u8, u8, W) -> u8>(
    img: DynamicImage,
    at: Option<SamplePoint<W>>,
    lerp: L,
    rgb: [u8; 3],
) -> bool {
    match at {
        Some(p) => if in_frame(p, photo_size(img)) {
            sampled(img, p, lerp, rgb)
        } else {
            is_black(rgb)
        },
        None => is_black(rgb),
    }
}

/// Samples `img` at a point, or gives black where there is nothing to sample.
pub fn sample_or_black<W: Copy, L: Fn(u8, u8, W) -> u8>(
    img: &DynamicImage,
    at: Option<SamplePoint<W>>,
    lerp: &L,
) -> (rgb: [u8; 3])
    requires
        forall|a: u8, b: u8, t: W| call_requires(*lerp, (a, b, t)),
    ensures
        painted(*img, at, *lerp, rgb),
{
    match at {
        Some(p) => match bilinear(img, p, lerp) {
            Some(rgb) => rgb,
            None => [0, 0, 0],
        },
        None => [0, 0, 0],
    }
}

/// `rgb` is what is painted for a source point that `point` gives for the
/// output pixel at column `x` and row `y`.
pub open spec fn remapped<W, L: Fn(u8, u8, W) -> u8, P: Fn(u32, u32) -> Option<SamplePoint<W>>>(
    img: DynamicImage,
    point: P,
    lerp: L,
    x: u32,
    y: u32,
    rgb: [u8; 3],
) -> bool {
    exists|at: Option<SamplePoint<W>>| #[trigger]
        call_ensures(point, (x, y), at) && painted(img, at, lerp, rgb)
}

spec fn gives_point<W, P: Fn(u32, u32) -> Option<SamplePoint<W>>>(
    point: &P,
    x: u32,
    y: u32,
) -> bool {
    call_requires(*point, (x, y))
}

spec fn blends<W, L: Fn(u8, u8, W) -> u8>(lerp: &L) -> bool {
    forall|a: u8, b: u8, t: W| call_requires(*lerp, (a, b, t))
}

spec fn remaps<W, L: Fn(u8, u8, W) -> u8, P: Fn(u32, u32) -> Option<SamplePoint<W>>>(
    img: &DynamicImage,
    point: &P,
    lerp: &L,
    x: u32,
    y: u32,
    rgb: [u8; 3],
) -> bool {
    remapped(*img, *point, *lerp, x, y, rgb)
}

/// What was remapped was painted for a source point.
pub proof fn lemma_source_of<
    W,
    L: Fn(u8, u8, W) -> u8,
    P: Fn(u32, u32) -> Option<SamplePoint<W>>,
>(img: DynamicImage, point: P, lerp: L, x: u32, y: u32, rgb: [u8; 3]) -> (at: Option<
    SamplePoint<W>,
>)
    requires
        remapped(img, point, lerp, x, y, rgb),
    ensures
        call_ensures(point, (x, y), at),
        painted(img, at, lerp, rgb),
{
    choose|at: Option<SamplePoint<W>>| #[trigger]
        call_ensures(point, (x, y), at) && painted(img, at, lerp, rgb)
}

/// What is painted for a source point is determined, if the blend of two values
/// is.
pub proof fn law_painting_is_determined<W, L: Fn(u8, u8, W) -> u8>(
    img: DynamicImage,
    at: Option<SamplePoint<W>>,
    lerp: L,
    one: [u8; 3],
    other: [u8; 3],
)
    requires
        painted(img, at, lerp, one),
        painted(img, at, lerp, other),
        forall|a: u8, b: u8, t: W, r: u8, s: u8| #[trigger]
            call_ensures(lerp, (a, b, t), r) && #[trigger] call_ensures(lerp, (a, b, t), s) ==> r
                == s,
    ensures
        one@ == other@,
{
    if let Some(p) = at {
        if in_frame(p, photo_size(img)) {
            let px = photo_pixels(img);
            let (x0, y0) = (p.x as int, p.y as int);
            let x1 = next_within(x0, photo_size(img).0 as int);
            let y1 = next_within(y0, photo_size(img).1 as int);
            assert forall|c: int| 0 <= c < 3 implies one@[c] == other@[c] by {
                let (p00, p10) = (px[(x0, y0)]@[c], px[(x1, y0)]@[c]);
                let (p01, p11) = (px[(x0, y1)]@[c], px[(x1, y1)]@[c]);
                assert(blended(lerp, p00, p10, p01, p11, p.tx, p.ty, one@[c]));
                assert(blended(lerp, p00, p10, p01, p11, p.tx, p.ty, other@[c]));
            }
            assert(one@ =~= other@);
        }
    }
}

/// Remaps `img` to a canvas of `out_w` by `out_h` pixels: `point` says where in
/// the source each output pixel comes from, and `lerp` blends two values.
pub fn remap<
    W: Copy,
    L: Fn(u8, u8, W) -> u8 + Sync,
    P: Fn(u32, u32) -> Option<SamplePoint<W>> + Sync,
>(img: &DynamicImage, out_w: u32, out_h: u32, point: &P, lerp: &L) -> (canvas: Canvas)
    requires
        canvas_fits(out_w, out_h),
        forall|x: u32, y: u32| x < out_w && y < out_h ==> call_requires(*point, (x, y)),
        forall|a: u8, b: u8, t: W| call_requires(*lerp, (a, b, t)),
    ensures
        canvas_size(canvas) == (out_w, out_h),
        forall|x: u32, y: u32|
            x < out_w && y < out_h ==> remapped(
                *img,
                *point,
                *lerp,
                x,
                y,
                #[trigger] canvas_pixels(canvas)[(x as int, y as int)],
            ),
{
    let sample = |x: u32, y: u32| -> (rgb: [u8; 3])
        requires
            gives_point(point, x, y),
            blends(lerp),
        ensures
            remaps(img, point, lerp, x, y, rgb),
        {
            let at = point(x, y);
            sample_or_black(img, at, lerp)
        };
    let canvas = render(out_w, out_h, sample);
    assert forall|x: u32, y: u32| x < out_w && y < out_h implies remapped(
        *img,
        *point,
        *lerp,
        x,
        y,
        #[trigger] canvas_pixels(canvas)[(x as int, y as int)],
    ) by {
        assert(call_ensures(sample, (x, y), canvas_pixels(canvas)[(x as int, y as int)]));
    }
    canvas
}

// ---------------------------------------------------------------------------
// What a pixel of the output shows
// ---------------------------------------------------------------------------

/// A point in the frame is painted as the blend of the four pixels around it: at
/// its own column and row and at the next ones, which at the far edge are its own.
pub proof fn law_sample_blends_the_pixels_around_it<W, L: Fn(u8, u8, W) -> u8>(
    img: DynamicImage,
    at: SamplePoint<W>,
    lerp: L,
    mix: spec_fn(u8, u8, W) -> u8,
    rgb: [u8; 3],
)
    requires
        0 <= at.x < photo_size(img).0,
        0 <= at.y < photo_size(img).1,
        painted(img, Some(at), lerp, rgb),
        forall|a: u8, b: u8, t: W, r: u8| #[trigger]
            call_ensures(lerp, (a, b, t), r) ==> r == mix(a, b, t),
    ensures
        forall|c: int|
            0 <= c < 3 ==> #[trigger] rgb@[c] == {
                let px = photo_pixels(img);
                let (x, y) = (at.x as int, at.y as int);
                let right = if x + 1 < photo_size(img).0 {
                    x + 1
                } else {
                    x
                };
                let below = if y + 1 < photo_size(img).1 {
                    y + 1
                } else {
                    y
                };
                mix(
                    mix(px[(x, y)]@[c], px[(right, y)]@[c], at.tx),
                    mix(px[(x, below)]@[c], px[(right, below)]@[c], at.tx),
                    at.ty,
                )
            },
{
    assert(sampled(img, at, lerp, rgb));
    let px = photo_pixels(img);
    let (x0, y0) = (at.x as int, at.y as int);
    let x1 = next_within(x0, photo_size(img).0 as int);
    let y1 = next_within(y0, photo_size(img).1 as int);
    assert forall|c: int| 0 <= c < 3 implies #[trigger] rgb@[c] == mix(
        mix(px[(x0, y0)]@[c], px[(x1, y0)]@[c], at.tx),
        mix(px[(x0, y1)]@[c], px[(x1, y1)]@[c], at.tx),
        at.ty,
    ) by {
        assert(blended(
            lerp,
            px[(x0, y0)]@[c],
            px[(x1, y0)]@[c],
            px[(x0, y1)]@[c],
            px[(x1, y1)]@[c],
            at.tx,
            at.ty,
            rgb@[c],
        ));
    }
}

/// A point at the full distance towards the next column shows the pixel there,
/// and one at the full distance towards the next row the pixel in that row.
pub proof fn law_full_distance_reaches_the_next_pixel<W, L: Fn(u8, u8, W) -> u8>(
    img: DynamicImage,
    at: SamplePoint<W>,
    lerp: L,
    mix: spec_fn(u8, u8, W) -> u8,
    none: W,
    full: W,
    rgb: [u8; 3],
)
    requires
        0 <= at.x < photo_size(img).0,
        0 <= at.y < photo_size(img).1,
        painted(img, Some(at), lerp, rgb),
        forall|a: u8, b: u8, t: W, r: u8| #[trigger]
            call_ensures(lerp, (a, b, t), r) ==> r == mix(a, b, t),
        forall|a: u8, b: u8| #[trigger] mix(a, b, none) == a,
        forall|a: u8, b: u8| #[trigger] mix(a, b, full) == b,
    ensures
        at.tx == full && at.ty == none && at.x + 1 < photo_size(img).0 ==> forall|c: int|
            0 <= c < 3 ==> #[trigger] rgb@[c] == photo_pixels(img)[(at.x + 1, at.y as int)]@[c],
        at.tx == none && at.ty == full && at.y + 1 < photo_size(img).1 ==> forall|c: int|
            0 <= c < 3 ==> #[trigger] rgb@[c] == photo_pixels(img)[(at.x as int, at.y + 1)]@[c],
        at.tx == full && at.ty == full && at.x + 1 < photo_size(img).0 && at.y + 1 < photo_size(
            img,
        ).1 ==> forall|c: int|
            0 <= c < 3 ==> #[trigger] rgb@[c] == photo_pixels(img)[(at.x + 1, at.y + 1)]@[c],
        at.tx == none && at.ty == none ==> forall|c: int|
            0 <= c < 3 ==> #[trigger] rgb@[c] == photo_pixels(img)[(at.x as int, at.y as int)]@[c],
{
    law_sample_blends_the_pixels_around_it(img, at, lerp, mix, rgb);
}

/// Photos that agree on the pixels in the column and row of a point and in the
/// next ones are painted alike there, whatever else they show.
pub proof fn law_only_the_pixels_around_a_point_count<W, L: Fn(u8, u8, W) -> u8>(
    one: DynamicImage,
    other: DynamicImage,
    at: SamplePoint<W>,
    lerp: L,
    mix: spec_fn(u8, u8, W) -> u8,
    a: [u8; 3],
    b: [u8; 3],
)
    requires
        photo_size(one) == photo_size(other),
        forall|x: int, y: int|
            at.x <= x <= at.x + 1 && at.y <= y <= at.y + 1 && x < photo_size(one).0 && y
                < photo_size(one).1 ==> #[trigger] photo_pixels(one)[(x, y)] == photo_pixels(
                other,
            )[(x, y)],
        painted(one, Some(at), lerp, a),
        painted(other, Some(at), lerp, b),
        forall|p: u8, q: u8, t: W, r: u8| #[trigger]
            call_ensures(lerp, (p, q, t), r) ==> r == mix(p, q, t),
    ensures
        a@ == b@,
{
    if 0 <= at.x < photo_size(one).0 && 0 <= at.y < photo_size(one).1 {
        law_sample_blends_the_pixels_around_it(one, at, lerp, mix, a);
        law_sample_blends_the_pixels_around_it(other, at, lerp, mix, b);
    }
    assert(a@ =~= b@);
}

/// Where there is no source point, or it lies outside the frame, all three
/// channels are zero.
pub proof fn law_nothing_to_sample_is_black<W, L: Fn(u8, u8, W) -> u8>(
    img: DynamicImage,
    at: Option<SamplePoint<W>>,
    lerp: L,
    rgb: [u8; 3],
)
    requires
        painted(img, at, lerp, rgb),
        at matches Some(p) ==> !(0 <= p.x < photo_size(img).0 && 0 <= p.y < photo_size(img).1),
    ensures
        rgb@[0] == 0 && rgb@[1] == 0 && rgb@[2] == 0,
{
}

/// A rendered canvas holds at every column and row the color that belongs there.
pub proof fn law_rendered_pixels_are_in_their_place<F: Fn(u32, u32) -> [u8; 3]>(
    canvas: Canvas,
    sample: F,
    color: spec_fn(u32, u32) -> [u8; 3],
    x: u32,
    y: u32,
)
    requires
        shows(canvas, sample),
        x < canvas_size(canvas).0,
        y < canvas_size(canvas).1,
        forall|i: u32, j: u32, c: [u8; 3]| #[trigger]
            call_ensures(sample, (i, j), c) ==> c == color(i, j),
    ensures
        canvas_pixels(canvas)[(x as int, y as int)] == color(x, y),
{
    assert(call_ensures(sample, (x, y), canvas_pixels(canvas)[(x as int, y as int)]));
}

/// A remapped pixel is painted from the point that belongs to its column and row.
pub proof fn law_remapped_pixels_come_from_their_points<
    W,
    L: Fn(u8, u8, W) -> u8,
    P: Fn(u32, u32) -> Option<SamplePoint<W>>,
>(
    img: DynamicImage,
    point: P,
    lerp: L,
    place: spec_fn(u32, u32) -> Option<SamplePoint<W>>,
    x: u32,
    y: u32,
    rgb: [u8; 3],
)
    requires
        remapped(img, point, lerp, x, y, rgb),
        forall|i: u32, j: u32, p: Option<SamplePoint<W>>| #[trigger]
            call_ensures(point, (i, j), p) ==> p == place(i, j),
    ensures
        painted(img, place(x, y), lerp, rgb),
{
}

/// Canvases of ordinary size fit on every machine, and none whose bytes outnumber
/// what a vector can hold.
pub proof fn law_ordinary_canvases_fit(width: u32, height: u32)
    ensures
        width <= 26_000 && height <= 26_000 ==> canvas_fits(width, height),
        width * height * 3 > isize::MAX ==> !canvas_fits(width, height),
{
    if width <= 26_000 && height <= 26_000 {
        assert(width * height <= 26_000 * 26_000) by (nonlinear_arith)
            requires
                width <= 26_000,
                height <= 26_000,
        ;
    }
}

} // verus!
