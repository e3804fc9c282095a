//! Animating the flattening: which view each frame shows, what its file is
//! called, and how the frames are turned into a video.

use image::DynamicImage;
use std::str::FromStr;
use vstd::prelude::*;
use vstd::string::*;

use crate::metadata::Ratio;
use crate::output::FilePath;
use crate::raster;
use crate::raster::{remap, Canvas, SamplePoint};
use crate::text;
use crate::text::{same_text, to_decimal, to_lower, to_zero_padded};

verus! {

// ---------------------------------------------------------------------------
// The timeline
// ---------------------------------------------------------------------------

/// How many frames are rendered when `steps` are asked for: at least one.
pub open spec fn frames_for(steps: u32) -> u32 {
    if steps == 0 {
        1
    } else {
        steps
    }
}

/// As many frames are rendered as are asked for, and one where none is.
pub proof fn law_frames_are_as_many_as_asked(steps: u32)
    ensures
        steps > 0 ==> frames_for(steps) == steps,
        frames_for(0) == 1,
{
}

/// How many frames are rendered when `steps` are asked for: at least one.
pub fn frame_count(steps: u32) -> (r: u32)
    ensures
        r == frames_for(steps),
        r == (if steps == 0 {
            1
        } else {
            steps
        }),
{
    if steps == 0 {
        1
    } else {
        steps
    }
}

/// Where frame `i` of `steps` stands between the fisheye, 0, and the fully flat
/// view, 1. A single frame is flat.
pub open spec fn position_of(i: u32, steps: u32) -> Ratio {
    if steps <= 1 {
        Ratio { num: 1, den: 1 }
    } else {
        Ratio { num: i, den: (steps - 1) as u32 }
    }
}

/// Where frame `i` of `steps` stands between the fisheye and the flat view.
pub fn frame_position(i: u32, steps: u32) -> (r: Ratio)
    ensures
        r == position_of(i, steps),
{
    if steps <= 1 {
        Ratio { num: 1, den: 1 }
    } else {
        Ratio { num: i, den: steps - 1 }
    }
}

/// The animation runs from 0 to 1, and every frame stands behind the one before
/// it.
pub proof fn law_timeline_runs_from_fisheye_to_flat(steps: u32, i: u32, j: u32)
    requires
        steps > 0,
        i < j < steps,
    ensures
        position_of(0, steps).num == 0,
        position_of((steps - 1) as u32, steps).num == position_of((steps - 1) as u32, steps).den,
        position_of(i, steps).den == position_of(j, steps).den,
        position_of(i, steps).num < position_of(j, steps).num <= position_of(j, steps).den,
{
}

// ---------------------------------------------------------------------------
// What a frame shows
// ---------------------------------------------------------------------------

/// How the crop is animated when the animation starts on the whole frame.
#[derive(Debug, Clone, Copy, PartialEq, Eq, Structural)]
pub enum CropStyle {
    /// Crop and unroll in one motion.
    Simul,
    /// Crop first, then unroll.
    Phased,
}

/// The crop style that goes by `name`.
pub open spec fn crop_style_named(name: Seq<char>) -> Option<CropStyle> {
    if name == "simul"@ {
        Some(CropStyle::Simul)
    } else if name == "phased"@ {
        Some(CropStyle::Phased)
    } else {
        None
    }
}

/// The message for a text that names no crop style.
pub open spec fn unknown_crop_style(s: Seq<char>) -> Seq<char> {
    "Unknown crop style '"@ + s + "'. Use simul or phased."@
}

impl CropStyle {
    /// The crop style that `s` names, in capital or small letters.
    pub fn parse(s: &str) -> (r: Result<CropStyle, String>)
        ensures
            match r {
                Ok(c) => crop_style_named(text::lower(s@)) == Some(c),
                Err(e) => crop_style_named(text::lower(s@)) is None && e@ == unknown_crop_style(
                    s@,
                ),
            },
    {
        let name = to_lower(s);
        proof {
            reveal_strlit("simul");
            reveal_strlit("phased");
        }
        if same_text(name.as_str(), "simul") {
            Ok(CropStyle::Simul)
        } else if same_text(name.as_str(), "phased") {
            Ok(CropStyle::Phased)
        } else {
            let mut e = "Unknown crop style '".to_owned();
            e.append(s);
            e.append("'. Use simul or phased.");
            Err(e)
        }
    }
}

impl FromStr for CropStyle {
    type Err = String;

    /// The crop style that `s` names, in capital or small letters.
    fn from_str(s: &str) -> (r: Result<Self, String>)
        ensures
            match r {
                Ok(c) => crop_style_named(text::lower(s@)) == Some(c),
                Err(e) => crop_style_named(text::lower(s@)) is None && e@ == unknown_crop_style(
                    s@,
                ),
            },
    {
        CropStyle::parse(s)
    }
}

/// A way of showing the photo on the output canvas.
#[derive(Debug, Clone, Copy, PartialEq, Eq, Structural)]
pub enum Look {
    /// The whole input frame, letterboxed.
    Whole,
    /// The strip of the fisheye that is flattened, as it is in the photo.
    Strip,
    /// The fully flattened strip.
    Flat,
}

/// The part of the timeline over which two looks are blended.
#[derive(Debug, Clone, Copy, PartialEq, Eq, Structural)]
pub enum Span {
    /// All of it.
    Full,
    /// The crop phase at its start.
    CropPhase,
    /// What follows the crop phase.
    Rest,
}

/// What a frame shows.
#[derive(Debug, Clone, Copy, PartialEq, Eq, Structural)]
pub enum Morph {
    /// The flattened strip itself.
    Done,
    /// A blend of two looks, over a part of the timeline.
    Blend { from: Look, to: Look, over: Span },
}

/// How the animation starts.
#[derive(Debug, Clone, Copy, PartialEq, Eq, Structural)]
pub enum Opening {
    /// On the strip.
    Cropped,
    /// On the whole frame.
    FullFrame(CropStyle),
}

/// What the frame at position `at` shows, if `in_crop_phase` says whether that
/// lies in the crop phase.
pub open spec fn morph_at(at: Ratio, opening: Opening, in_crop_phase: bool) -> Morph {
    if at.num >= at.den {
        Morph::Done
    } else {
        match opening {
            Opening::Cropped => Morph::Blend { from: Look::Strip, to: Look::Flat, over: Span::Full },
            Opening::FullFrame(CropStyle::Simul) => Morph::Blend {
                from: Look::Whole,
                to: Look::Flat,
                over: Span::Full,
            },
            Opening::FullFrame(CropStyle::Phased) => if in_crop_phase {
                Morph::Blend { from: Look::Whole, to: Look::Strip, over: Span::CropPhase }
            } else {
                Morph::Blend { from: Look::Strip, to: Look::Flat, over: Span::Rest }
            },
        }
    }
}

/// How the animation starts: on the strip, or with `show_crop` on the whole
/// frame, from where `style` says how it gets to the flat view.
pub fn opening(show_crop: bool, style: CropStyle) -> (r: Opening)
    ensures
        r == (if show_crop {
            Opening::FullFrame(style)
        } else {
            Opening::Cropped
        }),
{
    if show_crop {
        Opening::FullFrame(style)
    } else {
        Opening::Cropped
    }
}

/// What the frame at position `at` shows.
pub fn morph(at: Ratio, opening: Opening, in_crop_phase: bool) -> (r: Morph)
    ensures
        r == morph_at(at, opening, in_crop_phase),
{
    if at.num >= at.den {
        return Morph::Done;
    }
    match opening {
        Opening::Cropped => Morph::Blend { from: Look::Strip, to: Look::Flat, over: Span::Full },
        Opening::FullFrame(CropStyle::Simul) => Morph::Blend {
            from: Look::Whole,
            to: Look::Flat,
            over: Span::Full,
        },
        Opening::FullFrame(CropStyle::Phased) => if in_crop_phase {
            Morph::Blend { from: Look::Whole, to: Look::Strip, over: Span::CropPhase }
        } else {
            Morph::Blend { from: Look::Strip, to: Look::Flat, over: Span::Rest }
        },
    }
}

/// `p` is where the output pixel at column `x` and row `y` comes from: the place
/// that the flat look gives, or a blend of the places that two looks give.
pub open spec fn morph_source<P, K: Fn(Look, u32, u32) -> P, B: Fn(P, P, Span) -> P>(
    shown: Morph,
    look: K,
    blend: B,
    x: u32,
    y: u32,
    p: P,
) -> bool {
    match shown {
        Morph::Done => call_ensures(look, (Look::Flat, x, y), p),
        Morph::Blend { from, to, over } => exists|a: P, b: P|
            {
                &&& #[trigger] call_ensures(look, (from, x, y), a)
                &&& #[trigger] call_ensures(look, (to, x, y), b)
                &&& call_ensures(blend, (a, b, over), p)
            },
    }
}

/// Where the output pixel at column `x` and row `y` comes from.
pub fn defish_source<P, K: Fn(Look, u32, u32) -> P, B: Fn(P, P, Span) -> P>(
    shown: Morph,
    look: &K,
    blend: &B,
    x: u32,
    y: u32,
) -> (p: P)
    requires
        forall|l: Look| call_requires(*look, (l, x, y)),
        forall|a: P, b: P, s: Span| call_requires(*blend, (a, b, s)),
    ensures
        morph_source(shown, *look, *blend, x, y, p),
{
    match shown {
        Morph::Done => look(Look::Flat, x, y),
        Morph::Blend { from, to, over } => {
            let a = look(from, x, y);
            let b = look(to, x, y);
            blend(a, b, over)
        },
    }
}

/// `rgb` is what a frame paints at column `x` and row `y`.
pub open spec fn defished<
    W,
    P,
    K: Fn(Look, u32, u32) -> P,
    B: Fn(P, P, Span) -> P,
    S: Fn(P) -> SamplePoint<W>,
    L: Fn(u8, u8, W) -> u8,
>(
    img: DynamicImage,
    shown: Morph,
    look: K,
    blend: B,
    place: S,
    lerp: L,
    x: u32,
    y: u32,
    rgb: [u8; 3],
) -> bool {
    exists|p: P, at: SamplePoint<W>|
        {
            &&& #[trigger] morph_source(shown, look, blend, x, y, p)
            &&& #[trigger] call_ensures(place, (p,), at)
            &&& raster::painted(img, Some(at), lerp, rgb)
        }
}

/// `canvas` is a frame of `size`: every pixel of it is what the frame paints
/// there.
pub open spec fn shows_frame<
    W,
    P,
    K: Fn(Look, u32, u32) -> P,
    B: Fn(P, P, Span) -> P,
    S: Fn(P) -> SamplePoint<W>,
    L: Fn(u8, u8, W) -> u8,
>(
    canvas: Canvas,
    img: DynamicImage,
    size: (u32, u32),
    shown: Morph,
    look: K,
    blend: B,
    place: S,
    lerp: L,
) -> bool {
    &&& raster::canvas_size(canvas) == size
    &&& forall|x: u32, y: u32|
        x < size.0 && y < size.1 ==> defished(
            img,
            shown,
            look,
            blend,
            place,
            lerp,
            x,
            y,
            #[trigger] raster::canvas_pixels(canvas)[(x as int, y as int)],
        )
}

spec fn looks<P, K: Fn(Look, u32, u32) -> P>(look: &K) -> bool {
    forall|l: Look, x: u32, y: u32| call_requires(*look, (l, x, y))
}

spec fn joins<P, B: Fn(P, P, Span) -> P>(blend: &B) -> bool {
    forall|a: P, b: P, s: Span| call_requires(*blend, (a, b, s))
}

spec fn places<W, P, S: Fn(P) -> SamplePoint<W>>(place: &S) -> bool {
    forall|p: P| call_requires(*place, (p,))
}

spec fn comes_from<
    W,
    P,
    K: Fn(Look, u32, u32) -> P,
    B: Fn(P, P, Span) -> P,
    S: Fn(P) -> SamplePoint<W>,
>(
    shown: Morph,
    look: &K,
    blend: &B,
    place: &S,
    x: u32,
    y: u32,
    at: Option<SamplePoint<W>>,
) -> bool {
    exists|p: P, q: SamplePoint<W>|
        {
            &&& #[trigger] morph_source(shown, *look, *blend, x, y, p)
            &&& #[trigger] call_ensures(*place, (p,), q)
            &&& at == Some(q)
        }
}

/// Renders a frame of `w` by `h` pixels. `look` says where a look takes a pixel
/// from, `blend` joins two such places over a part of the timeline, `place` makes
/// a source point of one, and `lerp` blends two values.
pub fn render_frame<
    W: Copy,
    P,
    K: Fn(Look, u32, u32) -> P + Sync,
    B: Fn(P, P, Span) -> P + Sync,
    S: Fn(P) -> SamplePoint<W> + Sync,
    L: Fn(u8, u8, W) -> u8 + Sync,
>(
    img: &DynamicImage,
    w: u32,
    h: u32,
    shown: Morph,
    look: &K,
    blend: &B,
    place: &S,
    lerp: &L,
) -> (canvas: Canvas)
    requires
        raster::canvas_fits(w, h),
        forall|l: Look, x: u32, y: u32| call_requires(*look, (l, x, y)),
        forall|a: P, b: P, s: Span| call_requires(*blend, (a, b, s)),
        forall|p: P| call_requires(*place, (p,)),
        forall|a: u8, b: u8, t: W| call_requires(*lerp, (a, b, t)),
    ensures
        shows_frame(canvas, *img, (w, h), shown, *look, *blend, *place, *lerp),
{
    let point = |x: u32, y: u32| -> (at: Option<SamplePoint<W>>)
        requires
            looks(look),
            joins(blend),
            places(place),
        ensures
            comes_from(shown, look, blend, place, x, y, at),
        {
            let p = defish_source(shown, look, blend, x, y);
            Some(place(p))
        };
    let canvas = remap(img, w, h, &point, lerp);
    assert forall|x: u32, y: u32| x < w && y < h implies defished(
        *img,
        shown,
        *look,
        *blend,
        *place,
        *lerp,
        x,
        y,
        #[trigger] raster::canvas_pixels(canvas)[(x as int, y as int)],
    ) by {
        let rgb = raster::canvas_pixels(canvas)[(x as int, y as int)];
        let at = raster::lemma_source_of(*img, point, *lerp, x, y, rgb);
        assert(comes_from(shown, look, blend, place, x, y, at));
    }
    canvas
}

/// The last frame is the full flatten, however the animation starts.
pub proof fn law_last_frame_is_flat(steps: u32, opening: Opening, in_crop_phase: bool)
    requires
        steps > 0,
    ensures
        morph_at(position_of((steps - 1) as u32, steps), opening, in_crop_phase) == Morph::Done,
{
}

/// The last frame is the full flatten pixel by pixel, however the animation
/// starts and whatever blends its other frames, if looks, places and the blend of
/// two values are determined.
pub proof fn law_last_frame_equals_the_flatten<
    W,
    P,
    K: Fn(Look, u32, u32) -> P,
    B: Fn(P, P, Span) -> P,
    C: Fn(P, P, Span) -> P,
    S: Fn(P) -> SamplePoint<W>,
    L: Fn(u8, u8, W) -> u8,
>(
    img: DynamicImage,
    size: (u32, u32),
    steps: u32,
    opening: Opening,
    in_crop_phase: bool,
    look: K,
    blend: B,
    flat_blend: C,
    place: S,
    lerp: L,
    frame: Canvas,
    flat: Canvas,
)
    requires
        steps > 0,
        shows_frame(
            frame,
            img,
            size,
            morph_at(position_of((steps - 1) as u32, steps), opening, in_crop_phase),
            look,
            blend,
            place,
            lerp,
        ),
        shows_frame(flat, img, size, Morph::Done, look, flat_blend, place, lerp),
        forall|l: Look, x: u32, y: u32, p: P, q: P| #[trigger]
            call_ensures(look, (l, x, y), p) && #[trigger] call_ensures(look, (l, x, y), q) ==> p
                == q,
        forall|p: P, a: SamplePoint<W>, b: SamplePoint<W>| #[trigger]
            call_ensures(place, (p,), a) && #[trigger] call_ensures(place, (p,), b) ==> a == b,
        forall|a: u8, b: u8, t: W, r: u8, s: u8| #[trigger]
            call_ensures(lerp, (a, b, t), r) && #[trigger] call_ensures(lerp, (a, b, t), s) ==> r
                == s,
    ensures
        raster::canvas_size(frame) == raster::canvas_size(flat),
        forall|x: u32, y: u32|
            x < size.0 && y < size.1 ==> (#[trigger] raster::canvas_pixels(
                frame,
            )[(x as int, y as int)])@ == raster::canvas_pixels(flat)[(x as int, y as int)]@,
{
    assert forall|x: u32, y: u32| x < size.0 && y < size.1 implies (
    #[trigger] raster::canvas_pixels(frame)[(x as int, y as int)])@ == raster::canvas_pixels(
        flat,
    )[(x as int, y as int)]@ by {
        let one = raster::canvas_pixels(frame)[(x as int, y as int)];
        let other = raster::canvas_pixels(flat)[(x as int, y as int)];
        let (p, a) = choose|p: P, a: SamplePoint<W>|
            {
                &&& #[trigger] morph_source(Morph::Done, look, blend, x, y, p)
                &&& #[trigger] call_ensures(place, (p,), a)
                &&& raster::painted(img, Some(a), lerp, one)
            };
        assert(defished(img, Morph::Done, look, blend, place, lerp, x, y, one));
        let (q, b) = choose|q: P, b: SamplePoint<W>|
            {
                &&& #[trigger] morph_source(Morph::Done, look, flat_blend, x, y, q)
                &&& #[trigger] call_ensures(place, (q,), b)
                &&& raster::painted(img, Some(b), lerp, other)
            };
        assert(defished(img, Morph::Done, look, flat_blend, place, lerp, x, y, other));
        assert(p == q);
        assert(a == b);
        raster::law_painting_is_determined(img, Some(a), lerp, one, other);
    }
}

/// The look that an animation starts with.
pub open spec fn first_look(opening: Opening) -> Look {
    match opening {
        Opening::Cropped => Look::Strip,
        Opening::FullFrame(_) => Look::Whole,
    }
}

/// At position 0 a frame shows the strip, or the whole photo where that was
/// asked for, if a blend gives its first place there.
pub proof fn law_first_frame_shows_the_opening<
    W,
    P,
    K: Fn(Look, u32, u32) -> P,
    B: Fn(P, P, Span) -> P,
    S: Fn(P) -> SamplePoint<W>,
    L: Fn(u8, u8, W) -> u8,
>(
    img: DynamicImage,
    at: Ratio,
    opening: Opening,
    look: K,
    blend: B,
    place: S,
    lerp: L,
    x: u32,
    y: u32,
    rgb: [u8; 3],
)
    requires
        at.num == 0,
        at.den > 0,
        defished(img, morph_at(at, opening, true), look, blend, place, lerp, x, y, rgb),
        forall|a: P, b: P, s: Span, r: P| #[trigger]
            call_ensures(blend, (a, b, s), r) ==> r == a,
    ensures
        exists|p: P, q: SamplePoint<W>|
            {
                &&& #[trigger] call_ensures(look, (first_look(opening), x, y), p)
                &&& #[trigger] call_ensures(place, (p,), q)
                &&& raster::painted(img, Some(q), lerp, rgb)
            },
{
    let shown = morph_at(at, opening, true);
    let (p, q) = choose|p: P, q: SamplePoint<W>|
        {
            &&& #[trigger] morph_source(shown, look, blend, x, y, p)
            &&& #[trigger] call_ensures(place, (p,), q)
            &&& raster::painted(img, Some(q), lerp, rgb)
        };
    assert(call_ensures(look, (first_look(opening), x, y), p));
}

/// At the end of the crop phase, where a blend gives its second place, a frame
/// shows the strip.
pub proof fn law_crop_phase_ends_on_the_strip<
    W,
    P,
    K: Fn(Look, u32, u32) -> P,
    B: Fn(P, P, Span) -> P,
    S: Fn(P) -> SamplePoint<W>,
    L: Fn(u8, u8, W) -> u8,
>(
    img: DynamicImage,
    at: Ratio,
    look: K,
    blend: B,
    place: S,
    lerp: L,
    x: u32,
    y: u32,
    rgb: [u8; 3],
)
    requires
        at.num < at.den,
        defished(
            img,
            morph_at(at, Opening::FullFrame(CropStyle::Phased), true),
            look,
            blend,
            place,
            lerp,
            x,
            y,
            rgb,
        ),
        forall|a: P, b: P, s: Span, r: P| #[trigger]
            call_ensures(blend, (a, b, s), r) ==> r == b,
    ensures
        exists|p: P, q: SamplePoint<W>|
            {
                &&& #[trigger] call_ensures(look, (Look::Strip, x, y), p)
                &&& #[trigger] call_ensures(place, (p,), q)
                &&& raster::painted(img, Some(q), lerp, rgb)
            },
{
    let shown = morph_at(at, Opening::FullFrame(CropStyle::Phased), true);
    let (p, q) = choose|p: P, q: SamplePoint<W>|
        {
            &&& #[trigger] morph_source(shown, look, blend, x, y, p)
            &&& #[trigger] call_ensures(place, (p,), q)
            &&& raster::painted(img, Some(q), lerp, rgb)
        };
    assert(call_ensures(look, (Look::Strip, x, y), p));
}

/// The crop phase matters only to an animation that crops first and unrolls
/// then.
pub proof fn law_crop_phase_is_for_phased_animations(at: Ratio, opening: Opening)
    requires
        opening != Opening::FullFrame(CropStyle::Phased),
    ensures
        morph_at(at, opening, true) == morph_at(at, opening, false),
{
}

/// Of several frames, the first, which lies in the crop phase if there is one,
/// starts on the strip, or on the whole frame where that was asked for.
pub proof fn law_first_frame_opens(steps: u32, opening: Opening)
    requires
        steps > 1,
    ensures
        morph_at(position_of(0, steps), opening, true) matches Morph::Blend { from, .. } && from
            == (if opening == Opening::Cropped {
            Look::Strip
        } else {
            Look::Whole
        }),
{
}

/// Every blend leads to the flat view, but for the crop phase, which leads to
/// where the unrolling starts.
pub proof fn law_phases_join(at: Ratio, opening: Opening, in_crop_phase: bool)
    ensures
        morph_at(at, opening, in_crop_phase) matches Morph::Blend { from, to, over } ==> {
            if over == Span::CropPhase {
                opening == Opening::FullFrame(CropStyle::Phased) && morph_at(at, opening, false)
                    == (Morph::Blend { from: to, to: Look::Flat, over: Span::Rest })
            } else {
                to == Look::Flat
            }
        },
{
}

// ---------------------------------------------------------------------------
// Size of the frames
// ---------------------------------------------------------------------------

/// By what the scale is multiplied so that frames of width `out_w` come out no
/// wider than `max_width`; nothing where they fit, or where the cap is zero.
pub open spec fn width_cap(max_width: u32, out_w: u32) -> Option<Ratio> {
    if max_width > 0 && out_w > max_width {
        Some(Ratio { num: max_width, den: out_w })
    } else {
        None
    }
}

/// By what the scale is multiplied so that frames are no wider than `max_width`.
pub fn cap_width(max_width: u32, out_w: u32) -> (r: Option<Ratio>)
    ensures
        r == width_cap(max_width, out_w),
{
    if max_width > 0 && out_w > max_width {
        Some(Ratio { num: max_width, den: out_w })
    } else {
        None
    }
}

/// The width of the frames: `out_w`, or `max_width` where that is less and not
/// zero.
pub open spec fn capped(max_width: u32, out_w: u32) -> u32 {
    if max_width > 0 && out_w > max_width {
        max_width
    } else {
        out_w
    }
}

/// The width of the frames, with the cap applied.
pub fn frame_width(max_width: u32, out_w: u32) -> (r: u32)
    ensures
        r == capped(max_width, out_w),
{
    if max_width > 0 && out_w > max_width {
        max_width
    } else {
        out_w
    }
}

/// A cap that is not zero bounds the width; the scale goes down by just what the
/// width does, and frames that fit keep both.
pub proof fn law_frames_are_no_wider_than_the_cap(max_width: u32, out_w: u32)
    ensures
        max_width > 0 ==> capped(max_width, out_w) <= max_width,
        max_width > 0 && out_w > max_width ==> capped(max_width, out_w) == max_width,
        max_width == 0 || out_w <= max_width ==> capped(max_width, out_w) == out_w,
        match width_cap(max_width, out_w) {
            Some(q) => q.num < q.den && out_w * q.num == capped(max_width, out_w) * q.den,
            None => capped(max_width, out_w) == out_w,
        },
{
    assert(out_w * max_width == max_width * out_w) by (nonlinear_arith);
}

// ---------------------------------------------------------------------------
// Numbered image sequences
// ---------------------------------------------------------------------------

/// Where the frames go.
#[derive(Debug, Clone, Copy, PartialEq, Eq, Structural)]
pub enum Destination {
    /// To a numbered image sequence, as was asked for.
    Sequence,
    /// To a numbered image sequence, for want of an encoder.
    SequenceForWantOfEncoder,
    /// To a video.
    Video,
}

/// Where the frames go: to a video, unless a sequence was asked for or there is
/// no encoder.
pub fn destination(frames: bool, has_encoder: bool) -> (r: Destination)
    ensures
        r == (if frames {
            Destination::Sequence
        } else if !has_encoder {
            Destination::SequenceForWantOfEncoder
        } else {
            Destination::Video
        }),
{
    if frames {
        Destination::Sequence
    } else if !has_encoder {
        Destination::SequenceForWantOfEncoder
    } else {
        Destination::Video
    }
}

/// A file extension of a video container, in lower case.
pub open spec fn is_container(ext: Seq<char>) -> bool {
    ||| ext == "mp4"@
    ||| ext == "mov"@
    ||| ext == "mkv"@
    ||| ext == "webm"@
    ||| ext == "avi"@
    ||| ext == "m4v"@
}

/// Whether `e` is the file extension of a video, in capital or small letters.
pub fn is_video_ext(e: &str) -> (r: bool)
    ensures
        r == is_container(text::lower(e@)),
{
    let low = to_lower(e);
    let ext = low.as_str();
    same_text(ext, "mp4") || same_text(ext, "mov") || same_text(ext, "mkv") || same_text(ext, "webm")
        || same_text(ext, "avi") || same_text(ext, "m4v")
}

/// The extension of the frames' files: that of the output, unless it has none or
/// that of a video.
pub open spec fn frame_ext(output_ext: Option<Seq<char>>) -> Seq<char> {
    match output_ext {
        Some(e) => if is_container(text::lower(e)) {
            "png"@
        } else {
            e
        },
        None => "png"@,
    }
}

/// The extension of the frames' files.
pub fn sequence_ext(output_ext: Option<&str>) -> (r: String)
    ensures
        r@ == frame_ext(
            match output_ext {
                Some(e) => Some(e@),
                None => None,
            },
        ),
{
    match output_ext {
        Some(e) => if is_video_ext(e) {
            "png".to_owned()
        } else {
            e.to_owned()
        },
        None => "png".to_owned(),
    }
}

/// Frames are never given the extension of a video.
pub proof fn law_frames_are_no_videos(output_ext: Option<Seq<char>>)
    ensures
        !is_container(text::lower(frame_ext(output_ext))),
{
    reveal_strlit("png");
    reveal_strlit("mp4");
    reveal_strlit("mov");
    reveal_strlit("mkv");
    reveal_strlit("webm");
    reveal_strlit("avi");
    reveal_strlit("m4v");
    assert(text::lower("png"@) =~= "png"@);
    assert("png"@[0] == 'p');
    assert("mp4"@[0] == 'm' && "mov"@[0] == 'm' && "mkv"@[0] == 'm' && "webm"@[0] == 'w'
        && "avi"@[0] == 'a' && "m4v"@[0] == 'm');
}

/// Where the frames go and what their names start with: the directory and the
/// name of the output without its extension, else those of the input, the name
/// with `_anim`.
pub fn sequence_stem<D>(input_dir: D, input_stem: &str, output: Option<(D, &str)>) -> (r: FilePath<
    D,
>)
    ensures
        match output {
            Some((dir, stem)) => r.dir == dir && r.name@ == stem@,
            None => r.dir == input_dir && r.name@ == input_stem@ + "_anim"@,
        },
{
    match output {
        Some((dir, stem)) => FilePath { dir, name: stem.to_owned() },
        None => {
            let mut name = input_stem.to_owned();
            name.append("_anim");
            FilePath { dir: input_dir, name }
        },
    }
}

/// The name of the file of frame `i`.
pub open spec fn frame_name_of(stem: Seq<char>, i: u32, ext: Seq<char>) -> Seq<char> {
    stem + "_"@ + text::zero_padded(i as nat, 4) + "."@ + ext
}

/// The name of the file of frame `i`.
pub fn frame_name(stem: &str, i: u32, ext: &str) -> (r: String)
    ensures
        r@ == frame_name_of(stem@, i, ext@),
{
    let mut r = stem.to_owned();
    r.append("_");
    let n = to_zero_padded(i, 4);
    r.append(n.as_str());
    r.append(".");
    r.append(ext);
    r
}

/// Two frames never share a file.
pub proof fn law_frames_have_their_own_files(stem: Seq<char>, ext: Seq<char>, i: u32, j: u32)
    requires
        frame_name_of(stem, i, ext) == frame_name_of(stem, j, ext),
    ensures
        i == j,
{
    let a = text::zero_padded(i as nat, 4);
    let b = text::zero_padded(j as nat, 4);
    let head = stem + "_"@;
    let tail = "."@ + ext;
    let all = frame_name_of(stem, i, ext);
    let n = head.len() as int;
    assert(all =~= head + a + tail);
    assert(frame_name_of(stem, j, ext) =~= head + b + tail);
    assert(a.len() == b.len());
    assert((head + a + tail).subrange(n, n + a.len()) =~= a);
    assert((head + b + tail).subrange(n, n + b.len()) =~= b);
    text::law_numerals_keep_their_value(i as nat, 4);
    text::law_numerals_keep_their_value(j as nat, 4);
}

/// The pattern by which an encoder finds the frames' files.
pub open spec fn frame_pattern_of(stem: Seq<char>, ext: Seq<char>) -> Seq<char> {
    stem + "_%04d."@ + ext
}

/// The pattern by which an encoder finds the frames' files.
pub fn frame_pattern(stem: &str, ext: &str) -> (r: String)
    ensures
        r@ == frame_pattern_of(stem@, ext@),
{
    let mut r = stem.to_owned();
    r.append("_%04d.");
    r.append(ext);
    r
}

/// The command that assembles a sequence to a video.
pub open spec fn assembly_of(
    fps: Seq<char>,
    pattern: Seq<char>,
    crf: u32,
    pix_fmt: Seq<char>,
) -> Seq<char> {
    "ffmpeg -framerate "@ + fps + " -i "@ + pattern + " -c:v libx264 -crf "@ + text::decimal(
        crf as nat,
    ) + " -pix_fmt "@ + pix_fmt + " out.mp4"@
}

/// The command that assembles a sequence to a video.
pub fn assemble_command(fps: &str, pattern: &str, crf: u32, pix_fmt: &str) -> (r: String)
    ensures
        r@ == assembly_of(fps@, pattern@, crf, pix_fmt@),
{
    let mut r = "ffmpeg -framerate ".to_owned();
    r.append(fps);
    r.append(" -i ");
    r.append(pattern);
    r.append(" -c:v libx264 -crf ");
    let n = to_decimal(crf);
    r.append(n.as_str());
    r.append(" -pix_fmt ");
    r.append(pix_fmt);
    r.append(" out.mp4");
    r
}

// ---------------------------------------------------------------------------
// Videos
// ---------------------------------------------------------------------------

/// The extension that says which container a video is: that of the output in
/// lower case, else that of the default.
pub open spec fn container_of(output_ext: Option<Seq<char>>) -> Seq<char> {
    match output_ext {
        Some(e) => text::lower(e),
        None => "mp4"@,
    }
}

/// The extension that says which container a video is.
pub fn video_ext(output_ext: Option<&str>) -> (r: String)
    ensures
        r@ == container_of(
            match output_ext {
                Some(e) => Some(e@),
                None => None,
            },
        ),
{
    match output_ext {
        Some(e) => to_lower(e),
        None => "mp4".to_owned(),
    }
}

/// The codec, chosen by the container.
pub open spec fn codec_of(ext: Seq<char>, crf: u32, pix_fmt: Seq<char>) -> Seq<Seq<char>> {
    if ext == "mov"@ {
        seq!["-c:v"@, "prores_ks"@, "-profile:v"@, "3"@, "-pix_fmt"@, "yuv422p10le"@]
    } else if ext == "webm"@ {
        seq![
            "-c:v"@,
            "libvpx-vp9"@,
            "-crf"@,
            text::decimal(crf as nat),
            "-b:v"@,
            "0"@,
            "-pix_fmt"@,
            pix_fmt,
        ]
    } else {
        seq!["-c:v"@, "libx264"@, "-crf"@, text::decimal(crf as nat), "-pix_fmt"@, pix_fmt]
    }
}

/// A filter that forces even dimensions, and the codec.
pub open spec fn codec_args_of(ext: Seq<char>, crf: u32, pix_fmt: Seq<char>) -> Seq<Seq<char>> {
    seq!["-vf"@, "crop=trunc(iw/2)*2:trunc(ih/2)*2"@] + codec_of(ext, crf, pix_fmt)
}

fn push_arg(args: &mut Vec<String>, arg: &str)
    ensures
        text::texts(final(args)@) == text::texts(old(args)@).push(arg@),
{
    let ghost before = text::texts(args@);
    args.push(arg.to_owned());
    assert(text::texts(args@) =~= before.push(arg@));
}

/// Arguments for ffmpeg's output (filter and codec), chosen by the container's
/// extension. The filter forces even dimensions, which the codecs require.
pub fn video_codec_args(ext: &str, crf: u32, pix_fmt: &str) -> (r: Vec<String>)
    ensures
        text::texts(r@) == codec_args_of(ext@, crf, pix_fmt@),
{
    let mut r: Vec<String> = Vec::new();
    assert(text::texts(r@) =~= Seq::<Seq<char>>::empty());
    push_arg(&mut r, "-vf");
    push_arg(&mut r, "crop=trunc(iw/2)*2:trunc(ih/2)*2");
    push_arg(&mut r, "-c:v");
    if same_text(ext, "mov") {
        push_arg(&mut r, "prores_ks");
        push_arg(&mut r, "-profile:v");
        push_arg(&mut r, "3");
        push_arg(&mut r, "-pix_fmt");
        push_arg(&mut r, "yuv422p10le");
    } else {
        let webm = same_text(ext, "webm");
        let quality = to_decimal(crf);
        if webm {
            push_arg(&mut r, "libvpx-vp9");
        } else {
            push_arg(&mut r, "libx264");
        }
        push_arg(&mut r, "-crf");
        push_arg(&mut r, quality.as_str());
        if webm {
            push_arg(&mut r, "-b:v");
            push_arg(&mut r, "0");
        }
        push_arg(&mut r, "-pix_fmt");
        push_arg(&mut r, pix_fmt);
    }
    assert(text::texts(r@) =~= codec_args_of(ext@, crf, pix_fmt@));
    r
}

/// A container in which players look for the index at the front.
pub open spec fn wants_faststart(ext: Seq<char>) -> bool {
    ext == "mp4"@ || ext == "mov"@ || ext == "m4v"@
}

/// What ffmpeg is told of the raw frames on its input.
pub open spec fn input_args_of(w: u32, h: u32, fps: Seq<char>) -> Seq<Seq<char>> {
    seq![
        "-hide_banner"@,
        "-loglevel"@,
        "error"@,
        "-y"@,
        "-f"@,
        "rawvideo"@,
        "-pix_fmt"@,
        "rgb24"@,
        "-s"@,
        text::decimal(w as nat) + "x"@ + text::decimal(h as nat),
        "-r"@,
        fps,
        "-i"@,
        "-"@,
    ]
}

/// What ffmpeg is told of a video, without the name of its file.
pub open spec fn video_args_of(
    w: u32,
    h: u32,
    fps: Seq<char>,
    ext: Seq<char>,
    crf: u32,
    pix_fmt: Seq<char>,
) -> Seq<Seq<char>> {
    let common = input_args_of(w, h, fps) + codec_args_of(ext, crf, pix_fmt) + seq!["-r"@, "30"@];
    if wants_faststart(ext) {
        common + seq!["-movflags"@, "+faststart"@]
    } else {
        common
    }
}

/// Arguments for ffmpeg, without the name of the output: raw frames of `w` by
/// `h` pixels come in at `fps`, and a video at a constant 30 frames a second
/// goes out, which finicky players animate at any speed.
pub fn video_args(w: u32, h: u32, fps: &str, ext: &str, crf: u32, pix_fmt: &str) -> (r: Vec<String>)
    ensures
        text::texts(r@) == video_args_of(w, h, fps@, ext@, crf, pix_fmt@),
{
    let mut r: Vec<String> = Vec::new();
    assert(text::texts(r@) =~= Seq::<Seq<char>>::empty());
    push_arg(&mut r, "-hide_banner");
    push_arg(&mut r, "-loglevel");
    push_arg(&mut r, "error");
    push_arg(&mut r, "-y");
    push_arg(&mut r, "-f");
    push_arg(&mut r, "rawvideo");
    push_arg(&mut r, "-pix_fmt");
    push_arg(&mut r, "rgb24");
    push_arg(&mut r, "-s");
    let mut size = to_decimal(w);
    size.append("x");
    let height = to_decimal(h);
    size.append(height.as_str());
    push_arg(&mut r, size.as_str());
    push_arg(&mut r, "-r");
    push_arg(&mut r, fps);
    push_arg(&mut r, "-i");
    push_arg(&mut r, "-");
    assert(text::texts(r@) =~= input_args_of(w, h, fps@));
    let mut codec = video_codec_args(ext, crf, pix_fmt);
    let ghost before = text::texts(r@);
    let ghost more = text::texts(codec@);
    r.append(&mut codec);
    assert(text::texts(r@) =~= before + more);
    push_arg(&mut r, "-r");
    push_arg(&mut r, "30");
    if same_text(ext, "mp4") || same_text(ext, "mov") || same_text(ext, "m4v") {
        push_arg(&mut r, "-movflags");
        push_arg(&mut r, "+faststart");
    }
    assert(text::texts(r@) =~= video_args_of(w, h, fps@, ext@, crf, pix_fmt@));
    r
}

/// Whatever the container and the speed, a video comes out at a constant 30
/// frames a second and with even dimensions: behind the input stand the filter
/// and the codec, then the rate.
pub proof fn law_videos_are_compatible(
    w: u32,
    h: u32,
    fps: Seq<char>,
    ext: Seq<char>,
    crf: u32,
    pix_fmt: Seq<char>,
)
    ensures
        ({
            let args = video_args_of(w, h, fps, ext, crf, pix_fmt);
            let at = 14 + codec_args_of(ext, crf, pix_fmt).len() as int;
            &&& args[12] == "-i"@
            &&& args[14] == "-vf"@
            &&& args[15] == "crop=trunc(iw/2)*2:trunc(ih/2)*2"@
            &&& at + 2 <= args.len()
            &&& args[at] == "-r"@
            &&& args[at + 1] == "30"@
        }),
{
    let input = input_args_of(w, h, fps);
    let codec = codec_args_of(ext, crf, pix_fmt);
    let args = video_args_of(w, h, fps, ext, crf, pix_fmt);
    assert(input.len() == 14);
    assert(codec.len() >= 2);
    assert(args[12] == input[12]);
    assert(args[14] == codec[0]);
    assert(args[15] == codec[1]);
}

// ---------------------------------------------------------------------------
// The whole timeline
// ---------------------------------------------------------------------------

/// Frames are spread evenly: of several, frame `i` stands at `i` parts of as many
/// as there are steps between the first and the last; a single one stands at the
/// end.
pub proof fn law_frames_are_spread_evenly(i: u32, steps: u32)
    requires
        i < steps,
    ensures
        steps >= 2 ==> position_of(i, steps).num == i && position_of(i, steps).den == steps - 1,
        steps == 1 ==> position_of(i, steps).num == position_of(i, steps).den
            && position_of(i, steps).den > 0,
{
}

/// The flat view itself is shown at the end of the timeline and nowhere before.
/// Until then a strip unrolls, or the whole frame goes to flat in one motion, each
/// over the full timeline; where cropping comes first, the whole frame goes to the
/// strip in the crop phase and the strip to flat in the rest.
pub proof fn law_frames_blend_until_the_end(at: Ratio, in_crop_phase: bool)
    ensures
        forall|opening: Opening| #[trigger]
            morph_at(at, opening, in_crop_phase) == Morph::Done <==> at.num >= at.den,
        at.num < at.den ==> {
            &&& morph_at(at, Opening::Cropped, in_crop_phase) == (Morph::Blend {
                from: Look::Strip,
                to: Look::Flat,
                over: Span::Full,
            })
            &&& morph_at(at, Opening::FullFrame(CropStyle::Simul), in_crop_phase) == (Morph::Blend {
                from: Look::Whole,
                to: Look::Flat,
                over: Span::Full,
            })
            &&& in_crop_phase ==> morph_at(at, Opening::FullFrame(CropStyle::Phased), true) == (
            Morph::Blend { from: Look::Whole, to: Look::Strip, over: Span::CropPhase })
            &&& !in_crop_phase ==> morph_at(at, Opening::FullFrame(CropStyle::Phased), false) == (
            Morph::Blend { from: Look::Strip, to: Look::Flat, over: Span::Rest })
        },
{
}

/// Of the frames of an animation only the last is the flat view itself.
pub proof fn law_only_the_last_frame_is_done(
    i: u32,
    steps: u32,
    opening: Opening,
    in_crop_phase: bool,
)
    requires
        i < steps,
    ensures
        morph_at(position_of(i, steps), opening, in_crop_phase) == Morph::Done <==> i == steps - 1,
{
}

/// A pixel of a frame is painted from the place that its two looks give for that
/// very pixel, blended from the first to the second; once done, from the flat one
/// alone.
pub proof fn law_frames_paint_from_their_looks<
    W,
    P,
    K: Fn(Look, u32, u32) -> P,
    B: Fn(P, P, Span) -> P,
    S: Fn(P) -> SamplePoint<W>,
    L: Fn(u8, u8, W) -> u8,
>(
    img: DynamicImage,
    shown: Morph,
    look: K,
    blend: B,
    place: S,
    lerp: L,
    seen: spec_fn(Look, u32, u32) -> P,
    between: spec_fn(P, P, Span) -> P,
    point: spec_fn(P) -> SamplePoint<W>,
    x: u32,
    y: u32,
    rgb: [u8; 3],
)
    requires
        defished(img, shown, look, blend, place, lerp, x, y, rgb),
        forall|l: Look, i: u32, j: u32, p: P| #[trigger]
            call_ensures(look, (l, i, j), p) ==> p == seen(l, i, j),
        forall|a: P, b: P, s: Span, p: P| #[trigger]
            call_ensures(blend, (a, b, s), p) ==> p == between(a, b, s),
        forall|p: P, q: SamplePoint<W>| #[trigger] call_ensures(place, (p,), q) ==> q == point(p),
    ensures
        match shown {
            Morph::Done => raster::painted(img, Some(point(seen(Look::Flat, x, y))), lerp, rgb),
            Morph::Blend { from, to, over } => raster::painted(
                img,
                Some(point(between(seen(from, x, y), seen(to, x, y), over))),
                lerp,
                rgb,
            ),
        },
{
}

/// Video files are those with one of six extensions and no others.
pub proof fn law_videos_have_one_of_six_extensions(ext: Seq<char>)
    requires
        is_container(ext),
    ensures
        seq!["mp4"@, "mov"@, "mkv"@, "webm"@, "avi"@, "m4v"@].contains(ext),
{
    let all = seq!["mp4"@, "mov"@, "mkv"@, "webm"@, "avi"@, "m4v"@];
    assert(all[0] == "mp4"@ && all[1] == "mov"@ && all[2] == "mkv"@ && all[3] == "webm"@ && all[4]
        == "avi"@ && all[5] == "m4v"@);
}

/// The frames' files keep the extension of the output, unless it is a video's.
pub proof fn law_frames_keep_the_output_extension(e: Seq<char>)
    ensures
        !is_container(text::lower(e)) ==> frame_ext(Some(e)) == e,
        is_container(text::lower(e)) ==> frame_ext(Some(e)) == frame_ext(None),
{
}

/// A frame's file is named by the stem, an underscore, the frame's number in at
/// least four digits, a point and the extension.
pub proof fn law_frame_names_tell_the_frame(stem: Seq<char>, i: u32, ext: Seq<char>)
    ensures
        ({
            let name = frame_name_of(stem, i, ext);
            let n = stem.len() as int;
            let end = name.len() - ext.len() as int;
            &&& name.take(n) == stem
            &&& name[n] == '_'
            &&& n + 6 <= end
            &&& text::digits(name.subrange(n + 1, end - 1))
            &&& text::value(name.subrange(n + 1, end - 1)) == i
            &&& name[end - 1] == '.'
            &&& name.skip(end) == ext
            &&& i < 10_000 ==> end == n + 6
        }),
{
    reveal_strlit("_");
    reveal_strlit(".");
    let number = text::zero_padded(i as nat, 4);
    let name = frame_name_of(stem, i, ext);
    let n = stem.len() as int;
    let end = name.len() - ext.len() as int;
    text::law_numerals_keep_their_value(i as nat, 4);
    text::law_numerals_are_as_wide_as_asked(i as nat, 4);
    assert(name =~= stem + seq!['_'] + number + seq!['.'] + ext);
    assert(name.take(n) =~= stem);
    assert(name.subrange(n + 1, end - 1) =~= number);
    assert(name.skip(end) =~= ext);
}

/// The codec goes by the container: ProRes for mov, VP9 for webm, H.264 for every
/// other, and what sets the quality is handed on to the latter two.
pub proof fn law_codec_goes_by_container(ext: Seq<char>, crf: u32, pix_fmt: Seq<char>)
    ensures
        ({
            let args = codec_args_of(ext, crf, pix_fmt);
            &&& args[2] == "-c:v"@
            &&& ext == "mov"@ ==> args[3] == "prores_ks"@
            &&& ext == "webm"@ ==> args[3] == "libvpx-vp9"@
            &&& ext != "mov"@ && ext != "webm"@ ==> args[3] == "libx264"@
            &&& ext != "mov"@ ==> args[4] == "-crf"@ && args[5] == text::decimal(crf as nat)
                && args[args.len() - 2] == "-pix_fmt"@ && args.last() == pix_fmt
        }),
{
    reveal_strlit("mov");
    reveal_strlit("webm");
    assert("mov"@.len() == 3 && "webm"@.len() == 4);
}

/// What comes in on ffmpeg's input is told by the frames' size and speed.
pub proof fn law_input_is_told_by_size_and_speed(
    w: u32,
    h: u32,
    fps: Seq<char>,
    ext: Seq<char>,
    crf: u32,
    pix_fmt: Seq<char>,
)
    ensures
        ({
            let args = video_args_of(w, h, fps, ext, crf, pix_fmt);
            &&& args[6] == "-pix_fmt"@ && args[7] == "rgb24"@
            &&& args[8] == "-s"@ && args[9] == text::decimal(w as nat) + "x"@ + text::decimal(
                h as nat,
            )
            &&& args[10] == "-r"@ && args[11] == fps
            &&& args.contains("+faststart"@) <== (ext == "mp4"@ || ext == "mov"@ || ext == "m4v"@)
        }),
{
    let input = input_args_of(w, h, fps);
    let args = video_args_of(w, h, fps, ext, crf, pix_fmt);
    assert(args[6] == input[6] && args[7] == input[7] && args[8] == input[8] && args[9] == input[9]
        && args[10] == input[10] && args[11] == input[11]);
    if ext == "mp4"@ || ext == "mov"@ || ext == "m4v"@ {
        assert(args[args.len() - 1] == "+faststart"@);
    }
}

/// A video's container is told by the output's extension in lower case, and is
/// mp4 where there is none.
pub proof fn law_container_goes_by_extension(e: Seq<char>)
    ensures
        container_of(Some(e)) == text::lower(e),
        container_of(None) == "mp4"@,
{
}

/// A crop style goes by one name and no other.
pub proof fn law_crop_styles_have_one_name(name: Seq<char>)
    ensures
        crop_style_named(name) == Some(CropStyle::Simul) <==> name == "simul"@,
        crop_style_named(name) == Some(CropStyle::Phased) <==> name == "phased"@,
{
    reveal_strlit("simul");
    reveal_strlit("phased");
    assert("simul"@.len() == 5 && "phased"@.len() == 6);
}

/// The command that assembles a sequence names its speed, its files, its quality
/// and its pixel format, in that order.
pub proof fn law_assembly_names_what_it_takes(
    fps: Seq<char>,
    pattern: Seq<char>,
    crf: u32,
    pix_fmt: Seq<char>,
)
    ensures
        assembly_of(fps, pattern, crf, pix_fmt) == "ffmpeg -framerate "@ + (fps + (" -i "@ + (pattern
            + (" -c:v libx264 -crf "@ + (text::decimal(crf as nat) + (" -pix_fmt "@ + (pix_fmt
            + " out.mp4"@))))))),
{
    assert(assembly_of(fps, pattern, crf, pix_fmt) =~= "ffmpeg -framerate "@ + (fps + (" -i "@ + (
    pattern + (" -c:v libx264 -crf "@ + (text::decimal(crf as nat) + (" -pix_fmt "@ + (pix_fmt
        + " out.mp4"@))))))));
}

} // verus!
