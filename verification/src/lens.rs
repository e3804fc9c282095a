//! The Laowa 8-15mm lens: its angle of view by focal length, and the focal
//! length back from the radius of the image circle.

use vstd::prelude::*;

verus! {

// ---------------------------------------------------------------------------
// Angle of view
// ---------------------------------------------------------------------------

/// The shortest focal length of the lens, in millimeters.
pub const SHORTEST_MM: u32 = 8;

/// The longest focal length of the lens, in millimeters.
pub const LONGEST_MM: u32 = 15;

/// Full-frame equivalent focal lengths in millimeters, each with half the angle
/// of view in tenths of a degree.
pub open spec fn aov_table() -> Seq<(u32, u32)> {
    seq![
        (8, 900),
        (9, 770),
        (10, 650),
        (11, 575),
        (12, 530),
        (13, 480),
        (14, 435),
        (15, 400),
    ]
}

/// Half the angle of view at a focal length, as entries of the table.
#[derive(Clone, Copy, PartialEq, Eq, Debug)]
pub enum HalfAov {
    /// On the straight line between two neighboring entries.
    Between { from: (u32, u32), to: (u32, u32) },
    /// That of the last entry, where no segment holds both millimeters.
    Last { tenths: u32 },
}

/// The first segment of the table from entry `k` on that holds a focal length
/// with the whole millimeters `floor_mm` below it and `ceil_mm` above it.
pub open spec fn segment_from(floor_mm: u32, ceil_mm: u32, k: nat) -> HalfAov
    decreases aov_table().len() - k,
{
    let table = aov_table();
    if k + 1 >= table.len() {
        HalfAov::Last { tenths: table.last().1 }
    } else if table[k as int].0 <= floor_mm && ceil_mm <= table[k + 1int].0 {
        HalfAov::Between { from: table[k as int], to: table[k + 1int] }
    } else {
        segment_from(floor_mm, ceil_mm, k + 1)
    }
}

/// The whole millimeters within the range of the lens that are nearest to `mm`.
pub open spec fn clamped(mm: u32) -> u32 {
    if mm < SHORTEST_MM {
        SHORTEST_MM
    } else if mm > LONGEST_MM {
        LONGEST_MM
    } else {
        mm
    }
}

fn clamp_mm(mm: u32) -> (r: u32)
    ensures
        r == clamped(mm),
{
    if mm < SHORTEST_MM {
        SHORTEST_MM
    } else if mm > LONGEST_MM {
        LONGEST_MM
    } else {
        mm
    }
}

/// Half the angle of view at a full-frame equivalent focal length, given as the
/// whole millimeters below and above it. Beyond either end of the lens's range
/// the view is that at the end.
pub fn laowa_half_aov_deg(floor_mm: u32, ceil_mm: u32) -> (r: HalfAov)
    ensures
        r == segment_from(clamped(floor_mm), clamped(ceil_mm), 0),
{
    let table: Vec<(u32, u32)> = vec![
        (8, 900),
        (9, 770),
        (10, 650),
        (11, 575),
        (12, 530),
        (13, 480),
        (14, 435),
        (15, 400),
    ];
    assert(table@ =~= aov_table());
    let low: u32 = clamp_mm(floor_mm);
    let high: u32 = clamp_mm(ceil_mm);
    let mut k: usize = 0;
    while k + 1 < table.len()
        invariant
            k < table@.len(),
            table@ == aov_table(),
            low == clamped(floor_mm),
            high == clamped(ceil_mm),
            segment_from(low, high, 0) == segment_from(low, high, k as nat),
        decreases table.len() - k,
    {
        let from = table[k];
        let to = table[k + 1];
        if from.0 <= low && high <= to.0 {
            return HalfAov::Between { from, to };
        }
        k += 1;
    }
    HalfAov::Last { tenths: table[k].1 }
}

/// Every focal length lies, once it is clamped to the range of the lens, in a
/// segment of the table one millimeter long, and the view is narrower at the
/// longer end.
pub proof fn law_focal_lengths_have_a_segment(floor_mm: u32, ceil_mm: u32)
    requires
        floor_mm <= ceil_mm <= floor_mm + 1,
    ensures
        segment_from(clamped(floor_mm), clamped(ceil_mm), 0) matches HalfAov::Between { from, to }
            && from.0 <= clamped(floor_mm) && clamped(ceil_mm) <= to.0 && to.0 == from.0 + 1 && to.1
            < from.1 && from == aov_table()[from.0 - 8] && to == aov_table()[to.0 - 8],
{
    reveal_with_fuel(segment_from, 8);
}

/// The lens sees 90 degrees to either side at 8 mm and 40 at 15 mm, and the table
/// has an entry for every whole millimeter in between, narrower from each to the
/// next.
pub proof fn law_table_covers_the_lens(i: int)
    requires
        0 <= i < aov_table().len(),
    ensures
        aov_table().len() == 8,
        aov_table()[i].0 == 8 + i,
        aov_table()[0].1 == 900,
        aov_table()[7].1 == 400,
        i > 0 ==> aov_table()[i].1 < aov_table()[i - 1].1,
{
}

/// A focal length counts as it is from 8 to 15 mm, and as the nearer end beyond.
pub proof fn law_clamping_keeps_to_the_lens(mm: u32)
    ensures
        8 <= clamped(mm) <= 15,
        8 <= mm <= 15 ==> clamped(mm) == mm,
        mm < 8 ==> clamped(mm) == 8,
        mm > 15 ==> clamped(mm) == 15,
        FOCAL_STEPS == 100 * (15 - 8),
{
}

/// A prediction that is met and a step from too small to too great, or the other
/// way, is listed; nothing else is.
pub proof fn law_every_meeting_is_listed(sides: Seq<Side>, i: u32)
    requires
        sides.len() <= u32::MAX,
        i < sides.len(),
    ensures
        sides[i as int] == Side::On <==> meetings(sides).contains(Meeting::At(i)),
        i > 0 ==> (meetings(sides).contains(Meeting::Within(i)) <==> (sides[i - 1] == Side::Below
            && sides[i as int] == Side::Above) || (sides[i - 1] == Side::Above && sides[i as int]
            == Side::Below)),
        !meetings(sides).contains(Meeting::Within(0)),
{
    law_meetings_are_exact(sides);
    assert(is_meeting(sides, Meeting::At(i)) <==> sides[i as int] == Side::On);
    assert(meetings(sides).contains(Meeting::At(i)) <==> is_meeting(sides, Meeting::At(i)));
    assert(meetings(sides).contains(Meeting::Within(i)) <==> is_meeting(sides, Meeting::Within(i)));
    assert(meetings(sides).contains(Meeting::Within(0)) <==> is_meeting(sides, Meeting::Within(0)));
}

/// One candidate is the focal length, of several the longest is, and of none the
/// closest.
pub proof fn law_candidates_are_judged_by_their_number<F>(candidates: Seq<F>, closest: F)
    ensures
        candidates.len() == 0 ==> judged(candidates, closest) == AutoFocal::OutOfRange(closest),
        candidates.len() == 1 ==> judged(candidates, closest) == AutoFocal::Unique(candidates[0]),
        candidates.len() >= 2 ==> judged(candidates, closest) == AutoFocal::Ambiguous(
            candidates[candidates.len() - 1],
        ),
{
}

/// Beyond the ends of its range the lens has the view of the end: the first
/// entry of the table on one side, the last on the other.
pub proof fn law_ends_hold_beyond_the_range(floor_mm: u32, ceil_mm: u32)
    requires
        floor_mm <= ceil_mm,
    ensures
        ceil_mm <= SHORTEST_MM ==> segment_from(clamped(floor_mm), clamped(ceil_mm), 0)
            == (HalfAov::Between { from: aov_table()[0], to: aov_table()[1] }),
        floor_mm >= LONGEST_MM ==> segment_from(clamped(floor_mm), clamped(ceil_mm), 0)
            == (HalfAov::Between { from: aov_table()[6], to: aov_table()[7] }),
{
    reveal_with_fuel(segment_from, 8);
}

/// At a focal length of the table, the table's own entry is an end of the
/// segment.
pub proof fn law_table_entries_are_met(i: int)
    requires
        0 <= i < aov_table().len(),
    ensures
        segment_from(aov_table()[i].0, aov_table()[i].0, 0) matches HalfAov::Between { from, to }
            && (from == aov_table()[i] || to == aov_table()[i]),
{
    reveal_with_fuel(segment_from, 8);
}

// ---------------------------------------------------------------------------
// Focal length from the image circle
// ---------------------------------------------------------------------------

/// In how many steps the focal lengths of the lens are searched.
pub const FOCAL_STEPS: u32 = 700;

/// How a predicted radius stands to the one that was measured.
#[derive(Clone, Copy, PartialEq, Eq, Debug, Structural)]
pub enum Side {
    Below,
    On,
    Above,
}

/// Where predictions meet the measured radius. Step `i` leads from prediction
/// `i - 1` to prediction `i`.
#[derive(Clone, Copy, PartialEq, Eq, Debug, Structural)]
pub enum Meeting {
    /// At prediction `i` itself.
    At(u32),
    /// Inside step `i`, whose ends lie on opposite sides.
    Within(u32),
}

/// The prediction at which a meeting happens, or before which it does.
pub open spec fn step_of(m: Meeting) -> u32 {
    match m {
        Meeting::At(i) => i,
        Meeting::Within(i) => i,
    }
}

/// One prediction is too small and the other too great.
pub open spec fn opposite(prev: Side, cur: Side) -> bool {
    (prev == Side::Below && cur == Side::Above) || (prev == Side::Above && cur == Side::Below)
}

/// Where the predictions meet the measured radius, in ascending order.
pub open spec fn meetings(sides: Seq<Side>) -> Seq<Meeting>
    decreases sides.len(),
{
    if sides.len() == 0 {
        Seq::empty()
    } else {
        let before = meetings(sides.drop_last());
        let i = (sides.len() - 1) as u32;
        if sides.last() == Side::On {
            before.push(Meeting::At(i))
        } else if sides.len() >= 2 && opposite(sides[sides.len() - 2], sides.last()) {
            before.push(Meeting::Within(i))
        } else {
            before
        }
    }
}

/// `m` is a place where the predictions meet the measured radius.
pub open spec fn is_meeting(sides: Seq<Side>, m: Meeting) -> bool {
    match m {
        Meeting::At(i) => i < sides.len() && sides[i as int] == Side::On,
        Meeting::Within(i) => 1 <= i < sides.len() && opposite(sides[i - 1], sides[i as int]),
    }
}

/// `meetings` lists exactly the predictions that are met and the steps between
/// opposite sides, each once and in ascending order.
pub proof fn law_meetings_are_exact(sides: Seq<Side>)
    requires
        sides.len() <= u32::MAX,
    ensures
        forall|m: Meeting| #[trigger] meetings(sides).contains(m) <==> is_meeting(sides, m),
        forall|a: int, b: int|
            0 <= a < b < meetings(sides).len() ==> step_of(#[trigger] meetings(sides)[a]) < step_of(
                #[trigger] meetings(sides)[b],
            ),
    decreases sides.len(),
{
    if sides.len() > 0 {
        let front = sides.drop_last();
        law_meetings_are_exact(front);
        let before = meetings(front);
        let all = meetings(sides);
        let n = (sides.len() - 1) as u32;
        assert forall|a: int| 0 <= a < before.len() implies step_of(#[trigger] before[a]) < n by {
            assert(before.contains(before[a]));
            assert(is_meeting(front, before[a]));
        }
        assert forall|m: Meeting| #[trigger] all.contains(m) <==> is_meeting(sides, m) by {
            if all.contains(m) {
                let a = choose|a: int| 0 <= a < all.len() && all[a] == m;
                if a < before.len() {
                    assert(before[a] == m);
                    assert(before.contains(m));
                }
            }
            if is_meeting(sides, m) {
                if step_of(m) < n {
                    assert(is_meeting(front, m));
                    assert(before.contains(m));
                    let a = choose|a: int| 0 <= a < before.len() && before[a] == m;
                    assert(all[a] == m);
                } else {
                    assert(all[all.len() - 1] == m);
                }
            }
        }
    }
}

/// Where the prediction is too small at one end of the range and not at the
/// other, the measured radius is met somewhere.
pub proof fn law_change_of_side_is_found(sides: Seq<Side>)
    requires
        sides.len() > 0,
        (sides.first() == Side::Below) != (sides.last() == Side::Below),
    ensures
        meetings(sides).len() > 0,
    decreases sides.len(),
{
    if sides.len() >= 2 && sides.last() != Side::On && !opposite(
        sides[sides.len() - 2],
        sides.last(),
    ) {
        let front = sides.drop_last();
        if front.last() == Side::On {
            assert(meetings(front).last() == Meeting::At((front.len() - 1) as u32));
        } else {
            law_change_of_side_is_found(front);
        }
    }
}

/// A radius that the very last prediction meets is found there, from whichever
/// side it is reached.
pub proof fn law_meeting_at_the_end_is_found(sides: Seq<Side>)
    requires
        sides.len() > 0,
        sides.last() == Side::On,
    ensures
        meetings(sides).len() > 0,
        meetings(sides).last() == Meeting::At((sides.len() - 1) as u32),
{
}

/// Where every prediction is too small, or every one too great, the measured
/// radius is met nowhere.
pub proof fn law_one_side_has_no_meeting(sides: Seq<Side>, side: Side)
    requires
        side != Side::On,
        forall|i: int| 0 <= i < sides.len() ==> sides[i] == side,
    ensures
        meetings(sides) == Seq::<Meeting>::empty(),
    decreases sides.len(),
{
    if sides.len() > 0 {
        law_one_side_has_no_meeting(sides.drop_last(), side);
    }
}

/// Where the measured radius is met nowhere, every prediction is too small, or
/// every one too great.
pub proof fn law_no_meeting_means_one_side(sides: Seq<Side>)
    requires
        sides.len() > 0,
        meetings(sides).len() == 0,
    ensures
        sides[0] != Side::On,
        forall|i: int| 0 <= i < sides.len() ==> #[trigger] sides[i] == sides[0],
    decreases sides.len(),
{
    if sides.len() >= 2 {
        let front = sides.drop_last();
        law_no_meeting_means_one_side(front);
        assert(front[front.len() - 1] == front[0]);
        assert forall|i: int| 0 <= i < sides.len() implies #[trigger] sides[i] == sides[0] by {
            if i < front.len() {
                assert(front[i] == front[0]);
            }
        }
    }
}

/// A radius that one prediction meets, with all before it on one side and all
/// behind it on one, is one root: it is listed once.
pub proof fn law_root_at_a_prediction_comes_once(sides: Seq<Side>, i: int, left: Side, right: Side)
    requires
        0 <= i < sides.len() <= u32::MAX,
        left != Side::On,
        right != Side::On,
        sides[i] == Side::On,
        forall|j: int| 0 <= j < i ==> sides[j] == left,
        forall|j: int| i < j < sides.len() ==> sides[j] == right,
    ensures
        meetings(sides) == seq![Meeting::At(i as u32)],
    decreases sides.len(),
{
    let front = sides.drop_last();
    if i == sides.len() - 1 {
        law_one_side_has_no_meeting(front, left);
        assert(meetings(sides) =~= seq![Meeting::At(i as u32)]);
    } else {
        law_root_at_a_prediction_comes_once(front, i, left, right);
    }
}

/// A radius that is met between two predictions, with all before on one side and
/// all behind on the other, is one root: it is listed once.
pub proof fn law_root_in_a_step_comes_once(sides: Seq<Side>, i: int, left: Side, right: Side)
    requires
        1 <= i < sides.len() <= u32::MAX,
        opposite(left, right),
        forall|j: int| 0 <= j < i ==> sides[j] == left,
        forall|j: int| i <= j < sides.len() ==> sides[j] == right,
    ensures
        meetings(sides) == seq![Meeting::Within(i as u32)],
    decreases sides.len(),
{
    let front = sides.drop_last();
    if i == sides.len() - 1 {
        law_one_side_has_no_meeting(front, left);
        assert(meetings(sides) =~= seq![Meeting::Within(i as u32)]);
    } else {
        law_root_in_a_step_comes_once(front, i, left, right);
    }
}

/// `sides` is what `side_at` gives for every prediction.
pub open spec fn are_sides<S: Fn(u32) -> Side>(side_at: S, sides: Seq<Side>) -> bool {
    &&& sides.len() == FOCAL_STEPS + 1
    &&& forall|i: u32| i <= FOCAL_STEPS ==> call_ensures(side_at, (i,), #[trigger] sides[i as int])
}

/// `root` is the focal length of a meeting: that of the prediction, or what
/// `root_in` locates in the step.
pub open spec fn is_root<F, A: Fn(u32) -> F, R: Fn(u32) -> F>(
    focal_at: A,
    root_in: R,
    m: Meeting,
    root: F,
) -> bool {
    match m {
        Meeting::At(i) => call_ensures(focal_at, (i,), root),
        Meeting::Within(i) => call_ensures(root_in, (i,), root),
    }
}

/// `roots` are the focal lengths of `met`, one by one.
pub open spec fn are_roots<F, A: Fn(u32) -> F, R: Fn(u32) -> F>(
    focal_at: A,
    root_in: R,
    met: Seq<Meeting>,
    roots: Seq<F>,
) -> bool {
    &&& roots.len() == met.len()
    &&& forall|k: int|
        0 <= k < met.len() ==> is_root(focal_at, root_in, met[k], #[trigger] roots[k])
}

/// `roots` are the focal lengths at which the predicted radius meets the
/// measured one.
pub open spec fn are_candidates<F, S: Fn(u32) -> Side, A: Fn(u32) -> F, R: Fn(u32) -> F>(
    side_at: S,
    focal_at: A,
    root_in: R,
    roots: Seq<F>,
) -> bool {
    exists|sides: Seq<Side>| #[trigger]
        are_sides(side_at, sides) && are_roots(focal_at, root_in, meetings(sides), roots)
}

/// Inverts the lens model: which focal lengths produce the measured image-circle
/// radius? `side_at` compares a prediction with the measured radius, `focal_at`
/// is the focal length it was made for, and `root_in` locates a crossing in a
/// step. Every root is given, as the radius need not grow with the focal length
/// on large sensors, and each is given once.
pub fn focal_candidates_from_circle<F, S: Fn(u32) -> Side, A: Fn(u32) -> F, R: Fn(u32) -> F>(
    side_at: &S,
    focal_at: &A,
    root_in: &R,
) -> (roots: Vec<F>)
    requires
        forall|i: u32| i <= FOCAL_STEPS ==> call_requires(*side_at, (i,)),
        forall|i: u32| i <= FOCAL_STEPS ==> call_requires(*focal_at, (i,)),
        forall|i: u32| 1 <= i <= FOCAL_STEPS ==> call_requires(*root_in, (i,)),
    ensures
        are_candidates(*side_at, *focal_at, *root_in, roots@),
{
    let mut roots: Vec<F> = Vec::new();
    let mut prev = side_at(0);
    let ghost mut sides = seq![prev];
    assert(sides.drop_last() =~= Seq::<Side>::empty());
    assert(meetings(Seq::<Side>::empty()) =~= Seq::<Meeting>::empty());
    if prev == Side::On {
        roots.push(focal_at(0));
    }
    let mut i: u32 = 1;
    while i <= FOCAL_STEPS
        invariant
            1 <= i <= FOCAL_STEPS + 1,
            forall|i: u32| i <= FOCAL_STEPS ==> call_requires(*side_at, (i,)),
            forall|i: u32| i <= FOCAL_STEPS ==> call_requires(*focal_at, (i,)),
            forall|i: u32| 1 <= i <= FOCAL_STEPS ==> call_requires(*root_in, (i,)),
            sides.len() == i,
            sides.last() == prev,
            forall|k: u32| k < i ==> call_ensures(*side_at, (k,), #[trigger] sides[k as int]),
            are_roots(*focal_at, *root_in, meetings(sides), roots@),
        decreases FOCAL_STEPS + 1 - i,
    {
        let cur = side_at(i);
        let ghost before = sides;
        proof {
            sides = sides.push(cur);
            assert(sides.drop_last() =~= before);
        }
        if cur == Side::On {
            roots.push(focal_at(i));
        } else if (prev == Side::Below && cur == Side::Above) || (prev == Side::Above && cur
            == Side::Below) {
            roots.push(root_in(i));
        }
        prev = cur;
        i += 1;
    }
    assert(are_sides(*side_at, sides));
    roots
}

/// The candidates are in order and within the range of the lens, and a step
/// between opposite sides has one of them inside it, by any order `before` in
/// which the predictions' focal lengths ascend and a crossing lies inside its
/// step.
pub proof fn law_candidates_are_in_order<F, A: Fn(u32) -> F, R: Fn(u32) -> F>(
    focal_at: A,
    root_in: R,
    sides: Seq<Side>,
    roots: Seq<F>,
    focal: spec_fn(int) -> F,
    before: spec_fn(F, F) -> bool,
)
    requires
        sides.len() == FOCAL_STEPS + 1,
        are_roots(focal_at, root_in, meetings(sides), roots),
        forall|a: F, b: F, c: F| #[trigger] before(a, b) && #[trigger] before(b, c) ==> before(a, c),
        forall|i: int, j: int|
            0 <= i < j <= FOCAL_STEPS ==> before(#[trigger] focal(i), #[trigger] focal(j)),
        forall|i: u32, f: F|
            i <= FOCAL_STEPS && #[trigger] call_ensures(focal_at, (i,), f) ==> f == focal(i as int),
        forall|i: u32, f: F|
            1 <= i <= FOCAL_STEPS && #[trigger] call_ensures(root_in, (i,), f) ==> before(
                focal(i - 1),
                f,
            ) && before(f, focal(i as int)),
    ensures
        forall|a: int, b: int|
            0 <= a < b < roots.len() ==> before(#[trigger] roots[a], #[trigger] roots[b]),
        forall|a: int|
            0 <= a < roots.len() ==> (#[trigger] roots[a] == focal(0) || before(focal(0), roots[a]))
                && (roots[a] == focal(FOCAL_STEPS as int) || before(
                roots[a],
                focal(FOCAL_STEPS as int),
            )),
        forall|i: int|
            1 <= i < sides.len() && opposite(sides[i - 1], #[trigger] sides[i]) ==> exists|a: int|
                0 <= a < roots.len() && before(focal(i - 1), #[trigger] roots[a]) && before(
                    roots[a],
                    focal(i),
                ),
{
    let met = meetings(sides);
    law_meetings_are_exact(sides);
    assert forall|a: int| 0 <= a < met.len() implies is_meeting(sides, #[trigger] met[a]) by {
        assert(met.contains(met[a]));
    }
    // A root lies no farther than its prediction, and behind the one before it.
    assert forall|a: int| 0 <= a < met.len() implies {
        let i = step_of(#[trigger] met[a]) as int;
        &&& roots[a] == focal(i) || before(roots[a], focal(i))
        &&& i > 0 ==> before(focal(i - 1), roots[a])
        &&& i == 0 ==> roots[a] == focal(0)
    } by {
        assert(is_root(focal_at, root_in, met[a], roots[a]));
        assert(is_meeting(sides, met[a]));
        let i = step_of(met[a]) as int;
        if i > 0 {
            assert(before(focal(i - 1), focal(i)));
        }
    }
    assert forall|a: int, b: int| 0 <= a < b < roots.len() implies before(
        #[trigger] roots[a],
        #[trigger] roots[b],
    ) by {
        let i = step_of(met[a]) as int;
        let j = step_of(met[b]) as int;
        assert(i <= j - 1);
        assert(before(focal(j - 1), roots[b]));
        if i < j - 1 {
            assert(before(focal(i), focal(j - 1)));
        }
        assert(before(focal(i), roots[b]));
        if roots[a] != focal(i) {
            assert(before(roots[a], focal(i)));
        }
    }
    let last = FOCAL_STEPS as int;
    assert forall|a: int| 0 <= a < roots.len() implies (#[trigger] roots[a] == focal(0) || before(
        focal(0),
        roots[a],
    )) && (roots[a] == focal(last) || before(roots[a], focal(last))) by {
        let i = step_of(met[a]) as int;
        assert(is_meeting(sides, met[a]));
        if i > 0 {
            assert(before(focal(i - 1), roots[a]));
            if i > 1 {
                assert(before(focal(0), focal(i - 1)));
            }
        }
        if i < last {
            assert(before(focal(i), focal(last)));
        }
        if roots[a] != focal(i) {
            assert(before(roots[a], focal(i)));
        }
    }
    assert forall|i: int|
        1 <= i < sides.len() && opposite(sides[i - 1], #[trigger] sides[i]) implies exists|a: int|
        0 <= a < roots.len() && before(focal(i - 1), #[trigger] roots[a]) && before(
            roots[a],
            focal(i),
        ) by {
        let m = Meeting::Within(i as u32);
        assert(is_meeting(sides, m));
        assert(met.contains(m));
        let a = choose|a: int| 0 <= a < met.len() && met[a] == m;
        assert(is_root(focal_at, root_in, met[a], roots[a]));
        assert(before(focal(i - 1), roots[a]));
    }
}

// ---------------------------------------------------------------------------
// The closest focal length
// ---------------------------------------------------------------------------

/// `distances` is what `distance_at` gives for every prediction.
pub open spec fn are_distances<D: Fn(u32) -> u64>(distance_at: D, distances: Seq<u64>) -> bool {
    &&& distances.len() == FOCAL_STEPS + 1
    &&& forall|i: u32|
        i <= FOCAL_STEPS ==> call_ensures(distance_at, (i,), #[trigger] distances[i as int])
}

/// The first of the least distances is that at `k`.
pub open spec fn is_least_at(distances: Seq<u64>, k: int) -> bool {
    &&& 0 <= k < distances.len()
    &&& forall|j: int| 0 <= j < distances.len() ==> distances[k] <= #[trigger] distances[j]
    &&& forall|j: int| 0 <= j < k ==> distances[k] < #[trigger] distances[j]
}

/// Prediction `k` comes closest to the measured radius.
pub open spec fn is_closest<D: Fn(u32) -> u64>(distance_at: D, k: u32) -> bool {
    exists|distances: Seq<u64>| #[trigger]
        are_distances(distance_at, distances) && is_least_at(distances, k as int)
}

/// Which prediction comes closest to the measured radius? `distance_at` ranks
/// how far off a prediction is.
pub fn closest_prediction<D: Fn(u32) -> u64>(distance_at: &D) -> (k: u32)
    requires
        forall|i: u32| i <= FOCAL_STEPS ==> call_requires(*distance_at, (i,)),
    ensures
        k <= FOCAL_STEPS,
        is_closest(*distance_at, k),
{
    let mut k: u32 = 0;
    let mut least: u64 = distance_at(0);
    let ghost mut distances = seq![least];
    let mut i: u32 = 1;
    while i <= FOCAL_STEPS
        invariant
            1 <= i <= FOCAL_STEPS + 1,
            forall|i: u32| i <= FOCAL_STEPS ==> call_requires(*distance_at, (i,)),
            distances.len() == i,
            forall|j: u32| j < i ==> call_ensures(*distance_at, (j,), #[trigger] distances[j as int]),
            is_least_at(distances, k as int),
            least == distances[k as int],
        decreases FOCAL_STEPS + 1 - i,
    {
        let d: u64 = distance_at(i);
        proof {
            distances = distances.push(d);
        }
        if d < least {
            k = i;
            least = d;
        }
        i += 1;
    }
    assert(are_distances(*distance_at, distances));
    k
}

/// What focal length the image circle gives away.
#[derive(PartialEq, Debug)]
pub enum AutoFocal<F> {
    /// There is no circle to measure; the longest focal length is assumed.
    NoCircle,
    /// No focal length of the lens has such a circle; the closest is taken.
    OutOfRange(F),
    /// One focal length has this circle.
    Unique(F),
    /// Several have, and the longest of them is taken.
    Ambiguous(F),
}

/// What `candidates`, in ascending order, say of the focal length, if `closest`
/// is the one that comes closest.
pub open spec fn judged<F>(candidates: Seq<F>, closest: F) -> AutoFocal<F> {
    if candidates.len() == 0 {
        AutoFocal::OutOfRange(closest)
    } else if candidates.len() == 1 {
        AutoFocal::Unique(candidates[0])
    } else {
        AutoFocal::Ambiguous(candidates.last())
    }
}

/// What a list of candidates, in ascending order, says of the focal length.
pub fn judge_candidates<F: Copy>(candidates: &Vec<F>, closest: F) -> (r: AutoFocal<F>)
    ensures
        r == judged(candidates@, closest),
{
    let n: usize = candidates.len();
    if n == 0 {
        AutoFocal::OutOfRange(closest)
    } else if n == 1 {
        AutoFocal::Unique(candidates[0])
    } else {
        AutoFocal::Ambiguous(candidates[n - 1])
    }
}

/// `focal` is the focal length of the prediction that comes closest to the
/// measured radius.
pub open spec fn is_closest_focal<F, A: Fn(u32) -> F, D: Fn(u32) -> u64>(
    focal_at: A,
    distance_at: D,
    focal: F,
) -> bool {
    exists|k: u32| #[trigger] is_closest(distance_at, k) && call_ensures(focal_at, (k,), focal)
}

/// Resolves a focal length when neither the command line nor EXIF provides one,
/// by inverting the image-circle radius. Where no focal length of the lens has
/// the circle, the closest is taken. Gives the candidates too, so that any
/// ambiguity can be told.
pub fn auto_focal_length<
    F: Copy,
    S: Fn(u32) -> Side,
    A: Fn(u32) -> F,
    R: Fn(u32) -> F,
    D: Fn(u32) -> u64,
>(is_circular: bool, side_at: &S, focal_at: &A, root_in: &R, distance_at: &D) -> (r: (
    AutoFocal<F>,
    Vec<F>,
))
    requires
        forall|i: u32| i <= FOCAL_STEPS ==> call_requires(*side_at, (i,)),
        forall|i: u32| i <= FOCAL_STEPS ==> call_requires(*focal_at, (i,)),
        forall|i: u32| 1 <= i <= FOCAL_STEPS ==> call_requires(*root_in, (i,)),
        forall|i: u32| i <= FOCAL_STEPS ==> call_requires(*distance_at, (i,)),
    ensures
        !is_circular ==> r.0 == AutoFocal::<F>::NoCircle && r.1@.len() == 0,
        is_circular ==> are_candidates(*side_at, *focal_at, *root_in, r.1@) && exists|closest: F|
            #[trigger]
            is_closest_focal(*focal_at, *distance_at, closest) && r.0 == judged(r.1@, closest),
{
    if !is_circular {
        return (AutoFocal::NoCircle, Vec::new());
    }
    let candidates = focal_candidates_from_circle(side_at, focal_at, root_in);
    let k: u32 = closest_prediction(distance_at);
    let closest = focal_at(k);
    assert(is_closest_focal(*focal_at, *distance_at, closest));
    (judge_candidates(&candidates, closest), candidates)
}

/// No prediction is nearer to the measured radius than the closest one, and none
/// before it is as near.
pub proof fn law_closest_prediction_is_nearest<D: Fn(u32) -> u64>(
    distance_at: D,
    distance: spec_fn(u32) -> u64,
    k: u32,
    j: u32,
)
    requires
        is_closest(distance_at, k),
        j <= 700,
        forall|i: u32, d: u64| #[trigger] call_ensures(distance_at, (i,), d) ==> d == distance(i),
    ensures
        k <= 700,
        distance(k) <= distance(j),
        j < k ==> distance(k) < distance(j),
{
    let distances = choose|distances: Seq<u64>| #[trigger]
        are_distances(distance_at, distances) && is_least_at(distances, k as int);
    assert(call_ensures(distance_at, (k,), distances[k as int]));
    assert(call_ensures(distance_at, (j,), distances[j as int]));
}

/// The candidates hold the focal length of every prediction that meets the radius
/// and the crossing inside every step between opposite sides.
pub proof fn law_every_root_is_a_candidate<
    F,
    S: Fn(u32) -> Side,
    A: Fn(u32) -> F,
    R: Fn(u32) -> F,
>(
    side_at: S,
    focal_at: A,
    root_in: R,
    side: spec_fn(u32) -> Side,
    focal: spec_fn(u32) -> F,
    root: spec_fn(u32) -> F,
    roots: Seq<F>,
    i: u32,
)
    requires
        are_candidates(side_at, focal_at, root_in, roots),
        forall|j: u32, s: Side| #[trigger] call_ensures(side_at, (j,), s) ==> s == side(j),
        forall|j: u32, f: F| #[trigger] call_ensures(focal_at, (j,), f) ==> f == focal(j),
        forall|j: u32, f: F| #[trigger] call_ensures(root_in, (j,), f) ==> f == root(j),
        i <= 700,
    ensures
        side(i) == Side::On ==> roots.contains(focal(i)),
        i > 0 && side((i - 1) as u32) == Side::Below && side(i) == Side::Above ==> roots.contains(
            root(i),
        ),
        i > 0 && side((i - 1) as u32) == Side::Above && side(i) == Side::Below ==> roots.contains(
            root(i),
        ),
{
    let sides = choose|sides: Seq<Side>| #[trigger]
        are_sides(side_at, sides) && are_roots(focal_at, root_in, meetings(sides), roots);
    let met = meetings(sides);
    law_meetings_are_exact(sides);
    assert(call_ensures(side_at, (i,), sides[i as int]));
    if i > 0 {
        let before = (i - 1) as u32;
        assert(call_ensures(side_at, (before,), sides[before as int]));
    }
    let m = if side(i) == Side::On {
        Meeting::At(i)
    } else {
        Meeting::Within(i)
    };
    if is_meeting(sides, m) {
        assert(met.contains(m));
        let k = choose|k: int| 0 <= k < met.len() && met[k] == m;
        assert(is_root(focal_at, root_in, met[k], roots[k]));
        assert(roots.contains(roots[k]));
    }
}

/// A candidate is the focal length of a prediction that meets the radius, or the
/// crossing inside a step between opposite sides, and nothing else.
pub proof fn law_every_candidate_is_a_root<
    F,
    S: Fn(u32) -> Side,
    A: Fn(u32) -> F,
    R: Fn(u32) -> F,
>(
    side_at: S,
    focal_at: A,
    root_in: R,
    side: spec_fn(u32) -> Side,
    focal: spec_fn(u32) -> F,
    root: spec_fn(u32) -> F,
    roots: Seq<F>,
    k: int,
) -> (i: u32)
    requires
        are_candidates(side_at, focal_at, root_in, roots),
        forall|j: u32, s: Side| #[trigger] call_ensures(side_at, (j,), s) ==> s == side(j),
        forall|j: u32, f: F| #[trigger] call_ensures(focal_at, (j,), f) ==> f == focal(j),
        forall|j: u32, f: F| #[trigger] call_ensures(root_in, (j,), f) ==> f == root(j),
        0 <= k < roots.len(),
    ensures
        i <= 700,
        ({
            ||| side(i) == Side::On && roots[k] == focal(i)
            ||| i > 0 && side((i - 1) as u32) == Side::Below && side(i) == Side::Above && roots[k]
                == root(i)
            ||| i > 0 && side((i - 1) as u32) == Side::Above && side(i) == Side::Below && roots[k]
                == root(i)
        }),
{
    let sides = choose|sides: Seq<Side>| #[trigger]
        are_sides(side_at, sides) && are_roots(focal_at, root_in, meetings(sides), roots);
    let met = meetings(sides);
    law_meetings_are_exact(sides);
    let m = met[k];
    assert(met.contains(m));
    assert(is_meeting(sides, m));
    assert(is_root(focal_at, root_in, m, roots[k]));
    let i = step_of(m);
    assert(call_ensures(side_at, (i,), sides[i as int]));
    if i > 0 {
        let before = (i - 1) as u32;
        assert(call_ensures(side_at, (before,), sides[before as int]));
    }
    i
}

} // verus!
