//! The smoothing filter: a single-pole low-pass over the raw path, which
//! takes out the jerks where one leg's speed ramp ends and the next begins.

use crate::fixed::floor_div;
use crate::point::Point;
use crate::sample::BakedSample;
use vstd::prelude::*;

verus! {

/// The filter keeps `KEEP` parts in `PARTS` of the view before and takes the
/// rest from the raw view: a coefficient of 0.95.
pub const KEEP: i64 = 19;

/// The number of parts that `KEEP` is counted in.
pub const PARTS: i64 = 20;

/// One filtered coordinate: the weighted mean of the filtered coordinate
/// before it and the raw coordinate, rounded down.
pub open spec fn smoothed(previous: int, raw: int) -> int {
    (KEEP * previous + (PARTS - KEEP) * raw) / (PARTS as int)
}

/// One filtered view: position and scale are filtered each by itself.
pub open spec fn smoothed_sample(previous: BakedSample, raw: BakedSample) -> BakedSample {
    BakedSample {
        position: Point {
            x: smoothed(previous.position.x as int, raw.position.x as int) as i64,
            y: smoothed(previous.position.y as int, raw.position.y as int) as i64,
        },
        scale: smoothed(previous.scale as int, raw.scale as int) as i64,
    }
}

/// The filtered view of frame `i`: the raw view of that frame smoothed
/// against the filtered view of the frame before, or against the initial view
/// for the first frame.
pub open spec fn filtered_at(raw: Seq<BakedSample>, initial: BakedSample, i: int) -> BakedSample
    decreases i,
{
    if i <= 0 {
        smoothed_sample(initial, raw[0])
    } else {
        smoothed_sample(filtered_at(raw, initial, i - 1), raw[i])
    }
}

/// The filtered view before frame `i`: the initial view for the first frame.
pub open spec fn filtered_before(raw: Seq<BakedSample>, initial: BakedSample, i: int) -> BakedSample {
    if i <= 0 {
        initial
    } else {
        filtered_at(raw, initial, i - 1)
    }
}

/// The filtered path: as many views as the raw path has.
pub open spec fn filtered(raw: Seq<BakedSample>, initial: BakedSample) -> Seq<BakedSample> {
    Seq::new(raw.len(), |i: int| filtered_at(raw, initial, i))
}

/// A filtered coordinate moves from the one before towards the raw one by a
/// twentieth of the gap, rounded down, so it lies between the two.
pub proof fn lemma_smoothed_between(previous: int, raw: int)
    ensures
        smoothed(previous, raw) - previous == (raw - previous) / (PARTS as int),
        previous <= raw ==> previous <= smoothed(previous, raw) <= raw,
        raw <= previous ==> raw <= smoothed(previous, raw) <= previous,
{
}

/// One filtered coordinate.
pub fn smooth_value(previous: i64, raw: i64) -> (r: i64)
    ensures
        r == smoothed(previous as int, raw as int),
{
    proof {
        lemma_smoothed_between(previous as int, raw as int);
    }
    let sum: i128 = (KEEP as i128) * (previous as i128) + ((PARTS - KEEP) as i128) * (raw as i128);
    floor_div(sum, PARTS as i128) as i64
}

/// One filtered view.
pub fn smooth_sample(previous: &BakedSample, raw: &BakedSample) -> (r: BakedSample)
    ensures
        r == smoothed_sample(*previous, *raw),
{
    BakedSample {
        position: Point {
            x: smooth_value(previous.position.x, raw.position.x),
            y: smooth_value(previous.position.y, raw.position.y),
        },
        scale: smooth_value(previous.scale, raw.scale),
    }
}

/// Filters a raw path, starting from the view at `position` and `scale`.
pub fn apply_filter(raw: Vec<BakedSample>, position: Point, scale: i64) -> (r: Vec<BakedSample>)
    ensures
        r@ == filtered(raw@, BakedSample { position, scale }),
        r.len() == raw.len(),
{
    let ghost initial = BakedSample { position, scale };
    let mut out: Vec<BakedSample> = Vec::new();
    let mut last = BakedSample { position, scale };
    let mut i: usize = 0;
    while i < raw.len()
        invariant
            i <= raw.len(),
            initial == (BakedSample { position, scale }),
            last == filtered_before(raw@, initial, i as int),
            out@ == Seq::new(i as nat, |k: int| filtered_at(raw@, initial, k)),
        decreases raw.len() - i,
    {
        last = smooth_sample(&last, &raw[i]);
        out.push(last);
        i = i + 1;
        assert(out@ =~= Seq::new(i as nat, |k: int| filtered_at(raw@, initial, k)));
    }
    out
}

/// The squared distance between two positions, in units of 2^-96.
pub open spec fn gap_squared(a: Point, b: Point) -> int {
    (a.x - b.x) * (a.x - b.x) + (a.y - b.y) * (a.y - b.y)
}

/// A square grows with the size of what is squared.
proof fn lemma_square_ordered(a: int, b: int)
    requires
        (0 <= a <= b) || (b <= a <= 0),
    ensures
        a * a <= b * b,
{
    assert(a * a <= b * b) by (nonlinear_arith)
        requires
            (0 <= a <= b) || (b <= a <= 0),
    ;
}

/// The filter never overshoots its input: each filtered view is no farther
/// from the filtered view before it than the raw view of its frame is, in
/// position and in scale.
pub proof fn lemma_filter_contracts(raw: Seq<BakedSample>, initial: BakedSample, i: int)
    requires
        0 <= i < raw.len(),
    ensures
        gap_squared(filtered(raw, initial)[i].position, filtered_before(raw, initial, i).position)
            <= gap_squared(raw[i].position, filtered_before(raw, initial, i).position),
        vstd::math::abs(filtered(raw, initial)[i].scale - filtered_before(raw, initial, i).scale)
            <= vstd::math::abs(raw[i].scale - filtered_before(raw, initial, i).scale),
{
    let before = filtered_before(raw, initial, i);
    let after = filtered(raw, initial)[i];
    assert(after == smoothed_sample(before, raw[i]));
    lemma_smoothed_between(before.position.x as int, raw[i].position.x as int);
    lemma_smoothed_between(before.position.y as int, raw[i].position.y as int);
    lemma_smoothed_between(before.scale as int, raw[i].scale as int);
    lemma_square_ordered(after.position.x - before.position.x, raw[i].position.x - before.position.x);
    lemma_square_ordered(after.position.y - before.position.y, raw[i].position.y - before.position.y);
}

/// The filter lets through a twentieth of each jump: a filtered coordinate
/// differs from the one before by the gap to the raw coordinate divided by
/// twenty, rounded down.
pub proof fn lemma_filter_damps(raw: Seq<BakedSample>, initial: BakedSample, i: int)
    requires
        0 <= i < raw.len(),
    ensures
        ({
            let before = filtered_before(raw, initial, i);
            let after = filtered(raw, initial)[i];
            &&& after.position.x - before.position.x == (raw[i].position.x - before.position.x) / (
            PARTS as int)
            &&& after.position.y - before.position.y == (raw[i].position.y - before.position.y) / (
            PARTS as int)
            &&& after.scale - before.scale == (raw[i].scale - before.scale) / (PARTS as int)
        }),
{
    let before = filtered_before(raw, initial, i);
    let after = filtered(raw, initial)[i];
    assert(after == smoothed_sample(before, raw[i]));
    lemma_smoothed_between(before.position.x as int, raw[i].position.x as int);
    lemma_smoothed_between(before.position.y as int, raw[i].position.y as int);
    lemma_smoothed_between(before.scale as int, raw[i].scale as int);
}

} // verus!
