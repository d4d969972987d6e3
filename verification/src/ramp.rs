//! The speed ramp of one leg: how far along the leg the camera is at each frame
//! when its speed changes linearly from the speed at the leg's start to the
//! speed at its end.

use crate::fixed::{blend, ONE};
use vstd::arithmetic::div_mod::{lemma_fundamental_div_mod, lemma_fundamental_div_mod_converse};
use vstd::prelude::*;

verus! {

/// The share of a leg's duration that has passed at frame `step`, as a
/// fixed-point fraction rounded down. `steps` is the leg's duration in frames,
/// itself a fixed-point value.
pub open spec fn elapsed(step: int, steps: int) -> int {
    (step * (ONE as int) * (ONE as int)) / steps
}

/// The distance travelled after a share `t` of the leg's duration at a speed
/// that goes linearly from `first` to `last`, as a multiple of what the mean
/// speed of one covers in the whole duration: `(first + last) * ONE * ONE` is
/// the whole leg.
pub open spec fn travelled(first: int, last: int, t: int) -> int {
    (2 * first * (ONE as int) + (last - first) * t) * t
}

/// The share of a leg's length that is covered after a share `t` of its
/// duration, as a fixed-point fraction rounded down: the mean of the speed so
/// far times the time so far, over the mean speed of the whole leg times its
/// whole duration.
pub open spec fn covered(first: int, last: int, t: int) -> int {
    travelled(first, last, t) / ((first + last) * (ONE as int))
}

/// The share of a leg's length that is covered at frame `step`.
pub open spec fn covered_at(first: int, last: int, steps: int, step: int) -> int {
    covered(first, last, elapsed(step, steps))
}

/// The elapsed share of a frame within the leg lies between zero and one.
pub proof fn lemma_elapsed_bounds(step: int, steps: int)
    requires
        0 <= step,
        0 < steps,
        step * ONE <= steps,
    ensures
        0 <= elapsed(step, steps) <= ONE,
{
    let one = ONE as int;
    let n = step * one * one;
    assert(0 <= n <= steps * one) by (nonlinear_arith)
        requires
            n == step * one * one,
            0 <= step,
            step * one <= steps,
            one > 0,
    ;
    assert(0 <= n / steps <= one) by (nonlinear_arith)
        requires
            0 <= n <= steps * one,
            steps > 0,
    ;
}

/// Later frames have a larger elapsed share.
pub proof fn lemma_elapsed_monotone(a: int, b: int, steps: int)
    requires
        0 <= a <= b,
        0 < steps,
    ensures
        elapsed(a, steps) <= elapsed(b, steps),
{
    let one = ONE as int;
    assert((a * one * one) / steps <= (b * one * one) / steps) by (nonlinear_arith)
        requires
            0 <= a <= b,
            one > 0,
            steps > 0,
    ;
}

/// The distance travelled grows with the elapsed share, and at the end of the
/// leg it is the whole leg.
pub proof fn lemma_travelled_monotone(first: int, last: int, t: int, u: int)
    requires
        0 <= first,
        0 <= last,
        0 <= t <= u <= ONE,
    ensures
        0 <= travelled(first, last, t) <= travelled(first, last, u),
        travelled(first, last, u) <= (first + last) * (ONE as int) * (ONE as int),
{
    let one = ONE as int;
    let d = last - first;
    assert(0 <= (2 * first * one + d * t) * t) by (nonlinear_arith)
        requires
            0 <= first,
            -first <= d,
            0 <= t <= one,
    ;
    assert((2 * first * one + d * t) * t <= (2 * first * one + d * u) * u) by (nonlinear_arith)
        requires
            0 <= first,
            -first <= d,
            0 <= t <= u <= one,
    ;
    assert((2 * first * one + d * u) * u <= (first + (first + d)) * one * one) by (nonlinear_arith)
        requires
            0 <= first,
            -first <= d,
            0 <= u <= one,
    ;
}

/// The covered share lies between zero and one.
pub proof fn lemma_covered_bounds(first: int, last: int, t: int)
    requires
        0 <= first,
        0 <= last,
        0 < first + last,
        0 <= t <= ONE,
    ensures
        0 <= covered(first, last, t) <= ONE,
{
    let one = ONE as int;
    let n = travelled(first, last, t);
    let m = (first + last) * one;
    lemma_travelled_monotone(first, last, t, t);
    assert(m > 0) by (nonlinear_arith)
        requires
            m == (first + last) * one,
            first + last > 0,
            one > 0,
    ;
    assert(0 <= n / m <= one) by (nonlinear_arith)
        requires
            0 <= n <= m * one,
            m > 0,
    ;
}

/// The camera never moves backwards along a leg: the covered share grows with
/// the elapsed share.
pub proof fn lemma_covered_monotone(first: int, last: int, t: int, u: int)
    requires
        0 <= first,
        0 <= last,
        0 < first + last,
        0 <= t <= u <= ONE,
    ensures
        covered(first, last, t) <= covered(first, last, u),
{
    let one = ONE as int;
    let m = (first + last) * one;
    let a = travelled(first, last, t);
    let b = travelled(first, last, u);
    lemma_travelled_monotone(first, last, t, u);
    assert(m > 0) by (nonlinear_arith)
        requires
            m == (first + last) * one,
            first + last > 0,
            one > 0,
    ;
    assert(a / m <= b / m) by (nonlinear_arith)
        requires
            a <= b,
            m > 0,
    ;
}

/// The elapsed share advances by nearly the same amount from each frame to the
/// next: two successive advances differ by at most one unit.
pub proof fn lemma_elapsed_even(step: int, steps: int)
    requires
        0 <= step,
        0 < steps,
    ensures
        -1 <= elapsed(step + 2, steps) - 2 * elapsed(step + 1, steps) + elapsed(step, steps) <= 1,
{
    let one = ONE as int;
    let n0 = step * one * one;
    let n1 = (step + 1) * one * one;
    let n2 = (step + 2) * one * one;
    assert(n2 - 2 * n1 + n0 == 0) by (nonlinear_arith)
        requires
            n0 == step * one * one,
            n1 == (step + 1) * one * one,
            n2 == (step + 2) * one * one,
    ;
    lemma_fundamental_div_mod(n0, steps);
    lemma_fundamental_div_mod(n1, steps);
    lemma_fundamental_div_mod(n2, steps);
    let c = (n2 / steps) - 2 * (n1 / steps) + (n0 / steps);
    let r = (n2 % steps) - 2 * (n1 % steps) + (n0 % steps);
    assert(steps * c + r == 0) by (nonlinear_arith)
        requires
            n2 - 2 * n1 + n0 == 0,
            n0 == steps * (n0 / steps) + (n0 % steps),
            n1 == steps * (n1 / steps) + (n1 % steps),
            n2 == steps * (n2 / steps) + (n2 % steps),
            c == (n2 / steps) - 2 * (n1 / steps) + (n0 / steps),
            r == (n2 % steps) - 2 * (n1 % steps) + (n0 % steps),
    ;
    assert(-1 <= c <= 1) by (nonlinear_arith)
        requires
            steps * c + r == 0,
            -2 * steps < r < 2 * steps,
            steps > 0,
    ;
}

/// The second difference of the quadratic `(k + d * t) * t` at `t - a`, `t`
/// and `t + b`.
proof fn lemma_second_difference(k: int, d: int, t: int, a: int, b: int)
    ensures
        (k + d * (t + b)) * (t + b) - 2 * ((k + d * t) * t) + (k + d * (t - a)) * (t - a) == (b
            - a) * (k + 2 * d * t) + d * (a * a + b * b),
{
    let dt = d * t;
    let da = d * a;
    let db = d * b;
    assert(d * (t + b) == dt + db) by (nonlinear_arith)
        requires
            dt == d * t,
            db == d * b,
    ;
    assert(d * (t - a) == dt - da) by (nonlinear_arith)
        requires
            dt == d * t,
            da == d * a,
    ;
    assert((k + dt + db) * (t + b) == k * t + k * b + dt * t + dt * b + db * t + db * b)
        by (nonlinear_arith);
    assert((k + dt - da) * (t - a) == k * t - k * a + dt * t - dt * a - da * t + da * a)
        by (nonlinear_arith);
    assert((k + dt) * t == k * t + dt * t) by (nonlinear_arith);
    assert(db * t == dt * b && da * t == dt * a) by (nonlinear_arith)
        requires
            dt == d * t,
            da == d * a,
            db == d * b,
    ;
    assert(d * (a * a + b * b) == da * a + db * b) by (nonlinear_arith)
        requires
            da == d * a,
            db == d * b,
    ;
    assert((b - a) * (k + 2 * dt) == k * b - k * a + 2 * (dt * b) - 2 * (dt * a))
        by (nonlinear_arith);
    assert(2 * d * t == 2 * dt) by (nonlinear_arith)
        requires
            dt == d * t,
    ;
}

/// The speed ramp is smooth. While the camera speeds up along a leg, the share
/// of the leg that it covers between two frames does not shrink from one frame
/// to the next; while it slows down, that share does not grow. Both hold up to
/// three units of rounding.
pub proof fn lemma_ramp_monotone(first: int, last: int, steps: int, step: int)
    requires
        0 <= first,
        0 <= last,
        0 < first + last,
        0 <= step,
        (step + 2) * ONE <= steps,
    ensures
        first <= last ==> covered_at(first, last, steps, step + 2) - covered_at(
            first,
            last,
            steps,
            step + 1,
        ) >= covered_at(first, last, steps, step + 1) - covered_at(first, last, steps, step) - 3,
        last <= first ==> covered_at(first, last, steps, step + 2) - covered_at(
            first,
            last,
            steps,
            step + 1,
        ) <= covered_at(first, last, steps, step + 1) - covered_at(first, last, steps, step) + 3,
{
    let one = ONE as int;
    let d = last - first;
    let m = (first + last) * one;
    let t0 = elapsed(step, steps);
    let t1 = elapsed(step + 1, steps);
    let t2 = elapsed(step + 2, steps);
    assert(step * one <= steps && (step + 1) * one <= steps) by (nonlinear_arith)
        requires
            (step + 2) * one <= steps,
            one > 0,
    ;
    lemma_elapsed_bounds(step, steps);
    lemma_elapsed_bounds(step + 1, steps);
    lemma_elapsed_bounds(step + 2, steps);
    lemma_elapsed_monotone(step, step + 1, steps);
    lemma_elapsed_monotone(step + 1, step + 2, steps);
    lemma_elapsed_even(step, steps);
    let a = t1 - t0;
    let b = t2 - t1;
    let g0 = travelled(first, last, t0);
    let g1 = travelled(first, last, t1);
    let g2 = travelled(first, last, t2);
    let bend = g2 - 2 * g1 + g0;
    lemma_second_difference(2 * first * one, d, t1, a, b);
    assert(bend == (b - a) * (2 * first * one + 2 * d * t1) + d * (a * a + b * b));
    // The speed at the middle frame, times `ONE`, lies between the two end speeds.
    let mid = first * one + d * t1;
    assert(0 <= mid && (d >= 0 ==> mid <= last * one) && (d <= 0 ==> mid <= first * one))
        by (nonlinear_arith)
        requires
            mid == first * one + d * t1,
            d == last - first,
            0 <= first,
            0 <= last,
            0 <= t1 <= one,
    ;
    assert(first * one <= m && last * one <= m && m > 0) by (nonlinear_arith)
        requires
            m == (first + last) * one,
            0 <= first,
            0 <= last,
            0 < first + last,
            one > 0,
    ;
    assert(d >= 0 ==> bend >= -2 * m) by (nonlinear_arith)
        requires
            bend == (b - a) * (2 * first * one + 2 * d * t1) + d * (a * a + b * b),
            mid == first * one + d * t1,
            -1 <= b - a <= 1,
            0 <= mid <= m,
    ;
    assert(d <= 0 ==> bend <= 2 * m) by (nonlinear_arith)
        requires
            bend == (b - a) * (2 * first * one + 2 * d * t1) + d * (a * a + b * b),
            mid == first * one + d * t1,
            -1 <= b - a <= 1,
            0 <= mid <= m,
    ;
    lemma_fundamental_div_mod(g0, m);
    lemma_fundamental_div_mod(g1, m);
    lemma_fundamental_div_mod(g2, m);
    let c = (g2 / m) - 2 * (g1 / m) + (g0 / m);
    let e = (g2 % m) - 2 * (g1 % m) + (g0 % m);
    assert(m * c + e == bend) by (nonlinear_arith)
        requires
            bend == g2 - 2 * g1 + g0,
            g0 == m * (g0 / m) + (g0 % m),
            g1 == m * (g1 / m) + (g1 % m),
            g2 == m * (g2 / m) + (g2 % m),
            c == (g2 / m) - 2 * (g1 / m) + (g0 / m),
            e == (g2 % m) - 2 * (g1 % m) + (g0 % m),
    ;
    assert(d >= 0 ==> c >= -3) by (nonlinear_arith)
        requires
            m * c + e == bend,
            d >= 0 ==> bend >= -2 * m,
            -2 * m < e < 2 * m,
            m > 0,
    ;
    assert(d <= 0 ==> c <= 3) by (nonlinear_arith)
        requires
            m * c + e == bend,
            d <= 0 ==> bend <= 2 * m,
            -2 * m < e < 2 * m,
            m > 0,
    ;
}

/// How much rounding may disturb the steps of a coordinate that changes by `d`
/// over a leg.
pub open spec fn slack(d: int) -> int {
    (3 * (vstd::math::abs(d) as int)) / (ONE as int) + 2
}

/// Whether the step from `v1` to `v2` is no shorter than the step from `v0` to
/// `v1`, both taken in the direction of `d`, up to rounding.
pub open spec fn steps_grow(d: int, v0: int, v1: int, v2: int) -> bool {
    if d >= 0 {
        v2 - v1 >= v1 - v0 - slack(d)
    } else {
        v1 - v2 >= v0 - v1 - slack(d)
    }
}

/// Whether the step from `v1` to `v2` is no longer than the step from `v0` to
/// `v1`, both taken in the direction of `d`, up to rounding.
pub open spec fn steps_shrink(d: int, v0: int, v1: int, v2: int) -> bool {
    if d >= 0 {
        v2 - v1 <= v1 - v0 + slack(d)
    } else {
        v1 - v2 <= v0 - v1 + slack(d)
    }
}

/// The coordinate of a leg's view at frame `step`: the blend of its values at
/// the start and at the target by the share covered at that frame.
pub open spec fn coordinate_at(a: int, b: int, first: int, last: int, steps: int, step: int) -> int {
    blend(a, b, covered_at(first, last, steps, step))
}

/// The displacement per frame follows the speed. While the camera speeds up
/// along a leg, each coordinate of its views moves at least as far from one
/// frame to the next as it did the frame before; while it slows down, at most
/// as far. Both hold up to the rounding that `slack` allows.
pub proof fn lemma_displacement_monotone(
    a: int,
    b: int,
    first: int,
    last: int,
    steps: int,
    step: int,
)
    requires
        0 <= first,
        0 <= last,
        0 < first + last,
        0 <= step,
        (step + 2) * ONE <= steps,
    ensures
        first <= last ==> steps_grow(
            b - a,
            coordinate_at(a, b, first, last, steps, step),
            coordinate_at(a, b, first, last, steps, step + 1),
            coordinate_at(a, b, first, last, steps, step + 2),
        ),
        last <= first ==> steps_shrink(
            b - a,
            coordinate_at(a, b, first, last, steps, step),
            coordinate_at(a, b, first, last, steps, step + 1),
            coordinate_at(a, b, first, last, steps, step + 2),
        ),
{
    let one = ONE as int;
    let d = b - a;
    let r0 = covered_at(first, last, steps, step);
    let r1 = covered_at(first, last, steps, step + 1);
    let r2 = covered_at(first, last, steps, step + 2);
    lemma_ramp_monotone(first, last, steps, step);
    let c = r2 - 2 * r1 + r0;
    lemma_fundamental_div_mod(d * r0, one);
    lemma_fundamental_div_mod(d * r1, one);
    lemma_fundamental_div_mod(d * r2, one);
    let f = (d * r2) / one - 2 * ((d * r1) / one) + (d * r0) / one;
    let e = (d * r2) % one - 2 * ((d * r1) % one) + (d * r0) % one;
    assert(one * f + e == d * c) by (nonlinear_arith)
        requires
            c == r2 - 2 * r1 + r0,
            d * r0 == one * ((d * r0) / one) + (d * r0) % one,
            d * r1 == one * ((d * r1) / one) + (d * r1) % one,
            d * r2 == one * ((d * r2) / one) + (d * r2) % one,
            f == (d * r2) / one - 2 * ((d * r1) / one) + (d * r0) / one,
            e == (d * r2) % one - 2 * ((d * r1) % one) + (d * r0) % one,
    ;
    let m = vstd::math::abs(d) as int;
    let q = (3 * m) / one;
    lemma_fundamental_div_mod(3 * m, one);
    if first <= last {
        // The bend of the covered share is at least -3.
        assert(d >= 0 ==> f >= -q - 2) by (nonlinear_arith)
            requires
                one * f + e == d * c,
                c >= -3,
                -2 * one < e < 2 * one,
                3 * m == one * q + (3 * m) % one,
                0 <= (3 * m) % one < one,
                d >= 0 ==> m == d,
                one > 0,
        ;
        assert(d < 0 ==> f <= q + 2) by (nonlinear_arith)
            requires
                one * f + e == d * c,
                c >= -3,
                -2 * one < e < 2 * one,
                3 * m == one * q + (3 * m) % one,
                0 <= (3 * m) % one < one,
                d < 0 ==> m == -d,
                one > 0,
        ;
    }
    if last <= first {
        assert(d >= 0 ==> f <= q + 2) by (nonlinear_arith)
            requires
                one * f + e == d * c,
                c <= 3,
                -2 * one < e < 2 * one,
                3 * m == one * q + (3 * m) % one,
                0 <= (3 * m) % one < one,
                d >= 0 ==> m == d,
                one > 0,
        ;
        assert(d < 0 ==> f >= -q - 2) by (nonlinear_arith)
            requires
                one * f + e == d * c,
                c <= 3,
                -2 * one < e < 2 * one,
                3 * m == one * q + (3 * m) % one,
                0 <= (3 * m) % one < one,
                d < 0 ==> m == -d,
                one > 0,
        ;
    }
}

/// The elapsed share of frame `step` of a leg that lasts `steps` frames.
pub fn elapsed_share(step: usize, steps: i128) -> (t: i64)
    requires
        0 < steps,
        step * ONE <= steps,
        step <= 0x3fff_ffff,
    ensures
        t == elapsed(step as int, steps as int),
        0 <= t <= ONE,
{
    proof {
        lemma_elapsed_bounds(step as int, steps as int);
    }
    let n: i128 = (step as i128) * 0x1_0000_0000_0000_0000_0000_0000;
    assert(n == step * (ONE as int) * (ONE as int)) by (nonlinear_arith)
        requires
            n == step * 0x1_0000_0000_0000_0000_0000_0000,
            ONE == 0x1_0000_0000_0000,
    ;
    (n / steps) as i64
}

/// The covered share of a leg after the elapsed share `t`, at a speed that goes
/// linearly from `first` to `last`.
pub fn covered_share(first: i64, last: i64, t: i64) -> (r: i64)
    requires
        0 <= first,
        0 <= last,
        0 < first + last,
        0 <= t <= ONE,
    ensures
        r == covered(first as int, last as int, t as int),
        0 <= r <= ONE,
{
    let one: i128 = ONE as i128;
    let sum: i128 = first as i128 + last as i128;
    let d: i128 = last as i128 - first as i128;
    let tw: i128 = t as i128;
    proof {
        lemma_covered_bounds(first as int, last as int, t as int);
        assert(-0x8000_0000_0000_0000_0000_0000_0000 <= d * tw
            <= 0x8000_0000_0000_0000_0000_0000_0000) by (nonlinear_arith)
            requires
                -0x8000_0000_0000_0000 <= d <= 0x8000_0000_0000_0000,
                0 <= tw <= 0x1_0000_0000_0000,
        ;
        assert(0 <= 2 * first * one + d * tw <= 2 * one * sum) by (nonlinear_arith)
            requires
                0 <= first,
                -first <= d,
                sum == first + (first + d),
                0 <= tw <= one,
        ;
    }
    // Twice the mean speed so far, times `ONE`.
    let speed: i128 = 2 * (first as i128) * one + d * tw;
    let q: i128 = speed / sum;
    let r: i128 = speed % sum;
    proof {
        lemma_fundamental_div_mod(speed as int, sum as int);
        assert(0 <= q <= 2 * one) by (nonlinear_arith)
            requires
                speed == sum * q + r,
                0 <= r < sum,
                0 <= speed <= 2 * one * sum,
        ;
        assert(0 <= q * tw <= 0x2_0000_0000_0000_0000_0000_0000) by (nonlinear_arith)
            requires
                0 <= q <= 0x2_0000_0000_0000,
                0 <= tw <= 0x1_0000_0000_0000,
        ;
    }
    let a: i128 = q * tw;
    let a1: i128 = a / one;
    let a0: i128 = a % one;
    proof {
        assert(0 <= a0 * sum <= 0x1_0000_0000_0000_0000_0000_0000_0000) by (nonlinear_arith)
            requires
                0 <= a0 < 0x1_0000_0000_0000,
                0 < sum <= 0x1_0000_0000_0000_0000,
        ;
        assert(0 <= r * tw <= 0x1_0000_0000_0000_0000_0000_0000_0000) by (nonlinear_arith)
            requires
                0 <= r < sum,
                0 < sum <= 0x1_0000_0000_0000_0000,
                0 <= tw <= 0x1_0000_0000_0000,
        ;
        assert(0 < sum * one <= 0x1_0000_0000_0000_0000_0000_0000_0000) by (nonlinear_arith)
            requires
                0 < sum <= 0x1_0000_0000_0000_0000,
                one == 0x1_0000_0000_0000,
        ;
    }
    let low: i128 = a0 * sum + r * tw;
    let m: i128 = sum * one;
    let b1: i128 = low / m;
    proof {
        let b0 = low % m;
        lemma_fundamental_div_mod(low as int, m as int);
        assert(speed * tw == (a1 + b1) * m + b0) by (nonlinear_arith)
            requires
                speed == sum * q + r,
                a == q * tw,
                a == one * a1 + a0,
                low == a0 * sum + r * tw,
                low == m * b1 + b0,
                m == sum * one,
        ;
        lemma_fundamental_div_mod_converse(speed * tw, m as int, a1 + b1, b0 as int);
        assert(travelled(first as int, last as int, t as int) == speed * tw);
        assert((first + last) * (ONE as int) == m);
    }
    (a1 + b1) as i64
}

} // verus!
