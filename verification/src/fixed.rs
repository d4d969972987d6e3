//! Fixed-point numbers: `i64` values that count units of 2^-48.

use vstd::prelude::*;

verus! {

/// The fixed-point representation of the number one: 2^48.
pub const ONE: i64 = 0x1_0000_0000_0000;

/// Whether an integer is representable as a fixed-point value.
pub open spec fn fits(v: int) -> bool {
    i64::MIN <= v <= i64::MAX
}

/// The fixed-point product of two fixed-point values, rounded down.
pub open spec fn product(a: int, b: int) -> int {
    (a * b) / (ONE as int)
}

/// The fixed-point quotient of `a` by a divisor other than zero, rounded down.
pub open spec fn quotient(a: int, b: int) -> int {
    if b > 0 {
        (a * (ONE as int)) / b
    } else {
        (-a * (ONE as int)) / (-b)
    }
}

/// The nearest representable value to `v`.
pub open spec fn clamped(v: int) -> int {
    if v < i64::MIN {
        i64::MIN as int
    } else if v > i64::MAX {
        i64::MAX as int
    } else {
        v
    }
}

/// The point a fraction `ratio / ONE` of the way from `a` to `b`, rounded down.
pub open spec fn blend(a: int, b: int, ratio: int) -> int {
    a + ((b - a) * ratio) / (ONE as int)
}

/// Whether `r` is the square root of `n`, rounded down.
pub open spec fn is_floor_sqrt(n: int, r: int) -> bool {
    0 <= r && r * r <= n < (r + 1) * (r + 1)
}

/// The square root of `n`, rounded down.
pub open spec fn floor_sqrt(n: int) -> int {
    choose|r: int| is_floor_sqrt(n, r)
}

/// At most one integer is the rounded-down square root of `n`.
pub proof fn lemma_floor_sqrt_unique(n: int, r: int, q: int)
    requires
        is_floor_sqrt(n, r),
        is_floor_sqrt(n, q),
    ensures
        r == q,
{
    if r < q {
        assert((r + 1) * (r + 1) <= q * q) by (nonlinear_arith)
            requires
                0 <= r,
                r + 1 <= q,
        ;
    } else if q < r {
        assert((q + 1) * (q + 1) <= r * r) by (nonlinear_arith)
            requires
                0 <= q,
                q + 1 <= r,
        ;
    }
}

/// An integer with the defining property is the rounded-down square root.
pub proof fn lemma_floor_sqrt_is(n: int, r: int)
    requires
        is_floor_sqrt(n, r),
    ensures
        floor_sqrt(n) == r,
{
    lemma_floor_sqrt_unique(n, r, floor_sqrt(n));
}

/// Every natural number has a rounded-down square root.
pub proof fn lemma_floor_sqrt_exists(n: int)
    requires
        0 <= n,
    ensures
        is_floor_sqrt(n, floor_sqrt(n)),
    decreases n,
{
    if n == 0 {
        assert(is_floor_sqrt(n, 0));
    } else {
        lemma_floor_sqrt_exists(n - 1);
        let r = floor_sqrt(n - 1);
        if (r + 1) * (r + 1) <= n {
            assert((r + 1) * (r + 1) < (r + 2) * (r + 2)) by (nonlinear_arith)
                requires
                    0 <= r,
            ;
            assert(is_floor_sqrt(n, r + 1));
        } else {
            assert(is_floor_sqrt(n, r));
        }
    }
}

/// Division rounded down, for a positive divisor.
pub fn floor_div(a: i128, b: i128) -> (q: i128)
    requires
        b > 0,
    ensures
        q == a / b,
{
    if a >= 0 {
        a / b
    } else {
        let m: i128 = -(a + 1);
        let k: i128 = m / b;
        assert(a / b == -(m / b) - 1) by (nonlinear_arith)
            requires
                a == -(m + 1),
                m >= 0,
                b > 0,
        ;
        -k - 1
    }
}

/// A wide value as a fixed-point value, if it is representable.
pub fn narrow(v: i128) -> (r: Option<i64>)
    ensures
        r == (if fits(v as int) {
            Some(v as i64)
        } else {
            None
        }),
{
    if v < -0x8000_0000_0000_0000 || v > 0x7fff_ffff_ffff_ffff {
        None
    } else {
        Some(v as i64)
    }
}

/// The product of two fixed-point values before it is narrowed.
pub fn wide_product(a: i64, b: i64) -> (p: i128)
    ensures
        p == product(a as int, b as int),
        -0x4000_0000_0000_0000_0000 <= p <= 0x4000_0000_0000_0000_0000,
{
    assert(-0x4000_0000_0000_0000_0000_0000_0000_0000 <= a * b
        <= 0x4000_0000_0000_0000_0000_0000_0000_0000) by (nonlinear_arith)
        requires
            -0x8000_0000_0000_0000 <= a <= 0x7fff_ffff_ffff_ffff,
            -0x8000_0000_0000_0000 <= b <= 0x7fff_ffff_ffff_ffff,
    ;
    let p: i128 = (a as i128) * (b as i128);
    floor_div(p, ONE as i128)
}

/// The fixed-point product of two values, or `None` where it is not representable.
pub fn checked_product(a: i64, b: i64) -> (r: Option<i64>)
    ensures
        r == (if fits(product(a as int, b as int)) {
            Some(product(a as int, b as int) as i64)
        } else {
            None
        }),
{
    narrow(wide_product(a, b))
}

/// The fixed-point quotient of a value by a divisor other than zero, before it
/// is narrowed.
pub fn wide_quotient(a: i64, b: i64) -> (q: i128)
    requires
        b != 0,
    ensures
        q == quotient(a as int, b as int),
{
    assert(-0x8000_0000_0000_0000_0000_0000_0000 <= a * (ONE as int)
        <= 0x8000_0000_0000_0000_0000_0000_0000) by (nonlinear_arith)
        requires
            -0x8000_0000_0000_0000 <= a <= 0x7fff_ffff_ffff_ffff,
            ONE == 0x1_0000_0000_0000,
    ;
    let n: i128 = (a as i128) * (ONE as i128);
    assert(-a * (ONE as int) == -n) by (nonlinear_arith)
        requires
            n == a * (ONE as int),
    ;
    if b > 0 {
        floor_div(n, b as i128)
    } else {
        floor_div(-n, -(b as i128))
    }
}

/// A wide value as the nearest fixed-point value.
pub fn clamp(v: i128) -> (r: i64)
    ensures
        r == clamped(v as int),
{
    if v < -0x8000_0000_0000_0000 {
        -0x8000_0000_0000_0000
    } else if v > 0x7fff_ffff_ffff_ffff {
        0x7fff_ffff_ffff_ffff
    } else {
        v as i64
    }
}

/// The value a fraction `ratio / ONE` of the way from `a` to `b`. It lies
/// between the two, so it is always representable.
pub fn blend_between(a: i64, b: i64, ratio: i64) -> (r: i64)
    requires
        0 <= ratio <= ONE,
    ensures
        r == blend(a as int, b as int, ratio as int),
        a <= b ==> a <= r <= b,
        b <= a ==> b <= r <= a,
{
    let d: i128 = b as i128 - a as i128;
    proof {
        lemma_blend_between(a as int, b as int, ratio as int);
        assert(-0x1_0000_0000_0000_0000_0000_0000_0000 <= d * ratio
            <= 0x1_0000_0000_0000_0000_0000_0000_0000) by (nonlinear_arith)
            requires
                -0x1_0000_0000_0000_0000 <= d <= 0x1_0000_0000_0000_0000,
                0 <= ratio <= 0x1_0000_0000_0000,
        ;
    }
    let step: i128 = floor_div(d * (ratio as i128), ONE as i128);
    (a as i128 + step) as i64
}

/// A blend with a ratio between zero and one lies between its two ends.
pub proof fn lemma_blend_between(a: int, b: int, ratio: int)
    requires
        0 <= ratio <= ONE,
    ensures
        a <= b ==> a <= blend(a, b, ratio) <= b,
        b <= a ==> b <= blend(a, b, ratio) <= a,
{
    let d = b - a;
    let one = ONE as int;
    if d >= 0 {
        assert(0 <= (d * ratio) / one <= d) by (nonlinear_arith)
            requires
                d >= 0,
                0 <= ratio <= one,
                one > 0,
        ;
    } else {
        assert(d <= (d * ratio) / one <= 0) by (nonlinear_arith)
            requires
                d < 0,
                0 <= ratio <= one,
                one > 0,
        ;
    }
}

/// The square root of `n`, rounded down.
pub fn sqrt(n: u128) -> (r: u64)
    ensures
        is_floor_sqrt(n as int, r as int),
        r == floor_sqrt(n as int),
{
    let mut lo: u128 = 0;
    let mut hi: u128 = 0x1_0000_0000_0000_0000;
    assert(n < hi * hi) by (nonlinear_arith)
        requires
            n <= 0xffff_ffff_ffff_ffff_ffff_ffff_ffff_ffff,
            hi == 0x1_0000_0000_0000_0000,
    ;
    while hi - lo > 1
        invariant
            lo < hi <= 0x1_0000_0000_0000_0000,
            lo * lo <= n < hi * hi,
        decreases hi - lo,
    {
        let mid: u128 = lo + (hi - lo) / 2;
        assert(mid * mid <= 0xffff_ffff_ffff_ffff_ffff_ffff_ffff_ffff) by (nonlinear_arith)
            requires
                0 <= mid <= 0xffff_ffff_ffff_ffff,
        ;
        if mid * mid <= n {
            lo = mid;
        } else {
            hi = mid;
        }
    }
    proof {
        lemma_floor_sqrt_is(n as int, lo as int);
    }
    lo as u64
}

} // verus!
