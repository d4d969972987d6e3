//! Points and vectors of the plane, in fixed-point coordinates.

use crate::fixed::{fits, floor_sqrt, is_floor_sqrt, lemma_floor_sqrt_exists, product, sqrt,
    wide_product};
use vstd::prelude::*;

verus! {

/// A point of the plane, or the vector from the origin to it.
#[derive(Clone, Copy, Debug, PartialEq, Eq, Structural)]
pub struct Point {
    pub x: i64,
    pub y: i64,
}

impl Point {
    /// The point with the given coordinates.
    pub fn new(x: i64, y: i64) -> (p: Point)
        ensures
            p.x == x,
            p.y == y,
    {
        Point { x, y }
    }

    /// The square of the Euclidean length, in units of 2^-96.
    pub open spec fn norm_squared(self) -> int {
        self.x * self.x + self.y * self.y
    }

    /// The Euclidean length, rounded down.
    pub open spec fn norm(self) -> int {
        floor_sqrt(self.norm_squared())
    }

    /// The length is the one natural number whose square is at most the
    /// squared length and whose successor's square is more.
    pub proof fn lemma_norm(self)
        ensures
            is_floor_sqrt(self.norm_squared(), self.norm()),
            0 <= self.norm(),
    {
        assert(0 <= self.x * self.x && 0 <= self.y * self.y) by (nonlinear_arith);
        lemma_floor_sqrt_exists(self.norm_squared());
    }

    /// The Euclidean length, rounded down to a whole number of units.
    pub fn length(&self) -> (r: u64)
        ensures
            r == self.norm(),
            r * r <= self.norm_squared() < (r + 1) * (r + 1),
    {
        let x: i128 = self.x as i128;
        let y: i128 = self.y as i128;
        assert(0 <= x * x <= 0x4000_0000_0000_0000_0000_0000_0000_0000) by (nonlinear_arith)
            requires
                -0x8000_0000_0000_0000 <= x <= 0x7fff_ffff_ffff_ffff,
        ;
        assert(0 <= y * y <= 0x4000_0000_0000_0000_0000_0000_0000_0000) by (nonlinear_arith)
            requires
                -0x8000_0000_0000_0000 <= y <= 0x7fff_ffff_ffff_ffff,
        ;
        let n: u128 = (x * x) as u128 + (y * y) as u128;
        sqrt(n)
    }

    /// The componentwise sum, or `None` where a coordinate is not representable.
    pub fn checked_add(self, rhs: Point) -> (r: Option<Point>)
        ensures
            r == (if fits(self.x + rhs.x) && fits(self.y + rhs.y) {
                Some(Point { x: (self.x + rhs.x) as i64, y: (self.y + rhs.y) as i64 })
            } else {
                None
            }),
    {
        let x: i128 = self.x as i128 + rhs.x as i128;
        let y: i128 = self.y as i128 + rhs.y as i128;
        if x < -0x8000_0000_0000_0000 || x > 0x7fff_ffff_ffff_ffff || y < -0x8000_0000_0000_0000
            || y > 0x7fff_ffff_ffff_ffff {
            None
        } else {
            Some(Point { x: x as i64, y: y as i64 })
        }
    }

    /// The vector scaled by a fixed-point factor, each coordinate rounded down,
    /// or `None` where a coordinate is not representable.
    pub fn checked_scale(self, factor: i64) -> (r: Option<Point>)
        ensures
            r == (if fits(product(self.x as int, factor as int)) && fits(
                product(self.y as int, factor as int),
            ) {
                Some(
                    Point {
                        x: product(self.x as int, factor as int) as i64,
                        y: product(self.y as int, factor as int) as i64,
                    },
                )
            } else {
                None
            }),
    {
        let x: i128 = wide_product(self.x, factor);
        let y: i128 = wide_product(self.y, factor);
        if x < -0x8000_0000_0000_0000 || x > 0x7fff_ffff_ffff_ffff || y < -0x8000_0000_0000_0000
            || y > 0x7fff_ffff_ffff_ffff {
            None
        } else {
            Some(Point { x: x as i64, y: y as i64 })
        }
    }
}

impl vstd::std_specs::ops::AddSpecImpl for Point {
    open spec fn obeys_add_spec() -> bool {
        true
    }

    open spec fn add_req(self, rhs: Point) -> bool {
        fits(self.x + rhs.x) && fits(self.y + rhs.y)
    }

    open spec fn add_spec(self, rhs: Point) -> Point {
        Point { x: (self.x + rhs.x) as i64, y: (self.y + rhs.y) as i64 }
    }
}

impl core::ops::Add for Point {
    type Output = Point;

    /// The componentwise sum.
    fn add(self, rhs: Point) -> Point {
        Point { x: self.x + rhs.x, y: self.y + rhs.y }
    }
}

impl vstd::std_specs::ops::SubSpecImpl for Point {
    open spec fn obeys_sub_spec() -> bool {
        true
    }

    open spec fn sub_req(self, rhs: Point) -> bool {
        fits(self.x - rhs.x) && fits(self.y - rhs.y)
    }

    open spec fn sub_spec(self, rhs: Point) -> Point {
        Point { x: (self.x - rhs.x) as i64, y: (self.y - rhs.y) as i64 }
    }
}

impl core::ops::Sub for Point {
    type Output = Point;

    /// The componentwise difference.
    fn sub(self, rhs: Point) -> Point {
        Point { x: self.x - rhs.x, y: self.y - rhs.y }
    }
}

impl vstd::std_specs::ops::MulSpecImpl<i64> for Point {
    open spec fn obeys_mul_spec() -> bool {
        true
    }

    open spec fn mul_req(self, rhs: i64) -> bool {
        fits(product(self.x as int, rhs as int)) && fits(product(self.y as int, rhs as int))
    }

    open spec fn mul_spec(self, rhs: i64) -> Point {
        Point {
            x: product(self.x as int, rhs as int) as i64,
            y: product(self.y as int, rhs as int) as i64,
        }
    }
}

impl core::ops::Mul<i64> for Point {
    type Output = Point;

    /// The vector scaled by a fixed-point factor, each coordinate rounded down.
    fn mul(self, rhs: i64) -> Point {
        Point { x: wide_product(self.x, rhs) as i64, y: wide_product(self.y, rhs) as i64 }
    }
}

} // verus!
