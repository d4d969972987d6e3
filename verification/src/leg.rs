//! One leg of a path in absolute terms: where it starts and ends, at what
//! scales and speeds, how many frames it takes and what each frame shows.

use crate::fixed::{blend, blend_between, checked_product, fits, floor_div, lemma_blend_between,
    product, ONE};
use crate::point::Point;
use crate::ramp::{coordinate_at, covered, covered_share, elapsed, elapsed_share,
    lemma_covered_bounds, lemma_displacement_monotone, lemma_elapsed_bounds, steps_grow,
    steps_shrink};
use crate::sample::{BakedSample, Waypoint};
use vstd::prelude::*;

verus! {

/// A leg resolved against the view in which it starts.
#[derive(Clone, Copy, Debug, PartialEq, Eq, Structural)]
pub struct Leg {
    /// Where the leg starts.
    pub start: Point,
    /// The vector from the start to the target.
    pub shift: Point,
    /// The scale at the start.
    pub start_scale: i64,
    /// The scale at the target.
    pub target_scale: i64,
    /// The speed at the start, in absolute units per unit of time.
    pub start_speed: i64,
    /// The speed at the target, in absolute units per unit of time.
    pub end_speed: i64,
}

/// Whether `v` lies between `a` and `b`, whichever of the two is larger.
pub open spec fn between(a: int, v: int, b: int) -> bool {
    (a <= v <= b) || (b <= v <= a)
}

impl Leg {
    /// The target is a representable point.
    pub open spec fn wf(self) -> bool {
        fits(self.start.x + self.shift.x) && fits(self.start.y + self.shift.y)
    }

    /// The leg that an authored leg stands for when the camera is at `position`
    /// with the given scale and speed, or `None` where one of its quantities is
    /// not representable.
    pub open spec fn resolved(position: Point, scale: i64, speed: i64, waypoint: Waypoint) -> Option<
        Leg,
    > {
        let dx = product(waypoint.offset.x as int, scale as int);
        let dy = product(waypoint.offset.y as int, scale as int);
        let target_scale = product(scale as int, waypoint.zoom_factor as int);
        let end_speed = product(waypoint.speed as int, target_scale);
        if fits(dx) && fits(dy) && fits(position.x + dx) && fits(position.y + dy) && fits(
            target_scale,
        ) && fits(end_speed) {
            Some(
                Leg {
                    start: position,
                    shift: Point { x: dx as i64, y: dy as i64 },
                    start_scale: scale,
                    target_scale: target_scale as i64,
                    start_speed: speed,
                    end_speed: end_speed as i64,
                },
            )
        } else {
            None
        }
    }

    /// Resolves an authored leg against the view and speed at which it starts.
    pub fn resolve(position: Point, scale: i64, speed: i64, waypoint: &Waypoint) -> (r: Option<Leg>)
        ensures
            r == Leg::resolved(position, scale, speed, *waypoint),
            r matches Some(leg) ==> leg.wf(),
    {
        let shift = match waypoint.offset.checked_scale(scale) {
            Some(p) => p,
            None => {
                return None;
            },
        };
        if position.checked_add(shift).is_none() {
            return None;
        }
        let target_scale = match checked_product(scale, waypoint.zoom_factor) {
            Some(v) => v,
            None => {
                return None;
            },
        };
        let end_speed = match checked_product(waypoint.speed, target_scale) {
            Some(v) => v,
            None => {
                return None;
            },
        };
        Some(
            Leg {
                start: position,
                shift,
                start_scale: scale,
                target_scale,
                start_speed: speed,
                end_speed,
            },
        )
    }

    /// The length of the leg, rounded down.
    pub open spec fn distance(self) -> int {
        self.shift.norm()
    }

    /// The distance covered in one frame interval at the mean of the two end
    /// speeds, rounded down.
    pub open spec fn stride(self, dt: i64) -> int {
        ((self.start_speed + self.end_speed) * dt) / (2 * (ONE as int))
    }

    /// Whether the camera cannot travel the leg: the leg has a length, and a
    /// speed at one of its ends is negative or the stride is not positive.
    pub open spec fn stalled(self, dt: i64) -> bool {
        self.distance() > 0 && (self.start_speed < 0 || self.end_speed < 0 || self.stride(dt)
            <= 0)
    }

    /// The number of frames the leg takes, as a fixed-point value: its length
    /// divided by the stride, plus the fraction of a frame left over from the
    /// legs before it. A leg without length takes no time of its own.
    pub open spec fn steps(self, dt: i64, remainder: i64) -> int {
        if self.distance() == 0 {
            remainder as int
        } else {
            (self.distance() * (ONE as int)) / self.stride(dt) + remainder
        }
    }

    /// The frame budget of the leg, or `None` where the camera cannot travel it.
    pub fn budget(&self, dt: i64, remainder: i64) -> (r: Option<i128>)
        requires
            0 <= remainder < ONE,
        ensures
            r == (if self.stalled(dt) {
                None
            } else {
                Some(self.steps(dt, remainder) as i128)
            }),
            r matches Some(steps) ==> 0 <= steps == self.steps(dt, remainder) && steps
                < 0x1_0000_0000_0000_0000_0000_0000_0000,
    {
        let distance: u64 = self.shift.length();
        if distance == 0 {
            return Some(remainder as i128);
        }
        if self.start_speed < 0 || self.end_speed < 0 {
            return None;
        }
        let sum: i128 = self.start_speed as i128 + self.end_speed as i128;
        assert(-0x8000_0000_0000_0000_0000_0000_0000_0000 <= sum * dt) by (nonlinear_arith)
            requires
                0 <= sum <= 0xffff_ffff_ffff_fffe,
                -0x8000_0000_0000_0000 <= dt,
        ;
        assert(sum * dt < 0x7fff_ffff_ffff_ffff_ffff_ffff_ffff_ffff) by (nonlinear_arith)
            requires
                0 <= sum <= 0xffff_ffff_ffff_fffe,
                dt <= 0x7fff_ffff_ffff_ffff,
        ;
        let stride: i128 = floor_div(sum * (dt as i128), 2 * (ONE as i128));
        if stride <= 0 {
            return None;
        }
        let span: i128 = (distance as i128) * (ONE as i128);
        assert(0 <= span / stride <= span) by (nonlinear_arith)
            requires
                0 <= span,
                stride >= 1,
        ;
        Some(span / stride + remainder as i128)
    }

    /// The view at frame `step` of a leg that takes `steps` frames: the point
    /// and the scale that lie the covered share of the way from the start to
    /// the target.
    pub open spec fn sample(self, steps: int, step: int) -> BakedSample {
        let ratio = covered(
            self.start_speed as int,
            self.end_speed as int,
            elapsed(step, steps),
        );
        BakedSample {
            position: Point {
                x: blend(self.start.x as int, self.start.x + self.shift.x, ratio) as i64,
                y: blend(self.start.y as int, self.start.y + self.shift.y, ratio) as i64,
            },
            scale: blend(self.start_scale as int, self.target_scale as int, ratio) as i64,
        }
    }

    /// Whether a view lies on the leg: each coordinate and the scale between
    /// their values at the start and at the target.
    pub open spec fn spans(self, s: BakedSample) -> bool {
        &&& between(self.start.x as int, s.position.x as int, self.start.x + self.shift.x)
        &&& between(self.start.y as int, s.position.y as int, self.start.y + self.shift.y)
        &&& between(self.start_scale as int, s.scale as int, self.target_scale as int)
    }

    /// Every view of a leg lies on the leg.
    pub proof fn lemma_sample_on_leg(self, steps: int, step: int)
        requires
            self.wf(),
            0 <= self.start_speed,
            0 <= self.end_speed,
            0 < self.start_speed + self.end_speed,
            0 < steps,
            0 <= step,
            step * ONE <= steps,
        ensures
            self.spans(self.sample(steps, step)),
            self.sample(steps, step).position.x == coordinate_at(
                self.start.x as int,
                self.start.x + self.shift.x,
                self.start_speed as int,
                self.end_speed as int,
                steps,
                step,
            ),
            self.sample(steps, step).position.y == coordinate_at(
                self.start.y as int,
                self.start.y + self.shift.y,
                self.start_speed as int,
                self.end_speed as int,
                steps,
                step,
            ),
            self.sample(steps, step).scale == coordinate_at(
                self.start_scale as int,
                self.target_scale as int,
                self.start_speed as int,
                self.end_speed as int,
                steps,
                step,
            ),
    {
        let t = elapsed(step, steps);
        lemma_elapsed_bounds(step, steps);
        lemma_covered_bounds(self.start_speed as int, self.end_speed as int, t);
        let ratio = covered(self.start_speed as int, self.end_speed as int, t);
        lemma_blend_between(self.start.x as int, self.start.x + self.shift.x, ratio);
        lemma_blend_between(self.start.y as int, self.start.y + self.shift.y, ratio);
        lemma_blend_between(self.start_scale as int, self.target_scale as int, ratio);
    }

    /// The views of a leg follow its speed ramp. On a leg along which the
    /// camera speeds up, the position moves at least as far from one frame to
    /// the next as it did the frame before, in each coordinate, and so does the
    /// scale; on a leg along which it slows down, at most as far. Both hold up
    /// to rounding.
    pub proof fn lemma_views_follow_speed(self, steps: int, step: int)
        requires
            self.wf(),
            0 <= self.start_speed,
            0 <= self.end_speed,
            0 < self.start_speed + self.end_speed,
            0 <= step,
            (step + 2) * ONE <= steps,
        ensures
            self.start_speed <= self.end_speed ==> {
                &&& steps_grow(
                    self.shift.x as int,
                    self.sample(steps, step).position.x as int,
                    self.sample(steps, step + 1).position.x as int,
                    self.sample(steps, step + 2).position.x as int,
                )
                &&& steps_grow(
                    self.shift.y as int,
                    self.sample(steps, step).position.y as int,
                    self.sample(steps, step + 1).position.y as int,
                    self.sample(steps, step + 2).position.y as int,
                )
                &&& steps_grow(
                    self.target_scale - self.start_scale,
                    self.sample(steps, step).scale as int,
                    self.sample(steps, step + 1).scale as int,
                    self.sample(steps, step + 2).scale as int,
                )
            },
            self.end_speed <= self.start_speed ==> {
                &&& steps_shrink(
                    self.shift.x as int,
                    self.sample(steps, step).position.x as int,
                    self.sample(steps, step + 1).position.x as int,
                    self.sample(steps, step + 2).position.x as int,
                )
                &&& steps_shrink(
                    self.shift.y as int,
                    self.sample(steps, step).position.y as int,
                    self.sample(steps, step + 1).position.y as int,
                    self.sample(steps, step + 2).position.y as int,
                )
                &&& steps_shrink(
                    self.target_scale - self.start_scale,
                    self.sample(steps, step).scale as int,
                    self.sample(steps, step + 1).scale as int,
                    self.sample(steps, step + 2).scale as int,
                )
            },
    {
        let first = self.start_speed as int;
        let last = self.end_speed as int;
        assert(step * ONE <= steps && (step + 1) * ONE <= steps) by (nonlinear_arith)
            requires
                (step + 2) * ONE <= steps,
                ONE > 0,
        ;
        self.lemma_sample_on_leg(steps, step);
        self.lemma_sample_on_leg(steps, step + 1);
        self.lemma_sample_on_leg(steps, step + 2);
        lemma_displacement_monotone(
            self.start.x as int,
            self.start.x + self.shift.x,
            first,
            last,
            steps,
            step,
        );
        lemma_displacement_monotone(
            self.start.y as int,
            self.start.y + self.shift.y,
            first,
            last,
            steps,
            step,
        );
        lemma_displacement_monotone(
            self.start_scale as int,
            self.target_scale as int,
            first,
            last,
            steps,
            step,
        );
    }

    /// The view at frame `step` of the leg.
    pub fn sample_at(&self, steps: i128, step: usize) -> (s: BakedSample)
        requires
            self.wf(),
            0 <= self.start_speed,
            0 <= self.end_speed,
            0 < self.start_speed + self.end_speed,
            0 < steps,
            step * ONE <= steps,
            step <= 0x3fff_ffff,
        ensures
            s == self.sample(steps as int, step as int),
            self.spans(s),
    {
        proof {
            self.lemma_sample_on_leg(steps as int, step as int);
        }
        let t: i64 = elapsed_share(step, steps);
        let ratio: i64 = covered_share(self.start_speed, self.end_speed, t);
        let target_x: i64 = self.start.x + self.shift.x;
        let target_y: i64 = self.start.y + self.shift.y;
        BakedSample {
            position: Point {
                x: blend_between(self.start.x, target_x, ratio),
                y: blend_between(self.start.y, target_y, ratio),
            },
            scale: blend_between(self.start_scale, self.target_scale, ratio),
        }
    }
}

} // verus!
