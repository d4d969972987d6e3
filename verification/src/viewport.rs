//! The view that the renderer reads each frame: a centre and a scale.

use crate::fixed::{clamp, clamped, product, quotient, wide_product, wide_quotient, ONE};
use vstd::prelude::*;

verus! {

/// The factor by which one zoom step changes the scale, unless the caller
/// names another: 0.95, rounded down.
pub const SCALE_STEP: i64 = 267_401_227_875_123;

/// The share of the scale by which one shift moves the centre, unless the
/// caller names another: 0.05, rounded down.
pub const OFFSET_STEP: i64 = 14_073_748_835_532;

/// The step that was given, or the default.
fn pick(step: Option<i64>, default: i64) -> (r: i64)
    ensures
        r == step.unwrap_or(default),
{
    match step {
        Some(v) => v,
        None => default,
    }
}

/// The part of the plane that is shown: its centre, and its scale.
#[derive(Clone, Copy, Debug, PartialEq, Eq, Structural)]
pub struct Viewport {
    pub center_x: i64,
    pub center_y: i64,
    pub scale: i64,
}

impl Viewport {
    /// The view with the given centre and scale.
    pub fn new(center_x: i64, center_y: i64, scale: i64) -> (v: Viewport)
        ensures
            v == (Viewport { center_x, center_y, scale }),
    {
        Viewport { center_x, center_y, scale }
    }

    /// Moves the centre.
    pub fn set_center(&mut self, center_x: i64, center_y: i64) -> (r: &mut Viewport)
        ensures
            *r == (Viewport { center_x, center_y, scale: old(self).scale }),
            *final(self) == *final(r),
    {
        self.center_x = center_x;
        self.center_y = center_y;
        self
    }

    /// The scale after a zoom by the factor `step`: their product, clamped.
    pub open spec fn zoomed_in(self, step: i64) -> int {
        clamped(product(self.scale as int, step as int))
    }

    /// The scale after a zoom back by the factor `step`: their quotient,
    /// clamped. A factor of zero leaves the scale as it is.
    pub open spec fn zoomed_out(self, step: i64) -> int {
        if step == 0 {
            self.scale as int
        } else {
            clamped(quotient(self.scale as int, step as int))
        }
    }

    /// How far a shift by the share `step` moves the centre: that share of the
    /// scale.
    pub open spec fn shift(self, step: i64) -> int {
        product(self.scale as int, step as int)
    }

    /// Multiplies the scale by `step`, or by `SCALE_STEP` where none is given.
    pub fn zoom_in(&mut self, step: Option<i64>)
        ensures
            *final(self) == (Viewport {
                scale: old(self).zoomed_in(step.unwrap_or(SCALE_STEP)) as i64,
                ..*old(self)
            }),
    {
        let factor = pick(step, SCALE_STEP);
        self.scale = clamp(wide_product(self.scale, factor));
    }

    /// Divides the scale by `step`, or by `SCALE_STEP` where none is given.
    pub fn zoom_out(&mut self, step: Option<i64>)
        ensures
            *final(self) == (Viewport {
                scale: old(self).zoomed_out(step.unwrap_or(SCALE_STEP)) as i64,
                ..*old(self)
            }),
    {
        let factor = pick(step, SCALE_STEP);
        if factor == 0 {
            return ;
        }
        self.scale = clamp(wide_quotient(self.scale, factor));
    }

    /// Moves the centre to the left by the share `step` of the scale, or by the
    /// share `OFFSET_STEP` where none is given.
    pub fn shift_left(&mut self, step: Option<i64>)
        ensures
            *final(self) == (Viewport {
                center_x: clamped(old(self).center_x - old(self).shift(step.unwrap_or(OFFSET_STEP)))
                    as i64,
                ..*old(self)
            }),
    {
        let share = pick(step, OFFSET_STEP);
        self.center_x = clamp(self.center_x as i128 - wide_product(self.scale, share));
    }

    /// Moves the centre to the right by the share `step` of the scale, or by
    /// the share `OFFSET_STEP` where none is given.
    pub fn shift_right(&mut self, step: Option<i64>)
        ensures
            *final(self) == (Viewport {
                center_x: clamped(old(self).center_x + old(self).shift(step.unwrap_or(OFFSET_STEP)))
                    as i64,
                ..*old(self)
            }),
    {
        let share = pick(step, OFFSET_STEP);
        self.center_x = clamp(self.center_x as i128 + wide_product(self.scale, share));
    }

    /// Moves the centre up by the share `step` of the scale, or by the share
    /// `OFFSET_STEP` where none is given.
    pub fn shift_up(&mut self, step: Option<i64>)
        ensures
            *final(self) == (Viewport {
                center_y: clamped(old(self).center_y + old(self).shift(step.unwrap_or(OFFSET_STEP)))
                    as i64,
                ..*old(self)
            }),
    {
        let share = pick(step, OFFSET_STEP);
        self.center_y = clamp(self.center_y as i128 + wide_product(self.scale, share));
    }

    /// Moves the centre down by the share `step` of the scale, or by the share
    /// `OFFSET_STEP` where none is given.
    pub fn shift_down(&mut self, step: Option<i64>)
        ensures
            *final(self) == (Viewport {
                center_y: clamped(old(self).center_y - old(self).shift(step.unwrap_or(OFFSET_STEP)))
                    as i64,
                ..*old(self)
            }),
    {
        let share = pick(step, OFFSET_STEP);
        self.center_y = clamp(self.center_y as i128 - wide_product(self.scale, share));
    }

    /// Sets the scale back to one.
    pub fn zoom_reset(&mut self)
        ensures
            *final(self) == (Viewport { scale: ONE, ..*old(self) }),
    {
        self.scale = ONE;
    }

    /// Sets the scale.
    pub fn set_scale(&mut self, scale: i64) -> (r: &mut Viewport)
        ensures
            *r == (Viewport { scale, ..*old(self) }),
            *final(self) == *final(r),
    {
        self.scale = scale;
        self
    }
}

} // verus!
