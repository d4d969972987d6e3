//! The values a path is made of: the legs as they are authored, and the views
//! that baking produces.

use crate::point::Point;
use vstd::prelude::*;

verus! {

/// One authored leg of a path.
///
/// The offset and the zoom factor are relative to the view in which the leg
/// starts: the offset is multiplied by the scale at that moment, and the zoom
/// factor multiplies that scale. The speed is relative to the scale at the end
/// of the leg. A leg is meant to have a positive speed.
#[derive(Clone, Copy, Debug, PartialEq, Eq, Structural)]
pub struct Waypoint {
    pub offset: Point,
    pub zoom_factor: i64,
    pub speed: i64,
}

impl Waypoint {
    /// The leg with the given offset, zoom factor and speed.
    pub fn new(offset: Point, zoom_factor: i64, speed: i64) -> (w: Waypoint)
        ensures
            w == (Waypoint { offset, zoom_factor, speed }),
    {
        Waypoint { offset, zoom_factor, speed }
    }
}

/// The view of one rendered frame: where the camera looks, and at what scale.
/// A smaller scale is a closer look.
#[derive(Clone, Copy, Debug, PartialEq, Eq, Structural)]
pub struct BakedSample {
    pub position: Point,
    pub scale: i64,
}

impl BakedSample {
    /// The view at the given position and scale.
    pub fn new(position: Point, scale: i64) -> (s: BakedSample)
        ensures
            s == (BakedSample { position, scale }),
    {
        BakedSample { position, scale }
    }

    /// The position and the scale, as a pair.
    pub fn get_target(&self) -> (r: (Point, i64))
        ensures
            r == (self.position, self.scale),
    {
        (self.position, self.scale)
    }
}

} // verus!
