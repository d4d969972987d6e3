//! Camera path planning for a fractal fly-through, in exact fixed-point arithmetic.
//!
//! A path is authored as a list of legs, each an offset, a zoom factor and a
//! travel speed relative to the view in which the leg starts. Baking turns the
//! list into one view per rendered frame; a low-pass filter then smooths the
//! corners where legs meet, and a cursor hands the views out one per frame.
//!
//! Every quantity is a signed 64-bit integer counting units of 2^-48, so that
//! each result is a function of the inputs alone, the same on every machine.

pub mod bake;
pub mod filter;
pub mod fixed;
pub mod leg;
pub mod point;
pub mod ramp;
pub mod sample;
pub mod trajectory;
pub mod viewport;

pub use crate::bake::{bake, bake_leg, BakeError, BakeState, MAX_SAMPLES};
pub use crate::filter::apply_filter;
pub use crate::fixed::ONE;
pub use crate::leg::Leg;
pub use crate::point::Point;
pub use crate::sample::{BakedSample, Waypoint};
pub use crate::trajectory::Trajectory;
pub use crate::viewport::Viewport;
