//! A camera path through its life: legs are added, the path is baked and
//! smoothed once, and then its views are handed out one per frame.

use crate::bake::{bake, raw_path, BakeError, MAX_SAMPLES};
use crate::filter::{apply_filter, filtered};
use crate::point::Point;
use crate::sample::{BakedSample, Waypoint};
use vstd::prelude::*;

verus! {

/// What a path holds, as plain values.
pub struct TrajectoryView {
    /// The legs that were added and not baked yet.
    pub waypoints: Seq<Waypoint>,
    /// The views of the baked path.
    pub samples: Seq<BakedSample>,
    /// How many views were handed out.
    pub cursor: nat,
    /// The length of one frame.
    pub dt: i64,
    /// Whether the path was baked.
    pub baked: bool,
}

impl TrajectoryView {
    /// The cursor is bounded by the number of views, a path holds no more views
    /// than the ceiling allows, and it holds views only once it is baked, when
    /// its legs are used up.
    pub open spec fn wf(self) -> bool {
        &&& self.cursor <= self.samples.len() <= MAX_SAMPLES
        &&& !self.baked ==> self.samples.len() == 0
        &&& self.baked ==> self.waypoints.len() == 0
    }

    /// Whether every view was handed out.
    pub open spec fn finished(self) -> bool {
        self.cursor >= self.samples.len()
    }

    /// The path after one more view was handed out.
    pub open spec fn stepped(self) -> TrajectoryView {
        TrajectoryView { cursor: self.cursor + 1, ..self }
    }

    /// The path after `calls` more views were handed out.
    pub open spec fn stepped_times(self, calls: nat) -> TrajectoryView
        decreases calls,
    {
        if calls == 0 {
            self
        } else {
            self.stepped_times((calls - 1) as nat).stepped()
        }
    }

    /// Handing out views moves the cursor forward by their number and changes
    /// nothing else.
    pub proof fn lemma_stepped_times(self, calls: nat)
        ensures
            self.stepped_times(calls) == (TrajectoryView { cursor: self.cursor + calls, ..self }),
        decreases calls,
    {
        if calls > 0 {
            self.lemma_stepped_times((calls - 1) as nat);
        }
    }

    /// A path whose cursor is at the start is finished after exactly as many
    /// views were handed out as it holds, and not before.
    pub proof fn lemma_finished_at_end(self, calls: nat)
        requires
            self.cursor == 0,
            calls <= self.samples.len(),
        ensures
            self.stepped_times(calls).finished() <==> calls == self.samples.len(),
    {
        self.lemma_stepped_times(calls);
    }

    /// The cursor never moves back, so a finished path stays finished however
    /// many more views one counts.
    pub proof fn lemma_finished_stays(self, calls: nat)
        requires
            self.finished(),
        ensures
            self.stepped_times(calls).finished(),
            self.stepped_times(calls).cursor >= self.cursor,
    {
        self.lemma_stepped_times(calls);
    }
}

/// A camera path.
pub struct Trajectory {
    waypoints: Vec<Waypoint>,
    samples: Vec<BakedSample>,
    cursor: usize,
    dt: i64,
    baked: bool,
}

impl View for Trajectory {
    type V = TrajectoryView;

    closed spec fn view(&self) -> TrajectoryView {
        TrajectoryView {
            waypoints: self.waypoints@,
            samples: self.samples@,
            cursor: self.cursor as nat,
            dt: self.dt,
            baked: self.baked,
        }
    }
}

impl Trajectory {
    /// A path without legs, for frames of length `dt`.
    pub fn new(dt: i64) -> (t: Trajectory)
        ensures
            t@ == (TrajectoryView {
                waypoints: Seq::empty(),
                samples: Seq::empty(),
                cursor: 0,
                dt,
                baked: false,
            }),
            t@.wf(),
    {
        let t = Trajectory {
            waypoints: Vec::new(),
            samples: Vec::new(),
            cursor: 0,
            dt,
            baked: false,
        };
        assert(t@.waypoints =~= Seq::empty() && t@.samples =~= Seq::empty());
        t
    }

    /// Adds a leg: an offset and a zoom factor relative to the view in which
    /// the leg will start, and a speed. Nothing is checked or computed yet.
    pub fn add_move(&mut self, x: i64, y: i64, zoom_factor: i64, speed: i64)
        requires
            old(self)@.wf(),
            !old(self)@.baked,
        ensures
            final(self)@.wf(),
            final(self)@ == (TrajectoryView {
                waypoints: old(self)@.waypoints.push(
                    Waypoint { offset: Point { x, y }, zoom_factor, speed },
                ),
                ..old(self)@
            }),
    {
        self.waypoints.push(Waypoint::new(Point::new(x, y), zoom_factor, speed));
    }

    /// Whether every view was handed out. A path that is not baked holds no
    /// view, so it is finished.
    pub fn finished(&self) -> (r: bool)
        ensures
            r == self@.finished(),
    {
        self.cursor >= self.samples.len()
    }

    /// Hands out the next view: its position and its scale.
    pub fn step(&mut self) -> (r: (Point, i64))
        requires
            old(self)@.wf(),
            !old(self)@.finished(),
        ensures
            final(self)@.wf(),
            r == (
                old(self)@.samples[old(self)@.cursor as int].position,
                old(self)@.samples[old(self)@.cursor as int].scale,
            ),
            final(self)@ == old(self)@.stepped(),
    {
        let r = self.samples[self.cursor].get_target();
        self.cursor = self.cursor + 1;
        r
    }

    /// Bakes the legs into one view per frame, from a camera at `position`
    /// with the given scale, and smooths the result. The legs are used up, and
    /// the cursor stands at the first view. Where baking fails the path is left
    /// as it was.
    pub fn smooth(&mut self, position: Point, scale: i64) -> (r: Result<(), BakeError>)
        requires
            old(self)@.wf(),
            !old(self)@.baked,
        ensures
            final(self)@.wf(),
            match (r, raw_path(old(self)@.waypoints, position, scale, old(self)@.dt)) {
                (Ok(()), Ok(raw)) => final(self)@ == (TrajectoryView {
                    waypoints: Seq::empty(),
                    samples: filtered(raw, BakedSample { position, scale }),
                    cursor: 0,
                    dt: old(self)@.dt,
                    baked: true,
                }),
                (Err(e), Err(reason)) => e == reason && final(self)@ == old(self)@,
                _ => false,
            },
    {
        let raw = match bake(&self.waypoints, position, scale, self.dt) {
            Ok(raw) => raw,
            Err(e) => {
                return Err(e);
            },
        };
        self.samples = apply_filter(raw, position, scale);
        self.waypoints = Vec::new();
        self.cursor = 0;
        self.baked = true;
        assert(self@.waypoints =~= Seq::empty());
        Ok(())
    }
}

} // verus!
