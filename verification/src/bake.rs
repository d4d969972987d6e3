//! Baking: from the authored legs to one raw view per frame.

use crate::fixed::{checked_product, fits, product, ONE};
use crate::leg::Leg;
use crate::point::Point;
use crate::sample::{BakedSample, Waypoint};
use vstd::prelude::*;

verus! {

/// The largest number of views a baked path may hold.
pub const MAX_SAMPLES: usize = 50_000;

/// Why a path could not be baked.
#[derive(Clone, Copy, Debug, PartialEq, Eq, Structural)]
pub enum BakeError {
    /// The leg asks for more views than the path may still take: its waypoints
    /// are too far apart, its speed is too low, or the frame rate is too high.
    TooManySamples { leg: usize, requested: u64, available: usize },
    /// A position, a scale or a speed of the leg is not representable.
    OutOfRange { leg: usize },
    /// The camera cannot travel the leg: a speed at one of its ends is
    /// negative, or the distance covered in one frame rounds to nothing.
    Stalled { leg: usize },
}

/// What baking carries from one leg to the next.
#[derive(Clone, Copy, Debug, PartialEq, Eq, Structural)]
pub struct BakeState {
    /// Where the camera is.
    pub position: Point,
    /// The scale of its view.
    pub scale: i64,
    /// Its speed, in absolute units per unit of time.
    pub speed: i64,
    /// The fraction of a frame that the legs so far have left over.
    pub remainder: i64,
}

impl BakeState {
    /// The leftover is a fraction of one frame.
    pub open spec fn wf(self) -> bool {
        0 <= self.remainder < ONE
    }

    /// The state before the first leg: the given view and speed, and nothing
    /// left over.
    pub fn start(position: Point, scale: i64, speed: i64) -> (s: BakeState)
        ensures
            s == (BakeState { position, scale, speed, remainder: 0 }),
            s.wf(),
    {
        BakeState { position, scale, speed, remainder: 0 }
    }
}

/// How many more views a path that holds `emitted` of them may take.
pub open spec fn room(emitted: int) -> int {
    if emitted <= MAX_SAMPLES {
        MAX_SAMPLES - emitted
    } else {
        0
    }
}

/// The views of a leg that takes `steps` frames: one for each whole frame.
pub open spec fn leg_samples(leg: Leg, steps: int) -> Seq<BakedSample> {
    Seq::new((steps / (ONE as int)) as nat, |step: int| leg.sample(steps, step))
}

/// What one leg contributes to a path that holds `emitted` views already: the
/// state after the leg and the views of the leg, or the reason why the leg
/// cannot be baked.
///
/// A leg whose budget is less than one frame contributes no view and leaves
/// the camera where it is: only its budget and its end speed are carried on.
/// Any other leg leaves the camera at its last view.
pub open spec fn leg_outcome(
    state: BakeState,
    waypoint: Waypoint,
    dt: i64,
    index: usize,
    emitted: int,
) -> Result<(BakeState, Seq<BakedSample>), BakeError> {
    match Leg::resolved(state.position, state.scale, state.speed, waypoint) {
        None => Err(BakeError::OutOfRange { leg: index }),
        Some(leg) => {
            let steps = leg.steps(dt, state.remainder);
            let count = steps / (ONE as int);
            if leg.stalled(dt) {
                Err(BakeError::Stalled { leg: index })
            } else if count == 0 {
                Ok(
                    (
                        BakeState {
                            position: state.position,
                            scale: state.scale,
                            speed: leg.end_speed,
                            remainder: (steps % (ONE as int)) as i64,
                        },
                        Seq::empty(),
                    ),
                )
            } else if count > room(emitted) {
                Err(
                    BakeError::TooManySamples {
                        leg: index,
                        requested: count as u64,
                        available: room(emitted) as usize,
                    },
                )
            } else {
                let last = leg.sample(steps, count - 1);
                Ok(
                    (
                        BakeState {
                            position: last.position,
                            scale: last.scale,
                            speed: leg.end_speed,
                            remainder: (steps % (ONE as int)) as i64,
                        },
                        leg_samples(leg, steps),
                    ),
                )
            }
        },
    }
}

/// A leg without length contributes no view, leaves the camera where it is
/// and hands the leftover of the legs before it on unchanged.
pub proof fn lemma_zero_distance_leg(
    state: BakeState,
    waypoint: Waypoint,
    dt: i64,
    index: usize,
    emitted: int,
)
    requires
        state.wf(),
        Leg::resolved(state.position, state.scale, state.speed, waypoint) matches Some(leg)
            && leg.distance() == 0,
    ensures
        leg_outcome(state, waypoint, dt, index, emitted) matches Ok((next, samples))
            && samples.len() == 0 && next.remainder == state.remainder && next.position
            == state.position && next.scale == state.scale,
{
}

/// A leg whose budget is less than one frame contributes no view and hands
/// its whole budget on, so that the next leg's budget grows by it.
pub proof fn lemma_short_leg_carries_budget(
    state: BakeState,
    waypoint: Waypoint,
    dt: i64,
    index: usize,
    emitted: int,
)
    requires
        state.wf(),
        Leg::resolved(state.position, state.scale, state.speed, waypoint) matches Some(leg)
            && !leg.stalled(dt) && 0 <= leg.steps(dt, state.remainder) < ONE,
    ensures
        leg_outcome(state, waypoint, dt, index, emitted) matches Ok((next, samples))
            && samples.len() == 0 && next.remainder == Leg::resolved(
            state.position,
            state.scale,
            state.speed,
            waypoint,
        )->Some_0.steps(dt, state.remainder),
{
}

/// Bakes one leg of a path that holds `emitted` views already.
pub fn bake_leg(
    state: &BakeState,
    waypoint: &Waypoint,
    dt: i64,
    index: usize,
    emitted: usize,
) -> (r: Result<(BakeState, Vec<BakedSample>), BakeError>)
    requires
        state.wf(),
    ensures
        match (r, leg_outcome(*state, *waypoint, dt, index, emitted as int)) {
            (Ok((next, samples)), Ok((state_after, views))) => next == state_after && samples@
                == views && next.wf() && samples.len() <= room(emitted as int),
            (Err(e), Err(reason)) => e == reason,
            _ => false,
        },
{
    let leg = match Leg::resolve(state.position, state.scale, state.speed, waypoint) {
        Some(leg) => leg,
        None => {
            return Err(BakeError::OutOfRange { leg: index });
        },
    };
    let steps: i128 = match leg.budget(dt, state.remainder) {
        Some(steps) => steps,
        None => {
            return Err(BakeError::Stalled { leg: index });
        },
    };
    proof {
        leg.shift.lemma_norm();
    }
    let whole: i128 = steps / (ONE as i128);
    let remainder: i64 = (steps % (ONE as i128)) as i64;
    let mut samples: Vec<BakedSample> = Vec::new();
    if whole == 0 {
        assert(samples@ =~= Seq::<BakedSample>::empty());
        return Ok(
            (
                BakeState {
                    position: state.position,
                    scale: state.scale,
                    speed: leg.end_speed,
                    remainder,
                },
                samples,
            ),
        );
    }
    let available: usize = if emitted <= MAX_SAMPLES {
        MAX_SAMPLES - emitted
    } else {
        0
    };
    if whole > available as i128 {
        return Err(
            BakeError::TooManySamples { leg: index, requested: whole as u64, available },
        );
    }
    let count: usize = whole as usize;
    proof {
        let sum = leg.start_speed + leg.end_speed;
        assert(sum > 0) by (nonlinear_arith)
            requires
                sum >= 0,
                (sum * dt) / (2 * (ONE as int)) > 0,
        ;
    }
    assert(count * ONE <= steps) by (nonlinear_arith)
        requires
            count == (steps as int) / (ONE as int),
            0 <= steps,
            ONE > 0,
    ;
    let mut step: usize = 0;
    let mut last: BakedSample = BakedSample { position: state.position, scale: state.scale };
    while step < count
        invariant
            leg.wf(),
            0 <= leg.start_speed,
            0 <= leg.end_speed,
            0 < leg.start_speed + leg.end_speed,
            0 < steps,
            count * ONE <= steps,
            count <= MAX_SAMPLES,
            step <= count,
            samples@ == Seq::new(step as nat, |i: int| leg.sample(steps as int, i)),
            step > 0 ==> last == leg.sample(steps as int, step - 1),
        decreases count - step,
    {
        assert(step * ONE <= steps) by (nonlinear_arith)
            requires
                step <= count,
                count * ONE <= steps,
                ONE > 0,
        ;
        last = leg.sample_at(steps, step);
        samples.push(last);
        step = step + 1;
        assert(samples@ =~= Seq::new(step as nat, |i: int| leg.sample(steps as int, i)));
    }
    Ok(
        (
            BakeState { position: last.position, scale: last.scale, speed: leg.end_speed, remainder },
            samples,
        ),
    )
}

/// The raw path from leg `from` on, for a camera in the given state and a path
/// that holds the views `emitted` already.
pub open spec fn bake_legs(
    waypoints: Seq<Waypoint>,
    dt: i64,
    state: BakeState,
    from: int,
    emitted: Seq<BakedSample>,
) -> Result<Seq<BakedSample>, BakeError>
    decreases waypoints.len() - from,
{
    if from < 0 || from >= waypoints.len() {
        Ok(emitted)
    } else {
        match leg_outcome(state, waypoints[from], dt, from as usize, emitted.len() as int) {
            Err(e) => Err(e),
            Ok((next, samples)) => bake_legs(waypoints, dt, next, from + 1, emitted + samples),
        }
    }
}

/// The raw path of a list of legs: the views of each leg in turn, from a
/// camera that starts at `position` with the given scale, at the speed of the
/// first leg taken at that scale. A list without legs gives a path without
/// views.
pub open spec fn raw_path(waypoints: Seq<Waypoint>, position: Point, scale: i64, dt: i64) -> Result<
    Seq<BakedSample>,
    BakeError,
> {
    if waypoints.len() == 0 {
        Ok(Seq::empty())
    } else {
        let seed = product(waypoints[0].speed as int, scale as int);
        if fits(seed) {
            bake_legs(
                waypoints,
                dt,
                BakeState { position, scale, speed: seed as i64, remainder: 0 },
                0,
                Seq::empty(),
            )
        } else {
            Err(BakeError::OutOfRange { leg: 0 })
        }
    }
}

/// Bakes a list of legs into its raw path: one view per frame of length `dt`.
pub fn bake(waypoints: &Vec<Waypoint>, position: Point, scale: i64, dt: i64) -> (r: Result<
    Vec<BakedSample>,
    BakeError,
>)
    ensures
        match (r, raw_path(waypoints@, position, scale, dt)) {
            (Ok(samples), Ok(views)) => samples@ == views && samples.len() <= MAX_SAMPLES,
            (Err(e), Err(reason)) => e == reason,
            _ => false,
        },
{
    let mut samples: Vec<BakedSample> = Vec::new();
    if waypoints.len() == 0 {
        assert(samples@ =~= Seq::<BakedSample>::empty());
        return Ok(samples);
    }
    let seed = match checked_product(waypoints[0].speed, scale) {
        Some(v) => v,
        None => {
            return Err(BakeError::OutOfRange { leg: 0 });
        },
    };
    let mut state = BakeState::start(position, scale, seed);
    let mut index: usize = 0;
    assert(samples@ =~= Seq::<BakedSample>::empty());
    while index < waypoints.len()
        invariant
            index <= waypoints.len(),
            state.wf(),
            samples.len() <= MAX_SAMPLES,
            bake_legs(waypoints@, dt, state, index as int, samples@) == raw_path(
                waypoints@,
                position,
                scale,
                dt,
            ),
        decreases waypoints.len() - index,
    {
        match bake_leg(&state, &waypoints[index], dt, index, samples.len()) {
            Err(e) => {
                return Err(e);
            },
            Ok((next, mut fresh)) => {
                samples.append(&mut fresh);
                state = next;
                index = index + 1;
            },
        }
    }
    Ok(samples)
}

/// What a leg contributes fits into the room that is left, and it leaves a
/// proper fraction of a frame over.
pub proof fn lemma_leg_within_room(
    state: BakeState,
    waypoint: Waypoint,
    dt: i64,
    index: usize,
    emitted: int,
)
    requires
        state.wf(),
    ensures
        leg_outcome(state, waypoint, dt, index, emitted) matches Ok((next, samples)) ==> next.wf()
            && samples.len() <= room(emitted),
{
    if let Some(leg) = Leg::resolved(state.position, state.scale, state.speed, waypoint) {
        leg.shift.lemma_norm();
        if !leg.stalled(dt) && leg.distance() > 0 {
            let span = leg.distance() * (ONE as int);
            let stride = leg.stride(dt);
            assert(0 <= span / stride) by (nonlinear_arith)
                requires
                    0 <= span,
                    0 < stride,
            ;
        }
    }
}

/// From any leg on, a path that holds no more views than the ceiling allows
/// stays within the ceiling.
pub proof fn lemma_legs_within_ceiling(
    waypoints: Seq<Waypoint>,
    dt: i64,
    state: BakeState,
    from: int,
    emitted: Seq<BakedSample>,
)
    requires
        state.wf(),
        emitted.len() <= MAX_SAMPLES,
    ensures
        bake_legs(waypoints, dt, state, from, emitted) matches Ok(samples) ==> samples.len()
            <= MAX_SAMPLES,
    decreases waypoints.len() - from,
{
    if 0 <= from < waypoints.len() {
        lemma_leg_within_room(state, waypoints[from], dt, from as usize, emitted.len() as int);
        if let Ok((next, samples)) = leg_outcome(
            state,
            waypoints[from],
            dt,
            from as usize,
            emitted.len() as int,
        ) {
            lemma_legs_within_ceiling(waypoints, dt, next, from + 1, emitted + samples);
        }
    }
}

/// A baked path never holds more views than the ceiling allows: baking either
/// fails or gives at most `MAX_SAMPLES` views.
pub proof fn lemma_path_within_ceiling(
    waypoints: Seq<Waypoint>,
    position: Point,
    scale: i64,
    dt: i64,
)
    ensures
        raw_path(waypoints, position, scale, dt) matches Ok(samples) ==> samples.len()
            <= MAX_SAMPLES,
{
    if waypoints.len() > 0 {
        let seed = product(waypoints[0].speed as int, scale as int);
        if fits(seed) {
            lemma_legs_within_ceiling(
                waypoints,
                dt,
                BakeState { position, scale, speed: seed as i64, remainder: 0 },
                0,
                Seq::empty(),
            );
        }
    }
}

/// Baking is a function of its inputs: the same legs, the same first view and
/// the same frame length give the same path or the same error.
pub proof fn lemma_bake_deterministic(
    first: Seq<Waypoint>,
    second: Seq<Waypoint>,
    position: Point,
    scale: i64,
    dt: i64,
)
    requires
        first.len() == second.len(),
        forall|i: int| 0 <= i < first.len() ==> first[i] == second[i],
    ensures
        raw_path(first, position, scale, dt) == raw_path(second, position, scale, dt),
{
    assert(first =~= second);
}

} // verus!
