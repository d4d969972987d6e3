use camera_path::bake::{bake, bake_leg, BakeError, BakeState, MAX_SAMPLES};
use camera_path::filter::apply_filter;
use camera_path::fixed::ONE;
use camera_path::point::Point;
use camera_path::sample::{BakedSample, Waypoint};

fn leg(x: i64, y: i64, zoom: i64, speed: i64) -> Waypoint {
    Waypoint::new(Point::new(x, y), zoom, speed)
}

fn view(x: i64, y: i64, scale: i64) -> BakedSample {
    BakedSample::new(Point::new(x, y), scale)
}

fn origin() -> Point {
    Point::new(0, 0)
}

#[test]
fn no_leg_gives_no_view() {
    let raw = bake(&Vec::new(), origin(), ONE, ONE).unwrap();
    assert!(raw.is_empty());
}

#[test]
fn single_unit_leg_gives_one_view_at_its_start() {
    let raw = bake(&vec![leg(ONE, 0, ONE, ONE)], origin(), ONE, ONE).unwrap();
    assert_eq!(raw, vec![view(0, 0, ONE)]);
}

#[test]
fn single_unit_leg_state() {
    let start = BakeState::start(origin(), ONE, ONE);
    let (next, samples) = bake_leg(&start, &leg(ONE, 0, ONE, ONE), ONE, 0, 0).unwrap();
    assert_eq!(samples.len(), 1);
    assert_eq!(next.position, origin());
    assert_eq!(next.scale, ONE);
    assert_eq!(next.speed, ONE);
    assert_eq!(next.remainder, 0);
}

#[test]
fn fast_leg_gives_no_view_and_carries_its_budget() {
    let fast = leg(ONE, 0, ONE, 4 * ONE);
    let mut state = BakeState::start(origin(), ONE, 4 * ONE);
    for i in 1..4 {
        let (next, samples) = bake_leg(&state, &fast, ONE, 0, 0).unwrap();
        assert!(samples.is_empty());
        assert_eq!(next.remainder, i * (ONE / 4));
        assert_eq!(next.position, origin());
        assert_eq!(next.scale, ONE);
        assert_eq!(next.speed, 4 * ONE);
        state = next;
    }
    let (next, samples) = bake_leg(&state, &fast, ONE, 0, 0).unwrap();
    assert_eq!(samples, vec![view(0, 0, ONE)]);
    assert_eq!(next.remainder, 0);
}

#[test]
fn four_fast_legs_share_one_view() {
    let fast = leg(ONE, 0, ONE, 4 * ONE);
    let raw = bake(&vec![fast, fast, fast, fast], origin(), ONE, ONE).unwrap();
    assert_eq!(raw, vec![view(0, 0, ONE)]);
    let three = bake(&vec![fast, fast, fast], origin(), ONE, ONE).unwrap();
    assert!(three.is_empty());
}

#[test]
fn leg_without_length_keeps_the_leftover() {
    let state = BakeState {
        position: Point::new(5, 7),
        scale: ONE,
        speed: ONE,
        remainder: 12345,
    };
    let (next, samples) = bake_leg(&state, &leg(0, 0, 2 * ONE, 3 * ONE), ONE, 3, 10).unwrap();
    assert!(samples.is_empty());
    assert_eq!(next.remainder, 12345);
    assert_eq!(next.position, Point::new(5, 7));
    assert_eq!(next.scale, ONE);
    assert_eq!(next.speed, 6 * ONE);
}

#[test]
fn leg_without_length_is_never_stalled() {
    let state = BakeState::start(origin(), ONE, -ONE);
    let (next, samples) = bake_leg(&state, &leg(0, 0, ONE, 0), 0, 0, 0).unwrap();
    assert!(samples.is_empty());
    assert_eq!(next.remainder, 0);
    assert_eq!(next.speed, 0);
}

#[test]
fn steady_leg_is_evenly_spaced() {
    let raw = bake(&vec![leg(ONE, 0, ONE, ONE)], origin(), ONE, ONE / 4).unwrap();
    assert_eq!(
        raw,
        vec![
            view(0, 0, ONE),
            view(ONE / 4, 0, ONE),
            view(ONE / 2, 0, ONE),
            view(3 * (ONE / 4), 0, ONE),
        ]
    );
}

#[test]
fn reversing_legs_raw_path() {
    let path = vec![leg(ONE, 0, ONE, ONE), leg(-ONE, 0, ONE, ONE)];
    let raw = bake(&path, origin(), ONE, ONE / 4).unwrap();
    let xs: Vec<i64> = raw.iter().map(|s| s.position.x).collect();
    let q = ONE / 4;
    assert_eq!(xs, vec![0, q, 2 * q, 3 * q, 3 * q, 2 * q, q, 0]);
    assert!(raw.iter().all(|s| s.position.y == 0 && s.scale == ONE));
}

#[test]
fn reversing_legs_filtered_path_has_no_jump() {
    let path = vec![leg(ONE, 0, ONE, ONE), leg(-ONE, 0, ONE, ONE)];
    let raw = bake(&path, origin(), ONE, ONE / 4).unwrap();
    let smooth = apply_filter(raw.clone(), origin(), ONE);
    let xs: Vec<i64> = smooth.iter().map(|s| s.position.x).collect();
    assert_eq!(
        xs,
        vec![
            0,
            3518437208883,
            10379389766205,
            20415731904544,
            29950256935966,
            35489618506934,
            37233574790470,
            35371896050946,
        ]
    );
    let mut before = 0i64;
    for i in 0..raw.len() {
        let jump = (smooth[i].position.x - before).abs();
        let gap = (raw[i].position.x - before).abs();
        assert!(20 * jump <= gap + 19);
        before = smooth[i].position.x;
    }
}

#[test]
fn speeding_up_leg() {
    let raw = bake(&vec![leg(2 * ONE, 0, 3 * ONE, ONE)], origin(), ONE, ONE / 4).unwrap();
    assert_eq!(
        raw,
        vec![
            view(0, 0, 281474976710656),
            view(87960930222080, 0, 369435906932736),
            view(211106232532992, 0, 492581209243648),
            view(369435906932736, 0, 650910883643392),
        ]
    );
    let steps: Vec<i64> = raw.windows(2).map(|w| w[1].position.x - w[0].position.x).collect();
    assert!(steps.windows(2).all(|w| w[0] <= w[1]));
}

#[test]
fn slowing_down_leg() {
    let path = vec![leg(2 * ONE, ONE, ONE / 2, ONE)];
    let raw = bake(&path, Point::new(ONE, -ONE), ONE, ONE / 4).unwrap();
    assert_eq!(raw.len(), 11);
    assert_eq!(raw[0], view(281474976710656, -281474976710656, 281474976710656));
    assert_eq!(raw[1], view(343095280946342, -250664824592813, 266069900651734));
    assert_eq!(raw[5], view(563188218822474, -140618355654747, 211046666182701));
    assert_eq!(raw[10], view(778930763267732, -32747083432118, 157111030071387));
    let steps: Vec<i64> = raw.windows(2).map(|w| w[1].position.x - w[0].position.x).collect();
    assert!(steps.windows(2).all(|w| w[0] >= w[1]));
}

#[test]
fn every_view_lies_on_its_leg() {
    let path = vec![leg(2 * ONE, ONE, ONE / 2, ONE)];
    let raw = bake(&path, Point::new(ONE, -ONE), ONE, ONE / 4).unwrap();
    for s in raw.iter() {
        assert!(ONE <= s.position.x && s.position.x <= 3 * ONE);
        assert!(-ONE <= s.position.y && s.position.y <= 0);
        assert!(ONE / 2 <= s.scale && s.scale <= ONE);
    }
}

#[test]
fn too_slow_leg_is_refused() {
    let path = vec![leg(1000 * ONE, 0, ONE, ONE / 1000)];
    assert_eq!(
        bake(&path, origin(), ONE, ONE / 60),
        Err(BakeError::TooManySamples { leg: 0, requested: 60_000_000, available: 50_000 })
    );
}

#[test]
fn overflow_names_the_leg_and_what_was_left() {
    let path = vec![leg(ONE, 0, ONE, ONE), leg(1000 * ONE, 0, ONE, ONE / 1000)];
    assert_eq!(
        bake(&path, origin(), ONE, ONE / 60),
        Err(BakeError::TooManySamples { leg: 1, requested: 119_880, available: 49_940 })
    );
}

#[test]
fn overflow_in_a_later_leg() {
    let path = vec![leg(100 * ONE, 0, ONE, ONE); 10];
    assert_eq!(
        bake(&path, origin(), ONE, ONE / 60),
        Err(BakeError::TooManySamples { leg: 8, requested: 6000, available: 2000 })
    );
}

#[test]
fn path_may_fill_the_ceiling() {
    let path = vec![leg(3125 * ONE, 0, ONE, ONE)];
    let raw = bake(&path, origin(), ONE, ONE / 16).unwrap();
    assert_eq!(raw.len(), MAX_SAMPLES);
    let more = vec![leg(3125 * ONE + ONE / 16, 0, ONE, ONE)];
    assert_eq!(
        bake(&more, origin(), ONE, ONE / 16),
        Err(BakeError::TooManySamples { leg: 0, requested: 50_001, available: 50_000 })
    );
}

#[test]
fn leg_at_no_speed_is_stalled() {
    assert_eq!(
        bake(&vec![leg(ONE, 0, ONE, 0)], origin(), ONE, ONE),
        Err(BakeError::Stalled { leg: 0 })
    );
}

#[test]
fn leg_with_no_frame_length_is_stalled() {
    assert_eq!(
        bake(&vec![leg(ONE, 0, ONE, ONE)], origin(), ONE, 0),
        Err(BakeError::Stalled { leg: 0 })
    );
}

#[test]
fn leg_with_negative_zoom_is_stalled() {
    assert_eq!(
        bake(&vec![leg(ONE, 0, -ONE, ONE)], origin(), ONE, ONE),
        Err(BakeError::Stalled { leg: 0 })
    );
}

#[test]
fn stalled_names_the_leg() {
    let path = vec![leg(ONE, 0, ONE, ONE), leg(ONE, 0, ONE, -ONE)];
    assert_eq!(bake(&path, origin(), ONE, ONE), Err(BakeError::Stalled { leg: 1 }));
}

#[test]
fn target_out_of_range_is_refused() {
    let far = 1i64 << 62;
    assert_eq!(
        bake(&vec![leg(far, 0, ONE, ONE)], Point::new(far, 0), ONE, ONE),
        Err(BakeError::OutOfRange { leg: 0 })
    );
}

#[test]
fn seed_speed_out_of_range_is_refused() {
    let big = 1i64 << 62;
    assert_eq!(
        bake(&vec![leg(ONE, 0, ONE, big)], origin(), 4 * ONE, ONE),
        Err(BakeError::OutOfRange { leg: 0 })
    );
}

#[test]
fn out_of_range_names_the_leg() {
    let big = 1i64 << 62;
    let path = vec![leg(ONE, 0, ONE, ONE), leg(ONE, 0, 4 * ONE, big)];
    assert_eq!(bake(&path, origin(), ONE, ONE), Err(BakeError::OutOfRange { leg: 1 }));
}

#[test]
fn baking_twice_gives_the_same_path() {
    let path = vec![leg(2 * ONE, ONE, ONE / 2, ONE), leg(-ONE, 3 * ONE, 3 * ONE, ONE / 3)];
    let a = bake(&path, Point::new(ONE, -ONE), ONE, ONE / 60);
    let b = bake(&path, Point::new(ONE, -ONE), ONE, ONE / 60);
    assert!(a.is_ok());
    assert_eq!(a, b);
}

#[test]
fn filter_follows_a_step_by_twentieths() {
    let raw = vec![view(2000, -2000, 400), view(2000, -2000, 400), view(2000, -2000, 400)];
    let smooth = apply_filter(raw, origin(), 0);
    assert_eq!(smooth, vec![view(100, -100, 20), view(195, -195, 39), view(285, -286, 57)]);
}

#[test]
fn filter_keeps_the_length() {
    let raw = vec![view(1, 2, 3); 17];
    assert_eq!(apply_filter(raw, origin(), ONE).len(), 17);
    assert!(apply_filter(Vec::new(), origin(), ONE).is_empty());
}

#[test]
fn filter_never_overshoots() {
    let raw = vec![view(ONE, -ONE, ONE), view(-3 * ONE, 2 * ONE, ONE / 7), view(5, 5, 5)];
    let smooth = apply_filter(raw.clone(), Point::new(7, -9), 2 * ONE);
    let mut before = view(7, -9, 2 * ONE);
    for i in 0..raw.len() {
        let sq = |a: Point, b: Point| {
            let dx = (a.x - b.x) as i128;
            let dy = (a.y - b.y) as i128;
            dx * dx + dy * dy
        };
        assert!(sq(smooth[i].position, before.position) <= sq(raw[i].position, before.position));
        assert!((smooth[i].scale - before.scale).abs() <= (raw[i].scale - before.scale).abs());
        before = smooth[i];
    }
}
