use camera_path::bake::{bake, BakeError};
use camera_path::filter::apply_filter;
use camera_path::fixed::ONE;
use camera_path::point::Point;
use camera_path::sample::Waypoint;
use camera_path::trajectory::Trajectory;

fn two_legs() -> Trajectory {
    let mut t = Trajectory::new(ONE / 4);
    t.add_move(ONE, 0, ONE, ONE);
    t.add_move(-ONE, 0, ONE, ONE);
    t
}

#[test]
fn new_path_holds_no_view() {
    let t = Trajectory::new(ONE / 60);
    assert!(t.finished());
}

#[test]
fn unbaked_path_is_finished() {
    assert!(two_legs().finished());
}

#[test]
fn finished_after_exactly_as_many_steps_as_views() {
    let mut t = two_legs();
    assert_eq!(t.smooth(Point::new(0, 0), ONE), Ok(()));
    let mut calls = 0;
    while !t.finished() {
        t.step();
        calls += 1;
        assert!(calls <= 8);
    }
    assert_eq!(calls, 8);
    assert!(t.finished());
    assert!(t.finished());
}

#[test]
fn steps_hand_out_the_smoothed_views_in_order() {
    let mut t = two_legs();
    t.smooth(Point::new(0, 0), ONE).unwrap();
    let path = vec![
        Waypoint::new(Point::new(ONE, 0), ONE, ONE),
        Waypoint::new(Point::new(-ONE, 0), ONE, ONE),
    ];
    let raw = bake(&path, Point::new(0, 0), ONE, ONE / 4).unwrap();
    let expected = apply_filter(raw, Point::new(0, 0), ONE);
    assert_eq!(expected.len(), 8);
    for s in expected.iter() {
        assert!(!t.finished());
        assert_eq!(t.step(), (s.position, s.scale));
    }
    assert!(t.finished());
}

#[test]
fn first_views_of_a_smoothed_path() {
    let mut t = two_legs();
    t.smooth(Point::new(0, 0), ONE).unwrap();
    assert_eq!(t.step(), (Point::new(0, 0), ONE));
    assert_eq!(t.step(), (Point::new(3518437208883, 0), ONE));
    assert_eq!(t.step(), (Point::new(10379389766205, 0), ONE));
}

#[test]
fn path_without_legs_bakes_to_nothing() {
    let mut t = Trajectory::new(ONE / 60);
    assert_eq!(t.smooth(Point::new(ONE, ONE), ONE), Ok(()));
    assert!(t.finished());
}

#[test]
fn failed_bake_leaves_the_path_to_be_baked_again() {
    let mut t = Trajectory::new(ONE / 60);
    t.add_move(ONE, 0, ONE, ONE);
    t.add_move(1000 * ONE, 0, ONE, ONE / 1000);
    let e = BakeError::TooManySamples { leg: 1, requested: 119_880, available: 49_940 };
    assert_eq!(t.smooth(Point::new(0, 0), ONE), Err(e));
    assert!(t.finished());
    assert_eq!(t.smooth(Point::new(0, 0), ONE), Err(e));
}

#[test]
fn long_tour_stays_under_the_ceiling() {
    let q = ONE / 4;
    let h = ONE / 2;
    let mut t = Trajectory::new(ONE / 60);
    t.add_move(-h, 0, ONE, h);
    t.add_move(q, 3 * q, q, q);
    t.add_move(-q, -h, q, q);
    t.add_move(-q, h, q, q);
    t.add_move(-q, -q, q, q);
    t.add_move(0, 3 * q, q, q);
    t.add_move(h, -q, q, q);
    t.add_move(-h, -5 * q, ONE, q);
    t.add_move(-h, -ONE, 3 * h, q);
    t.add_move(-3 * q, -q, 2 * ONE, q);
    t.add_move(-q, 3 * q, 3 * ONE, q);
    t.add_move(q, 3 * q, 4 * ONE, q);
    t.add_move(ONE, -4 * ONE, 4 * ONE, q);
    t.add_move(5 * ONE, -ONE, 4 * ONE, h);
    assert_eq!(t.smooth(Point::new(-q, 0), ONE), Ok(()));
    let mut calls = 0;
    let mut last = (Point::new(0, 0), 0);
    while !t.finished() {
        last = t.step();
        calls += 1;
    }
    assert_eq!(calls, 2806);
    assert_eq!(last, (Point::new(-115817801132279, 165723021781596), 35952346848225));
}
