use camera_path::fixed::ONE;
use camera_path::viewport::{Viewport, OFFSET_STEP, SCALE_STEP};

#[test]
fn default_steps() {
    assert_eq!(SCALE_STEP, 267401227875123);
    assert_eq!(OFFSET_STEP, 14073748835532);
}

#[test]
fn new_viewport_holds_its_parts() {
    let v = Viewport::new(1, -2, 3);
    assert_eq!(v.center_x, 1);
    assert_eq!(v.center_y, -2);
    assert_eq!(v.scale, 3);
}

#[test]
fn setters_chain() {
    let mut v = Viewport::new(1, 2, 3);
    v.set_center(5, 6).set_scale(7);
    assert_eq!(v, Viewport::new(5, 6, 7));
    v.set_scale(9).set_center(-1, -2);
    assert_eq!(v, Viewport::new(-1, -2, 9));
}

#[test]
fn zoom_in_by_the_default_step() {
    let mut v = Viewport::new(10, 20, ONE);
    v.zoom_in(None);
    assert_eq!(v, Viewport::new(10, 20, 267401227875123));
    v.zoom_in(None);
    assert_eq!(v, Viewport::new(10, 20, 254031166481366));
}

#[test]
fn zoom_in_by_a_given_step() {
    let mut v = Viewport::new(10, 20, 3 * ONE);
    v.zoom_in(Some(ONE / 2));
    assert_eq!(v, Viewport::new(10, 20, 3 * (ONE / 2)));
    v.zoom_in(Some(0));
    assert_eq!(v.scale, 0);
}

#[test]
fn zoom_out_by_the_default_step() {
    let mut v = Viewport::new(10, 20, ONE);
    v.zoom_out(None);
    assert_eq!(v, Viewport::new(10, 20, 296289449169111));
}

#[test]
fn zoom_out_by_a_given_step() {
    let mut v = Viewport::new(10, 20, 3 * ONE);
    v.zoom_out(Some(2 * ONE));
    assert_eq!(v, Viewport::new(10, 20, 3 * (ONE / 2)));
    v.zoom_out(Some(-ONE));
    assert_eq!(v.scale, -3 * (ONE / 2));
    let mut w = Viewport::new(0, 0, 3);
    w.zoom_out(Some(-2 * ONE));
    assert_eq!(w.scale, -2);
}

#[test]
fn zoom_out_by_nothing_changes_nothing() {
    let mut v = Viewport::new(10, 20, 3 * ONE);
    v.zoom_out(Some(0));
    assert_eq!(v, Viewport::new(10, 20, 3 * ONE));
}

#[test]
fn zoom_stops_at_the_ends_of_the_range() {
    let mut v = Viewport::new(0, 0, i64::MAX);
    v.zoom_in(Some(2 * ONE));
    assert_eq!(v.scale, i64::MAX);
    v.zoom_out(Some(1));
    assert_eq!(v.scale, i64::MAX);
    v.zoom_out(Some(-1));
    assert_eq!(v.scale, i64::MIN);
    v.zoom_in(Some(2 * ONE));
    assert_eq!(v.scale, i64::MIN);
}

#[test]
fn shifts_move_by_a_share_of_the_scale() {
    let mut v = Viewport::new(0, 0, 2 * ONE);
    v.shift_right(None);
    assert_eq!(v, Viewport::new(28147497671064, 0, 2 * ONE));
    v.shift_left(None);
    assert_eq!(v, Viewport::new(0, 0, 2 * ONE));
    v.shift_up(None);
    assert_eq!(v, Viewport::new(0, 28147497671064, 2 * ONE));
    v.shift_down(None);
    assert_eq!(v, Viewport::new(0, 0, 2 * ONE));
    v.shift_left(Some(ONE / 2));
    assert_eq!(v, Viewport::new(-ONE, 0, 2 * ONE));
    v.shift_up(Some(ONE / 4));
    assert_eq!(v, Viewport::new(-ONE, ONE / 2, 2 * ONE));
    v.shift_right(Some(ONE));
    v.shift_down(Some(ONE));
    assert_eq!(v, Viewport::new(ONE, -3 * (ONE / 2), 2 * ONE));
}

#[test]
fn shifts_stop_at_the_ends_of_the_range() {
    let mut v = Viewport::new(i64::MAX - 1, i64::MIN + 1, 4 * ONE);
    v.shift_right(Some(ONE));
    v.shift_down(Some(ONE));
    assert_eq!(v, Viewport::new(i64::MAX, i64::MIN, 4 * ONE));
    v.shift_left(Some(-ONE));
    v.shift_up(Some(-ONE));
    assert_eq!(v, Viewport::new(i64::MAX, i64::MIN, 4 * ONE));
}

#[test]
fn zoom_reset_sets_the_scale_to_one() {
    let mut v = Viewport::new(3, 4, 5);
    v.zoom_reset();
    assert_eq!(v, Viewport::new(3, 4, ONE));
}
