use sruler::frame::FrozenFrame;
use sruler::probe::{is_wayland_session, OutputProbe};
use sruler::session::{Session, INITIAL_THRESHOLD};

fn striped(width: u32, height: u32) -> FrozenFrame {
    // Column x has red value 10 * x; every row is the same.
    let mut rgba = Vec::new();
    for _y in 0..height {
        for x in 0..width {
            rgba.extend_from_slice(&[(10 * x) as u8, 0, 0, 255]);
        }
    }
    FrozenFrame { width, height, rgba }
}

#[test]
fn wayland_session_detection() {
    assert!(is_wayland_session(true, None));
    assert!(is_wayland_session(true, Some("x11")));
    assert!(is_wayland_session(false, Some("wayland")));
    assert!(!is_wayland_session(false, Some("x11")));
    assert!(!is_wayland_session(false, Some("Wayland")));
    assert!(!is_wayland_session(false, None));
}

#[test]
fn probe_resolves_when_name_comes_after_enter() {
    let mut p = OutputProbe::new();
    p.add_output(7);
    p.add_output(9);
    p.enter_output(9);
    assert!(!p.done);
    p.set_output_name(7, "DP-1".to_string());
    assert!(!p.done);
    p.set_output_name(9, "HDMI-A-1".to_string());
    assert!(p.done);
    assert_eq!(p.output_name.as_deref(), Some("HDMI-A-1"));
}

#[test]
fn probe_resolves_when_enter_comes_after_name() {
    let mut p = OutputProbe::new();
    p.add_output(3);
    p.set_output_name(3, "eDP-1".to_string());
    assert!(!p.done);
    p.enter_output(3);
    assert!(p.done);
    assert_eq!(p.output_name.as_deref(), Some("eDP-1"));
}

#[test]
fn probe_ignores_unknown_outputs_and_keeps_its_result() {
    let mut p = OutputProbe::new();
    p.enter_output(5);
    assert_eq!(p.entered_output_id, None);
    p.set_output_name(5, "ghost".to_string());
    assert!(p.outputs.is_empty());
    p.add_output(1);
    p.set_output_name(1, "first".to_string());
    p.enter_output(1);
    assert_eq!(p.output_name.as_deref(), Some("first"));
    p.set_output_name(1, "renamed".to_string());
    p.add_output(1);
    assert!(p.done);
    assert_eq!(p.output_name.as_deref(), Some("first"));
}

#[test]
fn session_starts_at_the_initial_threshold() {
    let s = Session::new(striped(10, 4), 5, 2);
    assert_eq!(s.threshold, INITIAL_THRESHOLD);
    assert_eq!(s.threshold, 24);
    assert!(!s.should_close);
    assert_eq!((s.measurement.cursor_x, s.measurement.cursor_y), (5, 2));
    // Neighbouring columns differ by 10, so within 24 the region spans columns 3..=7.
    assert_eq!((s.measurement.left_edge_x, s.measurement.right_edge_x), (3, 7));
    assert_eq!(s.measurement.width, 5);
    assert_eq!(s.measurement.height, 4);
}

#[test]
fn wheel_moves_the_threshold_by_two_within_bounds() {
    let mut s = Session::new(striped(10, 4), 5, 2);
    assert_eq!(s.handle_input(None, (5, 2), Some(true), false, false), None);
    assert_eq!(s.threshold, 26);
    assert_eq!(s.measurement.threshold, 26);
    s.handle_input(None, (5, 2), Some(false), false, false);
    s.handle_input(None, (5, 2), Some(false), false, false);
    assert_eq!(s.threshold, 22);
    for _ in 0..20 {
        s.handle_input(None, (5, 2), Some(false), false, false);
    }
    assert_eq!(s.threshold, 1);
    for _ in 0..200 {
        s.handle_input(None, (5, 2), Some(true), false, false);
    }
    assert_eq!(s.threshold, 255);
    assert!(!s.should_close);
}

#[test]
fn lower_threshold_narrows_the_region() {
    let mut s = Session::new(striped(10, 4), 5, 2);
    for _ in 0..7 {
        s.handle_input(None, (5, 2), Some(false), false, false);
    }
    assert_eq!(s.threshold, 10);
    assert_eq!((s.measurement.left_edge_x, s.measurement.right_edge_x), (4, 6));
    assert_eq!(s.measurement.width, 3);
}

#[test]
fn pointer_moves_remeasure_at_the_clamped_cursor() {
    let mut s = Session::new(striped(10, 4), 5, 2);
    s.handle_input(Some((-40, 99)), (5, 2), None, false, false);
    assert_eq!((s.measurement.cursor_x, s.measurement.cursor_y), (0, 3));
    assert_eq!((s.measurement.left_edge_x, s.measurement.right_edge_x), (0, 2));
    s.recompute(1_000_000, -1);
    assert_eq!((s.measurement.cursor_x, s.measurement.cursor_y), (9, 0));
    assert_eq!((s.measurement.left_edge_x, s.measurement.right_edge_x), (7, 9));
}

#[test]
fn idle_input_leaves_the_measurement() {
    let mut s = Session::new(striped(10, 4), 5, 2);
    let before = s.measurement;
    assert_eq!(s.handle_input(None, (0, 0), None, false, false), None);
    assert_eq!(s.measurement, before);
}

#[test]
fn escape_closes_without_copying() {
    let mut s = Session::new(striped(10, 4), 5, 2);
    assert_eq!(s.handle_input(None, (5, 2), None, true, false), None);
    assert!(s.should_close);
}

#[test]
fn click_copies_width_and_height_and_closes() {
    let mut s = Session::new(striped(10, 4), 5, 2);
    assert_eq!(s.handle_input(None, (5, 2), None, false, true), Some((5, 4)));
    assert!(s.should_close);
    let mut t = Session::new(striped(10, 4), 5, 2);
    assert_eq!(t.copy_and_quit(), (5, 4));
    assert!(t.should_close);
}

#[test]
fn caps_sit_just_outside_the_edges() {
    let s = Session::new(striped(10, 4), 5, 2);
    assert_eq!(s.caps(), (2, 8, 0, 3));
    let edge = Session::new(striped(10, 4), 0, 0);
    let (l, r, _, _) = edge.caps();
    assert_eq!((l, r), (0, 3));
}

#[test]
fn wheel_down_undoes_wheel_up() {
    let mut s = Session::new(striped(10, 4), 5, 2);
    let before = s.measurement;
    s.handle_input(None, (5, 2), Some(true), false, false);
    s.handle_input(None, (5, 2), Some(false), false, false);
    assert_eq!(s.threshold, 24);
    assert_eq!(s.measurement, before);
}

#[test]
fn wheel_and_move_in_one_frame_measure_at_the_new_cursor() {
    let mut s = Session::new(striped(10, 4), 5, 2);
    s.handle_input(Some((8, 1)), (5, 2), Some(false), false, false);
    assert_eq!(s.threshold, 22);
    assert_eq!((s.measurement.cursor_x, s.measurement.cursor_y), (8, 1));
    assert_eq!((s.measurement.left_edge_x, s.measurement.right_edge_x), (6, 9));
}
