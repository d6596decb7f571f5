use oryxis_terminal::mouse::{MouseButton, MouseMode};
use oryxis_terminal::report::{
    release_completes_tracked_press, report_step, PointerEvent, ReportAction, ReportConfig, ReportState,
};

fn sgr_click() -> MouseMode {
    MouseMode { click: true, drag: false, motion: false, sgr: true }
}

fn cfg(mode: MouseMode) -> ReportConfig {
    ReportConfig { enabled: true, mode, alt: false, ctrl: false, hint_available: false }
}

fn fresh() -> ReportState {
    ReportState { button: None, cell: None, hint_emitted: false }
}

fn emitted(a: ReportAction) -> Vec<u8> {
    match a {
        ReportAction::Emit(v) => v,
        _ => panic!("expected a report"),
    }
}

#[test]
fn untracked_release_is_not_reported() {
    let mut ws = fresh();
    let ev = PointerEvent::Released { button: MouseButton::Left, at: None };
    let action = report_step(&mut ws, ev, cfg(sgr_click()));
    assert!(matches!(action, ReportAction::Ignore), "sidebar release must stay local");
}

#[test]
fn tracked_release_still_reports_after_leaving_canvas() {
    let mut ws = fresh();
    let press = PointerEvent::Pressed { button: MouseButton::Left, at: Some((4, 2)) };
    let action = report_step(&mut ws, press, cfg(sgr_click()));
    assert_eq!(emitted(action), b"\x1b[<0;5;3M");
    assert_eq!(ws.button, Some(MouseButton::Left));
    let release = PointerEvent::Released { button: MouseButton::Left, at: None };
    let action = report_step(&mut ws, release, cfg(sgr_click()));
    assert_eq!(emitted(action), b"\x1b[<0;5;3m", "falls back to the last reported cell");
    assert!(ws.button.is_none(), "press tracking cleared on release");
}

#[test]
fn shift_at_release_does_not_swallow_tracked_release() {
    let mut ws = fresh();
    let press = PointerEvent::Pressed { button: MouseButton::Left, at: Some((0, 0)) };
    assert!(matches!(report_step(&mut ws, press, cfg(sgr_click())), ReportAction::Emit(_)));
    let release = PointerEvent::Released { button: MouseButton::Left, at: Some((0, 0)) };
    assert!(release_completes_tracked_press(&ws, &release), "tracked release must pierce the Shift bypass");
    assert!(matches!(report_step(&mut ws, release, cfg(sgr_click())), ReportAction::Emit(_)));
    assert!(ws.button.is_none());
}

#[test]
fn shift_bypass_still_blocks_new_gestures() {
    let ws = fresh();
    let press = PointerEvent::Pressed { button: MouseButton::Left, at: Some((0, 0)) };
    let release = PointerEvent::Released { button: MouseButton::Left, at: Some((0, 0)) };
    assert!(!release_completes_tracked_press(&ws, &press), "a press never qualifies");
    assert!(!release_completes_tracked_press(&ws, &release), "a release with no tracked press never qualifies");
}

#[test]
fn reporting_off_reports_nothing() {
    let mut ws = fresh();
    let off = ReportConfig { enabled: false, ..cfg(sgr_click()) };
    let press = PointerEvent::Pressed { button: MouseButton::Left, at: Some((1, 1)) };
    assert!(matches!(report_step(&mut ws, press, off), ReportAction::Ignore));
    assert!(ws.button.is_none());
}

#[test]
fn motion_needs_a_held_button_or_any_motion_tracking() {
    let drag = MouseMode { drag: true, ..sgr_click() };
    let mut ws = fresh();
    let moved = PointerEvent::Moved { at: Some((3, 3)) };
    assert!(matches!(report_step(&mut ws, moved, cfg(drag)), ReportAction::Ignore));
    let any = MouseMode { motion: true, ..sgr_click() };
    assert_eq!(emitted(report_step(&mut ws, moved, cfg(any))), b"\x1b[<35;4;4M");
    assert!(matches!(report_step(&mut ws, moved, cfg(any)), ReportAction::Ignore), "same cell twice");
}

#[test]
fn first_left_drag_shows_the_hint_once() {
    let drag = MouseMode { drag: true, ..sgr_click() };
    let with_hint = ReportConfig { hint_available: true, ..cfg(drag) };
    let mut ws = fresh();
    report_step(&mut ws, PointerEvent::Pressed { button: MouseButton::Left, at: Some((0, 0)) }, with_hint);
    assert!(matches!(report_step(&mut ws, PointerEvent::Moved { at: Some((1, 0)) }, with_hint), ReportAction::Hint));
    assert_eq!(emitted(report_step(&mut ws, PointerEvent::Moved { at: Some((2, 0)) }, with_hint)), b"\x1b[<32;3;1M");
}

#[test]
fn wheel_reports_are_capped_and_ctrl_stays_local() {
    let mut ws = fresh();
    let up = PointerEvent::Wheel { notches: 2, at: Some((0, 0)) };
    assert_eq!(emitted(report_step(&mut ws, up, cfg(sgr_click()))), b"\x1b[<64;1;1M\x1b[<64;1;1M");
    let flick = PointerEvent::Wheel { notches: -40, at: Some((0, 0)) };
    assert_eq!(emitted(report_step(&mut ws, flick, cfg(sgr_click()))), b"\x1b[<65;1;1M".repeat(5));
    let fraction = PointerEvent::Wheel { notches: 0, at: Some((0, 0)) };
    assert!(matches!(report_step(&mut ws, fraction, cfg(sgr_click())), ReportAction::Capture));
    let zoom = ReportConfig { ctrl: true, ..cfg(sgr_click()) };
    assert!(matches!(report_step(&mut ws, up, zoom), ReportAction::Ignore));
}
