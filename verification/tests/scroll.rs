use oryxis_terminal::scroll::{autoscroll, page_lines, page_scroll, scroll_by, track_page, wheel_outcome, WheelOutcome};

#[test]
fn scrolling_is_clamped_to_the_scrollback() {
    assert_eq!(scroll_by(10, 3, 100), 13);
    assert_eq!(scroll_by(98, 3, 100), 100);
    assert_eq!(scroll_by(2, -3, 100), 0);
    assert_eq!(scroll_by(0, 0, 100), 0);
}

#[test]
fn scrolling_back_and_forth_returns_to_the_same_rows() {
    let there = scroll_by(40, 15, 100);
    assert_eq!(scroll_by(there, -15, 100), 40);
}

#[test]
fn a_page_keeps_one_row_of_overlap_and_is_never_zero() {
    assert_eq!(page_lines(24), 23);
    assert_eq!(page_lines(2), 1);
    assert_eq!(page_lines(1), 1);
    assert_eq!(page_lines(0), 1);
}

#[test]
fn page_keys_belong_to_the_program_on_the_alternate_screen() {
    assert_eq!(page_scroll(true, true, 5, 23, 100), None);
    assert_eq!(page_scroll(true, false, 5, 23, 100), Some(28));
    assert_eq!(page_scroll(false, false, 5, 23, 100), Some(0));
    assert_eq!(page_scroll(true, false, 90, 23, 100), Some(100));
}

#[test]
fn a_track_click_pages_toward_the_click() {
    assert_eq!(track_page(10, 23, 100, true), 33);
    assert_eq!(track_page(90, 23, 100, true), 100);
    assert_eq!(track_page(30, 23, 100, false), 7);
    assert_eq!(track_page(10, 23, 100, false), 0);
}

#[test]
fn drag_autoscroll_grows_with_the_overshoot_up_to_four_lines() {
    assert_eq!(autoscroll(10, 0, true, 100), 11);
    assert_eq!(autoscroll(10, 2, true, 100), 13);
    assert_eq!(autoscroll(10, 50, true, 100), 14);
    assert_eq!(autoscroll(10, -7, true, 100), 11);
    assert_eq!(autoscroll(10, 50, false, 100), 6);
    assert_eq!(autoscroll(2, 50, false, 100), 0);
    assert_eq!(autoscroll(99, 50, true, 100), 100);
}

#[test]
fn a_wheel_remainder_moves_nothing() {
    assert!(matches!(wheel_outcome(0, false, 5, 100), WheelOutcome::Absorb));
    assert!(matches!(wheel_outcome(0, true, 5, 100), WheelOutcome::Absorb));
}

#[test]
fn the_wheel_scrolls_the_primary_screen() {
    match wheel_outcome(3, false, 5, 100) {
        WheelOutcome::ScrollTo(o) => assert_eq!(o, 8),
        _ => panic!("expected a scroll"),
    }
    match wheel_outcome(-9, false, 5, 100) {
        WheelOutcome::ScrollTo(o) => assert_eq!(o, 0),
        _ => panic!("expected a scroll"),
    }
}

#[test]
fn the_wheel_sends_arrow_keys_on_the_alternate_screen() {
    match wheel_outcome(3, true, 5, 100) {
        WheelOutcome::Keys(b) => assert_eq!(b, b"\x1b[A\x1b[A\x1b[A".to_vec()),
        _ => panic!("expected keys"),
    }
    match wheel_outcome(-1, true, 5, 100) {
        WheelOutcome::Keys(b) => assert_eq!(b, b"\x1b[B".to_vec()),
        _ => panic!("expected keys"),
    }
    match wheel_outcome(-40, true, 5, 100) {
        WheelOutcome::Keys(b) => assert_eq!(b, b"\x1b[B".repeat(10)),
        _ => panic!("expected keys"),
    }
}
