use oryxis_terminal::selection::{is_in_selection, next_click_count, union_selection, Selection};
use oryxis_terminal::viewport::{pin_scrolled_offset, visible_row_to_line};

#[test]
fn widget_click_count_classification_cycles_1_to_4() {
    assert_eq!(next_click_count(None, false), 1);
    assert_eq!(next_click_count(None, true), 1);
    assert_eq!(next_click_count(Some(2), false), 1);
    assert_eq!(next_click_count(Some(4), false), 1);
    assert_eq!(next_click_count(Some(1), true), 2);
    assert_eq!(next_click_count(Some(2), true), 3);
    assert_eq!(next_click_count(Some(3), true), 4);
    assert_eq!(next_click_count(Some(4), true), 1);
}

#[test]
fn selection_click_count_classification_cycles_1_to_4() {
    assert_eq!(next_click_count(None, false), 1);
    assert_eq!(next_click_count(None, true), 1);
    assert_eq!(next_click_count(Some(2), false), 1);
    assert_eq!(next_click_count(Some(4), false), 1);
    assert_eq!(next_click_count(Some(1), true), 2);
    assert_eq!(next_click_count(Some(2), true), 3);
    assert_eq!(next_click_count(Some(3), true), 4);
    assert_eq!(next_click_count(Some(4), true), 1);
}

#[test]
fn ordered_puts_the_earlier_cell_first() {
    let s = Selection { start: (5, 2), end: (1, 0), block: false };
    assert_eq!(s.ordered(), ((1, 0), (5, 2)));
    let same_line = Selection { start: (7, 3), end: (2, 3), block: false };
    assert_eq!(same_line.ordered(), ((2, 3), (7, 3)));
    let forward = Selection { start: (0, -4), end: (9, 1), block: false };
    assert_eq!(forward.ordered(), ((0, -4), (9, 1)));
}

#[test]
fn block_bounds_orders_each_axis() {
    let s = Selection { start: (3, 0), end: (2, 2), block: true };
    assert_eq!(s.block_bounds(), (2, 3, 0, 2));
    let s = Selection { start: (1, 5), end: (8, -3), block: true };
    assert_eq!(s.block_bounds(), (1, 8, -3, 5));
}

#[test]
fn empty_selection_is_a_single_cell() {
    assert!(Selection { start: (4, 1), end: (4, 1), block: false }.is_empty());
    assert!(!Selection { start: (4, 1), end: (5, 1), block: false }.is_empty());
    assert!(!Selection { start: (4, 1), end: (4, 2), block: true }.is_empty());
}

#[test]
fn union_spans_both_ranges() {
    let a = Selection { start: (4, 1), end: (9, 1), block: false };
    let b = Selection { start: (2, 3), end: (0, 2), block: true };
    let u = union_selection(a, b);
    assert_eq!((u.start, u.end, u.block), ((4, 1), (2, 3), false));
    let v = union_selection(b, a);
    assert_eq!((v.start, v.end, v.block), ((4, 1), (2, 3), false));
}

#[test]
fn flowing_and_block_membership() {
    let flow = Selection { start: (5, 0), end: (2, 2), block: false };
    assert!(is_in_selection(&flow, 5, 0));
    assert!(is_in_selection(&flow, 79, 0));
    assert!(!is_in_selection(&flow, 4, 0));
    assert!(is_in_selection(&flow, 0, 1));
    assert!(is_in_selection(&flow, 2, 2));
    assert!(!is_in_selection(&flow, 3, 2));
    let block = Selection { start: (5, 0), end: (2, 2), block: true };
    assert!(is_in_selection(&block, 3, 1));
    assert!(!is_in_selection(&block, 0, 1));
    assert!(!is_in_selection(&block, 6, 0));
}

#[test]
fn scrolled_viewport_pins_through_output() {
    let (offset, anchor_history) = pin_scrolled_offset(40, Some(100), 100);
    assert_eq!((offset, anchor_history), (40, Some(100)), "idle draw is a no-op");
    let (offset, anchor_history) = pin_scrolled_offset(offset, anchor_history, 125);
    assert_eq!((offset, anchor_history), (65, Some(125)), "offset must track the history growth");
    let (offset, anchor_history) = pin_scrolled_offset(offset, anchor_history, 125);
    assert_eq!((offset, anchor_history), (65, Some(125)));
    let (offset, anchor_history) = pin_scrolled_offset(0, anchor_history, 140);
    assert_eq!((offset, anchor_history), (0, None));
}

#[test]
fn live_edge_clears_a_stale_anchor() {
    let (offset, anchor_history) = pin_scrolled_offset(0, Some(100), 140);
    assert_eq!((offset, anchor_history), (0, None), "offset 0 always clears the anchor");
}

#[test]
fn first_scroll_establishes_the_anchor() {
    let (offset, anchor_history) = pin_scrolled_offset(10, None, 100);
    assert_eq!((offset, anchor_history), (10, Some(100)));
    let (offset, _) = pin_scrolled_offset(offset, anchor_history, 120);
    assert_eq!(offset, 30, "subsequent output is compensated");
}

#[test]
fn pinned_viewport_drops_its_anchor_when_history_shrinks() {
    let (offset, anchor_history) = pin_scrolled_offset(40, Some(100), 40);
    assert_eq!((offset, anchor_history), (40, None), "shrink keeps the offset but drops the stale anchor");
    let (offset, anchor_history) = pin_scrolled_offset(offset, anchor_history, 42);
    assert_eq!((offset, anchor_history), (40, Some(42)));
    let (offset, _) = pin_scrolled_offset(offset, anchor_history, 45);
    assert_eq!(offset, 43);
}

#[test]
fn unanchored_offset_never_bridges_a_history_gap() {
    let (offset, anchor_history) = pin_scrolled_offset(40, None, 5000);
    assert_eq!(
        (offset, anchor_history),
        (40, Some(5000)),
        "the gap must not be compensated across the alt-screen round trip"
    );
    let (offset, _) = pin_scrolled_offset(offset, anchor_history, 5010);
    assert_eq!(offset, 50);
}

#[test]
fn pinned_growth_saturates_instead_of_wrapping() {
    assert_eq!(pin_scrolled_offset(i32::MAX - 1, Some(0), 10), (i32::MAX, Some(10)));
}

#[test]
fn visible_rows_map_to_grid_lines() {
    assert_eq!(visible_row_to_line(0, 0), 0);
    assert_eq!(visible_row_to_line(3, 10), -7);
    assert_eq!(visible_row_to_line(23, 0), 23);
}

#[test]
fn resize_needs_a_new_size_of_at_least_two_by_two() {
    assert!(!oryxis_terminal::viewport::resize_accepted(80, 24, 80, 24));
    assert!(oryxis_terminal::viewport::resize_accepted(80, 24, 100, 24));
    assert!(!oryxis_terminal::viewport::resize_accepted(80, 24, 1, 24));
    assert!(!oryxis_terminal::viewport::resize_accepted(80, 24, 80, 1));
    assert!(oryxis_terminal::viewport::resize_accepted(80, 24, 2, 2));
}
