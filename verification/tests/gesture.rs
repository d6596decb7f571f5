use oryxis_terminal::gesture::{
    defers_copy_to_right_click, drag, focus, key_press, paste_selection, press, release, right_press, select_all,
    Gesture, KeyOutcome, RightClickAction, RightPress,
};
use oryxis_terminal::grid::{GridCell, GridView};
use oryxis_terminal::selection::{SelectGranularity, Selection};

fn idle() -> Gesture {
    Gesture { selection: None, anchor: None, selecting: false, last_extend_cell: None }
}

fn corners(s: Option<Selection>) -> Option<((u16, i32), (u16, i32), bool)> {
    s.map(|s| (s.start, s.end, s.block))
}

#[test]
fn right_click_copy_only_defers_auto_copy_under_paste_scheme() {
    assert!(defers_copy_to_right_click(true, RightClickAction::Paste), "Paste scheme honours the deferral");
    assert!(!defers_copy_to_right_click(true, RightClickAction::Menu), "stale flag under Menu must not defer");
    assert!(!defers_copy_to_right_click(true, RightClickAction::Extend), "stale flag under Extend must not defer");
    assert!(!defers_copy_to_right_click(false, RightClickAction::Paste), "flag off never defers");
}

#[test]
fn a_single_press_starts_an_empty_selection_and_alt_makes_it_a_block() {
    let (g, ask) = press(idle(), false, false, 1, (4, 2), None);
    assert!(ask.is_none());
    assert_eq!(corners(g.selection), Some(((4, 2), (4, 2), false)));
    assert!(g.selecting);
    assert!(g.anchor.is_none());
    let (g, _) = press(idle(), false, true, 1, (4, 2), None);
    assert_eq!(corners(g.selection), Some(((4, 2), (4, 2), true)));
}

#[test]
fn shift_click_extends_from_the_existing_start() {
    let live = Gesture {
        selection: Some(Selection { start: (1, 0), end: (3, 0), block: true }),
        ..idle()
    };
    let (g, ask) = press(live, true, false, 2, (7, 5), Some((0, 9)));
    assert!(ask.is_none());
    assert_eq!(corners(g.selection), Some(((1, 0), (7, 5), true)));
    assert_eq!(g.last_extend_cell, Some((7, 5)));
}

#[test]
fn a_double_press_on_a_token_takes_the_token_else_asks_for_the_word() {
    let (g, ask) = press(idle(), false, false, 2, (6, 3), Some((4, 22)));
    assert!(ask.is_none());
    assert_eq!(corners(g.selection), Some(((4, 3), (22, 3), false)));
    let (g, ask) = press(idle(), false, false, 2, (6, 3), None);
    assert_eq!(ask, Some(SelectGranularity::Word));
    assert_eq!(g.anchor, Some((SelectGranularity::Word, (6, 3))));
    let (_, ask) = press(idle(), false, false, 3, (6, 3), None);
    assert_eq!(ask, Some(SelectGranularity::Line));
    let (_, ask) = press(idle(), false, false, 4, (6, 3), None);
    assert_eq!(ask, Some(SelectGranularity::Paragraph));
}

#[test]
fn a_cellwise_drag_moves_the_end() {
    let (g, _) = press(idle(), false, false, 1, (2, 1), None);
    let (g, ask) = drag(g, (9, 4));
    assert!(ask.is_none());
    assert_eq!(corners(g.selection), Some(((2, 1), (9, 4), false)));
}

#[test]
fn a_word_drag_asks_once_per_cell_crossed() {
    let (g, _) = press(idle(), false, false, 2, (2, 1), None);
    let (g, ask) = drag(g, (2, 1));
    assert!(ask.is_none(), "still on the anchor cell");
    let (g, ask) = drag(g, (8, 1));
    assert_eq!(ask, Some((SelectGranularity::Word, (2, 1))));
    let (_, ask) = drag(g, (8, 1));
    assert!(ask.is_none(), "same cell again");
}

#[test]
fn a_drag_without_a_gesture_does_nothing() {
    let (g, ask) = drag(idle(), (3, 3));
    assert!(ask.is_none());
    assert!(g.selection.is_none());
}

#[test]
fn a_plain_click_finishes_nothing() {
    let (g, _) = press(idle(), false, false, 1, (5, 5), None);
    let (g, plan) = release(g, false, true, false, RightClickAction::Menu);
    assert!(plan.finished.is_none());
    assert!(!plan.auto_copy);
    assert!(plan.plain_click);
    assert!(plan.owned);
    assert!(!g.selecting);
}

#[test]
fn a_dragged_selection_is_finished_and_copied_with_copy_on_select() {
    let (g, _) = press(idle(), false, false, 1, (0, 0), None);
    let (g, _) = drag(g, (4, 0));
    let (_, plan) = release(g, false, true, false, RightClickAction::Menu);
    assert_eq!(corners(plan.finished), Some(((0, 0), (4, 0), false)));
    assert!(plan.auto_copy);
    assert!(!plan.plain_click);
    let (_, plan) = release(g, false, false, false, RightClickAction::Menu);
    assert!(plan.finished.is_some());
    assert!(!plan.auto_copy, "copy-on-select off");
    let (_, plan) = release(g, false, true, true, RightClickAction::Paste);
    assert!(!plan.auto_copy, "deferred to the right press");
}

#[test]
fn a_one_letter_word_is_still_finished() {
    let g = Gesture {
        selection: Some(Selection { start: (3, 0), end: (3, 0), block: false }),
        anchor: Some((SelectGranularity::Word, (3, 0))),
        selecting: true,
        last_extend_cell: Some((3, 0)),
    };
    let (g, plan) = release(g, false, true, false, RightClickAction::Menu);
    assert!(plan.finished.is_some());
    assert!(!plan.plain_click);
    assert!(g.anchor.is_none());
}

#[test]
fn a_stray_release_is_not_claimed() {
    let (_, plan) = release(idle(), false, true, false, RightClickAction::Menu);
    assert!(!plan.owned);
    assert!(plan.finished.is_none());
    let (_, plan) = release(idle(), true, true, false, RightClickAction::Menu);
    assert!(plan.end_scrollbar_drag);
}

#[test]
fn the_right_press_follows_its_scheme() {
    let live = Some(Selection { start: (0, 0), end: (5, 0), block: false });
    let block = Some(Selection { start: (0, 0), end: (5, 2), block: true });
    let dot = Some(Selection { start: (2, 2), end: (2, 2), block: false });
    assert!(matches!(right_press(RightClickAction::Menu, false, false, live), RightPress::Menu(Some(_))));
    assert!(matches!(right_press(RightClickAction::Menu, false, false, dot), RightPress::Menu(None)));
    assert!(matches!(right_press(RightClickAction::Extend, false, false, live), RightPress::Extend(Some(_))));
    assert!(matches!(right_press(RightClickAction::Extend, false, false, block), RightPress::Extend(None)));
    assert!(matches!(right_press(RightClickAction::Paste, true, true, live), RightPress::CopyAndClear(_)));
    assert!(matches!(right_press(RightClickAction::Paste, true, false, live), RightPress::Paste));
    assert!(matches!(right_press(RightClickAction::Paste, true, true, dot), RightPress::Paste));
}

#[test]
fn select_all_spans_scrollback_and_screen() {
    let blank = GridCell { c: ' ', wide_spacer: false, leading_wide_spacer: false, wrapline: false, link: 0 };
    let g = GridView {
        cols: 12,
        history: 3,
        rows: vec![vec![blank; 12]; 8],
        cursor_line: 0,
        cursor_col: 0,
        alt_screen: false,
        link_uris: Vec::new(),
    };
    let s = select_all(&g);
    assert_eq!((s.start, s.end, s.block), ((0, -3), (11, 4), false));
}

#[test]
fn a_primary_paste_prefers_the_platform_then_the_pane_then_the_clipboard() {
    let live = Gesture {
        selection: Some(Selection { start: (0, 0), end: (3, 0), block: false }),
        anchor: Some((SelectGranularity::Word, (1, 0))),
        selecting: true,
        last_extend_cell: Some((3, 0)),
    };
    let (g, text) = paste_selection(live, true, true, None);
    assert!(g.selection.is_none() && g.anchor.is_none() && !g.selecting);
    assert_eq!(text.as_deref(), Some(""));
    let (_, text) = paste_selection(live, true, false, Some("path".to_string()));
    assert_eq!(text.as_deref(), Some("path"));
    let (_, text) = paste_selection(live, false, true, Some("path".to_string()));
    assert_eq!(text, None);
    let (_, text) = paste_selection(live, false, false, Some("path".to_string()));
    assert_eq!(text.as_deref(), Some("path"));
    let (_, text) = paste_selection(live, false, false, None);
    assert_eq!(text, None);
}

fn with_selection() -> Gesture {
    Gesture { selection: Some(Selection { start: (0, 0), end: (5, 0), block: false }), ..idle() }
}

fn small_grid() -> GridView {
    let blank = GridCell { c: ' ', wide_spacer: false, leading_wide_spacer: false, wrapline: false, link: 0 };
    GridView {
        cols: 80,
        history: 0,
        rows: vec![vec![blank; 80]; 24],
        cursor_line: 0,
        cursor_col: 0,
        alt_screen: false,
        link_uris: Vec::new(),
    }
}

#[test]
fn a_never_focused_surface_keeps_its_selection() {
    let (ever, g, dropped) = focus(with_selection(), false, false);
    assert!(!ever);
    assert!(!dropped);
    assert!(g.selection.is_some(), "a display-only surface never had focus to lose");
}

#[test]
fn a_pane_that_loses_focus_drops_its_highlight() {
    let (ever, g, dropped) = focus(with_selection(), true, false);
    assert!(ever);
    assert!(!dropped);
    assert!(g.selection.is_some(), "the focused pane keeps its highlight");
    let (ever, g, dropped) = focus(g, false, ever);
    assert!(ever);
    assert!(dropped);
    assert!(g.selection.is_none(), "the pane being left drops its highlight");
}

#[test]
fn chords_fire_unfocused_when_the_surface_opts_in() {
    let mut g = idle();
    if let KeyOutcome::Chord = key_press(g, false, true, true, false) {
        g.selection = Some(select_all(&small_grid()));
    }
    assert!(g.selection.is_some(), "select-all must reach the replay");
}

#[test]
fn chords_stay_focus_gated_by_default() {
    let mut g = idle();
    if let KeyOutcome::Chord = key_press(g, false, false, true, false) {
        g.selection = Some(select_all(&small_grid()));
    }
    assert!(g.selection.is_none(), "an unfocused pane declines the chord");
}

#[test]
fn typing_dismisses_the_highlight_but_a_bare_modifier_does_not() {
    match key_press(with_selection(), true, false, false, false) {
        KeyOutcome::Dismiss(g) => assert!(g.selection.is_none() && g.anchor.is_none() && !g.selecting),
        _ => panic!("a keystroke drops the selection"),
    }
    assert!(matches!(key_press(with_selection(), true, false, false, true), KeyOutcome::Ignore));
    assert!(matches!(key_press(with_selection(), false, false, false, false), KeyOutcome::Ignore));
    assert!(matches!(key_press(idle(), true, false, false, false), KeyOutcome::Ignore));
    assert!(matches!(key_press(with_selection(), true, false, true, false), KeyOutcome::Chord));
}
