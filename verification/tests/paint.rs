use oryxis_terminal::highlight::HighlightColor;
use oryxis_terminal::paint::{cell_paint, last_selection_band, scan_plan, CellFacts, Ground, Ink};
use oryxis_terminal::selection::Selection;

fn plain() -> CellFacts {
    CellFacts {
        ink_is_default: true,
        rule: None,
        keyword_highlight: true,
        detected: None,
        tint_is_default: false,
        link: false,
        selected: false,
        last_band: false,
        search_hit: None,
        masked: false,
        revealed: false,
    }
}

#[test]
fn scans_follow_tinting_performance_and_privacy() {
    assert!(scan_plan(true, false, false, false).detect);
    assert!(!scan_plan(true, true, false, false).detect, "performance mode skips tinting");
    assert!(scan_plan(false, true, true, false).detect, "privacy always scans");
    assert!(!scan_plan(false, false, false, true).detect);
    assert!(scan_plan(false, false, false, true).rules);
    assert!(!scan_plan(true, true, true, true).rules);
}

#[test]
fn a_detected_token_tints_only_default_ink() {
    let f = CellFacts { detected: Some(HighlightColor::Ansi(4)), ..plain() };
    assert_eq!(cell_paint(f).ink, Ink::Tint(HighlightColor::Ansi(4)));
    assert_eq!(cell_paint(CellFacts { ink_is_default: false, ..f }).ink, Ink::Cell);
    assert_eq!(cell_paint(CellFacts { keyword_highlight: false, ..f }).ink, Ink::Cell);
}

#[test]
fn a_rule_beats_the_detectors_and_ignores_the_tinting_toggle() {
    let f = CellFacts {
        rule: Some(HighlightColor::Rgb(1, 2, 3)),
        detected: Some(HighlightColor::Ansi(5)),
        keyword_highlight: false,
        ..plain()
    };
    assert_eq!(cell_paint(f).ink, Ink::Tint(HighlightColor::Rgb(1, 2, 3)));
}

#[test]
fn a_hyperlink_takes_the_link_colour_over_default_ink() {
    let f = CellFacts { link: true, ..plain() };
    assert_eq!(cell_paint(f).ink, Ink::Link);
    assert_eq!(cell_paint(CellFacts { ink_is_default: false, ..f }).ink, Ink::Cell);
}

#[test]
fn the_selection_wins_over_search_and_the_last_band() {
    let f = CellFacts { selected: true, last_band: true, search_hit: Some(true), link: true, ..plain() };
    let p = cell_paint(f);
    assert_eq!((p.ink, p.ground, p.contrast_fix), (Ink::Selected, Ground::Selection, false));
    let p = cell_paint(CellFacts { selected: false, ..f });
    assert_eq!((p.ink, p.ground), (Ink::SearchHit, Ground::ActiveHit));
    let p = cell_paint(CellFacts { selected: false, search_hit: Some(false), ..f });
    assert_eq!((p.ink, p.ground), (Ink::Link, Ground::OtherHit));
    let p = cell_paint(CellFacts { selected: false, search_hit: None, ..f });
    assert_eq!(p.ground, Ground::LastSelection);
}

#[test]
fn a_masked_cell_hides_its_glyph_until_revealed() {
    assert!(!cell_paint(CellFacts { masked: true, ..plain() }).glyph);
    assert!(cell_paint(CellFacts { masked: true, revealed: true, ..plain() }).glyph);
    assert!(cell_paint(plain()).glyph);
}

#[test]
fn the_last_band_needs_the_same_grid_and_a_focused_primary_screen() {
    let s = Selection { start: (0, 0), end: (3, 1), block: false };
    let last = Some((s, 80u16, 100usize));
    assert!(last_selection_band(false, false, true, last, 80, 100).is_some());
    assert!(last_selection_band(true, false, true, last, 80, 100).is_none());
    assert!(last_selection_band(false, true, true, last, 80, 100).is_none());
    assert!(last_selection_band(false, false, false, last, 80, 100).is_none());
    assert!(last_selection_band(false, false, true, last, 81, 100).is_none());
    assert!(last_selection_band(false, false, true, last, 80, 101).is_none());
}
