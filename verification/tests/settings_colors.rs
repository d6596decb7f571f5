use oryxis_terminal::colors::{brighten, named_slot, resolve, xterm_rgb, PaletteSlot, Resolved, TermColor, TerminalTheme};
use oryxis_terminal::perf::{PerfSample, PerfStats, PERF_WINDOW};
use oryxis_terminal::settings::{
    default_scrollback, new_terminal_scrollback, set_clipboard_access, set_default_scrollback, GlobalSettings,
    Osc52Override,
};

#[test]
fn defaults_match_the_historical_values() {
    let g = GlobalSettings::default();
    assert_eq!(default_scrollback(&g), 10_000);
    assert!(g.osc52_write);
    assert!(!g.osc52_read);
}

#[test]
fn scrollback_setting_applies_to_later_terminals() {
    let mut g = GlobalSettings::default();
    set_default_scrollback(&mut g, 50_000);
    assert_eq!(default_scrollback(&g), 50_000);
    assert!(g.osc52_write && !g.osc52_read);
}

#[test]
fn osc52_per_instance_override_beats_global_both_ways() {
    let mut g = GlobalSettings::default();
    let mut o = Osc52Override::new();
    set_clipboard_access(&mut g, true, false);
    assert!(o.osc52_write_allowed(&g), "inherit follows global-on");
    set_clipboard_access(&mut g, false, false);
    assert!(!o.osc52_write_allowed(&g), "inherit follows global-off");
    o.set_osc52_override(Some(true), None);
    assert!(o.osc52_write_allowed(&g), "force-on beats global-off");
    set_clipboard_access(&mut g, true, false);
    o.set_osc52_override(Some(false), None);
    assert!(!o.osc52_write_allowed(&g), "force-off beats global-on");
    set_clipboard_access(&mut g, true, true);
    o.set_osc52_override(Some(false), Some(false));
    assert!(!o.osc52_read_allowed(&g), "force-off read beats global-on");
    o.set_osc52_override(Some(true), None);
    assert!(o.osc52_read_allowed(&g), "inherit read follows global-on");
    o.set_osc52_override(None, None);
    assert!(o.osc52_write_allowed(&g));
}

#[test]
fn a_host_cannot_grant_clipboard_read() {
    let mut g = GlobalSettings::default();
    set_clipboard_access(&mut g, true, false);
    let mut o = Osc52Override::new();
    o.set_osc52_override(None, Some(true));
    assert!(!o.osc52_read_allowed(&g));
    assert_eq!((o.write, o.read), (-1, 1));
}

#[test]
fn theme_names_and_order() {
    let all = TerminalTheme::all();
    assert_eq!(all.len(), 13);
    assert_eq!(all[0], TerminalTheme::OryxisDark);
    assert_eq!(all[12], TerminalTheme::PaperLight);
    assert_eq!(TerminalTheme::OryxisDark.name(), "Oryxis Dark");
    assert_eq!(TerminalTheme::HackerGreen.name(), "Hacker Green");
    assert_eq!(TerminalTheme::SolarizedLight.name(), "Solarized Light");
    let names: Vec<&str> = all.iter().map(|t| t.name()).collect();
    for (i, a) in names.iter().enumerate() {
        for b in &names[i + 1..] {
            assert_ne!(a, b);
        }
    }
}

#[test]
fn xterm_cube_and_grey_ramp() {
    assert_eq!(xterm_rgb(16), (0, 0, 0));
    assert_eq!(xterm_rgb(196), (255, 0, 0));
    assert_eq!(xterm_rgb(21), (0, 0, 255));
    assert_eq!(xterm_rgb(231), (255, 255, 255));
    assert_eq!(xterm_rgb(67), (95, 135, 175));
    assert_eq!(xterm_rgb(232), (8, 8, 8));
    assert_eq!(xterm_rgb(255), (238, 238, 238));
}

#[test]
fn named_colours_fall_back_to_palette_slots() {
    assert_eq!(named_slot(1), PaletteSlot::Ansi(1));
    assert_eq!(named_slot(15), PaletteSlot::Ansi(15));
    assert_eq!(named_slot(256), PaletteSlot::Foreground);
    assert_eq!(named_slot(257), PaletteSlot::Background);
    assert_eq!(named_slot(258), PaletteSlot::Cursor);
    assert_eq!(named_slot(259), PaletteSlot::DimAnsi(0));
    assert_eq!(named_slot(266), PaletteSlot::DimAnsi(7));
    assert_eq!(named_slot(267), PaletteSlot::Foreground);
    assert_eq!(named_slot(268), PaletteSlot::Foreground);
}

#[test]
fn redefined_table_entries_win() {
    let mut table: Vec<Option<(u8, u8, u8)>> = vec![None; 269];
    table[1] = Some((1, 2, 3));
    table[200] = Some((9, 9, 9));
    assert_eq!(resolve(&TermColor::Named(1), &table), Resolved::Rgb(1, 2, 3));
    assert_eq!(resolve(&TermColor::Indexed(200), &table), Resolved::Rgb(9, 9, 9));
    assert_eq!(resolve(&TermColor::Indexed(197), &table), Resolved::Rgb(255, 0, 95));
    assert_eq!(resolve(&TermColor::Indexed(3), &table), Resolved::Slot(PaletteSlot::Ansi(3)));
    assert_eq!(resolve(&TermColor::Named(257), &table), Resolved::Slot(PaletteSlot::Background));
    assert_eq!(resolve(&TermColor::Spec(4, 5, 6), &table), Resolved::Rgb(4, 5, 6));
}

fn sample(n: u64) -> PerfSample {
    PerfSample { frame_gap: n, lock: n * 2, cells: 100 - n, highlights: n % 7, total: n + 1 }
}

#[test]
fn perf_maxima_over_the_window() {
    let mut stats = PerfStats::new();
    assert_eq!(stats.max_lock(), 0);
    assert_eq!(stats.max_total(), 0);
    for n in [3u64, 9, 4] {
        stats.record(sample(n));
    }
    assert_eq!(stats.max_lock(), 18);
    assert_eq!(stats.max_cells(), 97);
    assert_eq!(stats.max_highlights(), 4);
    assert_eq!(stats.max_total(), 10);
}

#[test]
fn perf_window_drops_the_oldest_frames() {
    let mut stats = PerfStats::new();
    stats.record(sample(90));
    for _ in 0..PERF_WINDOW {
        stats.record(sample(1));
    }
    assert_eq!(stats.samples.len(), PERF_WINDOW);
    assert_eq!(stats.max_lock(), 2, "the spike aged out of the window");
}

#[test]
fn bold_is_bright_maps_normal_colours_only() {
    assert_eq!(brighten(TermColor::Named(1)), TermColor::Named(9));
    assert_eq!(brighten(TermColor::Named(9)), TermColor::Named(9));
    assert_eq!(brighten(TermColor::Named(256)), TermColor::Named(256));
    assert_eq!(brighten(TermColor::Indexed(7)), TermColor::Indexed(15));
    assert_eq!(brighten(TermColor::Indexed(8)), TermColor::Indexed(8));
    assert_eq!(brighten(TermColor::Spec(1, 2, 3)), TermColor::Spec(1, 2, 3));
}

#[test]
fn new_terminals_take_the_default_in_force_at_creation() {
    let mut g = GlobalSettings::default();
    let earlier = new_terminal_scrollback(&g, None);
    set_default_scrollback(&mut g, 2_000);
    assert_eq!(new_terminal_scrollback(&g, None), 2_000);
    assert_eq!(earlier, 10_000, "a terminal created before keeps its budget");
    assert_eq!(new_terminal_scrollback(&g, Some(7)), 7, "an explicit budget wins");
}
