use alacritty_terminal::event::VoidListener;
use alacritty_terminal::grid::Dimensions;
use alacritty_terminal::index::{Column, Line};
use alacritty_terminal::term::cell::Flags as CellFlags;
use alacritty_terminal::term::test::TermSize;
use alacritty_terminal::term::{Config, Term};
use alacritty_terminal::vte::ansi;
use oryxis_terminal::colors::TermColor;
use oryxis_terminal::screen::{screen_as_ansi, CellStyle, ScreenView, StyledCell};

const FG: TermColor = TermColor::Named(256);
const BG: TermColor = TermColor::Named(257);

fn plain() -> CellStyle {
    CellStyle {
        bold: false,
        dim: false,
        italic: false,
        underline: false,
        double_underline: false,
        undercurl: false,
        dotted_underline: false,
        dashed_underline: false,
        inverse: false,
        hidden: false,
        strikeout: false,
    }
}

fn cell(c: char) -> StyledCell {
    StyledCell {
        c,
        zerowidth: Vec::new(),
        fg: FG,
        bg: BG,
        underline_color: None,
        style: plain(),
        wide_spacer: false,
        leading_wide_spacer: false,
    }
}

fn row(text: &str, cols: usize) -> Vec<StyledCell> {
    let mut r: Vec<StyledCell> = text.chars().map(cell).collect();
    while r.len() < cols {
        r.push(cell(' '));
    }
    r
}

fn ansi(screen: &ScreenView) -> String {
    String::from_utf8(screen_as_ansi(screen)).unwrap()
}

#[test]
fn bold_red_text_serialises_with_its_sgr() {
    let mut top = row("ok ", 6);
    top[0].style.bold = true;
    top[0].fg = TermColor::Named(1);
    top[1].style.bold = true;
    top[1].fg = TermColor::Named(1);
    let screen = ScreenView { cols: 6, rows: vec![top, row("", 6), row("x", 6), row("", 6)] };
    assert_eq!(ansi(&screen), "\x1b[0;1;31mok\x1b[0m\r\n\r\n\x1b[0mx\x1b[0m");
}

#[test]
fn colour_forms_map_to_their_sgr_parameters() {
    let mut r = row("abcd", 4);
    r[0].fg = TermColor::Named(9);
    r[0].bg = TermColor::Named(260);
    r[1].fg = TermColor::Indexed(208);
    r[2].bg = TermColor::Spec(1, 2, 3);
    r[3].style.double_underline = true;
    r[3].underline_color = Some(TermColor::Spec(9, 8, 7));
    let screen = ScreenView { cols: 4, rows: vec![r] };
    assert_eq!(
        ansi(&screen),
        "\x1b[0;91;41ma\x1b[0;38;5;208mb\x1b[0;48;2;1;2;3mc\x1b[0;4:2;58;2;9;8;7md\x1b[0m"
    );
}

#[test]
fn trailing_blanks_are_dropped_unless_they_show_something() {
    let mut r = row("a", 5);
    r[3].bg = TermColor::Named(4);
    let screen = ScreenView { cols: 5, rows: vec![r, row("b", 5)] };
    assert_eq!(ansi(&screen), "\x1b[0ma  \x1b[0;44m \x1b[0m\r\n\x1b[0mb\x1b[0m");
}

#[test]
fn wide_spacers_are_skipped_and_marks_kept() {
    let mut r = row("网 e", 4);
    r[1].wide_spacer = true;
    r[2].zerowidth.push('\u{301}');
    let screen = ScreenView { cols: 4, rows: vec![r] };
    assert_eq!(ansi(&screen), "\x1b[0m网e\u{301}\x1b[0m");
}

#[test]
fn an_empty_screen_serialises_to_nothing() {
    let screen = ScreenView { cols: 3, rows: vec![row("", 3), row("", 3)] };
    assert!(screen_as_ansi(&screen).is_empty());
}

/// A bare emulator: alacritty's grid fed through its parser.
struct Emulator {
    term: Term<VoidListener>,
    parser: ansi::Processor,
}

fn term_color(color: &ansi::Color) -> TermColor {
    match color {
        ansi::Color::Named(named) => TermColor::Named(*named as u16),
        ansi::Color::Spec(rgb) => TermColor::Spec(rgb.r, rgb.g, rgb.b),
        ansi::Color::Indexed(idx) => TermColor::Indexed(*idx),
    }
}

impl Emulator {
    fn new(cols: usize, rows: usize) -> Emulator {
        Emulator {
            term: Term::new(Config::default(), &TermSize::new(cols, rows), VoidListener),
            parser: ansi::Processor::new(),
        }
    }

    fn process(&mut self, bytes: &[u8]) {
        self.parser.advance(&mut self.term, bytes);
    }

    /// The visible screen as the library reads it.
    fn screen(&self) -> ScreenView {
        let grid = self.term.grid();
        let cols = grid.columns();
        let rows = (0..grid.screen_lines())
            .map(|r| {
                let row = &grid[Line(r as i32)];
                (0..cols)
                    .map(|c| {
                        let cell = &row[Column(c)];
                        let f = cell.flags;
                        StyledCell {
                            c: cell.c,
                            zerowidth: cell.zerowidth().map(|z| z.to_vec()).unwrap_or_default(),
                            fg: term_color(&cell.fg),
                            bg: term_color(&cell.bg),
                            underline_color: cell.underline_color().map(|u| term_color(&u)),
                            style: CellStyle {
                                bold: f.contains(CellFlags::BOLD),
                                dim: f.contains(CellFlags::DIM),
                                italic: f.contains(CellFlags::ITALIC),
                                underline: f.contains(CellFlags::UNDERLINE),
                                double_underline: f.contains(CellFlags::DOUBLE_UNDERLINE),
                                undercurl: f.contains(CellFlags::UNDERCURL),
                                dotted_underline: f.contains(CellFlags::DOTTED_UNDERLINE),
                                dashed_underline: f.contains(CellFlags::DASHED_UNDERLINE),
                                inverse: f.contains(CellFlags::INVERSE),
                                hidden: f.contains(CellFlags::HIDDEN),
                                strikeout: f.contains(CellFlags::STRIKEOUT),
                            },
                            wide_spacer: f.contains(CellFlags::WIDE_CHAR_SPACER),
                            leading_wide_spacer: f.contains(CellFlags::LEADING_WIDE_CHAR_SPACER),
                        }
                    })
                    .collect()
            })
            .collect();
        ScreenView { cols, rows }
    }
}

#[test]
fn screen_as_ansi_roundtrips_the_visible_screen() {
    let mut a = Emulator::new(24, 7);
    a.process(b"\x1b[31mred\x1b[0m plain\r\n");
    a.process(b"\x1b[1;44mB on blue\x1b[0m\r\n");
    a.process(b"\x1b[38;2;1;2;3mrgb\x1b[0m \x1b[7minv\x1b[0m \x1b[38;5;123midx\x1b[0m\r\n");
    a.process("wide \u{6f22}\u{5b57} ok\r\n".as_bytes());
    // A background bar with trailing colored blanks (the top header
    // pattern) followed by default-styled text.
    a.process(b"\x1b[4mu\x1b[0m\x1b[42m  \x1b[0mtail\r\n");
    // Every underline variant, plus an RGB underline color: each must keep
    // its exact style through the round-trip, not reduce to plain underline.
    a.process(b"\x1b[4:2md\x1b[0m\x1b[4:3mc\x1b[0m\x1b[4:4mo\x1b[0m\x1b[4:5ma\x1b[0m\r\n");
    a.process(b"\x1b[4m\x1b[58;2;10;20;30mUC\x1b[0m");

    let bytes = screen_as_ansi(&a.screen());
    let mut b = Emulator::new(24, 7);
    b.process(&bytes);

    let style = CellFlags::INVERSE
        | CellFlags::BOLD
        | CellFlags::ITALIC
        | CellFlags::DIM
        | CellFlags::HIDDEN
        | CellFlags::STRIKEOUT
        | CellFlags::ALL_UNDERLINES;
    let ga = a.term.grid();
    let gb = b.term.grid();
    assert_eq!(ga.screen_lines(), gb.screen_lines());
    for r in 0..ga.screen_lines() as i32 {
        for c in 0..ga.columns() {
            let ca = &ga[Line(r)][Column(c)];
            let cb = &gb[Line(r)][Column(c)];
            let norm = |ch: char| if ch == '\0' { ' ' } else { ch };
            assert_eq!(norm(ca.c), norm(cb.c), "char at {r},{c}");
            assert_eq!(ca.fg, cb.fg, "fg at {r},{c}");
            assert_eq!(ca.bg, cb.bg, "bg at {r},{c}");
            assert_eq!(ca.flags & style, cb.flags & style, "flags at {r},{c}");
            assert_eq!(ca.underline_color(), cb.underline_color(), "underline color at {r},{c}");
        }
    }
}
