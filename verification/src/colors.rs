//! Colour themes and the integer part of terminal colour resolution.
//!
//! A cell colour resolves either to an exact 24-bit colour or to a slot of
//! the active palette; turning slots into display colours is the
//! renderer's business.
use vstd::prelude::*;

verus! {

/// Terminal colour theme.
#[derive(Debug, Clone, Copy, PartialEq, Eq, Structural)]
pub enum TerminalTheme {
    OryxisDark,
    OryxisLight,
    Termius,
    Darcula,
    IslandsDark,
    Dracula,
    Monokai,
    HackerGreen,
    Nord,
    NordLight,
    SolarizedDark,
    SolarizedLight,
    PaperLight,
}

/// The themes in the order the settings list shows them.
pub open spec fn spec_all_themes() -> Seq<TerminalTheme> {
    seq![
        TerminalTheme::OryxisDark,
        TerminalTheme::OryxisLight,
        TerminalTheme::Termius,
        TerminalTheme::Darcula,
        TerminalTheme::IslandsDark,
        TerminalTheme::Dracula,
        TerminalTheme::Monokai,
        TerminalTheme::HackerGreen,
        TerminalTheme::Nord,
        TerminalTheme::NordLight,
        TerminalTheme::SolarizedDark,
        TerminalTheme::SolarizedLight,
        TerminalTheme::PaperLight,
    ]
}

pub open spec fn theme_name(t: TerminalTheme) -> Seq<char> {
    match t {
        TerminalTheme::OryxisDark => "Oryxis Dark"@,
        TerminalTheme::OryxisLight => "Oryxis Light"@,
        TerminalTheme::Termius => "Termius"@,
        TerminalTheme::Darcula => "Darcula"@,
        TerminalTheme::IslandsDark => "Islands Dark"@,
        TerminalTheme::Dracula => "Dracula"@,
        TerminalTheme::Monokai => "Monokai"@,
        TerminalTheme::HackerGreen => "Hacker Green"@,
        TerminalTheme::Nord => "Nord"@,
        TerminalTheme::NordLight => "Nord Light"@,
        TerminalTheme::SolarizedDark => "Solarized Dark"@,
        TerminalTheme::SolarizedLight => "Solarized Light"@,
        TerminalTheme::PaperLight => "Paper Light"@,
    }
}

impl TerminalTheme {
    /// Every theme, once each, in display order.
    pub fn all() -> (v: Vec<TerminalTheme>)
        ensures
            v@ == spec_all_themes(),
    {
        let mut v: Vec<TerminalTheme> = Vec::new();
        v.push(TerminalTheme::OryxisDark);
        v.push(TerminalTheme::OryxisLight);
        v.push(TerminalTheme::Termius);
        v.push(TerminalTheme::Darcula);
        v.push(TerminalTheme::IslandsDark);
        v.push(TerminalTheme::Dracula);
        v.push(TerminalTheme::Monokai);
        v.push(TerminalTheme::HackerGreen);
        v.push(TerminalTheme::Nord);
        v.push(TerminalTheme::NordLight);
        v.push(TerminalTheme::SolarizedDark);
        v.push(TerminalTheme::SolarizedLight);
        v.push(TerminalTheme::PaperLight);
        assert(v@ =~= spec_all_themes());
        v
    }

    /// The display name of the theme.
    pub fn name(&self) -> (r: &'static str)
        ensures
            r@ == theme_name(*self),
    {
        match self {
            TerminalTheme::OryxisDark => "Oryxis Dark",
            TerminalTheme::OryxisLight => "Oryxis Light",
            TerminalTheme::Termius => "Termius",
            TerminalTheme::Darcula => "Darcula",
            TerminalTheme::IslandsDark => "Islands Dark",
            TerminalTheme::Dracula => "Dracula",
            TerminalTheme::Monokai => "Monokai",
            TerminalTheme::HackerGreen => "Hacker Green",
            TerminalTheme::Nord => "Nord",
            TerminalTheme::NordLight => "Nord Light",
            TerminalTheme::SolarizedDark => "Solarized Dark",
            TerminalTheme::SolarizedLight => "Solarized Light",
            TerminalTheme::PaperLight => "Paper Light",
        }
    }
}

/// Every theme appears in the list exactly once.
pub proof fn law_theme_list_is_complete(t: TerminalTheme)
    ensures
        spec_all_themes().contains(t),
        forall|i: int, j: int|
            0 <= i < j < spec_all_themes().len() ==> spec_all_themes()[i] != spec_all_themes()[j],
{
    let s = spec_all_themes();
    assert(s[0] == TerminalTheme::OryxisDark);
    match t {
        TerminalTheme::OryxisDark => assert(s[0] == t),
        TerminalTheme::OryxisLight => assert(s[1] == t),
        TerminalTheme::Termius => assert(s[2] == t),
        TerminalTheme::Darcula => assert(s[3] == t),
        TerminalTheme::IslandsDark => assert(s[4] == t),
        TerminalTheme::Dracula => assert(s[5] == t),
        TerminalTheme::Monokai => assert(s[6] == t),
        TerminalTheme::HackerGreen => assert(s[7] == t),
        TerminalTheme::Nord => assert(s[8] == t),
        TerminalTheme::NordLight => assert(s[9] == t),
        TerminalTheme::SolarizedDark => assert(s[10] == t),
        TerminalTheme::SolarizedLight => assert(s[11] == t),
        TerminalTheme::PaperLight => assert(s[12] == t),
    }
}

/// A palette slot: one of the sixteen ANSI colours, the foreground, the
/// background, the cursor, or a dimmed ANSI colour (`0..8`).
#[derive(Debug, Clone, Copy, PartialEq, Eq, Structural)]
pub enum PaletteSlot {
    Ansi(u8),
    Foreground,
    Background,
    Cursor,
    DimAnsi(u8),
}

/// A terminal colour as the emulator stores it: a named colour (by its index
/// in the emulator's colour table, `0..=268`), an exact colour, or an index
/// into the 256-colour table.
#[derive(Debug, Clone, Copy, PartialEq, Eq, Structural)]
pub enum TermColor {
    Named(u16),
    Spec(u8, u8, u8),
    Indexed(u8),
}

/// What a colour resolves to.
#[derive(Debug, Clone, Copy, PartialEq, Eq, Structural)]
pub enum Resolved {
    Rgb(u8, u8, u8),
    Slot(PaletteSlot),
}

/// Size of the emulator's colour table (256 indexed colours plus the named
/// ones).
pub const COLOR_TABLE_LEN: usize = 269;

/// The palette slot a named colour (given by its table index) falls back to.
pub open spec fn spec_named_slot(n: int) -> PaletteSlot {
    if 0 <= n < 16 {
        PaletteSlot::Ansi(n as u8)
    } else if n == 257 {
        PaletteSlot::Background
    } else if n == 258 {
        PaletteSlot::Cursor
    } else if 259 <= n <= 266 {
        PaletteSlot::DimAnsi((n - 259) as u8)
    } else {
        PaletteSlot::Foreground
    }
}

/// One channel level of the 6x6x6 colour cube.
pub open spec fn cube_level(v: int) -> int {
    if v == 0 {
        0
    } else {
        v * 40 + 55
    }
}

/// The xterm 256-colour table above the sixteen palette colours: the colour
/// cube for `16..232`, the grey ramp for `232..256`.
pub open spec fn spec_xterm_rgb(idx: u8) -> (u8, u8, u8) {
    if idx >= 232 {
        let g = ((idx - 232) * 10 + 8) as u8;
        (g, g, g)
    } else {
        let i = idx - 16;
        (
            cube_level((i / 36) % 6) as u8,
            cube_level((i / 6) % 6) as u8,
            cube_level(i % 6) as u8,
        )
    }
}

pub open spec fn spec_resolve(c: TermColor, table: Seq<Option<(u8, u8, u8)>>) -> Resolved {
    match c {
        TermColor::Spec(r, g, b) => Resolved::Rgb(r, g, b),
        TermColor::Named(n) => match table[n as int] {
            Some(rgb) => Resolved::Rgb(rgb.0, rgb.1, rgb.2),
            None => Resolved::Slot(spec_named_slot(n as int)),
        },
        TermColor::Indexed(i) => match table[i as int] {
            Some(rgb) => Resolved::Rgb(rgb.0, rgb.1, rgb.2),
            None => if i < 16 {
                Resolved::Slot(PaletteSlot::Ansi(i))
            } else {
                let rgb = spec_xterm_rgb(i);
                Resolved::Rgb(rgb.0, rgb.1, rgb.2)
            },
        },
    }
}

/// The palette slot a named colour falls back to when the program has not
/// redefined it.
pub fn named_slot(n: u16) -> (r: PaletteSlot)
    ensures
        r == spec_named_slot(n as int),
{
    if n < 16 {
        PaletteSlot::Ansi(n as u8)
    } else if n == 257 {
        PaletteSlot::Background
    } else if n == 258 {
        PaletteSlot::Cursor
    } else if 259 <= n && n <= 266 {
        PaletteSlot::DimAnsi((n - 259) as u8)
    } else {
        PaletteSlot::Foreground
    }
}

fn cube_level_exec(v: u8) -> (r: u8)
    requires
        v < 6,
    ensures
        r == cube_level(v as int),
{
    if v == 0 {
        0
    } else {
        v * 40 + 55
    }
}

/// The 24-bit colour of an entry of the 256-colour table past the sixteen
/// palette colours.
pub fn xterm_rgb(idx: u8) -> (r: (u8, u8, u8))
    requires
        idx >= 16,
    ensures
        r == spec_xterm_rgb(idx),
{
    if idx >= 232 {
        let g = (idx - 232) * 10 + 8;
        (g, g, g)
    } else {
        let i = idx - 16;
        (cube_level_exec((i / 36) % 6), cube_level_exec((i / 6) % 6), cube_level_exec(i % 6))
    }
}

/// Resolve a terminal colour against the emulator's colour table (entries a
/// program redefined through OSC 4 / 10 / 11 / 12): a redefined entry wins,
/// then a named colour falls back to its palette slot, an indexed colour
/// below 16 to its ANSI slot and one above to the xterm table.
pub fn resolve(color: &TermColor, table: &Vec<Option<(u8, u8, u8)>>) -> (r: Resolved)
    requires
        table@.len() == COLOR_TABLE_LEN,
        color matches TermColor::Named(n) ==> n < COLOR_TABLE_LEN,
    ensures
        r == spec_resolve(*color, table@),
{
    match color {
        TermColor::Spec(r, g, b) => Resolved::Rgb(*r, *g, *b),
        TermColor::Named(n) => match table[*n as usize] {
            Some(rgb) => Resolved::Rgb(rgb.0, rgb.1, rgb.2),
            None => Resolved::Slot(named_slot(*n)),
        },
        TermColor::Indexed(i) => match table[*i as usize] {
            Some(rgb) => Resolved::Rgb(rgb.0, rgb.1, rgb.2),
            None => {
                if *i < 16 {
                    Resolved::Slot(PaletteSlot::Ansi(*i))
                } else {
                    let rgb = xterm_rgb(*i);
                    Resolved::Rgb(rgb.0, rgb.1, rgb.2)
                }
            },
        },
    }
}

/// The colour cube is the full product of its six levels: index
/// `16 + 36 r + 6 g + b` carries levels `(r, g, b)`.
pub proof fn law_cube_index_decomposes(r: u8, g: u8, b: u8)
    requires
        r < 6,
        g < 6,
        b < 6,
    ensures
        spec_xterm_rgb((16 + 36 * r + 6 * g + b) as u8) == (
            cube_level(r as int) as u8,
            cube_level(g as int) as u8,
            cube_level(b as int) as u8,
        ),
{
    let idx = (16 + 36 * r + 6 * g + b) as u8;
    let i = idx - 16;
    assert(i == 36 * r + 6 * g + b);
    assert(i / 36 == r as int) by (nonlinear_arith)
        requires
            i == 36 * r + 6 * g + b,
            r < 6,
            g < 6,
            b < 6,
    ;
    assert((i / 6) % 6 == g as int) by (nonlinear_arith)
        requires
            i == 36 * r + 6 * g + b,
            r < 6,
            g < 6,
            b < 6,
    ;
    assert(i % 6 == b as int) by (nonlinear_arith)
        requires
            i == 36 * r + 6 * g + b,
            r < 6,
            g < 6,
            b < 6,
    ;
}

pub open spec fn spec_brighten(c: TermColor) -> TermColor {
    match c {
        TermColor::Named(n) => if n < 8 { TermColor::Named((n + 8) as u16) } else { c },
        TermColor::Indexed(i) => if i < 8 { TermColor::Indexed((i + 8) as u8) } else { c },
        TermColor::Spec(_, _, _) => c,
    }
}

/// The bold-is-bright substitution: a normal ANSI colour (named or indexed
/// `0..8`) becomes its bright twin; every other colour stays.
pub fn brighten(c: TermColor) -> (r: TermColor)
    ensures
        r == spec_brighten(c),
{
    match c {
        TermColor::Named(n) => if n < 8 { TermColor::Named(n + 8) } else { c },
        TermColor::Indexed(i) => if i < 8 { TermColor::Indexed(i + 8) } else { c },
        TermColor::Spec(_, _, _) => c,
    }
}

/// Brightening is idempotent: a colour that is already bright (or not a
/// palette colour) is left alone.
pub proof fn law_brighten_is_idempotent(c: TermColor)
    ensures
        spec_brighten(spec_brighten(c)) == spec_brighten(c),
{
}

} // verus!
