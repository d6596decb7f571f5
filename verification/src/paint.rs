//! What the draw pass paints on a cell, as decisions on plain flags: which
//! scans run, whether the faint band of the last selection shows, and for
//! each cell which source its glyph colour and its background come from
//! (the cell's own colours, a highlight tint, the link colour, the
//! selection, the search hit) and whether Privacy Mode hides its glyph.
//!
//! The colours themselves are floating point and stay with the renderer: it
//! applies inverse video and dimming to the cell's colours first, tells
//! these decisions whether the resulting glyph colour is the palette's
//! default foreground, and maps the chosen sources back to colours.
use vstd::prelude::*;
use crate::highlight::HighlightColor;
use crate::selection::Selection;

verus! {

/// Which scans a frame runs.
#[derive(Debug, Clone, Copy, PartialEq, Eq, Structural)]
pub struct ScanPlan {
    /// The automatic detectors (URLs, addresses, paths, numbers, masks).
    pub detect: bool,
    /// The user's highlight rules.
    pub rules: bool,
}

/// The scans of a frame. The detectors run for keyword tinting, which
/// performance mode suppresses, and always under Privacy Mode, whose masks
/// must never be skipped; the user's rules run unless performance mode is
/// on (an explicit request, so the tinting toggle has no say over them).
pub fn scan_plan(keyword_highlight: bool, performance: bool, privacy: bool, has_rules: bool) -> (r: ScanPlan)
    ensures
        r.detect == ((keyword_highlight && !performance) || privacy),
        r.rules == (!performance && has_rules),
{
    ScanPlan { detect: (keyword_highlight && !performance) || privacy, rules: !performance && has_rules }
}

/// The faint band of the last finished selection (what a PRIMARY paste
/// inserts): shown only while no live selection is up, off the alternate
/// screen, on the focused pane, and only while the grid still has the
/// width and the line count it had when the selection was made.
pub fn last_selection_band(
    live_selection: bool,
    in_alt_screen: bool,
    focused: bool,
    last: Option<(Selection, u16, usize)>,
    cols: usize,
    total_lines: usize,
) -> (r: Option<Selection>)
    ensures
        r == (match last {
            Some((s, c, t)) => if !live_selection && !in_alt_screen && focused && c as usize == cols
                && t == total_lines {
                Some(s)
            } else {
                None
            },
            None => None,
        }),
{
    if live_selection || in_alt_screen || !focused {
        return None;
    }
    match last {
        Some((s, c, t)) => if c as usize == cols && t == total_lines {
            Some(s)
        } else {
            None
        },
        None => None,
    }
}

/// Where a cell's glyph colour comes from.
#[derive(Debug, Clone, Copy, PartialEq, Eq, Structural)]
pub enum Ink {
    /// The cell's own colour (after inverse video and dimming).
    Cell,
    /// A highlight tint.
    Tint(HighlightColor),
    /// The link colour (ANSI blue) of an OSC 8 hyperlink.
    Link,
    /// White, on the selection band.
    Selected,
    /// The dark ink of the active search hit.
    SearchHit,
}

/// Where a cell's background comes from.
#[derive(Debug, Clone, Copy, PartialEq, Eq, Structural)]
pub enum Ground {
    /// The cell's own background (after inverse video).
    Cell,
    /// The selection band.
    Selection,
    /// The faint band of the last selection.
    LastSelection,
    /// The active search hit.
    ActiveHit,
    /// Another search hit.
    OtherHit,
}

/// What is known of one cell when it is painted.
#[derive(Debug, Clone, Copy)]
pub struct CellFacts {
    /// The cell's glyph colour, after inverse video and dimming, is the
    /// palette's default foreground (the application left it uncoloured).
    pub ink_is_default: bool,
    /// Colour of the user rule covering the cell, if any.
    pub rule: Option<HighlightColor>,
    /// Keyword tinting is on.
    pub keyword_highlight: bool,
    /// Colour of the detector span covering the cell, if any.
    pub detected: Option<HighlightColor>,
    /// The tint the cell would take paints as the default foreground.
    pub tint_is_default: bool,
    /// The cell carries an OSC 8 hyperlink.
    pub link: bool,
    /// The cell is in the live selection.
    pub selected: bool,
    /// The cell is in the faint band of the last selection.
    pub last_band: bool,
    /// The cell is in a search hit; `Some(true)` for the active one.
    pub search_hit: Option<bool>,
    /// Privacy Mode is on and the cell lies in a masked span.
    pub masked: bool,
    /// That span is revealed (hovered, or its value pinned).
    pub revealed: bool,
}

/// How one cell is painted.
#[derive(Debug, Clone, Copy, PartialEq, Eq, Structural)]
pub struct CellPaint {
    pub ink: Ink,
    pub ground: Ground,
    /// The glyph is drawn (a masked, unrevealed cell draws none).
    pub glyph: bool,
    /// Smart contrast may still swap the ink (never on the selection band).
    pub contrast_fix: bool,
}

/// The tint a cell takes: a user rule's before the detectors', the
/// detectors' only with keyword tinting on.
pub open spec fn tint_of(f: CellFacts) -> Option<HighlightColor> {
    match f.rule {
        Some(c) => Some(c),
        None => if f.keyword_highlight { f.detected } else { None },
    }
}

pub open spec fn spec_cell_paint(f: CellFacts) -> CellPaint {
    // A tint only replaces the application's default ink.
    let tinted = tint_of(f) is Some && f.ink_is_default;
    let ink1 = if tinted { Ink::Tint(tint_of(f)->0) } else { Ink::Cell };
    let ink_default = if tinted { f.tint_is_default } else { f.ink_is_default };
    // A hyperlink takes the link colour, again only over default ink.
    let ink2 = if f.link && ink_default { Ink::Link } else { ink1 };
    // The selection wins over everything; the faint band only tints.
    let (ink3, ground3) = if f.selected {
        (Ink::Selected, Ground::Selection)
    } else if f.last_band {
        (ink2, Ground::LastSelection)
    } else {
        (ink2, Ground::Cell)
    };
    // A search hit shows where there is no selection.
    let (ink4, ground4) = match f.search_hit {
        Some(active) => if !f.selected {
            (if active { Ink::SearchHit } else { ink3 }, if active { Ground::ActiveHit } else { Ground::OtherHit })
        } else {
            (ink3, ground3)
        },
        None => (ink3, ground3),
    };
    CellPaint { ink: ink4, ground: ground4, glyph: !(f.masked && !f.revealed), contrast_fix: !f.selected }
}

/// Paint one cell: tint (a rule's, else the detectors' with keyword tinting
/// on) over default ink, then the link colour over default ink, then the
/// selection (white on the band) or the faint band, then a search hit where
/// there is no selection; a masked, unrevealed cell draws no glyph.
pub fn cell_paint(f: CellFacts) -> (r: CellPaint)
    ensures
        r == spec_cell_paint(f),
{
    let tint: Option<HighlightColor> = match f.rule {
        Some(c) => Some(c),
        None => if f.keyword_highlight { f.detected } else { None },
    };
    let mut ink = Ink::Cell;
    let mut ink_default = f.ink_is_default;
    if let Some(c) = tint {
        if f.ink_is_default {
            ink = Ink::Tint(c);
            ink_default = f.tint_is_default;
        }
    }
    if f.link && ink_default {
        ink = Ink::Link;
    }
    let mut ground = Ground::Cell;
    if f.selected {
        ink = Ink::Selected;
        ground = Ground::Selection;
    } else if f.last_band {
        ground = Ground::LastSelection;
    }
    if let Some(active) = f.search_hit {
        if !f.selected {
            if active {
                ground = Ground::ActiveHit;
                ink = Ink::SearchHit;
            } else {
                ground = Ground::OtherHit;
            }
        }
    }
    CellPaint { ink, ground, glyph: !(f.masked && !f.revealed), contrast_fix: !f.selected }
}

/// The live selection is authoritative: a selected cell always paints white
/// on the selection band, whatever tint, link, faint band or search hit also
/// covers it, and smart contrast leaves it alone.
pub proof fn law_selection_wins(f: CellFacts)
    requires
        f.selected,
    ensures
        spec_cell_paint(f).ink == Ink::Selected,
        spec_cell_paint(f).ground == Ground::Selection,
        !spec_cell_paint(f).contrast_fix,
{
}

/// Colour the application chose is never overridden by a tint or by the
/// link colour: a cell whose ink is not the default keeps its own ink
/// unless it is selected or the active search hit.
pub proof fn law_application_colour_is_kept(f: CellFacts)
    requires
        !f.ink_is_default,
        !f.selected,
        f.search_hit != Some(true),
    ensures
        spec_cell_paint(f).ink == Ink::Cell,
{
}

/// A user rule is asked for by name: over default ink it wins over the
/// detectors, and it tints even with keyword tinting off.
pub proof fn law_rules_beat_detectors(f: CellFacts)
    requires
        f.rule is Some,
        f.ink_is_default,
        !f.selected,
        !(f.link && f.tint_is_default),
        f.search_hit != Some(true),
    ensures
        spec_cell_paint(f).ink == Ink::Tint(f.rule->0),
{
}

/// A masked cell hides its glyph exactly while its span is not revealed;
/// masking never changes the cell's colours.
pub proof fn law_masking_only_hides_the_glyph(f: CellFacts)
    ensures
        spec_cell_paint(f).glyph == !(f.masked && !f.revealed),
        spec_cell_paint(CellFacts { masked: !f.masked, ..f }).ink == spec_cell_paint(f).ink,
        spec_cell_paint(CellFacts { masked: !f.masked, ..f }).ground == spec_cell_paint(f).ground,
{
}

} // verus!
