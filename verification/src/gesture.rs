//! The selection gestures of the left and right mouse buttons, as decisions
//! on plain values: what a press makes of the selection, how a drag extends
//! it, what a release finishes (and whether it copies), and what a right
//! press does under each right-click scheme. The host performs the outside
//! work (word and line search, clipboard, redraw) the decisions ask for.
use vstd::prelude::*;
use crate::selection::{Selection, SelectGranularity};
use crate::grid::GridView;

verus! {

/// What a right press does (PuTTY's three schemes).
#[derive(Debug, Clone, Copy, PartialEq, Eq, Structural)]
pub enum RightClickAction {
    /// Open the context menu.
    Menu,
    /// Paste (or, with copy-on-select and right-click-copy, copy a live
    /// selection instead).
    Paste,
    /// Extend the selection to the click, then copy it.
    Extend,
}

/// Whether copy-on-select's copy at release is deferred to a right press: the
/// right-click-copy option only exists under the Paste scheme, so a stale
/// flag left from another scheme never defers.
pub fn defers_copy_to_right_click(right_click_copy: bool, action: RightClickAction) -> (r: bool)
    ensures
        r == (right_click_copy && action == RightClickAction::Paste),
{
    right_click_copy && action == RightClickAction::Paste
}

/// The selection gesture in progress.
#[derive(Debug, Clone, Copy)]
pub struct Gesture {
    /// The live selection.
    pub selection: Option<Selection>,
    /// For a word / line / paragraph gesture: its granularity and the cell
    /// it started on; a drag grows from there.
    pub anchor: Option<(SelectGranularity, (u16, i32))>,
    /// The left button is down on a selection gesture.
    pub selecting: bool,
    /// The last cell a drag recomputed the selection for.
    pub last_extend_cell: Option<(u16, i32)>,
}

/// What a left press on the grid makes of the selection (once the scrollbar
/// and Ctrl+click on a link have passed on it).
pub open spec fn spec_press(
    g: Gesture,
    shift: bool,
    alt: bool,
    count: u8,
    cell: (u16, i32),
    smart: Option<(u16, u16)>,
) -> (Gesture, Option<SelectGranularity>) {
    if shift && g.selection is Some {
        let prev = g.selection->0;
        (
            Gesture {
                selection: Some(Selection { start: prev.start, end: cell, block: prev.block }),
                anchor: None,
                selecting: true,
                last_extend_cell: Some(cell),
            },
            None,
        )
    } else if count == 1 {
        (
            Gesture {
                selection: Some(Selection { start: cell, end: cell, block: alt }),
                anchor: None,
                selecting: true,
                last_extend_cell: Some(cell),
            },
            None,
        )
    } else if count == 2 && smart is Some {
        let (c0, c1) = smart->0;
        (
            Gesture {
                selection: Some(Selection { start: (c0, cell.1), end: (c1, cell.1), block: false }),
                anchor: None,
                selecting: true,
                last_extend_cell: Some(cell),
            },
            None,
        )
    } else {
        let gran = if count == 2 {
            SelectGranularity::Word
        } else if count == 3 {
            SelectGranularity::Line
        } else {
            SelectGranularity::Paragraph
        };
        (
            Gesture { selection: g.selection, anchor: Some((gran, cell)), selecting: true, last_extend_cell: Some(cell) },
            Some(gran),
        )
    }
}

/// A left press at `cell`, the `count`-th of a run of quick presses (1 to
/// 4), with `smart` the URL / address / path token under a double click, if
/// any.
///
/// Shift+click extends the live selection from its start to the cell,
/// keeping its block-ness. Otherwise a single press starts an empty
/// selection at the cell (a block one under Alt); a double press on a token
/// selects the token; a double press elsewhere, a triple and a quadruple
/// press ask for the word, line or paragraph around the cell (returned),
/// anchored there for the drag. The selection the host then computes for
/// such a request replaces `selection`.
pub fn press(g: Gesture, shift: bool, alt: bool, count: u8, cell: (u16, i32), smart: Option<(u16, u16)>) -> (r: (
    Gesture,
    Option<SelectGranularity>,
))
    ensures
        r == spec_press(g, shift, alt, count, cell, smart),
{
    if shift && g.selection.is_some() {
        let prev = g.selection.unwrap();
        return (
            Gesture {
                selection: Some(Selection { start: prev.start, end: cell, block: prev.block }),
                anchor: None,
                selecting: true,
                last_extend_cell: Some(cell),
            },
            None,
        );
    }
    if count == 1 {
        return (
            Gesture {
                selection: Some(Selection { start: cell, end: cell, block: alt }),
                anchor: None,
                selecting: true,
                last_extend_cell: Some(cell),
            },
            None,
        );
    }
    if count == 2 {
        if let Some((c0, c1)) = smart {
            return (
                Gesture {
                    selection: Some(Selection { start: (c0, cell.1), end: (c1, cell.1), block: false }),
                    anchor: None,
                    selecting: true,
                    last_extend_cell: Some(cell),
                },
                None,
            );
        }
    }
    let gran = if count == 2 {
        SelectGranularity::Word
    } else if count == 3 {
        SelectGranularity::Line
    } else {
        SelectGranularity::Paragraph
    };
    (Gesture { selection: g.selection, anchor: Some((gran, cell)), selecting: true, last_extend_cell: Some(cell) }, Some(gran))
}

/// What a drag of the pointer to `cell` does to a gesture in progress.
pub open spec fn spec_drag(g: Gesture, cell: (u16, i32)) -> (Gesture, Option<(SelectGranularity, (u16, i32))>) {
    if !g.selecting {
        (g, None)
    } else if g.anchor is Some {
        if g.last_extend_cell == Some(cell) {
            (g, None)
        } else {
            (Gesture { last_extend_cell: Some(cell), ..g }, g.anchor)
        }
    } else if g.selection is Some {
        let s = g.selection->0;
        (Gesture { selection: Some(Selection { end: cell, ..s }), ..g }, None)
    } else {
        (g, None)
    }
}

/// The pointer dragged to `cell` while the button is down. A cell-wise
/// gesture moves the selection's end to the cell. A word / line / paragraph
/// gesture asks (once per cell crossed) for the unit around its anchor and
/// the unit around the cell, whose union (see `union_selection`) becomes the
/// selection.
pub fn drag(g: Gesture, cell: (u16, i32)) -> (r: (Gesture, Option<(SelectGranularity, (u16, i32))>))
    ensures
        r == spec_drag(g, cell),
{
    if !g.selecting {
        return (g, None);
    }
    match g.anchor {
        Some(a) => {
            match g.last_extend_cell {
                Some(c) => {
                    if c.0 == cell.0 && c.1 == cell.1 {
                        return (g, None);
                    }
                },
                None => {},
            }
            (Gesture { last_extend_cell: Some(cell), ..g }, Some(a))
        },
        None => {
            match g.selection {
                Some(s) => (Gesture { selection: Some(Selection { end: cell, ..s }), ..g }, None),
                None => (g, None),
            }
        },
    }
}

/// What a left release asks of the host.
#[derive(Debug, Clone, Copy)]
pub struct ReleasePlan {
    /// The finished selection: its text (when not empty) becomes the
    /// PRIMARY selection.
    pub finished: Option<Selection>,
    /// The finished selection's text is also copied to the clipboard.
    pub auto_copy: bool,
    /// The release ended a scrollbar drag: redraw and stop here.
    pub end_scrollbar_drag: bool,
    /// A plain click (no drag, no word / line / paragraph): the host may
    /// toggle the privacy reveal of the value under it, or offer the
    /// "hold Ctrl to open" hint on a link.
    pub plain_click: bool,
    /// The release belongs to this terminal whatever the pointer is over;
    /// otherwise only a release over the canvas is kept, so a release over
    /// a sibling widget reaches it.
    pub owned: bool,
}

pub open spec fn spec_release(
    g: Gesture,
    scrollbar_drag: bool,
    copy_on_select: bool,
    right_click_copy: bool,
    action: RightClickAction,
) -> (Gesture, ReleasePlan) {
    let semantic = g.anchor is Some;
    let finished = if g.selecting && g.selection is Some && (g.selection->0.start != g.selection->0.end
        || semantic) {
        g.selection
    } else {
        None
    };
    (
        Gesture { selection: g.selection, anchor: None, selecting: false, last_extend_cell: None },
        ReleasePlan {
            finished,
            auto_copy: finished is Some && copy_on_select && !(right_click_copy && action
                == RightClickAction::Paste),
            end_scrollbar_drag: scrollbar_drag,
            plain_click: g.selecting && !semantic && g.selection is Some && g.selection->0.start
                == g.selection->0.end,
            owned: g.selecting || semantic,
        },
    )
}

/// A left release. The gesture ends (no longer selecting, no anchor). A
/// selection that moved, or any word / line / paragraph one (a one-letter
/// word is still intentional), is finished; copy-on-select copies it unless
/// the copy is deferred to a right press.
pub fn release(
    g: Gesture,
    scrollbar_drag: bool,
    copy_on_select: bool,
    right_click_copy: bool,
    action: RightClickAction,
) -> (r: (Gesture, ReleasePlan))
    ensures
        r == spec_release(g, scrollbar_drag, copy_on_select, right_click_copy, action),
{
    let semantic = g.anchor.is_some();
    let moved_or_semantic = match g.selection {
        Some(s) => !s.is_empty() || semantic,
        None => false,
    };
    let finished = if g.selecting && moved_or_semantic { g.selection } else { None };
    let empty_sel = match g.selection {
        Some(s) => s.is_empty(),
        None => false,
    };
    let plan = ReleasePlan {
        finished,
        auto_copy: finished.is_some() && copy_on_select && !defers_copy_to_right_click(right_click_copy, action),
        end_scrollbar_drag: scrollbar_drag,
        plain_click: g.selecting && !semantic && empty_sel,
        owned: g.selecting || semantic,
    };
    (Gesture { selection: g.selection, anchor: None, selecting: false, last_extend_cell: None }, plan)
}

/// What a right press does.
pub enum RightPress {
    /// Open the context menu, offering to copy this selection (when there is
    /// a non-empty one).
    Menu(Option<Selection>),
    /// Extend this flowing selection to the click and copy it; nothing to do
    /// when there is none (or it is a block).
    Extend(Option<Selection>),
    /// Copy this live selection instead of pasting, then clear it.
    CopyAndClear(Selection),
    /// Paste.
    Paste,
}

pub open spec fn nonempty(s: Option<Selection>) -> Option<Selection> {
    match s {
        Some(x) => if x.start != x.end { Some(x) } else { None },
        None => None,
    }
}

/// A right press under `action`, with the live selection `sel`.
pub fn right_press(action: RightClickAction, copy_on_select: bool, right_click_copy: bool, sel: Option<Selection>) -> (r: RightPress)
    ensures
        match action {
            RightClickAction::Menu => r == RightPress::Menu(nonempty(sel)),
            RightClickAction::Extend => r == RightPress::Extend(
                match sel {
                    Some(s) => if !s.block { Some(s) } else { None },
                    None => None,
                },
            ),
            RightClickAction::Paste => if copy_on_select && right_click_copy && nonempty(sel) is Some {
                r == RightPress::CopyAndClear(sel->0)
            } else {
                r == RightPress::Paste
            },
        },
{
    let live: Option<Selection> = match sel {
        Some(s) => if !s.is_empty() { Some(s) } else { None },
        None => None,
    };
    match action {
        RightClickAction::Menu => RightPress::Menu(live),
        RightClickAction::Extend => RightPress::Extend(
            match sel {
                Some(s) => if !s.block { Some(s) } else { None },
                None => None,
            },
        ),
        RightClickAction::Paste => {
            if copy_on_select && right_click_copy {
                if let Some(s) = live {
                    return RightPress::CopyAndClear(s);
                }
            }
            RightPress::Paste
        },
    }
}

/// The select-all chord: the whole buffer, from column 0 of the oldest
/// scrollback line to the last column of the last screen row.
pub fn select_all(g: &GridView) -> (r: Selection)
    requires
        g.wf(),
    ensures
        r == (Selection { start: (0, g.top() as i32), end: ((g.cols - 1) as u16, g.bottom() as i32), block: false }),
{
    let top: i64 = -(g.history as i64);
    let bottom: i64 = g.rows.len() as i64 - g.history as i64 - 1;
    Selection { start: (0, top as i32), end: ((g.cols - 1) as u16, bottom as i32), block: false }
}

/// The text a paste of the PRIMARY selection (the keyboard twin of a
/// middle click) should insert. Where the platform owns a PRIMARY selection
/// the host resolves it, starting from this pane's remembered text (empty
/// when there is none). Elsewhere the buffer is this pane's alone: under
/// copy-on-select every paste reads the clipboard instead (`None`), and so
/// does a pane where nothing was ever selected. The paste also drops the
/// live highlight and ends any gesture.
pub fn paste_selection(g: Gesture, platform_primary: bool, copy_on_select: bool, remembered: Option<String>) -> (r: (
    Gesture,
    Option<String>,
))
    ensures
        r.0 == (Gesture { selection: None, anchor: None, selecting: false, last_extend_cell: g.last_extend_cell }),
        platform_primary ==> r.1 is Some && r.1->0@ == (match remembered {
            Some(t) => t@,
            None => Seq::<char>::empty(),
        }),
        !platform_primary && copy_on_select ==> r.1 is None,
        !platform_primary && !copy_on_select ==> (r.1 is Some <==> remembered is Some) && (r.1 is Some
            ==> r.1->0@ == remembered->0@),
{
    let cleared = Gesture { selection: None, anchor: None, selecting: false, last_extend_cell: g.last_extend_cell };
    let text = if platform_primary {
        match remembered {
            Some(t) => Some(t),
            None => Some(String::new()),
        }
    } else if copy_on_select {
        None
    } else {
        remembered
    };
    (cleared, text)
}

/// Focus bookkeeping done at every event: the latch `ever_focused` turns
/// true the first time the pane is seen focused and never goes back; a pane
/// that lost focus (unfocused now, focused before) drops its highlight, so
/// only one pane of a split shows one. A surface never focused (a replay
/// stage) keeps its selection. Returns the latch, the gesture and whether
/// the highlight was dropped (a redraw).
pub fn focus(g: Gesture, focused: bool, ever_focused: bool) -> (r: (bool, Gesture, bool))
    ensures
        r.0 == (ever_focused || focused),
        r.2 == (!focused && ever_focused && (g.selection is Some || g.selecting)),
        r.1 == (if r.2 { Gesture { selection: None, selecting: false, ..g } } else { g }),
{
    let latch = ever_focused || focused;
    if !focused && latch && (g.selection.is_some() || g.selecting) {
        (latch, Gesture { selection: None, selecting: false, ..g }, true)
    } else {
        (latch, g, false)
    }
}

/// What a key press does to the pane.
pub enum KeyOutcome {
    /// A chord the pane performs (copy, select-all, paging, ...).
    Chord,
    /// Typing dismisses the live highlight; the key itself still goes on
    /// to the program (it is not captured).
    Dismiss(Gesture),
    /// Nothing here.
    Ignore,
}

/// A key press. A bound chord runs when the pane is focused, or unfocused
/// when the surface opts in (a replay stage's only way to copy); otherwise
/// any key but a bare modifier, on a focused pane, dismisses the live
/// selection and any word / line gesture.
pub fn key_press(g: Gesture, focused: bool, chords_unfocused: bool, is_chord: bool, bare_modifier: bool) -> (r: KeyOutcome)
    ensures
        (focused || chords_unfocused) && is_chord ==> r is Chord,
        !((focused || chords_unfocused) && is_chord) && focused && !bare_modifier && (g.selection is Some
            || g.anchor is Some) ==> r == KeyOutcome::Dismiss(
            Gesture { selection: None, anchor: None, selecting: false, ..g },
        ),
        !((focused || chords_unfocused) && is_chord) && !(focused && !bare_modifier && (g.selection is Some
            || g.anchor is Some)) ==> r is Ignore,
{
    if (focused || chords_unfocused) && is_chord {
        KeyOutcome::Chord
    } else if focused && !bare_modifier && (g.selection.is_some() || g.anchor.is_some()) {
        KeyOutcome::Dismiss(Gesture { selection: None, anchor: None, selecting: false, ..g })
    } else {
        KeyOutcome::Ignore
    }
}

/// Shift+click keeps the selection's start and its block-ness and moves only
/// its end, and a plain single press starts an empty selection: neither
/// asks for a word, line or paragraph.
pub proof fn law_shift_click_keeps_the_start(g: Gesture, alt: bool, count: u8, cell: (u16, i32), smart: Option<(u16, u16)>)
    requires
        g.selection is Some,
    ensures
        ({
            let (n, ask) = spec_press(g, true, alt, count, cell, smart);
            &&& n.selection == Some(Selection { start: g.selection->0.start, end: cell, block: g.selection->0.block })
            &&& ask is None
        }),
        ({
            let (n, ask) = spec_press(g, false, alt, 1, cell, smart);
            &&& n.selection == Some(Selection { start: cell, end: cell, block: alt })
            &&& ask is None
        }),
{
}

/// A release always ends the gesture, and a plain click (a press and a
/// release on one cell, cell-wise) finishes nothing, so it never copies.
pub proof fn law_a_plain_click_never_copies(
    g: Gesture,
    cell: (u16, i32),
    alt: bool,
    scrollbar_drag: bool,
    copy_on_select: bool,
    right_click_copy: bool,
    action: RightClickAction,
)
    ensures
        ({
            let (n, _) = spec_release(g, scrollbar_drag, copy_on_select, right_click_copy, action);
            !n.selecting && n.anchor is None && n.last_extend_cell is None
        }),
        ({
            let (p, _) = spec_press(g, false, alt, 1, cell, None);
            let (_, plan) = spec_release(p, scrollbar_drag, copy_on_select, right_click_copy, action);
            plan.finished is None && !plan.auto_copy && plan.plain_click
        }),
{
}

/// The copy at release happens only with copy-on-select on and never when
/// it is deferred to a right press; a release that was no selection gesture
/// is not claimed by this terminal.
pub proof fn law_auto_copy_follows_the_settings(
    g: Gesture,
    scrollbar_drag: bool,
    copy_on_select: bool,
    right_click_copy: bool,
    action: RightClickAction,
)
    ensures
        ({
            let (_, plan) = spec_release(g, scrollbar_drag, copy_on_select, right_click_copy, action);
            &&& plan.auto_copy ==> copy_on_select && plan.finished is Some
            &&& plan.auto_copy ==> !(right_click_copy && action == RightClickAction::Paste)
            &&& !g.selecting && g.anchor is None ==> !plan.owned && plan.finished is None
        }),
{
}

} // verus!
