//! Viewport bookkeeping: keeping a scrolled-back view on the same rows.
use vstd::prelude::*;

verus! {

pub open spec fn spec_pin(offset: i32, anchor_history: Option<i32>, history: i32) -> (i32, Option<i32>) {
    if offset == 0 {
        (0, None)
    } else {
        match anchor_history {
            None => (offset, Some(history)),
            Some(a) => if history < a {
                (offset, None)
            } else {
                let grown = offset + (history - a);
                (if grown > i32::MAX { i32::MAX } else { grown as i32 }, Some(history))
            },
        }
    }
}

/// Keep a scrolled-back viewport on the same absolute rows while output
/// arrives. `offset` counts lines above the live edge and `anchor_history`
/// is the history size the offset was last measured against.
///
/// At the live edge (`offset == 0`) the anchor is dropped. Without an anchor
/// the offset is kept and the present history becomes the anchor. A history
/// that shrank since the anchor drops it (the old lines are gone); one that
/// grew raises the offset by the growth (saturating at `i32::MAX`).
pub fn pin_scrolled_offset(offset: i32, anchor_history: Option<i32>, history: i32) -> (r: (
    i32,
    Option<i32>,
))
    ensures
        r == spec_pin(offset, anchor_history, history),
{
    if offset == 0 {
        return (0, None);
    }
    match anchor_history {
        None => (offset, Some(history)),
        Some(a) => {
            if history < a {
                (offset, None)
            } else {
                let growth: i64 = history as i64 - a as i64;
                let grown: i64 = offset as i64 + growth;
                let pinned: i32 = if grown > i32::MAX as i64 { i32::MAX } else { grown as i32 };
                (pinned, Some(history))
            }
        },
    }
}

/// Grid line shown on visible row `visible_row` when the view is scrolled
/// `scroll_offset` lines back (row 0 is the top of the canvas).
pub fn visible_row_to_line(visible_row: u16, scroll_offset: i32) -> (line: i32)
    requires
        i32::MIN <= visible_row - scroll_offset <= i32::MAX,
    ensures
        line == visible_row - scroll_offset,
{
    visible_row as i32 - scroll_offset
}

/// A pinned view shows the same absolute rows across output: as long as the
/// history only grows (and no saturation occurs), the distance of the view
/// from the oldest history line, `history - offset`, does not change.
pub proof fn law_pinned_view_keeps_its_rows(offset: i32, anchor: i32, history: i32)
    requires
        offset != 0,
        anchor <= history,
        offset + (history - anchor) <= i32::MAX,
    ensures
        spec_pin(offset, Some(anchor), history).1 == Some(history),
        history - spec_pin(offset, Some(anchor), history).0 == anchor - offset,
{
}

/// Pinning twice against the same history changes nothing the second time
/// (unless the first pin landed on the live edge).
pub proof fn law_pin_is_idempotent(offset: i32, anchor: Option<i32>, history: i32)
    requires
        spec_pin(offset, anchor, history).0 != 0,
    ensures
        ({
            let once = spec_pin(offset, anchor, history);
            once.1 is Some ==> spec_pin(once.0, once.1, history) == once
        }),
{
}

/// At the live edge there is never an anchor, and a shrunken history never
/// keeps one.
pub proof fn law_live_edge_and_shrink_drop_the_anchor(offset: i32, anchor: i32, history: i32)
    ensures
        spec_pin(0, Some(anchor), history) == (0i32, Option::<i32>::None),
        offset != 0 && history < anchor ==> spec_pin(offset, Some(anchor), history) == (
            offset,
            Option::<i32>::None,
        ),
{
}

/// Whether a resize request changes the grid: it must differ from the
/// current size and keep at least two columns and two rows.
pub fn resize_accepted(cur_cols: u16, cur_rows: u16, cols: u16, rows: u16) -> (r: bool)
    ensures
        r == (!(cols == cur_cols && rows == cur_rows) && cols >= 2 && rows >= 2),
{
    if cols == cur_cols && rows == cur_rows {
        return false;
    }
    cols >= 2 && rows >= 2
}

} // verus!
