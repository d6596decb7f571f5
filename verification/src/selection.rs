//! Selection geometry in grid-line coordinates.
use vstd::prelude::*;

verus! {

/// A selection range stored in grid-line coordinates (`(col, line)`, line
/// signed: negative lines are scrollback, `0..screen_lines` the live
/// screen), so the selection follows the content as the view scrolls.
#[derive(Debug, Clone, Copy)]
pub struct Selection {
    pub start: (u16, i32),
    pub end: (u16, i32),
    /// A rectangular (column / block) selection: every row takes the same
    /// `[min_col, max_col]` slice instead of the flowing line-by-line range.
    pub block: bool,
}

/// Reading order of cells: by line, then by column.
pub open spec fn cell_le(x: (u16, i32), y: (u16, i32)) -> bool {
    x.1 < y.1 || (x.1 == y.1 && x.0 <= y.0)
}

pub open spec fn cell_lt(x: (u16, i32), y: (u16, i32)) -> bool {
    x.1 < y.1 || (x.1 == y.1 && x.0 < y.0)
}

pub open spec fn spec_ordered(s: Selection) -> ((u16, i32), (u16, i32)) {
    if cell_le(s.start, s.end) {
        (s.start, s.end)
    } else {
        (s.end, s.start)
    }
}

pub open spec fn spec_union(a: Selection, b: Selection) -> Selection {
    let (a0, a1) = spec_ordered(a);
    let (b0, b1) = spec_ordered(b);
    Selection {
        start: if cell_lt(a0, b0) { a0 } else { b0 },
        end: if cell_lt(a1, b1) { b1 } else { a1 },
        block: false,
    }
}

/// The cell `c` lies in the flowing range of `s`.
pub open spec fn in_flow(s: Selection, c: (u16, i32)) -> bool {
    cell_le(spec_ordered(s).0, c) && cell_le(c, spec_ordered(s).1)
}

fn cell_le_exec(x: (u16, i32), y: (u16, i32)) -> (r: bool)
    ensures
        r == cell_le(x, y),
{
    x.1 < y.1 || (x.1 == y.1 && x.0 <= y.0)
}

fn cell_lt_exec(x: (u16, i32), y: (u16, i32)) -> (r: bool)
    ensures
        r == cell_lt(x, y),
{
    x.1 < y.1 || (x.1 == y.1 && x.0 < y.0)
}

impl Selection {
    /// `(start, end)` in reading order, top-left to bottom-right. Only
    /// meaningful for flowing selections; block selections use
    /// [`Selection::block_bounds`].
    pub fn ordered(&self) -> (r: ((u16, i32), (u16, i32)))
        ensures
            r == spec_ordered(*self),
            cell_le(r.0, r.1),
    {
        if cell_le_exec(self.start, self.end) {
            (self.start, self.end)
        } else {
            (self.end, self.start)
        }
    }

    /// `(min_col, max_col, min_line, max_line)` of the rectangle spanned by
    /// the two corners, each axis ordered on its own.
    pub fn block_bounds(&self) -> (r: (u16, u16, i32, i32))
        ensures
            r.0 == (if self.start.0 <= self.end.0 { self.start.0 } else { self.end.0 }),
            r.1 == (if self.start.0 <= self.end.0 { self.end.0 } else { self.start.0 }),
            r.2 == (if self.start.1 <= self.end.1 { self.start.1 } else { self.end.1 }),
            r.3 == (if self.start.1 <= self.end.1 { self.end.1 } else { self.start.1 }),
    {
        let c0 = if self.start.0 <= self.end.0 { self.start.0 } else { self.end.0 };
        let c1 = if self.start.0 <= self.end.0 { self.end.0 } else { self.start.0 };
        let l0 = if self.start.1 <= self.end.1 { self.start.1 } else { self.end.1 };
        let l1 = if self.start.1 <= self.end.1 { self.end.1 } else { self.start.1 };
        (c0, c1, l0, l1)
    }

    /// Both corners are the same cell.
    pub fn is_empty(&self) -> (r: bool)
        ensures
            r == (self.start == self.end),
    {
        self.start.0 == self.end.0 && self.start.1 == self.end.1
    }
}

/// Granularity of a double / triple / quadruple-click selection; a plain
/// single-click drag is per cell and has no granularity.
#[derive(Debug, Clone, Copy, PartialEq, Eq, Structural)]
pub enum SelectGranularity {
    Word,
    Line,
    Paragraph,
}

pub open spec fn spec_next_click_count(prev: Option<u8>, consecutive: bool) -> u8 {
    match prev {
        Some(c) => if consecutive { ((c % 4) + 1) as u8 } else { 1 },
        None => 1,
    }
}

/// Next click count from the previous one and whether this press is
/// consecutive (inside the time and distance window of the last press):
/// cycles 1, 2, 3, 4 and back to 1.
pub fn next_click_count(prev: Option<u8>, consecutive: bool) -> (r: u8)
    ensures
        r == spec_next_click_count(prev, consecutive),
        1 <= r <= 4,
{
    match prev {
        Some(c) if consecutive => (c % 4) + 1,
        _ => 1,
    }
}

/// The flowing range from the earlier ordered start to the later ordered end
/// of two selections (extending a word / line drag).
pub fn union_selection(a: Selection, b: Selection) -> (r: Selection)
    ensures
        r == spec_union(a, b),
{
    let (a0, a1) = a.ordered();
    let (b0, b1) = b.ordered();
    Selection {
        start: if cell_lt_exec(a0, b0) { a0 } else { b0 },
        end: if cell_lt_exec(a1, b1) { b1 } else { a1 },
        block: false,
    }
}

pub open spec fn in_block(s: Selection, col: u16, line: i32) -> bool {
    let c0 = if s.start.0 <= s.end.0 { s.start.0 } else { s.end.0 };
    let c1 = if s.start.0 <= s.end.0 { s.end.0 } else { s.start.0 };
    let l0 = if s.start.1 <= s.end.1 { s.start.1 } else { s.end.1 };
    let l1 = if s.start.1 <= s.end.1 { s.end.1 } else { s.start.1 };
    l0 <= line <= l1 && c0 <= col <= c1
}

/// Whether the cell `(col, line)` is drawn as selected: inside the rectangle
/// for a block selection, inside the reading-order range otherwise.
pub fn is_in_selection(sel: &Selection, col: u16, line: i32) -> (r: bool)
    ensures
        sel.block ==> r == in_block(*sel, col, line),
        !sel.block ==> r == in_flow(*sel, (col, line)),
{
    if sel.block {
        let (c0, c1, l0, l1) = sel.block_bounds();
        return line >= l0 && line <= l1 && col >= c0 && col <= c1;
    }
    let (start, end) = sel.ordered();
    if start.1 == end.1 {
        line == start.1 && col >= start.0 && col <= end.0
    } else if line == start.1 {
        col >= start.0
    } else if line == end.1 {
        col <= end.0
    } else {
        line > start.1 && line < end.1
    }
}

/// A run of consecutive presses counts 1, 2, 3, 4, 1, 2, ...: the count after
/// a consecutive press is one more than the last, modulo four.
pub proof fn law_click_count_cycles(prev: u8)
    requires
        1 <= prev <= 4,
    ensures
        spec_next_click_count(Some(prev), true) == (if prev == 4 { 1 } else { prev + 1 }),
        spec_next_click_count(Some(prev), false) == 1,
        spec_next_click_count(None, true) == 1,
{
}

/// The union of two selections covers every cell of both flowing ranges, its
/// corners are corners of the two, and it is ordered.
pub proof fn law_union_covers_both(a: Selection, b: Selection, c: (u16, i32))
    ensures
        in_flow(a, c) ==> in_flow(spec_union(a, b), c),
        in_flow(b, c) ==> in_flow(spec_union(a, b), c),
        spec_union(a, b).start == spec_ordered(a).0 || spec_union(a, b).start == spec_ordered(b).0,
        spec_union(a, b).end == spec_ordered(a).1 || spec_union(a, b).end == spec_ordered(b).1,
        cell_le(spec_union(a, b).start, spec_union(a, b).end),
        spec_ordered(spec_union(a, b)) == (spec_union(a, b).start, spec_union(a, b).end),
{
}

/// The union does not depend on the order of its arguments.
pub proof fn law_union_commutes(a: Selection, b: Selection)
    ensures
        spec_union(a, b) == spec_union(b, a),
{
}

/// A selection unioned with itself is its own flowing range.
pub proof fn law_union_idempotent(a: Selection)
    ensures
        spec_union(a, a) == (Selection {
            start: spec_ordered(a).0,
            end: spec_ordered(a).1,
            block: false,
        }),
{
}

} // verus!
