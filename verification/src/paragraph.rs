//! Growing a click into a selection: the click is first pulled into the
//! grid, and a triple-click-and-more selects the paragraph around it, the run
//! of non-blank rows bounded by blank rows, full width.
use vstd::prelude::*;
use crate::grid::{GridView, GridCell};
use crate::selection::Selection;

verus! {

/// A cell that reads as empty: a space or a NUL.
pub open spec fn blank_char(c: char) -> bool {
    c == ' ' || c == '\0'
}

/// Every cell of grid line `line` is blank.
pub open spec fn row_is_blank(g: GridView, line: int) -> bool {
    forall|c: int| 0 <= c < g.cols ==> blank_char(#[trigger] g.row(line)[c].c)
}

/// The click pulled into the grid: the column onto the last column at most,
/// the line into `[top, bottom]`.
pub open spec fn spec_clamp_click(g: GridView, col: u16, line: i32) -> (u16, i32) {
    (
        if col < g.cols { col } else { (g.cols - 1) as u16 },
        if line < g.top() { g.top() as i32 } else if line > g.bottom() { g.bottom() as i32 } else { line },
    )
}

/// First line of the paragraph around `line`: walk up while the row above
/// is inside the grid and not blank.
pub open spec fn para_top(g: GridView, line: int) -> int
    decreases line - g.top(),
{
    if line > g.top() && !row_is_blank(g, line - 1) {
        para_top(g, line - 1)
    } else {
        line
    }
}

/// Last line of the paragraph around `line`: walk down while the row below
/// is inside the grid and not blank.
pub open spec fn para_bottom(g: GridView, line: int) -> int
    decreases g.bottom() - line,
{
    if line < g.bottom() && !row_is_blank(g, line + 1) {
        para_bottom(g, line + 1)
    } else {
        line
    }
}

pub open spec fn spec_paragraph_selection(g: GridView, col: u16, line: i32) -> Selection {
    let l = spec_clamp_click(g, col, line).1 as int;
    Selection {
        start: (0, para_top(g, l) as i32),
        end: ((g.cols - 1) as u16, para_bottom(g, l) as i32),
        block: false,
    }
}

proof fn lemma_para_top(g: GridView, line: int)
    requires
        g.has_line(line),
    ensures
        g.top() <= para_top(g, line) <= line,
        forall|l: int| para_top(g, line) <= l < line ==> !row_is_blank(g, l),
        para_top(g, line) == g.top() || row_is_blank(g, para_top(g, line) - 1),
    decreases line - g.top(),
{
    if line > g.top() && !row_is_blank(g, line - 1) {
        lemma_para_top(g, line - 1);
    }
}

proof fn lemma_para_bottom(g: GridView, line: int)
    requires
        g.has_line(line),
    ensures
        line <= para_bottom(g, line) <= g.bottom(),
        forall|l: int| line < l <= para_bottom(g, line) ==> !row_is_blank(g, l),
        para_bottom(g, line) == g.bottom() || row_is_blank(g, para_bottom(g, line) + 1),
    decreases g.bottom() - line,
{
    if line < g.bottom() && !row_is_blank(g, line + 1) {
        lemma_para_bottom(g, line + 1);
    }
}

/// Walking up from `b` passes every non-blank row down to `a`.
proof fn lemma_top_chain(g: GridView, a: int, b: int)
    requires
        g.has_line(a),
        a <= b <= g.bottom(),
        forall|l: int| a <= l < b ==> !row_is_blank(g, l),
    ensures
        para_top(g, b) == para_top(g, a),
    decreases b - a,
{
    if a < b {
        lemma_top_chain(g, a, b - 1);
    }
}

/// Walking down from `a` passes every non-blank row up to `b`.
proof fn lemma_bottom_chain(g: GridView, a: int, b: int)
    requires
        g.has_line(b),
        g.top() <= a <= b,
        forall|l: int| a < l <= b ==> !row_is_blank(g, l),
    ensures
        para_bottom(g, a) == para_bottom(g, b),
    decreases b - a,
{
    if a < b {
        lemma_bottom_chain(g, a + 1, b);
    }
}

/// The cell under a click, pulled into the grid: a click past the last
/// column or below the last row (pixel mapping does not clamp high) lands on
/// the nearest cell instead.
pub fn clamp_click(g: &GridView, col: u16, line: i32) -> (r: (u16, i32))
    requires
        g.wf(),
    ensures
        r == spec_clamp_click(*g, col, line),
        g.has_line(r.1 as int),
        r.0 < g.cols,
{
    let top: i64 = -(g.history as i64);
    let bottom: i64 = g.rows.len() as i64 - g.history as i64 - 1;
    let c: u16 = if (col as usize) < g.cols { col } else { (g.cols - 1) as u16 };
    let l: i32 = if (line as i64) < top {
        top as i32
    } else if (line as i64) > bottom {
        bottom as i32
    } else {
        line
    };
    (c, l)
}

fn row_is_blank_exec(g: &GridView, line: i64) -> (r: bool)
    requires
        g.wf(),
        g.has_line(line as int),
    ensures
        r == row_is_blank(*g, line as int),
{
    let k = (line + g.history as i64) as usize;
    assert(g.rows@[k as int]@.len() == g.cols);
    let row: &Vec<GridCell> = &g.rows[k];
    let mut c: usize = 0;
    while c < g.cols
        invariant
            c <= g.cols,
            row@ == g.row(line as int),
            row@.len() == g.cols,
            forall|j: int| 0 <= j < c ==> blank_char(#[trigger] g.row(line as int)[j].c),
        decreases g.cols - c,
    {
        let ch = row[c].c;
        if !(ch == ' ' || ch == '\0') {
            return false;
        }
        c = c + 1;
    }
    true
}

/// The paragraph around a click: the run of non-blank rows containing the
/// clicked line, bounded by blank rows or the ends of the grid, from column 0
/// of its first row to the last column of its last row.
pub fn paragraph_selection(g: &GridView, col: u16, line: i32) -> (r: Selection)
    requires
        g.wf(),
    ensures
        r == spec_paragraph_selection(*g, col, line),
{
    let (_, l) = clamp_click(g, col, line);
    let top: i64 = -(g.history as i64);
    let bottom: i64 = g.rows.len() as i64 - g.history as i64 - 1;
    let mut t: i64 = l as i64;
    while t > top && !row_is_blank_exec(g, t - 1)
        invariant
            g.wf(),
            top == g.top(),
            g.has_line(t as int),
            para_top(*g, t as int) == para_top(*g, l as int),
        decreases t - top,
    {
        t = t - 1;
    }
    let mut b: i64 = l as i64;
    while b < bottom && !row_is_blank_exec(g, b + 1)
        invariant
            g.wf(),
            bottom == g.bottom(),
            g.has_line(b as int),
            para_bottom(*g, b as int) == para_bottom(*g, l as int),
        decreases bottom - b,
    {
        b = b + 1;
    }
    Selection { start: (0, t as i32), end: ((g.cols - 1) as u16, b as i32), block: false }
}

/// The paragraph holds the clicked line; every other row of it is not blank;
/// the row just above it and the row just below it are blank, or it reaches
/// the top or the bottom of the grid. It spans whole rows.
pub proof fn law_paragraph_is_bounded_by_blank_rows(g: GridView, col: u16, line: i32)
    requires
        g.wf(),
    ensures
        ({
            let s = spec_paragraph_selection(g, col, line);
            let l = spec_clamp_click(g, col, line).1 as int;
            &&& g.top() <= s.start.1 <= l <= s.end.1 <= g.bottom()
            &&& forall|m: int| s.start.1 <= m <= s.end.1 && m != l ==> !row_is_blank(g, m)
            &&& s.start.1 == g.top() || row_is_blank(g, s.start.1 - 1)
            &&& s.end.1 == g.bottom() || row_is_blank(g, s.end.1 + 1)
            &&& s.start.0 == 0 && s.end.0 == g.cols - 1 && !s.block
        }),
{
    let l = spec_clamp_click(g, col, line).1 as int;
    lemma_para_top(g, l);
    lemma_para_bottom(g, l);
}

/// Clicking again anywhere inside a paragraph whose clicked row is not blank
/// selects the very same paragraph.
pub proof fn law_paragraph_is_stable_under_reclicks(g: GridView, col: u16, line: i32, col2: u16, line2: i32)
    requires
        g.wf(),
        !row_is_blank(g, spec_clamp_click(g, col, line).1 as int),
        spec_paragraph_selection(g, col, line).start.1 <= line2 <= spec_paragraph_selection(g, col, line).end.1,
    ensures
        spec_paragraph_selection(g, col2, line2) == spec_paragraph_selection(g, col, line),
{
    let l = spec_clamp_click(g, col, line).1 as int;
    lemma_para_top(g, l);
    lemma_para_bottom(g, l);
    let t = para_top(g, l);
    let b = para_bottom(g, l);
    assert(spec_clamp_click(g, col2, line2).1 == line2);
    assert forall|m: int| t <= m <= b implies !row_is_blank(g, m) by {
        if m < l {
        } else if m > l {
        }
    }
    lemma_top_chain(g, t, line2 as int);
    lemma_top_chain(g, t, l);
    lemma_bottom_chain(g, line2 as int, b);
    lemma_bottom_chain(g, l, b);
}

} // verus!
