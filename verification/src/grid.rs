//! Text extraction from the terminal grid.
//!
//! [`GridView`] holds what the extraction reads of the emulator's grid: the
//! character and the three layout flags of every cell, the history size and
//! the cursor. Lines are numbered as the emulator numbers them: `0` is the
//! top of the live screen, negative lines are scrollback.
use vstd::prelude::*;
use crate::selection::{Selection, spec_ordered};
use crate::text::{spec_is_whitespace, is_whitespace, string_of};

verus! {

#[derive(Debug, Clone, Copy)]
pub struct GridCell {
    pub c: char,
    /// Trailing half of a double-width glyph.
    pub wide_spacer: bool,
    /// Ghost cell left at the end of a row when a double-width glyph wrapped
    /// whole to the next row.
    pub leading_wide_spacer: bool,
    /// The row continues on the next one (soft wrap); meaningful on the
    /// last cell of a row.
    pub wrapline: bool,
    /// OSC 8 hyperlink of the cell: `0` for none, otherwise `k` for
    /// `GridView::link_uris[k - 1]`. Two cells share a key exactly when they
    /// carry the same hyperlink id and target.
    pub link: u32,
}

pub struct GridView {
    /// Columns per row.
    pub cols: usize,
    /// Scrollback rows above line 0.
    pub history: usize,
    /// Every row, oldest first: `rows[history + line]` is grid line `line`.
    pub rows: Vec<Vec<GridCell>>,
    /// Grid line of the cursor (on the live screen).
    pub cursor_line: i32,
    /// Column of the cursor.
    pub cursor_col: usize,
    /// The alternate screen is active.
    pub alt_screen: bool,
    /// Targets of the hyperlinks the cells refer to.
    pub link_uris: Vec<String>,
}

impl GridView {
    /// The grid is well formed: at least one column and one screen row,
    /// every row `cols` wide (at most `u16::MAX` columns), line numbers within
    /// `i32`, the cursor
    /// on the live screen.
    pub open spec fn wf(&self) -> bool {
        &&& self.cols >= 1
        &&& self.cols <= u16::MAX
        &&& self.history < self.rows@.len()
        &&& self.rows@.len() <= i32::MAX
        &&& forall|k: int| 0 <= k < self.rows@.len() ==> (#[trigger] self.rows@[k])@.len() == self.cols
        &&& 0 <= self.cursor_line <= self.bottom()
    }

    /// Topmost line (oldest scrollback row).
    pub open spec fn top(&self) -> int {
        -(self.history as int)
    }

    /// Bottommost line (last row of the live screen).
    pub open spec fn bottom(&self) -> int {
        self.rows@.len() - self.history - 1
    }

    pub open spec fn has_line(&self, line: int) -> bool {
        self.top() <= line <= self.bottom()
    }

    /// The cells of grid line `line`.
    pub open spec fn row(&self, line: int) -> Seq<GridCell> {
        self.rows@[line + self.history]@
    }

    /// Grid line `line` soft-wraps into the next one.
    pub open spec fn wraps(&self, line: int) -> bool {
        self.row(line)[self.cols - 1].wrapline
    }
}

impl GridView {
    /// Whether the grid is well formed (see [`GridView::wf`]): a grid read
    /// from elsewhere is checked once before the extraction functions use it.
    pub fn is_well_formed(&self) -> (r: bool)
        ensures
            r == self.wf(),
    {
        if self.cols < 1 || self.cols > 65535 || self.history >= self.rows.len() || self.rows.len()
            > 0x7fff_ffff {
            return false;
        }
        let mut k: usize = 0;
        while k < self.rows.len()
            invariant
                k <= self.rows@.len(),
                forall|j: int| 0 <= j < k ==> (#[trigger] self.rows@[j])@.len() == self.cols,
            decreases self.rows@.len() - k,
        {
            if self.rows[k].len() != self.cols {
                return false;
            }
            k = k + 1;
        }
        let bottom: i64 = self.rows.len() as i64 - self.history as i64 - 1;
        0 <= self.cursor_line && (self.cursor_line as i64) <= bottom
    }
}

/// A cell contributes its character to copied text: written, not the
/// trailing half of a wide glyph, and (when `skip_leading`) not the ghost cell
/// of a wrapped wide glyph.
pub open spec fn keep_cell(cell: GridCell, skip_leading: bool) -> bool {
    cell.c != '\0' && !cell.wide_spacer && !(skip_leading && cell.leading_wide_spacer)
}

/// Characters of the kept cells in columns `a..b`.
pub open spec fn cells_text(row: Seq<GridCell>, a: int, b: int, skip_leading: bool) -> Seq<char>
    decreases b - a,
{
    if b <= a {
        seq![]
    } else {
        cells_text(row, a, b - 1, skip_leading) + if keep_cell(row[b - 1], skip_leading) {
            seq![row[b - 1].c]
        } else {
            seq![]
        }
    }
}

/// Length of `s` without its trailing whitespace.
pub open spec fn trim_len(s: Seq<char>) -> int
    decreases s.len(),
{
    if s.len() > 0 && spec_is_whitespace(s.last()) {
        trim_len(s.drop_last())
    } else {
        s.len() as int
    }
}

/// `s` without trailing whitespace (`str::trim_end`).
pub open spec fn trim_end(s: Seq<char>) -> Seq<char> {
    s.take(trim_len(s))
}

pub open spec fn all_whitespace(s: Seq<char>) -> bool {
    forall|k: int| 0 <= k < s.len() ==> spec_is_whitespace(#[trigger] s[k])
}

proof fn lemma_trim_len(s: Seq<char>)
    ensures
        0 <= trim_len(s) <= s.len(),
        forall|k: int| trim_len(s) <= k < s.len() ==> spec_is_whitespace(#[trigger] s[k]),
        trim_len(s) > 0 ==> !spec_is_whitespace(s[trim_len(s) - 1]),
    decreases s.len(),
{
    if s.len() > 0 && spec_is_whitespace(s.last()) {
        lemma_trim_len(s.drop_last());
        assert forall|k: int| trim_len(s) <= k < s.len() implies spec_is_whitespace(#[trigger] s[k]) by {
            if k < s.len() - 1 {
                assert(s.drop_last()[k] == s[k]);
            }
        }
    }
}

/// Append the kept characters of `row[a..b]` to `out`.
fn push_cells(row: &Vec<GridCell>, a: usize, b: usize, skip_leading: bool, out: &mut Vec<char>)
    requires
        a <= b <= row@.len(),
    ensures
        final(out)@ == old(out)@ + cells_text(row@, a as int, b as int, skip_leading),
{
    let mut c = a;
    while c < b
        invariant
            a <= c <= b <= row@.len(),
            out@ == old(out)@ + cells_text(row@, a as int, c as int, skip_leading),
        decreases b - c,
    {
        let cell = row[c];
        let ghost before = out@;
        if cell.c != '\0' && !cell.wide_spacer && !(skip_leading && cell.leading_wide_spacer) {
            out.push(cell.c);
        }
        assert(out@ =~= old(out)@ + cells_text(row@, a as int, c + 1, skip_leading));
        c = c + 1;
    }
}

/// Length of `v` without its trailing whitespace.
fn trimmed_len(v: &Vec<char>, a: usize) -> (r: usize)
    requires
        a <= v@.len(),
    ensures
        r == a + trim_len(v@.skip(a as int)),
{
    let mut n = v.len();
    proof {
        assert(v@.skip(a as int).take(n - a) =~= v@.skip(a as int));
    }
    while n > a && is_whitespace(v[n - 1])
        invariant
            a <= n <= v@.len(),
            trim_len(v@.skip(a as int).take(n - a)) == trim_len(v@.skip(a as int)),
        decreases n,
    {
        proof {
            let t = v@.skip(a as int).take(n - a);
            assert(t.last() == v@[n - 1]);
            assert(t.drop_last() =~= v@.skip(a as int).take(n - 1 - a));
        }
        n = n - 1;
    }
    proof {
        let t = v@.skip(a as int).take(n - a);
        if n > a {
            assert(t.last() == v@[n - 1]);
        }
    }
    n
}

/// Append `src[a..b]` to `out`.
fn append_range(out: &mut Vec<char>, src: &Vec<char>, a: usize, b: usize)
    requires
        a <= b <= src@.len(),
    ensures
        final(out)@ == old(out)@ + src@.subrange(a as int, b as int),
{
    let mut i = a;
    while i < b
        invariant
            a <= i <= b <= src@.len(),
            out@ == old(out)@ + src@.subrange(a as int, i as int),
        decreases b - i,
    {
        out.push(src[i]);
        assert(src@.subrange(a as int, i + 1) =~= src@.subrange(a as int, i as int).push(src@[i as int]));
        i = i + 1;
    }
}

/// Append `trim_end(src[a..])` (or all of `src[a..]` when `trim` is off).
fn append_tail(out: &mut Vec<char>, src: &Vec<char>, a: usize, trim: bool)
    requires
        a <= src@.len(),
    ensures
        final(out)@ == old(out)@ + if trim { trim_end(src@.skip(a as int)) } else { src@.skip(a as int) },
{
    let end = if trim { trimmed_len(src, a) } else { src.len() };
    proof {
        lemma_trim_len(src@.skip(a as int));
    }
    append_range(out, src, a, end);
    assert(src@.subrange(a as int, end as int) =~= if trim { trim_end(src@.skip(a as int)) } else { src@.skip(a as int) });
}

// ---------------------------------------------------------------------------
// Selection text
// ---------------------------------------------------------------------------

/// Inclusive column range a flowing selection takes on `line`, before
/// clamping to the last column.
pub open spec fn flow_cols(start: (u16, i32), end: (u16, i32), line: int, last_col: int) -> (int, int) {
    if start.1 == end.1 {
        (start.0 as int, end.0 as int)
    } else if line == start.1 {
        (start.0 as int, last_col)
    } else if line == end.1 {
        (0, end.0 as int)
    } else {
        (0, last_col)
    }
}

pub open spec fn min_int(a: int, b: int) -> int {
    if a <= b { a } else { b }
}

pub open spec fn max_int(a: int, b: int) -> int {
    if a >= b { a } else { b }
}

/// What a flowing selection copies from one row: the kept cells of its
/// column range, trailing whitespace trimmed unless the row soft-wraps.
pub open spec fn flow_row_text(g: GridView, start: (u16, i32), end: (u16, i32), line: int) -> Seq<char> {
    let last_col = g.cols - 1;
    let (a, b) = flow_cols(start, end, line, last_col);
    let t = cells_text(g.row(line), min_int(a, last_col), min_int(b, last_col) + 1, true);
    if g.wraps(line) {
        t
    } else {
        trim_end(t)
    }
}

/// The rows `lo..hi` of a flowing selection, joined by `\n` except after a
/// row that soft-wraps.
pub open spec fn flow_text(g: GridView, start: (u16, i32), end: (u16, i32), lo: int, hi: int) -> Seq<char>
    decreases hi - lo,
{
    if hi <= lo {
        seq![]
    } else {
        let sep = if hi - 1 > lo && !g.wraps(hi - 2) { seq!['\n'] } else { seq![] };
        flow_text(g, start, end, lo, hi - 1) + sep + flow_row_text(g, start, end, hi - 1)
    }
}

/// What a block selection copies from one line: the kept cells of the
/// column slice, verbatim; nothing for a line outside the grid.
pub open spec fn block_row_text(g: GridView, c0: int, c1: int, line: int) -> Seq<char> {
    if g.has_line(line) {
        cells_text(g.row(line), c0, min_int(c1, g.cols - 1) + 1, false)
    } else {
        seq![]
    }
}

/// Lines `l0..l0 + k` of a block selection joined by `\n` (`k >= 1`).
pub open spec fn block_text(g: GridView, c0: int, c1: int, l0: int, k: int) -> Seq<char>
    decreases k,
{
    if k <= 1 {
        block_row_text(g, c0, c1, l0)
    } else {
        block_text(g, c0, c1, l0, k - 1) + seq!['\n'] + block_row_text(g, c0, c1, l0 + k - 1)
    }
}

pub open spec fn spec_selection_text(g: GridView, sel: Selection) -> Seq<char> {
    if sel.block {
        let c0 = min_int(sel.start.0 as int, sel.end.0 as int);
        let c1 = max_int(sel.start.0 as int, sel.end.0 as int);
        let l0 = min_int(sel.start.1 as int, sel.end.1 as int);
        let l1 = max_int(sel.start.1 as int, sel.end.1 as int);
        block_text(g, c0, c1, l0, l1 - l0 + 1)
    } else {
        let (s, e) = spec_ordered(sel);
        flow_text(g, s, e, max_int(s.1 as int, g.top()), min_int(e.1 as int, g.bottom()) + 1)
    }
}

/// Dragging the other way selects the same text: swapping a selection's
/// corners changes nothing it copies.
pub proof fn law_selection_text_ignores_drag_direction(g: GridView, sel: Selection)
    ensures
        spec_selection_text(g, Selection { start: sel.end, end: sel.start, block: sel.block })
            == spec_selection_text(g, sel),
{
    assert(spec_ordered(Selection { start: sel.end, end: sel.start, block: sel.block }) == spec_ordered(sel));
}

/// A flowing selection's rows `lo..hi` are its first row, the separator
/// after it, then rows `lo + 1..hi`.
proof fn lemma_flow_text_peel(g: GridView, start: (u16, i32), end: (u16, i32), lo: int, hi: int)
    requires
        lo + 2 <= hi,
    ensures
        flow_text(g, start, end, lo, hi) == flow_row_text(g, start, end, lo) + (if g.wraps(lo) {
            seq![]
        } else {
            seq!['\n']
        }) + flow_text(g, start, end, lo + 1, hi),
    decreases hi - lo,
{
    if hi > lo + 2 {
        lemma_flow_text_peel(g, start, end, lo, hi - 1);
        assert(flow_text(g, start, end, lo, hi) =~= flow_row_text(g, start, end, lo) + (if g.wraps(
            lo,
        ) {
            seq![]
        } else {
            seq!['\n']
        }) + flow_text(g, start, end, lo + 1, hi));
    } else {
        assert(flow_text(g, start, end, lo, lo) == Seq::<char>::empty());
        assert(flow_text(g, start, end, lo + 1, lo + 1) == Seq::<char>::empty());
        assert(flow_text(g, start, end, lo, lo + 1) =~= flow_row_text(g, start, end, lo));
        assert(flow_text(g, start, end, lo + 1, lo + 2) =~= flow_row_text(g, start, end, lo + 1));
    }
}

/// Rows past a flowing selection's first row copy the same whether the
/// selection starts on the row above them or at column 0 of the first of
/// them.
proof fn lemma_flow_text_restart(g: GridView, start: (u16, i32), end: (u16, i32), lo: int, hi: int)
    requires
        start.1 < end.1,
        start.1 < lo,
        hi <= end.1 + 1,
    ensures
        flow_text(g, start, end, lo, hi) == flow_text(g, (0u16, (start.1 + 1) as i32), end, lo, hi),
    decreases hi - lo,
{
    if hi > lo {
        lemma_flow_text_restart(g, start, end, lo, hi - 1);
        let line = hi - 1;
        let s2 = (0u16, (start.1 + 1) as i32);
        assert(flow_cols(start, end, line, g.cols - 1) == flow_cols(s2, end, line, g.cols - 1));
    }
}

/// Copying across a soft wrap keeps the row's trailing cells: when the
/// first row of a flowing selection that spans several rows soft-wraps,
/// the copied text is all of that row's kept cells from the selection's
/// column on, trailing blanks included, followed directly (no newline) by
/// the text of the rest of the selection. Only a row that ends its logical
/// line loses its trailing whitespace and is followed by `\n`.
pub proof fn law_soft_wrapped_rows_keep_trailing_cells(g: GridView, sel: Selection)
    requires
        g.wf(),
        !sel.block,
        g.top() <= spec_ordered(sel).0.1 < spec_ordered(sel).1.1,
        spec_ordered(sel).0.1 < g.bottom(),
    ensures
        ({
            let (s, e) = spec_ordered(sel);
            let head = cells_text(g.row(s.1 as int), min_int(s.0 as int, g.cols - 1), g.cols as int, true);
            let rest = spec_selection_text(
                g,
                Selection { start: (0u16, (s.1 + 1) as i32), end: e, block: false },
            );
            &&& g.wraps(s.1 as int) ==> spec_selection_text(g, sel) == head + rest
            &&& !g.wraps(s.1 as int) ==> spec_selection_text(g, sel) == trim_end(head) + seq!['\n'] + rest
        }),
{
    let (s, e) = spec_ordered(sel);
    let s2 = (0u16, (s.1 + 1) as i32);
    let sel2 = Selection { start: s2, end: e, block: false };
    assert(spec_ordered(sel2) == (s2, e));
    let lo = s.1 as int;
    let hi = min_int(e.1 as int, g.bottom()) + 1;
    assert(max_int(s.1 as int, g.top()) == lo);
    assert(max_int(s2.1 as int, g.top()) == lo + 1);
    lemma_flow_text_peel(g, s, e, lo, hi);
    lemma_flow_text_restart(g, s, e, lo + 1, hi);
    assert(flow_cols(s, e, lo, g.cols - 1) == (s.0 as int, g.cols - 1));
}

/// A flowing selection inside one row copies the kept cells of its column
/// range (clamped to the grid); the trailing blanks stay when the row
/// soft-wraps into the next one and are dropped when it does not.
pub proof fn law_one_row_selection(g: GridView, sel: Selection)
    requires
        g.wf(),
        !sel.block,
        sel.start.1 == sel.end.1,
        g.has_line(sel.start.1 as int),
    ensures
        ({
            let (s, e) = spec_ordered(sel);
            let cells = cells_text(
                g.row(s.1 as int),
                min_int(s.0 as int, g.cols - 1),
                min_int(e.0 as int, g.cols - 1) + 1,
                true,
            );
            &&& g.wraps(s.1 as int) ==> spec_selection_text(g, sel) == cells
            &&& !g.wraps(s.1 as int) ==> spec_selection_text(g, sel) == trim_end(cells)
        }),
{
    let (s, e) = spec_ordered(sel);
    let lo = s.1 as int;
    assert(flow_text(g, s, e, lo, lo) == Seq::<char>::empty());
    assert(flow_text(g, s, e, lo, lo + 1) =~= flow_row_text(g, s, e, lo));
}

fn row_of<'a>(g: &'a GridView, line: i64) -> (r: &'a Vec<GridCell>)
    requires
        g.wf(),
        g.has_line(line as int),
    ensures
        r@ == g.row(line as int),
        r@.len() == g.cols,
{
    let k = (line + g.history as i64) as usize;
    assert(g.rows@[k as int]@.len() == g.cols);
    &g.rows[k]
}

fn wraps_at(g: &GridView, line: i64) -> (r: bool)
    requires
        g.wf(),
        g.has_line(line as int),
    ensures
        r == g.wraps(line as int),
{
    let row = row_of(g, line);
    row[g.cols - 1].wrapline
}

fn block_selection_text(g: &GridView, sel: &Selection) -> (out: Vec<char>)
    requires
        g.wf(),
        sel.block,
    ensures
        out@ == spec_selection_text(*g, *sel),
{
    let (c0, c1, l0, l1) = sel.block_bounds();
    let last_col = g.cols - 1;
    let top: i64 = -(g.history as i64);
    let bottom: i64 = g.rows.len() as i64 - g.history as i64 - 1;
    let mut out: Vec<char> = Vec::new();
    let mut line: i64 = l0 as i64;
    while line <= l1 as i64
        invariant
            g.wf(),
            top == g.top(),
            bottom == g.bottom(),
            last_col == g.cols - 1,
            l0 <= line <= l1 as int + 1,
            c0 <= c1,
            line == l0 ==> out@.len() == 0,
            line > l0 ==> out@ == block_text(*g, c0 as int, c1 as int, l0 as int, line - l0),
        decreases l1 as int + 1 - line,
    {
        let ghost before = out@;
        if line > l0 as i64 {
            out.push('\n');
        }
        if top <= line && line <= bottom {
            let row = row_of(g, line);
            let hi: usize = if (c1 as usize) < last_col { c1 as usize } else { last_col };
            if (c0 as usize) <= hi {
                push_cells(row, c0 as usize, hi + 1, false, &mut out);
            } else {
                assert(cells_text(g.row(line as int), c0 as int, hi + 1, false) =~= seq![]);
            }
        }
        assert(out@ == block_text(*g, c0 as int, c1 as int, l0 as int, line - l0 + 1));
        line = line + 1;
    }
    out
}

fn flow_selection_text(g: &GridView, sel: &Selection) -> (out: Vec<char>)
    requires
        g.wf(),
        !sel.block,
    ensures
        out@ == spec_selection_text(*g, *sel),
{
    let (start, end) = sel.ordered();
    let last_col = g.cols - 1;
    let top: i64 = -(g.history as i64);
    let bottom: i64 = g.rows.len() as i64 - g.history as i64 - 1;
    let lo: i64 = if (start.1 as i64) > top { start.1 as i64 } else { top };
    let hi: i64 = if (end.1 as i64) < bottom { end.1 as i64 } else { bottom };
    let mut out: Vec<char> = Vec::new();
    let mut line: i64 = lo;
    while line <= hi
        invariant
            g.wf(),
            top == g.top(),
            bottom == g.bottom(),
            last_col == g.cols - 1,
            top <= lo,
            hi <= bottom,
            lo <= line <= hi + 1 || (line == lo && lo > hi),
            cell_order_ok(start, end),
            out@ == flow_text(*g, start, end, lo as int, line as int),
        decreases hi + 1 - line,
    {
        if line > lo && !wraps_at(g, line - 1) {
            out.push('\n');
        }
        let row = row_of(g, line);
        let (a0, b0): (u16, u16) = if start.1 == end.1 {
            (start.0, end.0)
        } else if line == start.1 as i64 {
            (start.0, last_col as u16)
        } else if line == end.1 as i64 {
            (0, end.0)
        } else {
            (0, last_col as u16)
        };
        let a: usize = if (a0 as usize) < last_col { a0 as usize } else { last_col };
        let b: usize = if (b0 as usize) < last_col { b0 as usize } else { last_col };
        let mut line_buf: Vec<char> = Vec::new();
        if a <= b {
            push_cells(row, a, b + 1, true, &mut line_buf);
        } else {
            assert(cells_text(g.row(line as int), a as int, b + 1, true) =~= seq![]);
        }
        let w = wraps_at(g, line);
        append_tail(&mut out, &line_buf, 0, !w);
        proof {
            assert(line_buf@.skip(0) =~= line_buf@);
        }
        line = line + 1;
    }
    out
}

pub open spec fn cell_order_ok(start: (u16, i32), end: (u16, i32)) -> bool {
    start.1 < end.1 || (start.1 == end.1 && start.0 <= end.0)
}

/// Extract the text of a selection.
///
/// A block selection takes the same column slice from every line of its
/// rectangle, verbatim (trailing spaces kept), one line per row joined by
/// `\n`, lines outside the grid giving empty rows. A flowing selection
/// takes the tail of its first row, whole middle rows and the head of its
/// last row (columns clamped to the grid); rows join with `\n` except after
/// a soft wrap, and a row that does not wrap loses its trailing whitespace.
/// Wide-glyph spacer cells never copy out.
pub fn get_selection_text(g: &GridView, sel: &Selection) -> (s: String)
    requires
        g.wf(),
    ensures
        s@ == spec_selection_text(*g, *sel),
{
    let v = if sel.block {
        block_selection_text(g, sel)
    } else {
        flow_selection_text(g, sel)
    };
    let s = string_of(&v, 0, v.len());
    assert(v@.subrange(0, v@.len() as int) =~= v@);
    s
}

// ---------------------------------------------------------------------------
// Whole-buffer and viewport text
// ---------------------------------------------------------------------------

/// The flowing selection over the whole buffer.
pub open spec fn whole_buffer(g: GridView) -> Selection {
    Selection { start: (0, g.top() as i32), end: ((g.cols - 1) as u16, g.bottom() as i32), block: false }
}

/// The flowing selection over the viewport scrolled `offset` lines back
/// (clamped to the history).
pub open spec fn viewport_selection(g: GridView, offset: i32) -> Selection {
    let o = if offset < 0 { 0 } else if offset > g.history { g.history as int } else { offset as int };
    let screen = g.rows@.len() - g.history;
    Selection { start: (0, (-o) as i32), end: ((g.cols - 1) as u16, (screen - 1 - o) as i32), block: false }
}

fn trimmed_string(v: &Vec<char>) -> (s: String)
    ensures
        s@ == trim_end(v@),
{
    let n = trimmed_len(v, 0);
    proof {
        assert(v@.skip(0) =~= v@);
        lemma_trim_len(v@);
    }
    string_of(v, 0, n)
}

/// The whole buffer (scrollback and screen) as text, trailing whitespace
/// trimmed.
pub fn all_text(g: &GridView) -> (s: String)
    requires
        g.wf(),
    ensures
        s@ == trim_end(spec_selection_text(*g, whole_buffer(*g))),
{
    let top: i32 = -(g.history as i32);
    let bottom: i32 = (g.rows.len() - g.history - 1) as i32;
    let sel = Selection { start: (0, top), end: ((g.cols - 1) as u16, bottom), block: false };
    let v = flow_selection_text(g, &sel);
    trimmed_string(&v)
}

/// The text of the viewport scrolled `offset` lines back, trailing
/// whitespace trimmed. The offset is clamped to `0..=history` first, so a
/// value measured against a larger, older history cannot read past the top.
pub fn visible_text(g: &GridView, offset: i32) -> (s: String)
    requires
        g.wf(),
    ensures
        s@ == trim_end(spec_selection_text(*g, viewport_selection(*g, offset))),
{
    let h = g.history as i32;
    let o: i32 = if offset < 0 { 0 } else if offset > h { h } else { offset };
    let screen = (g.rows.len() - g.history) as i32;
    let sel = Selection { start: (0, -o), end: ((g.cols - 1) as u16, screen - 1 - o), block: false };
    let v = flow_selection_text(g, &sel);
    trimmed_string(&v)
}

// ---------------------------------------------------------------------------
// Tail of the buffer
// ---------------------------------------------------------------------------

/// One grid row as a line of text: spacer cells dropped, trailing
/// whitespace trimmed.
pub open spec fn line_text(g: GridView, line: int) -> Seq<char> {
    trim_end(cells_text(g.row(line), 0, g.cols as int, false))
}

/// The last line at or above `e` that carries text (or the top line).
pub open spec fn last_content_line(g: GridView, e: int) -> int
    decreases e - g.top(),
{
    if e > g.top() && line_text(g, e).len() == 0 {
        last_content_line(g, e - 1)
    } else {
        e
    }
}

proof fn lemma_last_content_line(g: GridView, e: int)
    requires
        g.top() <= e,
    ensures
        g.top() <= last_content_line(g, e) <= e,
    decreases e - g.top(),
{
    if e > g.top() && line_text(g, e).len() == 0 {
        lemma_last_content_line(g, e - 1);
    }
}

fn row_line_text(g: &GridView, line: i64) -> (v: Vec<char>)
    requires
        g.wf(),
        g.has_line(line as int),
    ensures
        v@ == line_text(*g, line as int),
{
    let row = row_of(g, line);
    let mut raw: Vec<char> = Vec::new();
    push_cells(row, 0, g.cols, false, &mut raw);
    let mut out: Vec<char> = Vec::new();
    append_tail(&mut out, &raw, 0, true);
    assert(raw@.skip(0) =~= raw@);
    out
}

/// The last `n_lines` rows of the buffer, scrollback included, one string
/// per row (spacers dropped, trailing whitespace trimmed), ending on the last
/// row that carries text; blank rows between content are kept.
pub fn tail_text(g: &GridView, n_lines: usize) -> (r: Vec<String>)
    requires
        g.wf(),
    ensures
        n_lines == 0 ==> r@.len() == 0,
        n_lines > 0 ==> ({
            let end = last_content_line(*g, g.bottom());
            let start = max_int(end - n_lines + 1, g.top());
            &&& r@.len() == end - start + 1
            &&& forall|i: int| 0 <= i < r@.len() ==> (#[trigger] r@[i])@ == line_text(*g, start + i)
        }),
{
    let mut r: Vec<String> = Vec::new();
    if n_lines == 0 {
        return r;
    }
    let top: i64 = -(g.history as i64);
    let bottom: i64 = g.rows.len() as i64 - g.history as i64 - 1;
    let mut end: i64 = bottom;
    proof {
        lemma_last_content_line(*g, bottom as int);
    }
    while end > top && row_line_text(g, end).len() == 0
        invariant
            g.wf(),
            top == g.top(),
            top <= end <= bottom,
            bottom == g.bottom(),
            last_content_line(*g, end as int) == last_content_line(*g, bottom as int),
        decreases end - top,
    {
        end = end - 1;
    }
    let ghost e = last_content_line(*g, bottom as int);
    assert(end == e);
    let start: i64 = if (n_lines as i128) - 1 > end as i128 - top as i128 {
        top
    } else {
        end - (n_lines as i64 - 1)
    };
    assert(start == max_int(e - n_lines + 1, g.top()));
    let mut li: i64 = start;
    while li <= end
        invariant
            g.wf(),
            top == g.top(),
            bottom == g.bottom(),
            top <= start <= li <= end + 1,
            end <= bottom,
            r@.len() == li - start,
            forall|i: int| 0 <= i < r@.len() ==> (#[trigger] r@[i])@ == line_text(*g, start + i),
        decreases end + 1 - li,
    {
        let v = row_line_text(g, li);
        let s = string_of(&v, 0, v.len());
        assert(v@.subrange(0, v@.len() as int) =~= v@);
        r.push(s);
        li = li + 1;
    }
    r
}

// ---------------------------------------------------------------------------
// Logical (wrap-joined) lines
// ---------------------------------------------------------------------------

/// Most rows a wrap chain is followed across.
pub const MAX_CHAIN_ROWS: usize = 64;

/// The first row of the wrap chain ending at `line`, walking up at most
/// `64 - walked` more rows.
pub open spec fn walk_up(g: GridView, line: int, walked: int) -> int
    decreases 64 - walked,
{
    if line > g.top() && walked < 64 && g.wraps(line - 1) {
        walk_up(g, line - 1, walked + 1)
    } else {
        line
    }
}

pub proof fn lemma_walk_up(g: GridView, line: int, walked: int)
    requires
        g.has_line(line),
        0 <= walked <= 64,
    ensures
        g.top() <= walk_up(g, line, walked) <= line,
        line - walk_up(g, line, walked) <= 64 - walked,
    decreases 64 - walked,
{
    if line > g.top() && walked < 64 && g.wraps(line - 1) {
        lemma_walk_up(g, line - 1, walked + 1);
    }
}

fn walk_up_exec(g: &GridView, line: i64) -> (r: i64)
    requires
        g.wf(),
        g.has_line(line as int),
    ensures
        r == walk_up(*g, line as int, 0),
        g.has_line(r as int),
{
    let top: i64 = -(g.history as i64);
    let mut first = line;
    let mut walked: usize = 0;
    proof {
        lemma_walk_up(*g, line as int, 0);
    }
    while first > top && walked < MAX_CHAIN_ROWS && wraps_at(g, first - 1)
        invariant
            g.wf(),
            top == g.top(),
            g.has_line(first as int),
            walked <= 64,
            walk_up(*g, first as int, walked as int) == walk_up(*g, line as int, 0),
        decreases 64 - walked,
    {
        first = first - 1;
        walked = walked + 1;
    }
    first
}

/// Last row of the chain that starts at `line`, `rows` rows already read.
pub open spec fn chain_last(g: GridView, line: int, rows: int) -> int
    decreases 64 - rows,
{
    if rows + 1 >= 64 || !g.wraps(line) || line >= g.bottom() {
        line
    } else {
        chain_last(g, line + 1, rows + 1)
    }
}

proof fn lemma_chain_last(g: GridView, line: int, rows: int)
    requires
        g.has_line(line),
        0 <= rows < 64,
    ensures
        line <= chain_last(g, line, rows) <= g.bottom(),
    decreases 64 - rows,
{
    if !(rows + 1 >= 64 || !g.wraps(line) || line >= g.bottom()) {
        lemma_chain_last(g, line + 1, rows + 1);
    }
}

/// Text of the chain rows `first..hi`, reading from `start_col` on `first`
/// and from column 0 on the others; spacer cells dropped.
pub open spec fn chain_raw(g: GridView, first: int, start_col: int, hi: int) -> Seq<char>
    decreases hi - first,
{
    if hi <= first {
        seq![]
    } else {
        let from = if hi - 1 == first { min_int(start_col, g.cols as int) } else { 0 };
        chain_raw(g, first, start_col, hi - 1) + cells_text(g.row(hi - 1), from, g.cols as int, false)
    }
}

pub open spec fn gap_at(s: Seq<char>, i: int) -> bool {
    0 <= i && i + 8 <= s.len() && forall|k: int| i <= k < i + 8 ==> s[k] == ' '
}

/// First index of a run of eight spaces at or after `i`, or `-1`.
pub open spec fn find_gap(s: Seq<char>, i: int) -> int
    decreases s.len() - i,
{
    if i < 0 || i + 8 > s.len() {
        -1
    } else if gap_at(s, i) {
        i
    } else {
        find_gap(s, i + 1)
    }
}

/// The logical line starting at `first`: the chain's text with trailing
/// whitespace trimmed, cut at the first run of eight spaces when the chain is
/// a single row (the gap before a right-hand prompt).
pub open spec fn spec_read_logical_line(g: GridView, first: int, start_col: int) -> Seq<char> {
    let last = chain_last(g, first, 0);
    let t = trim_end(chain_raw(g, first, start_col, last + 1));
    if last == first && find_gap(t, 0) >= 0 {
        t.take(find_gap(t, 0))
    } else {
        t
    }
}

proof fn lemma_find_gap(s: Seq<char>, i: int)
    requires
        0 <= i,
    ensures
        find_gap(s, i) == -1 || (i <= find_gap(s, i) && gap_at(s, find_gap(s, i))),
    decreases s.len() - i,
{
    if !(i + 8 > s.len()) && !gap_at(s, i) {
        lemma_find_gap(s, i + 1);
    }
}

fn find_gap_exec(v: &Vec<char>) -> (r: Option<usize>)
    ensures
        match r {
            Some(i) => find_gap(v@, 0) == i,
            None => find_gap(v@, 0) == -1,
        },
{
    let mut i: usize = 0;
    while v.len() >= 8 && i <= v.len() - 8
        invariant
            i <= v@.len(),
            find_gap(v@, i as int) == find_gap(v@, 0),
        decreases v@.len() - i,
    {
        let mut k: usize = 0;
        while k < 8 && v[i + k] == ' '
            invariant
                i + 8 <= v@.len(),
                v@.len() == v.len(),
                k <= 8,
                forall|j: int| i <= j < i + k ==> v@[j] == ' ',
            decreases 8 - k,
        {
            k = k + 1;
        }
        if k == 8 {
            assert(gap_at(v@, i as int));
            return Some(i);
        }
        assert(v@[i + k] != ' ');
        assert(!gap_at(v@, i as int));
        i = i + 1;
    }
    None
}

fn read_logical_line(g: &GridView, first: i64, start_col: usize) -> (s: String)
    requires
        g.wf(),
        g.has_line(first as int),
    ensures
        s@ == spec_read_logical_line(*g, first as int, start_col as int),
{
    let bottom: i64 = g.rows.len() as i64 - g.history as i64 - 1;
    let mut text: Vec<char> = Vec::new();
    let mut line: i64 = first;
    let mut rows: usize = 0;
    proof {
        lemma_chain_last(*g, first as int, 0);
    }
    loop
        invariant_except_break
            g.wf(),
            bottom == g.bottom(),
            g.has_line(line as int),
            rows < 64,
            line == first + rows,
            chain_last(*g, line as int, rows as int) == chain_last(*g, first as int, 0),
            text@ == chain_raw(*g, first as int, start_col as int, line as int),
        ensures
            g.wf(),
            line == chain_last(*g, first as int, 0),
            rows == line - first + 1,
            text@ == chain_raw(*g, first as int, start_col as int, line + 1),
        decreases 64 - rows,
    {
        let row = row_of(g, line);
        let from: usize = if line == first {
            if start_col < g.cols { start_col } else { g.cols }
        } else {
            0
        };
        push_cells(row, from, g.cols, false, &mut text);
        rows = rows + 1;
        if rows >= MAX_CHAIN_ROWS || !wraps_at(g, line) || line >= bottom {
            break;
        }
        line = line + 1;
    }
    let n = trimmed_len(&text, 0);
    proof {
        assert(text@.skip(0) =~= text@);
        lemma_trim_len(text@);
    }
    let mut t = Vec::new();
    append_range(&mut t, &text, 0, n);
    assert(t@ =~= trim_end(text@));
    if rows == 1 {
        match find_gap_exec(&t) {
            Some(gap) => {
                proof {
                    lemma_find_gap(t@, 0);
                }
                return string_of(&t, 0, gap);
            },
            None => {},
        }
    }
    assert(t@.subrange(0, t@.len() as int) =~= t@);
    string_of(&t, 0, t.len())
}

/// Text of the logical line the cursor sits on, from column 0 of the first
/// row of its wrap chain (followed up at most 64 rows); `None` on the
/// alternate screen.
pub fn cursor_logical_line(g: &GridView) -> (r: Option<String>)
    requires
        g.wf(),
    ensures
        g.alt_screen ==> r is None,
        !g.alt_screen ==> r is Some && r->0@ == spec_read_logical_line(
            *g,
            walk_up(*g, g.cursor_line as int, 0),
            0,
        ),
{
    if g.alt_screen {
        return None;
    }
    let first = walk_up_exec(g, g.cursor_line as i64);
    Some(read_logical_line(g, first, 0))
}

/// Text of the logical line starting at absolute row `abs_line`
/// (`history + line`), column `start_col`; `None` on the alternate screen or
/// when the row is not in the grid.
pub fn logical_line_from_abs(g: &GridView, abs_line: i64, start_col: u16) -> (r: Option<String>)
    requires
        g.wf(),
    ensures
        (g.alt_screen || !g.has_line(abs_line - g.history)) ==> r is None,
        !(g.alt_screen || !g.has_line(abs_line - g.history)) ==> r is Some && r->0@
            == spec_read_logical_line(*g, abs_line - g.history, start_col as int),
{
    if g.alt_screen {
        return None;
    }
    if abs_line < 0 || abs_line >= g.rows.len() as i64 {
        return None;
    }
    let rel: i64 = abs_line - g.history as i64;
    Some(read_logical_line(g, rel, start_col as usize))
}

/// Absolute row (`history + line`) of the first row of the logical line the
/// cursor sits on; `None` on the alternate screen.
pub fn abs_cursor_logical_start(g: &GridView) -> (r: Option<i64>)
    requires
        g.wf(),
    ensures
        g.alt_screen ==> r is None,
        !g.alt_screen ==> r == Some((g.history + walk_up(*g, g.cursor_line as int, 0)) as i64),
{
    if g.alt_screen {
        return None;
    }
    let first = walk_up_exec(g, g.cursor_line as i64);
    Some(g.history as i64 + first)
}

// ---------------------------------------------------------------------------
// Region text from an anchor row
// ---------------------------------------------------------------------------

/// A slice of the grid read by [`text_from_abs`]: logical lines, with the
/// middle elided when the region is longer than the cap.
#[derive(Debug, Clone, PartialEq, Eq)]
pub struct RegionText {
    /// The kept lines: `lines[..head_len]` from the top of the region,
    /// `lines[head_len..]` from its bottom.
    pub lines: Vec<String>,
    /// Where the tail slice starts; `lines.len()` when nothing was dropped.
    pub head_len: usize,
    /// How many lines were removed from the middle.
    pub dropped: usize,
    /// Index into `lines` of the line the cursor sits on; `None` when the
    /// cursor is outside the region or its line was elided.
    pub cursor_line: Option<usize>,
}

/// One grid row's kept characters, untrimmed.
pub open spec fn row_text(g: GridView, line: int) -> Seq<char> {
    cells_text(g.row(line), 0, g.cols as int, false)
}

/// Rows `a..hi` concatenated.
pub open spec fn rows_text(g: GridView, a: int, hi: int) -> Seq<char>
    decreases hi - a,
{
    if hi <= a {
        seq![]
    } else {
        rows_text(g, a, hi - 1) + row_text(g, hi - 1)
    }
}

/// The last row at or above `e` (and below `rel`) that is not blank.
pub open spec fn region_end(g: GridView, rel: int, e: int) -> int
    decreases e - rel,
{
    if e > rel && all_whitespace(row_text(g, e)) {
        region_end(g, rel, e - 1)
    } else {
        e
    }
}

/// Last row of the logical line that starts at `li` within a region ending at
/// `end` (`rows` rows read so far, at most 64).
pub open spec fn seg_last(g: GridView, li: int, end: int, rows: int) -> int
    decreases 64 - rows,
{
    if g.wraps(li) && li < end && rows < 64 {
        seg_last(g, li + 1, end, rows + 1)
    } else {
        li
    }
}

pub proof fn lemma_seg_last(g: GridView, li: int, end: int, rows: int)
    ensures
        li <= seg_last(g, li, end, rows),
        li <= end ==> seg_last(g, li, end, rows) <= end,
        rows >= 1 ==> seg_last(g, li, end, rows) - li <= 64 - rows || seg_last(g, li, end, rows) == li,
    decreases 64 - rows,
{
    if g.wraps(li) && li < end && rows < 64 {
        lemma_seg_last(g, li + 1, end, rows + 1);
    }
}

/// The logical lines of the region `li..=end`, as `(first row, last row)`.
pub open spec fn region_segs(g: GridView, end: int, li: int) -> Seq<(int, int)>
    decreases end + 1 - li,
{
    if li > end {
        seq![]
    } else {
        let l = seg_last(g, li, end, 1);
        proof {
            lemma_seg_last(g, li, end, 1);
        }
        seq![(li, l)] + region_segs(g, end, l + 1)
    }
}

/// Index of the last segment holding `row`.
pub open spec fn seg_find(segs: Seq<(int, int)>, row: int) -> Option<int>
    decreases segs.len(),
{
    if segs.len() == 0 {
        None
    } else if segs.last().0 <= row <= segs.last().1 {
        Some(segs.len() - 1)
    } else {
        seg_find(segs.drop_last(), row)
    }
}

proof fn lemma_seg_find(segs: Seq<(int, int)>, row: int)
    ensures
        seg_find(segs, row) matches Some(i) ==> 0 <= i < segs.len(),
    decreases segs.len(),
{
    if segs.len() > 0 && !(segs.last().0 <= row <= segs.last().1) {
        lemma_seg_find(segs.drop_last(), row);
    }
}

pub open spec fn seg_line(g: GridView, seg: (int, int)) -> Seq<char> {
    trim_end(rows_text(g, seg.0, seg.1 + 1))
}

/// The region's lines, head length, dropped count and cursor line.
pub open spec fn spec_text_from_abs(g: GridView, abs_line: int, max_lines: int) -> Option<
    (Seq<Seq<char>>, int, int, Option<int>),
> {
    let rel = abs_line - g.history;
    if g.alt_screen || !g.has_line(rel) {
        None
    } else {
        let end = region_end(g, rel, g.bottom());
        let segs = region_segs(g, end, rel);
        let all = segs.map_values(|p: (int, int)| seg_line(g, p));
        let cur = seg_find(segs, g.cursor_line as int);
        let n = all.len() as int;
        if max_lines > 0 && n > max_lines {
            let head = max_lines / 2;
            let dropped = n - max_lines;
            let kept = all.take(head) + all.skip(head + dropped);
            let c = match cur {
                Some(i) => if i < head {
                    Some(i)
                } else if i < head + dropped {
                    None
                } else {
                    Some(i - dropped)
                },
                None => None,
            };
            Some((kept, head, dropped, c))
        } else {
            Some((all, n, 0, cur))
        }
    }
}

fn row_chars(g: &GridView, line: i64) -> (v: Vec<char>)
    requires
        g.wf(),
        g.has_line(line as int),
    ensures
        v@ == row_text(*g, line as int),
{
    let row = row_of(g, line);
    let mut v: Vec<char> = Vec::new();
    push_cells(row, 0, g.cols, false, &mut v);
    v
}

fn is_blank(v: &Vec<char>) -> (r: bool)
    ensures
        r == all_whitespace(v@),
{
    let mut i: usize = 0;
    while i < v.len()
        invariant
            i <= v@.len(),
            forall|k: int| 0 <= k < i ==> spec_is_whitespace(#[trigger] v@[k]),
        decreases v@.len() - i,
    {
        if !is_whitespace(v[i]) {
            return false;
        }
        i = i + 1;
    }
    true
}

/// Every logical line from absolute row `abs_line` down to the last row that
/// carries content, at most `max_lines` of them (a longer region keeps
/// `max_lines / 2` lines from its top and the rest from its bottom, and
/// reports how many were dropped), with the index of the line the cursor
/// sits on. `None` on the alternate screen or when the row is not in the
/// grid.
pub fn text_from_abs(g: &GridView, abs_line: i64, max_lines: usize) -> (r: Option<RegionText>)
    requires
        g.wf(),
    ensures
        match spec_text_from_abs(*g, abs_line as int, max_lines as int) {
            None => r is None,
            Some((lines, head, dropped, cur)) => r is Some && r->0.lines@.len() == lines.len()
                && (forall|i: int| 0 <= i < lines.len() ==> (#[trigger] r->0.lines@[i])@ == lines[i])
                && r->0.head_len == head && r->0.dropped == dropped && match cur {
                Some(c) => r->0.cursor_line == Some(c as usize),
                None => r->0.cursor_line is None,
            },
        },
{
    if g.alt_screen {
        return None;
    }
    if abs_line < 0 || abs_line >= g.rows.len() as i64 {
        return None;
    }
    let rel: i64 = abs_line - g.history as i64;
    let bottom: i64 = g.rows.len() as i64 - g.history as i64 - 1;
    let mut end: i64 = bottom;
    while end > rel && is_blank(&row_chars(g, end))
        invariant
            g.wf(),
            bottom == g.bottom(),
            g.has_line(rel as int),
            rel <= end <= bottom,
            region_end(*g, rel as int, end as int) == region_end(*g, rel as int, bottom as int),
        decreases end - rel,
    {
        end = end - 1;
    }
    assert(region_end(*g, rel as int, end as int) == end);
    let cursor_row: i64 = g.cursor_line as i64;
    let mut cursor_line: Option<usize> = None;
    let mut lines: Vec<String> = Vec::new();
    let ghost mut done: Seq<(int, int)> = seq![];
    let mut li: i64 = rel;
    while li <= end
        invariant
            g.wf(),
            g.has_line(rel as int),
            rel <= li <= end + 1,
            end <= g.bottom(),
            cursor_row == g.cursor_line,
            region_segs(*g, end as int, rel as int) == done + region_segs(*g, end as int, li as int),
            lines@.len() == done.len(),
            forall|k: int| 0 <= k < done.len() ==> (#[trigger] lines@[k])@ == seg_line(*g, done[k]),
            match seg_find(done, cursor_row as int) {
                Some(c) => cursor_line == Some(c as usize),
                None => cursor_line is None,
            },
            done.len() <= li - rel,
        decreases end + 1 - li,
    {
        let first = li;
        let mut text = row_chars(g, li);
        let mut rows: usize = 1;
        proof {
            lemma_seg_last(*g, first as int, end as int, 1);
            assert(rows_text(*g, first as int, first as int) =~= seq![]);
            assert(rows_text(*g, first as int, first + 1) =~= seq![] + row_text(*g, first as int));
        }
        while wraps_at(g, li) && li < end && rows < MAX_CHAIN_ROWS
            invariant
                g.wf(),
                rel <= first <= li <= end,
                end <= g.bottom(),
                g.has_line(rel as int),
                1 <= rows <= 64,
                seg_last(*g, li as int, end as int, rows as int) == seg_last(*g, first as int, end as int, 1),
                text@ == rows_text(*g, first as int, li + 1),
            decreases 64 - rows,
        {
            li = li + 1;
            let more = row_chars(g, li);
            append_range(&mut text, &more, 0, more.len());
            assert(more@.subrange(0, more@.len() as int) =~= more@);
            rows = rows + 1;
        }
        let ghost seg = (first as int, li as int);
        assert(region_segs(*g, end as int, first as int) =~= seq![seg] + region_segs(*g, end as int, li + 1));
        if cursor_row >= first && cursor_row <= li {
            cursor_line = Some(lines.len());
        }
        let n = trimmed_len(&text, 0);
        proof {
            assert(text@.skip(0) =~= text@);
            lemma_trim_len(text@);
        }
        let s = string_of(&text, 0, n);
        assert(text@.subrange(0, n as int) =~= seg_line(*g, seg));
        lines.push(s);
        proof {
            let old_done = done;
            done = done.push(seg);
            assert(done.drop_last() =~= old_done);
            assert(done + region_segs(*g, end as int, li + 1) =~= old_done + (seq![seg] + region_segs(
                *g,
                end as int,
                li + 1,
            )));
        }
        li = li + 1;
    }
    proof {
        assert(done + region_segs(*g, end as int, li as int) =~= done);
        lemma_seg_find(done, cursor_row as int);
    }
    let ghost all = done.map_values(|p: (int, int)| seg_line(*g, p));
    let n = lines.len();
    if max_lines > 0 && n > max_lines {
        let head = max_lines / 2;
        let dropped = n - max_lines;
        let mut kept: Vec<String> = Vec::new();
        let mut i: usize = 0;
        while i < n
            invariant
                n == lines@.len(),
                head + dropped <= n,
                i <= n,
                kept@.len() == if i <= head { i as int } else if i <= head + dropped { head as int } else { i - dropped },
                forall|k: int| 0 <= k < kept@.len() ==> (#[trigger] kept@[k])@ == (if k < head { lines@[k]@ } else { lines@[k + dropped]@ }),
            decreases n - i,
        {
            if i < head || i >= head + dropped {
                kept.push(lines[i].clone());
            }
            i = i + 1;
        }
        proof {
            let kept_spec = all.take(head as int) + all.skip(head + dropped);
            assert(kept@.len() == kept_spec.len());
            assert forall|k: int| 0 <= k < kept_spec.len() implies (#[trigger] kept@[k])@ == kept_spec[k] by {
                if k < head {
                    assert(kept_spec[k] == all[k]);
                } else {
                    assert(kept_spec[k] == all[k + dropped]);
                }
            }
        }
        let c = match cursor_line {
            Some(ci) => if ci < head {
                Some(ci)
            } else if ci < head + dropped {
                None
            } else {
                Some(ci - dropped)
            },
            None => None,
        };
        return Some(RegionText { lines: kept, head_len: head, dropped, cursor_line: c });
    }
    assert forall|k: int| 0 <= k < all.len() implies (#[trigger] lines@[k])@ == all[k] by {}
    Some(RegionText { lines, head_len: n, dropped: 0, cursor_line })
}

/// A region never holds more than `max_lines` lines (when a cap is set), the
/// kept and dropped lines add up to the whole region, the tail slice starts
/// within the kept lines, and a reported cursor line is one of them.
pub proof fn law_region_respects_the_cap(g: GridView, abs_line: int, max_lines: int)
    requires
        max_lines >= 0,
        spec_text_from_abs(g, abs_line, max_lines) is Some,
    ensures
        ({
            let (lines, head, dropped, cur) = spec_text_from_abs(g, abs_line, max_lines)->0;
            let rel = abs_line - g.history;
            let total = region_segs(g, region_end(g, rel, g.bottom()), rel).len();
            &&& max_lines > 0 ==> lines.len() <= max_lines
            &&& lines.len() + dropped == total
            &&& 0 <= head <= lines.len()
            &&& dropped >= 0
            &&& (cur matches Some(c) ==> 0 <= c < lines.len())
        }),
{
    let rel = abs_line - g.history;
    let end = region_end(g, rel, g.bottom());
    let segs = region_segs(g, end, rel);
    lemma_seg_find(segs, g.cursor_line as int);
}

// ---------------------------------------------------------------------------
// The line in front of the cursor
// ---------------------------------------------------------------------------

/// Most rows above the cursor a prompt is followed up its wrap chain.
pub const MAX_PROMPT_ROWS: usize = 4;

/// First row of the wrap chain ending at `line`, at most `4 - walked` more
/// rows up.
pub open spec fn prompt_first(g: GridView, line: int, walked: int) -> int
    decreases 4 - walked,
{
    if line > g.top() && walked < 4 && g.wraps(line - 1) {
        prompt_first(g, line - 1, walked + 1)
    } else {
        line
    }
}

proof fn lemma_prompt_first(g: GridView, line: int, walked: int)
    requires
        g.has_line(line),
        0 <= walked <= 4,
    ensures
        g.top() <= prompt_first(g, line, walked) <= line,
    decreases 4 - walked,
{
    if line > g.top() && walked < 4 && g.wraps(line - 1) {
        lemma_prompt_first(g, line - 1, walked + 1);
    }
}

/// Rows `first..hi` of the text in front of the cursor: whole rows above the
/// cursor's, the cursor row up to the cursor column.
pub open spec fn prompt_raw(g: GridView, first: int, hi: int) -> Seq<char>
    decreases hi - first,
{
    if hi <= first {
        seq![]
    } else {
        let end = if hi - 1 == g.cursor_line { min_int(g.cursor_col as int, g.cols as int) } else { g.cols as int };
        prompt_raw(g, first, hi - 1) + cells_text(g.row(hi - 1), 0, end, false)
    }
}

pub open spec fn spec_text_before_cursor(g: GridView) -> Option<(Seq<char>, int)> {
    if g.alt_screen {
        None
    } else {
        let first = prompt_first(g, g.cursor_line as int, 0);
        Some((prompt_raw(g, first, g.cursor_line + 1), g.history + first))
    }
}

/// What is printed in front of the cursor on its logical line (the wrap
/// chain followed up at most four rows, spacer cells dropped, untrimmed),
/// with the absolute row (`history + line`) the line starts on: the text a
/// password-prompt check reads. `None` on the alternate screen.
pub fn text_before_cursor(g: &GridView) -> (r: Option<(String, i64)>)
    requires
        g.wf(),
    ensures
        match spec_text_before_cursor(*g) {
            None => r is None,
            Some((t, a)) => r matches Some((s, ra)) && s@ == t && ra == a,
        },
{
    if g.alt_screen {
        return None;
    }
    let top: i64 = -(g.history as i64);
    let cursor: i64 = g.cursor_line as i64;
    let mut first = cursor;
    let mut walked: usize = 0;
    proof {
        lemma_prompt_first(*g, cursor as int, 0);
    }
    while first > top && walked < MAX_PROMPT_ROWS && wraps_at(g, first - 1)
        invariant
            g.wf(),
            top == g.top(),
            g.has_line(first as int),
            first <= cursor,
            walked <= 4,
            prompt_first(*g, first as int, walked as int) == prompt_first(*g, cursor as int, 0),
        decreases 4 - walked,
    {
        first = first - 1;
        walked = walked + 1;
    }
    let mut text: Vec<char> = Vec::new();
    let mut line = first;
    while line <= cursor
        invariant
            g.wf(),
            cursor == g.cursor_line,
            g.top() <= first <= line <= cursor + 1,
            text@ == prompt_raw(*g, first as int, line as int),
        decreases cursor + 1 - line,
    {
        let row = row_of(g, line);
        let end = if line == cursor {
            if g.cursor_col < g.cols { g.cursor_col } else { g.cols }
        } else {
            g.cols
        };
        push_cells(row, 0, end, false, &mut text);
        line = line + 1;
    }
    let s = string_of(&text, 0, text.len());
    assert(text@.subrange(0, text@.len() as int) =~= text@);
    Some((s, g.history as i64 + first))
}

} // verus!
