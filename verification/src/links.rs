//! Links under the pointer: the logical line a grid row belongs to and the
//! plain-text `http(s)://` URL at a cell, with the rows it covers.
use vstd::prelude::*;
use crate::grid::{GridView, GridCell, walk_up, lemma_walk_up};
use crate::detect::{url_start, lemma_url_start_chars, is_url_start};
use crate::runs::{token_end, lemma_token_end, token_end_exec, trim_tail, lemma_trim_tail_stop, trim_tail_exec};
use crate::text::{proj_seq, project, string_of, spec_is_whitespace, is_whitespace};
use crate::osc8::{osc8_scheme_allowed, spec_osc8_scheme_allowed};

verus! {

/// A logical line reassembled across soft-wrapped rows, with the
/// `(grid line, column)` each character came from.
pub struct LogicalLine {
    pub text: Vec<char>,
    pub cells: Vec<(i32, u16)>,
}

/// One row's slice of a link: `(grid line, first column, last column)`.
pub open spec fn spec_segments(cells: Seq<(i32, u16)>, a: int, b: int) -> Seq<(i32, u16, u16)>
    decreases b - a,
{
    if b <= a {
        seq![]
    } else {
        let prev = spec_segments(cells, a, b - 1);
        let c = cells[b - 1];
        if prev.len() > 0 && prev.last().0 == c.0 {
            prev.update(prev.len() - 1, (c.0, prev.last().1, c.1))
        } else {
            prev.push((c.0, c.1, c.1))
        }
    }
}

/// Index of the first character that came from cell `(line, col)`.
pub open spec fn spec_byte_of(cells: Seq<(i32, u16)>, line: i32, col: u16) -> Option<int> {
    if exists|i: int| 0 <= i < cells.len() && cells[i] == (line, col) {
        Some(choose|i: int| 0 <= i < cells.len() && cells[i] == (line, col) && forall|j: int|
            0 <= j < i ==> cells[j] != (line, col))
    } else {
        None
    }
}

impl LogicalLine {
    /// Index of the first character that came from the cell, `None` when the
    /// cell is past the end of the line (a dropped trailing blank).
    pub fn byte_of(&self, line: i32, col: u16) -> (r: Option<usize>)
        ensures
            match r {
                Some(i) => i < self.cells@.len() && self.cells@[i as int] == (line, col) && forall|j: int|
                    0 <= j < i ==> self.cells@[j] != (line, col),
                None => forall|i: int| 0 <= i < self.cells@.len() ==> self.cells@[i] != (line, col),
            },
    {
        let mut i: usize = 0;
        while i < self.cells.len()
            invariant
                i <= self.cells@.len(),
                forall|j: int| 0 <= j < i ==> self.cells@[j] != (line, col),
            decreases self.cells@.len() - i,
        {
            let c = self.cells[i];
            if c.0 == line && c.1 == col {
                return Some(i);
            }
            i = i + 1;
        }
        None
    }

    /// The cells `[start, end)` as one segment per grid row: `(line,
    /// first_col, last_col)`, a run of equal lines being one segment.
    pub fn segments(&self, start: usize, end: usize) -> (r: Vec<(i32, u16, u16)>)
        requires
            start <= end <= self.cells@.len(),
        ensures
            r@ == spec_segments(self.cells@, start as int, end as int),
    {
        let mut segs: Vec<(i32, u16, u16)> = Vec::new();
        let mut i = start;
        while i < end
            invariant
                start <= i <= end <= self.cells@.len(),
                segs@ == spec_segments(self.cells@, start as int, i as int),
            decreases end - i,
        {
            let (line, col) = self.cells[i];
            let n = segs.len();
            if n > 0 && segs[n - 1].0 == line {
                let first = segs[n - 1].1;
                segs.set(n - 1, (line, first, col));
            } else {
                segs.push((line, col, col));
            }
            i = i + 1;
        }
        segs
    }
}

// ---------------------------------------------------------------------------
// Reassembling a logical line
// ---------------------------------------------------------------------------

/// The last row of the wrap chain through `line`, following at most
/// `64 - down` more rows down.
pub open spec fn walk_down(g: GridView, line: int, down: int) -> int
    decreases 64 - down,
{
    if line < g.bottom() && down < 64 && g.wraps(line) {
        walk_down(g, line + 1, down + 1)
    } else {
        line
    }
}

proof fn lemma_walk_down(g: GridView, line: int, down: int)
    requires
        g.has_line(line),
        0 <= down <= 64,
    ensures
        line <= walk_down(g, line, down) <= g.bottom(),
    decreases 64 - down,
{
    if line < g.bottom() && down < 64 && g.wraps(line) {
        lemma_walk_down(g, line + 1, down + 1);
    }
}

/// Columns of `row[..c]` up to and including its last written non-blank
/// cell.
pub open spec fn content_width(row: Seq<GridCell>, c: int) -> int
    decreases c,
{
    if c <= 0 {
        0
    } else if row[c - 1].c != ' ' && row[c - 1].c != '\0' {
        c
    } else {
        content_width(row, c - 1)
    }
}

/// An unwritten cell reads as a blank.
pub open spec fn shown(c: char) -> char {
    if c == '\0' { ' ' } else { c }
}

/// How many columns of `line` belong to the logical line ending at `last`:
/// all of a soft-wrapped row, up to the last non-blank cell of the last row.
pub open spec fn row_width(g: GridView, line: int, last: int) -> int {
    if line < last { g.cols as int } else { content_width(g.row(line), g.cols as int) }
}

/// Text of rows `first..hi` of a logical line ending at `last`.
pub open spec fn logical_text(g: GridView, first: int, last: int, hi: int) -> Seq<char>
    decreases hi - first,
{
    if hi <= first {
        seq![]
    } else {
        logical_text(g, first, last, hi - 1) + Seq::new(
            row_width(g, hi - 1, last) as nat,
            |i: int| shown(g.row(hi - 1)[i].c),
        )
    }
}

/// Source cells of rows `first..hi`, one per character.
pub open spec fn logical_cells(g: GridView, first: int, last: int, hi: int) -> Seq<(i32, u16)>
    decreases hi - first,
{
    if hi <= first {
        seq![]
    } else {
        logical_cells(g, first, last, hi - 1) + Seq::new(
            row_width(g, hi - 1, last) as nat,
            |i: int| ((hi - 1) as i32, i as u16),
        )
    }
}

/// The logical line through `target`: the rows of its wrap chain (followed
/// at most 64 rows each way), `None` when the line is outside the grid or
/// holds only blanks.
pub open spec fn spec_logical_line_at(g: GridView, target: int) -> Option<(Seq<char>, Seq<(i32, u16)>)> {
    if !g.has_line(target) {
        None
    } else {
        let first = walk_up(g, target, 0);
        let last = walk_down(g, target, 0);
        let t = logical_text(g, first, last, last + 1);
        if forall|k: int| 0 <= k < t.len() ==> spec_is_whitespace(#[trigger] t[k]) {
            None
        } else {
            Some((t, logical_cells(g, first, last, last + 1)))
        }
    }
}

proof fn lemma_content_width(row: Seq<GridCell>, c: int)
    requires
        0 <= c,
    ensures
        0 <= content_width(row, c) <= c,
    decreases c,
{
    if c > 0 && !(row[c - 1].c != ' ' && row[c - 1].c != '\0') {
        lemma_content_width(row, c - 1);
    }
}

fn content_width_exec(row: &Vec<GridCell>) -> (w: usize)
    ensures
        w == content_width(row@, row@.len() as int),
        w <= row@.len(),
{
    let mut c = row.len();
    proof {
        lemma_content_width(row@, c as int);
    }
    while c > 0 && (row[c - 1].c == ' ' || row[c - 1].c == '\0')
        invariant
            c <= row@.len(),
            content_width(row@, c as int) == content_width(row@, row@.len() as int),
        decreases c,
    {
        c = c - 1;
    }
    c
}

fn walk_down_exec(g: &GridView, line: i64) -> (r: i64)
    requires
        g.wf(),
        g.has_line(line as int),
    ensures
        r == walk_down(*g, line as int, 0),
        line <= r <= g.bottom(),
{
    let bottom: i64 = g.rows.len() as i64 - g.history as i64 - 1;
    let mut last = line;
    let mut down: usize = 0;
    proof {
        lemma_walk_down(*g, line as int, 0);
    }
    while last < bottom && down < crate::grid::MAX_CHAIN_ROWS && wraps_line(g, last)
        invariant
            g.wf(),
            bottom == g.bottom(),
            g.has_line(last as int),
            line <= last,
            down <= 64,
            walk_down(*g, last as int, down as int) == walk_down(*g, line as int, 0),
        decreases 64 - down,
    {
        last = last + 1;
        down = down + 1;
    }
    last
}

fn row_ref<'a>(g: &'a GridView, line: i64) -> (r: &'a Vec<GridCell>)
    requires
        g.wf(),
        g.has_line(line as int),
    ensures
        r@ == g.row(line as int),
        r@.len() == g.cols,
{
    let k = (line + g.history as i64) as usize;
    assert(g.rows@[k as int]@.len() == g.cols);
    &g.rows[k]
}

fn wraps_line(g: &GridView, line: i64) -> (r: bool)
    requires
        g.wf(),
        g.has_line(line as int),
    ensures
        r == g.wraps(line as int),
{
    let row = row_ref(g, line);
    row[g.cols - 1].wrapline
}

fn walk_up_line(g: &GridView, line: i64) -> (r: i64)
    requires
        g.wf(),
        g.has_line(line as int),
    ensures
        r == walk_up(*g, line as int, 0),
        g.top() <= r <= line,
{
    let top: i64 = -(g.history as i64);
    let mut first = line;
    let mut up: usize = 0;
    proof {
        lemma_walk_up(*g, line as int, 0);
    }
    while first > top && up < crate::grid::MAX_CHAIN_ROWS && wraps_line(g, first - 1)
        invariant
            g.wf(),
            top == g.top(),
            g.has_line(first as int),
            first <= line,
            up <= 64,
            walk_up(*g, first as int, up as int) == walk_up(*g, line as int, 0),
        decreases 64 - up,
    {
        first = first - 1;
        up = up + 1;
    }
    first
}

/// Reassemble the logical line that grid line `target` belongs to.
pub fn logical_line_at(g: &GridView, target: i32) -> (r: Option<LogicalLine>)
    requires
        g.wf(),
    ensures
        match spec_logical_line_at(*g, target as int) {
            None => r is None,
            Some((t, c)) => r is Some && r->0.text@ == t && r->0.cells@ == c,
        },
{
    let top: i64 = -(g.history as i64);
    let bottom: i64 = g.rows.len() as i64 - g.history as i64 - 1;
    let target = target as i64;
    if target < top || target > bottom {
        return None;
    }
    let first = walk_up_line(g, target);
    let last = walk_down_exec(g, target);
    let mut text: Vec<char> = Vec::new();
    let mut cells: Vec<(i32, u16)> = Vec::new();
    let mut line = first;
    while line <= last
        invariant
            g.wf(),
            g.top() <= first <= line <= last + 1,
            last <= g.bottom(),
            text@ == logical_text(*g, first as int, last as int, line as int),
            cells@ == logical_cells(*g, first as int, last as int, line as int),
        decreases last + 1 - line,
    {
        let row = row_ref(g, line);
        let width = if line < last { g.cols } else { content_width_exec(row) };
        let ghost t0 = text@;
        let ghost c0 = cells@;
        let mut ci: usize = 0;
        while ci < width
            invariant
                g.wf(),
                row@ == g.row(line as int),
                row@.len() == g.cols,
                width <= g.cols,
                ci <= width,
                g.cols <= u16::MAX,
                text@ == t0 + Seq::new(ci as nat, |i: int| shown(row@[i].c)),
                cells@ == c0 + Seq::new(ci as nat, |i: int| (line as i32, i as u16)),
            decreases width - ci,
        {
            let ch = row[ci].c;
            text.push(if ch == '\0' { ' ' } else { ch });
            cells.push((line as i32, ci as u16));
            assert(text@ =~= t0 + Seq::new((ci + 1) as nat, |i: int| shown(row@[i].c)));
            assert(cells@ =~= c0 + Seq::new((ci + 1) as nat, |i: int| (line as i32, i as u16)));
            ci = ci + 1;
        }
        proof {
            assert(width == row_width(*g, line as int, last as int));
        }
        line = line + 1;
    }
    let mut k: usize = 0;
    while k < text.len() && is_whitespace(text[k])
        invariant
            k <= text@.len(),
            forall|j: int| 0 <= j < k ==> spec_is_whitespace(#[trigger] text@[j]),
        decreases text@.len() - k,
    {
        k = k + 1;
    }
    if k == text.len() {
        return None;
    }
    Some(LogicalLine { text, cells })
}

// ---------------------------------------------------------------------------
// The scraped URL at a cell
// ---------------------------------------------------------------------------

/// The `http(s)://` token (trailing `) ] > , . ;` trimmed) that contains
/// character `target`, searching from `i`; a scan resumes after each token
/// it passes.
pub open spec fn url_find(t: Seq<char>, target: int, i: int) -> Option<(int, int)>
    decreases t.len() - i,
{
    if i < 0 || i >= t.len() {
        None
    } else if url_start(t, i) {
        proof {
            lemma_url_cut(t, i);
        }
        let end = token_end(t, i);
        let cut = trim_tail(proj_seq(t), end, i);
        if i <= target < cut {
            Some((i, cut))
        } else if cut > i {
            url_find(t, target, cut)
        } else {
            None
        }
    } else {
        url_find(t, target, i + 1)
    }
}

pub proof fn lemma_url_cut(t: Seq<char>, i: int)
    requires
        0 <= i < t.len(),
        url_start(t, i),
    ensures
        i + 7 <= trim_tail(proj_seq(t), token_end(t, i), i) <= token_end(t, i) <= t.len(),
{
    lemma_url_start_chars(t, i);
    crate::runs::lemma_token_end_past(t, i, i + 7);
    lemma_token_end(t, i);
    let b = proj_seq(t);
    assert(b[i + 6] == 47u8);
    lemma_trim_tail_stop(b, token_end(t, i), i, i + 6);
    crate::runs::lemma_trim_tail(b, token_end(t, i), i);
}

pub open spec fn spec_url_run_at_cell(g: GridView, line: i32, col: u16) -> Option<(Seq<char>, Seq<(i32, u16, u16)>)> {
    match spec_logical_line_at(g, line as int) {
        None => None,
        Some((t, cells)) => match spec_byte_of(cells, line, col) {
            None => None,
            Some(target) => match url_find(t, target, 0) {
                None => None,
                Some((s, e)) => Some((t.subrange(s, e), spec_segments(cells, s, e))),
            },
        },
    }
}

fn url_find_exec(t: &Vec<char>, target: usize) -> (r: Option<(usize, usize)>)
    ensures
        match r {
            Some((s, e)) => url_find(t@, target as int, 0) == Some((s as int, e as int)) && s <= e
                <= t@.len(),
            None => url_find(t@, target as int, 0) is None,
        },
{
    let b = project(t);
    let mut i: usize = 0;
    while i < t.len()
        invariant
            b@ == proj_seq(t@),
            i <= t@.len(),
            url_find(t@, target as int, i as int) == url_find(t@, target as int, 0),
        decreases t@.len() - i,
    {
        if t[i] == 'h' && is_url_start(t, i) {
            proof {
                lemma_url_cut(t@, i as int);
            }
            let end = token_end_exec(t, i);
            let cut = trim_tail_exec(&b, end, i);
            if i <= target && target < cut {
                return Some((i, cut));
            }
            i = cut;
        } else {
            proof {
                if url_start(t@, i as int) {
                    lemma_url_start_chars(t@, i as int);
                }
            }
            i = i + 1;
        }
    }
    None
}

/// The plain-text URL at a cell with the rows it occupies: the `http(s)://`
/// token of the cell's logical line that contains the cell, trailing
/// sentence punctuation trimmed, and its per-row segments.
pub fn url_run_at_cell(g: &GridView, line: i32, col: u16) -> (r: Option<(String, Vec<(i32, u16, u16)>)>)
    requires
        g.wf(),
    ensures
        match spec_url_run_at_cell(*g, line, col) {
            None => r is None,
            Some((u, segs)) => r matches Some((ru, rs)) && ru@ == u && rs@ == segs,
        },
{
    let logical = match logical_line_at(g, line) {
        None => return None,
        Some(l) => l,
    };
    let ghost cells = logical.cells@;
    let target = match logical.byte_of(line, col) {
        None => {
            assert(!(exists|i: int| 0 <= i < cells.len() && cells[i] == (line, col)));
            return None;
        },
        Some(t) => t,
    };
    proof {
        assert(0 <= target < cells.len() && cells[target as int] == (line, col));
        let c = choose|i: int|
            0 <= i < cells.len() && cells[i] == (line, col) && forall|j: int|
                0 <= j < i ==> cells[j] != (line, col);
        assert(0 <= c < cells.len() && cells[c] == (line, col) && forall|j: int|
            0 <= j < c ==> cells[j] != (line, col));
        if c < target {
            assert(cells[c] != (line, col));
        } else if c > target {
            assert(cells[target as int] != (line, col));
        }
        assert(spec_byte_of(cells, line, col) == Some(target as int));
    }
    match url_find_exec(&logical.text, target) {
        None => None,
        Some((s, e)) => {
            assert(logical.text@.len() == logical.cells@.len()) by {
                lemma_logical_lens(*g, line as int);
            }
            let url = string_of(&logical.text, s, e);
            let segs = logical.segments(s, e);
            Some((url, segs))
        },
    }
}

proof fn lemma_logical_lens_hi(g: GridView, first: int, last: int, hi: int)
    ensures
        logical_text(g, first, last, hi).len() == logical_cells(g, first, last, hi).len(),
    decreases hi - first,
{
    if hi > first {
        lemma_logical_lens_hi(g, first, last, hi - 1);
    }
}

proof fn lemma_logical_lens(g: GridView, target: int)
    requires
        spec_logical_line_at(g, target) is Some,
    ensures
        spec_logical_line_at(g, target) matches Some((t, c)) && t.len() == c.len(),
{
    let first = walk_up(g, target, 0);
    let last = walk_down(g, target, 0);
    lemma_logical_lens_hi(g, first, last, last + 1);
}

/// The URL string alone.
pub fn url_at_cell(g: &GridView, line: i32, col: u16) -> (r: Option<String>)
    requires
        g.wf(),
    ensures
        match spec_url_run_at_cell(*g, line, col) {
            None => r is None,
            Some((u, _)) => r is Some && r->0@ == u,
        },
{
    match url_run_at_cell(g, line, col) {
        None => None,
        Some((u, _)) => Some(u),
    }
}

// ---------------------------------------------------------------------------
// What the pointer hovers
// ---------------------------------------------------------------------------

/// The OSC 8 hyperlink under the pointer, surfaced so the application can
/// reveal its target (the visible label of an OSC 8 link need not match
/// it). `allowed` says whether the scheme is on the allow list; when it is
/// `false` the application shows a "link type not allowed" chip instead and the widget
/// offers no pointer, underline or open affordance.
#[derive(Clone, Debug, PartialEq)]
pub struct HoveredLink {
    pub target: String,
    pub allowed: bool,
}

/// The outcome of hovering a cell: the reveal chip, the on-screen rows to
/// underline `(row, first column, last column)`, and the URL a click opens.
pub struct LinkHover {
    pub link: Option<HoveredLink>,
    pub spans: Vec<(u16, u16, u16)>,
    pub open_url: Option<String>,
}

/// Grid-line segments moved to on-screen rows for a view scrolled `offset`
/// lines back (the row index is taken modulo 2^16, as the renderer does).
pub open spec fn on_screen(segs: Seq<(i32, u16, u16)>, offset: i32) -> Seq<(u16, u16, u16)> {
    segs.map_values(|s: (i32, u16, u16)| ((s.0 + offset) as u16, s.1, s.2))
}

pub open spec fn offsets_fit(segs: Seq<(i32, u16, u16)>, offset: i32) -> bool {
    forall|k: int| 0 <= k < segs.len() ==> i32::MIN <= (#[trigger] segs[k]).0 + offset <= i32::MAX
}

fn to_screen(segs: &Vec<(i32, u16, u16)>, offset: i32) -> (r: Vec<(u16, u16, u16)>)
    requires
        offsets_fit(segs@, offset),
    ensures
        r@ == on_screen(segs@, offset),
{
    let mut r: Vec<(u16, u16, u16)> = Vec::new();
    let mut i: usize = 0;
    while i < segs.len()
        invariant
            offsets_fit(segs@, offset),
            i <= segs@.len(),
            r@ == on_screen(segs@.take(i as int), offset),
        decreases segs@.len() - i,
    {
        let (gl, sc, ec) = segs[i];
        assert(i32::MIN <= segs@[i as int].0 + offset <= i32::MAX);
        let line = gl + offset;
        r.push((line as u16, sc, ec));
        assert(segs@.take(i + 1) =~= segs@.take(i as int).push(segs@[i as int]));
        assert(r@ =~= on_screen(segs@.take(i + 1), offset));
        i = i + 1;
    }
    assert(segs@.take(segs@.len() as int) =~= segs@);
    r
}

/// Hovering an explicit OSC 8 link: the chip always names the target; only
/// an allowed scheme is underlined and opens on click.
pub fn hover_osc8(uri: String, segments: &Vec<(i32, u16, u16)>, offset: i32) -> (r: LinkHover)
    requires
        offsets_fit(segments@, offset),
    ensures
        r.link matches Some(l) && l.target@ == uri@ && l.allowed == spec_osc8_scheme_allowed(uri@),
        spec_osc8_scheme_allowed(uri@) ==> (r.spans@ == on_screen(segments@, offset) && (r.open_url
            matches Some(u) && u@ == uri@)),
        !spec_osc8_scheme_allowed(uri@) ==> r.spans@.len() == 0 && r.open_url is None,
{
    let allowed = osc8_scheme_allowed(uri.as_str());
    let link = HoveredLink { target: uri.clone(), allowed };
    if allowed {
        LinkHover { link: Some(link), spans: to_screen(segments, offset), open_url: Some(uri) }
    } else {
        LinkHover { link: Some(link), spans: Vec::new(), open_url: None }
    }
}

/// Hovering a cell without an OSC 8 link: a scraped URL is underlined on
/// every row it covers and opens on click; no chip is shown.
pub fn hover_scraped(run: Option<(String, Vec<(i32, u16, u16)>)>, offset: i32) -> (r: LinkHover)
    requires
        run matches Some((_, segs)) ==> offsets_fit(segs@, offset),
    ensures
        r.link is None,
        match run {
            Some((u, segs)) => r.spans@ == on_screen(segs@, offset) && (r.open_url matches Some(o)
                && o@ == u@),
            None => r.spans@.len() == 0 && r.open_url is None,
        },
{
    match run {
        Some((url, segs)) => LinkHover { link: None, spans: to_screen(&segs, offset), open_url: Some(url) },
        None => LinkHover { link: None, spans: Vec::new(), open_url: None },
    }
}

// ---------------------------------------------------------------------------
// OSC 8 hyperlink runs
// ---------------------------------------------------------------------------

/// Most rows a wrapped OSC 8 link is followed across.
pub const MAX_LINK_ROWS: usize = 8;

/// First column of the run of cells with hyperlink `key` ending at `s`.
pub open spec fn link_left(row: Seq<GridCell>, key: u32, s: int) -> int
    decreases s,
{
    if s > 0 && row[s - 1].link == key {
        link_left(row, key, s - 1)
    } else {
        s
    }
}

/// Last column of the run of cells with hyperlink `key` starting at `e`.
pub open spec fn link_right(row: Seq<GridCell>, key: u32, e: int) -> int
    decreases row.len() - e,
{
    if e + 1 < row.len() && row[e + 1].link == key {
        link_right(row, key, e + 1)
    } else {
        e
    }
}

proof fn lemma_link_left(row: Seq<GridCell>, key: u32, s: int)
    requires
        0 <= s < row.len(),
    ensures
        0 <= link_left(row, key, s) <= s,
    decreases s,
{
    if s > 0 && row[s - 1].link == key {
        lemma_link_left(row, key, s - 1);
    }
}

proof fn lemma_link_right(row: Seq<GridCell>, key: u32, e: int)
    requires
        0 <= e < row.len(),
    ensures
        e <= link_right(row, key, e) < row.len(),
    decreases row.len() - e,
{
    if e + 1 < row.len() && row[e + 1].link == key {
        lemma_link_right(row, key, e + 1);
    }
}

/// The run of cells sharing hyperlink `key` around column `from` of `line`.
pub open spec fn link_seg(g: GridView, key: u32, line: int, from: int) -> (i32, u16, u16) {
    (line as i32, link_left(g.row(line), key, from) as u16, link_right(g.row(line), key, from) as u16)
}

/// The key of the hyperlink at a cell, when it names a known target.
pub open spec fn link_key_at(g: GridView, line: int, col: int) -> Option<u32> {
    if !g.has_line(line) || col >= g.cols {
        None
    } else {
        let k = g.row(line)[col].link;
        if k == 0 || k > g.link_uris@.len() {
            None
        } else {
            Some(k)
        }
    }
}

pub open spec fn spec_osc8_link_at_cell(g: GridView, line: int, col: int) -> Option<(Seq<char>, int, int)> {
    match link_key_at(g, line, col) {
        None => None,
        Some(k) => Some((
            g.link_uris@[k - 1]@,
            link_left(g.row(line), k, col),
            link_right(g.row(line), k, col),
        )),
    }
}

/// Walk up: while fewer than eight segments, the top one starts at column 0
/// and the row above ends in the same link, prepend that row's run.
pub open spec fn walk_link_up(g: GridView, key: u32, line: int, segs: Seq<(i32, u16, u16)>) -> Seq<
    (i32, u16, u16),
>
    decreases 8 - segs.len(),
{
    if segs.len() < 8 && line > g.top() && segs.len() > 0 && segs[0].1 == 0 && g.row(line - 1)[g.cols
        - 1].link == key {
        walk_link_up(g, key, line - 1, seq![link_seg(g, key, line - 1, g.cols - 1)] + segs)
    } else {
        segs
    }
}

/// Walk down: while fewer than eight segments, the bottom one ends at the
/// last column and the row below starts with the same link, append that
/// row's run.
pub open spec fn walk_link_down(g: GridView, key: u32, line: int, segs: Seq<(i32, u16, u16)>) -> Seq<
    (i32, u16, u16),
>
    decreases 8 - segs.len(),
{
    if segs.len() < 8 && line < g.bottom() && segs.len() > 0 && segs.last().2 == g.cols - 1
        && g.row(line + 1)[0].link == key {
        walk_link_down(g, key, line + 1, segs.push(link_seg(g, key, line + 1, 0)))
    } else {
        segs
    }
}

pub open spec fn spec_osc8_link_run(g: GridView, line: int, col: int) -> Option<(Seq<char>, Seq<(i32, u16, u16)>)> {
    match link_key_at(g, line, col) {
        None => None,
        Some(k) => {
            let up = walk_link_up(g, k, line, seq![link_seg(g, k, line, col)]);
            Some((g.link_uris@[k - 1]@, walk_link_down(g, k, line, up)))
        },
    }
}

fn link_run_bounds(row: &Vec<GridCell>, key: u32, from: usize) -> (r: (usize, usize))
    requires
        from < row@.len(),
    ensures
        r.0 == link_left(row@, key, from as int),
        r.1 == link_right(row@, key, from as int),
        r.0 <= from <= r.1 < row@.len(),
{
    proof {
        lemma_link_left(row@, key, from as int);
        lemma_link_right(row@, key, from as int);
    }
    let mut s = from;
    while s > 0 && row[s - 1].link == key
        invariant
            s <= from < row@.len(),
            link_left(row@, key, s as int) == link_left(row@, key, from as int),
        decreases s,
    {
        s = s - 1;
    }
    let mut e = from;
    while e + 1 < row.len() && row[e + 1].link == key
        invariant
            from <= e < row@.len(),
            row@.len() == row.len(),
            link_right(row@, key, e as int) == link_right(row@, key, from as int),
        decreases row@.len() - e,
    {
        e = e + 1;
    }
    (s, e)
}

fn link_key_exec(g: &GridView, line: i64, col: usize) -> (r: Option<u32>)
    requires
        g.wf(),
    ensures
        r == link_key_at(*g, line as int, col as int),
{
    let top: i64 = -(g.history as i64);
    let bottom: i64 = g.rows.len() as i64 - g.history as i64 - 1;
    if line < top || line > bottom || col >= g.cols {
        return None;
    }
    let row = row_ref(g, line);
    let k = row[col].link;
    if k == 0 || k as usize > g.link_uris.len() {
        None
    } else {
        Some(k)
    }
}

/// The OSC 8 hyperlink at a cell with the run of cells on its row that
/// carry the same link: `(target, first column, last column)`.
pub fn osc8_link_at_cell(g: &GridView, line: i32, col: u16) -> (r: Option<(String, u16, u16)>)
    requires
        g.wf(),
    ensures
        match spec_osc8_link_at_cell(*g, line as int, col as int) {
            None => r is None,
            Some((u, s, e)) => r matches Some((ru, rs, re)) && ru@ == u && rs == s && re == e,
        },
{
    let ln = line as i64;
    match link_key_exec(g, ln, col as usize) {
        None => None,
        Some(k) => {
            let row = row_ref(g, ln);
            let (s, e) = link_run_bounds(row, k, col as usize);
            let uri = g.link_uris[(k - 1) as usize].clone();
            Some((uri, s as u16, e as u16))
        },
    }
}

fn seg_exec(g: &GridView, key: u32, line: i64, from: usize) -> (r: (i32, u16, u16))
    requires
        g.wf(),
        g.has_line(line as int),
        from < g.cols,
    ensures
        r == link_seg(*g, key, line as int, from as int),
        r.1 <= from <= r.2 < g.cols,
{
    let row = row_ref(g, line);
    let (s, e) = link_run_bounds(row, key, from);
    (line as i32, s as u16, e as u16)
}

/// The whole run of an OSC 8 hyperlink at a cell, followed across rows the
/// link wraps over (a row boundary is crossed only when the run touches the
/// edge and the next row continues the same link), at most eight rows:
/// `(target, segments)` top to bottom.
pub fn osc8_link_run(g: &GridView, line: i32, col: u16) -> (r: Option<(String, Vec<(i32, u16, u16)>)>)
    requires
        g.wf(),
    ensures
        match spec_osc8_link_run(*g, line as int, col as int) {
            None => r is None,
            Some((u, segs)) => r matches Some((ru, rs)) && ru@ == u && rs@ == segs,
        },
{
    let ln = line as i64;
    let key = match link_key_exec(g, ln, col as usize) {
        None => return None,
        Some(k) => k,
    };
    let top: i64 = -(g.history as i64);
    let bottom: i64 = g.rows.len() as i64 - g.history as i64 - 1;
    let last_col = g.cols - 1;
    let first_seg = seg_exec(g, key, ln, col as usize);
    let mut segs: Vec<(i32, u16, u16)> = Vec::new();
    segs.push(first_seg);
    let mut cur = ln;
    while segs.len() < MAX_LINK_ROWS && cur > top && segs[0].1 == 0 && row_ref(g, cur - 1)[last_col].link == key
        invariant
            g.wf(),
            top == g.top(),
            last_col == g.cols - 1,
            g.has_line(cur as int),
            1 <= segs@.len() <= 8,
            walk_link_up(*g, key, cur as int, segs@) == walk_link_up(*g, key, ln as int, seq![first_seg]),
        decreases 8 - segs@.len(),
    {
        let ghost before = segs@;
        cur = cur - 1;
        let s = seg_exec(g, key, cur, last_col);
        segs.insert(0, s);
        assert(segs@ =~= seq![s] + before);
    }
    let ghost up = segs@;
    let mut cur = ln;
    while segs.len() < MAX_LINK_ROWS && cur < bottom && segs[segs.len() - 1].2 as usize == last_col && row_ref(g, cur + 1)[0].link == key
        invariant
            g.wf(),
            bottom == g.bottom(),
            last_col == g.cols - 1,
            g.has_line(cur as int),
            1 <= segs@.len() <= 8,
            walk_link_down(*g, key, cur as int, segs@) == walk_link_down(*g, key, ln as int, up),
        decreases 8 - segs@.len(),
    {
        cur = cur + 1;
        let s = seg_exec(g, key, cur, 0);
        segs.push(s);
    }
    let uri = g.link_uris[(key - 1) as usize].clone();
    Some((uri, segs))
}

/// Consecutive segments of a run are consecutive rows joined at a wrap: the
/// upper one reaches the last column and the lower one starts at column 0.
pub open spec fn joined_at_wraps(segs: Seq<(i32, u16, u16)>, cols: int) -> bool {
    forall|i: int|
        #![trigger segs[i]]
        0 < i < segs.len() ==> segs[i].0 == segs[i - 1].0 + 1 && segs[i - 1].2 == cols - 1 && segs[i].1 == 0
}

proof fn lemma_walk_down_joined(g: GridView, key: u32, line: int, segs: Seq<(i32, u16, u16)>)
    requires
        g.wf(),
        g.has_line(line),
        segs.len() > 0,
        segs.last().0 == line,
        joined_at_wraps(segs, g.cols as int),
    ensures
        joined_at_wraps(walk_link_down(g, key, line, segs), g.cols as int),
        walk_link_down(g, key, line, segs).len() >= segs.len(),
        walk_link_down(g, key, line, segs).take(segs.len() as int) == segs,
    decreases 8 - segs.len(),
{
    if segs.len() < 8 && line < g.bottom() && segs.len() > 0 && segs.last().2 == g.cols - 1
        && g.row(line + 1)[0].link == key {
        let s = link_seg(g, key, line + 1, 0);
        assert(s.1 == 0);
        assert(s.0 == line + 1);
        let next = segs.push(s);
        assert forall|i: int| 0 < i < next.len() implies #[trigger] next[i].0 == next[i - 1].0 + 1
            && next[i - 1].2 == g.cols - 1 && next[i].1 == 0 by {
            if i < segs.len() {
                assert(next[i] == segs[i] && next[i - 1] == segs[i - 1]);
            } else {
                assert(next[i] == s && next[i - 1] == segs.last());
            }
        }
        lemma_walk_down_joined(g, key, line + 1, next);
        assert(walk_link_down(g, key, line + 1, next).take(segs.len() as int) =~= next.take(
            next.len() as int,
        ).take(segs.len() as int));
        assert(next.take(segs.len() as int) =~= segs);
    } else {
        assert(segs.take(segs.len() as int) =~= segs);
    }
}

proof fn lemma_walk_up_joined(g: GridView, key: u32, line: int, segs: Seq<(i32, u16, u16)>)
    requires
        g.wf(),
        g.has_line(line),
        segs.len() > 0,
        segs[0].0 == line,
        joined_at_wraps(segs, g.cols as int),
    ensures
        joined_at_wraps(walk_link_up(g, key, line, segs), g.cols as int),
        walk_link_up(g, key, line, segs).len() > 0,
    decreases 8 - segs.len(),
{
    if segs.len() < 8 && line > g.top() && segs.len() > 0 && segs[0].1 == 0 && g.row(line - 1)[g.cols
        - 1].link == key {
        let s = link_seg(g, key, line - 1, g.cols - 1);
        assert(g.rows@[line - 1 + g.history]@.len() == g.cols);
        assert(link_right(g.row(line - 1), key, g.cols - 1) == g.cols - 1);
        assert(s.2 == g.cols - 1);
        assert(s.0 == line - 1);
        let next = seq![s] + segs;
        assert forall|i: int| 0 < i < next.len() implies #[trigger] next[i].0 == next[i - 1].0 + 1
            && next[i - 1].2 == g.cols - 1 && next[i].1 == 0 by {
            if i > 1 {
                assert(next[i] == segs[i - 1] && next[i - 1] == segs[i - 2]);
            } else {
                assert(next[0] == s && next[1] == segs[0]);
            }
        }
        lemma_walk_up_joined(g, key, line - 1, next);
    }
}

/// A hyperlink run only ever crosses a row boundary at a genuine wrap: each
/// segment after the first starts at column 0 on the row right below the
/// previous segment, which reaches the last column. Two regions that merely
/// share a link id but are not contiguous never form one run.
pub proof fn law_link_runs_cross_rows_only_at_wraps(g: GridView, line: int, col: int)
    requires
        g.wf(),
        spec_osc8_link_run(g, line, col) is Some,
    ensures
        spec_osc8_link_run(g, line, col) matches Some((_, segs)) && joined_at_wraps(segs, g.cols as int)
            && segs.len() <= 8,
{
    let k = link_key_at(g, line, col)->0;
    let first = seq![link_seg(g, k, line, col)];
    assert(joined_at_wraps(first, g.cols as int));
    lemma_walk_up_joined(g, k, line, first);
    let up = walk_link_up(g, k, line, first);
    lemma_walk_up_len(g, k, line, first);
    lemma_walk_up_last(g, k, line, first);
    lemma_walk_down_joined(g, k, line, up);
    lemma_walk_down_len(g, k, line, up);
}

proof fn lemma_walk_up_len(g: GridView, key: u32, line: int, segs: Seq<(i32, u16, u16)>)
    requires
        segs.len() <= 8,
    ensures
        segs.len() <= walk_link_up(g, key, line, segs).len() <= 8,
    decreases 8 - segs.len(),
{
    if segs.len() < 8 && line > g.top() && segs.len() > 0 && segs[0].1 == 0 && g.row(line - 1)[g.cols
        - 1].link == key {
        lemma_walk_up_len(g, key, line - 1, seq![link_seg(g, key, line - 1, g.cols - 1)] + segs);
    }
}

proof fn lemma_walk_down_len(g: GridView, key: u32, line: int, segs: Seq<(i32, u16, u16)>)
    requires
        segs.len() <= 8,
    ensures
        walk_link_down(g, key, line, segs).len() <= 8,
    decreases 8 - segs.len(),
{
    if segs.len() < 8 && line < g.bottom() && segs.len() > 0 && segs.last().2 == g.cols - 1
        && g.row(line + 1)[0].link == key {
        lemma_walk_down_len(g, key, line + 1, segs.push(link_seg(g, key, line + 1, 0)));
    }
}

/// Walking up keeps the starting row's segment last.
proof fn lemma_walk_up_last(g: GridView, key: u32, line: int, segs: Seq<(i32, u16, u16)>)
    requires
        segs.len() > 0,
    ensures
        walk_link_up(g, key, line, segs).last() == segs.last(),
    decreases 8 - segs.len(),
{
    if segs.len() < 8 && line > g.top() && segs.len() > 0 && segs[0].1 == 0 && g.row(line - 1)[g.cols
        - 1].link == key {
        let next = seq![link_seg(g, key, line - 1, g.cols - 1)] + segs;
        lemma_walk_up_last(g, key, line - 1, next);
    }
}

// ---------------------------------------------------------------------------
// What a Ctrl+click opens
// ---------------------------------------------------------------------------

pub open spec fn spec_link_target_at(g: GridView, line: i32, col: u16) -> Option<Seq<char>> {
    match spec_osc8_link_at_cell(g, line as int, col as int) {
        Some((uri, _, _)) => if spec_osc8_scheme_allowed(uri) {
            Some(uri)
        } else {
            None
        },
        None => match spec_url_run_at_cell(g, line, col) {
            Some((u, _)) => Some(u),
            None => None,
        },
    }
}

/// The URL a Ctrl+click on a cell opens. A cell that carries an OSC 8
/// hyperlink follows the hyperlink rules only: its target opens when its
/// scheme is allowed, and nothing opens otherwise, even when the visible
/// label looks like a URL. Only a cell without a hyperlink falls back to the
/// plain-text `http(s)://` URL under it.
pub fn link_target_at(g: &GridView, line: i32, col: u16) -> (r: Option<String>)
    requires
        g.wf(),
    ensures
        match spec_link_target_at(*g, line, col) {
            Some(u) => r matches Some(s) && s@ == u,
            None => r is None,
        },
{
    match osc8_link_at_cell(g, line, col) {
        Some((uri, _, _)) => {
            if osc8_scheme_allowed(uri.as_str()) {
                Some(uri)
            } else {
                None
            }
        },
        None => url_at_cell(g, line, col),
    }
}

/// A hyperlinked cell never opens anything but its own target, and only
/// when that target's scheme is allowed: a label that reads like a URL
/// cannot redirect the click.
pub proof fn law_hyperlinks_never_fall_back_to_scraped_text(g: GridView, line: i32, col: u16)
    requires
        spec_osc8_link_at_cell(g, line as int, col as int) is Some,
    ensures
        match spec_link_target_at(g, line, col) {
            Some(u) => (spec_osc8_link_at_cell(g, line as int, col as int) matches Some((t, _, _))
                && u == t) && spec_osc8_scheme_allowed(u),
            None => true,
        },
{
}

} // verus!

verus! {

/// Sentence punctuation that may close a URL in running text: `)`, `]`,
/// `>`, `,`, `.` and `;`.
pub open spec fn closes_sentence(c: char) -> bool {
    c == ')' || c == ']' || c == '>' || c == ',' || c == '.' || c == ';'
}

pub proof fn lemma_proj_closes(c: char)
    ensures
        crate::runs::spec_trail_punct(crate::text::proj(c)) <==> closes_sentence(c),
{
    if (c as u32) < 128 {
        assert(((c as u32) as u8) as u32 == c as u32);
    }
}

/// What `trim_tail` leaves: everything it dropped is trailing punctuation,
/// and what it keeps past `start` does not end in any.
pub proof fn lemma_trim_tail_cut(b: Seq<u8>, end: int, start: int)
    requires
        start <= end <= b.len(),
    ensures
        start <= trim_tail(b, end, start) <= end,
        trim_tail(b, end, start) > start ==> !crate::runs::spec_trail_punct(
            b[trim_tail(b, end, start) - 1],
        ),
        forall|k: int|
            trim_tail(b, end, start) <= k < end ==> crate::runs::spec_trail_punct(#[trigger] b[k]),
    decreases end - start,
{
    if end > start && crate::runs::spec_trail_punct(b[end - 1]) {
        lemma_trim_tail_cut(b, end - 1, start);
    }
}

/// The URL `url_find` reports from `i`: an `http(s)://` token of the text
/// that holds `target`, cut just before the sentence punctuation that ends
/// the token, and never itself ending in any.
proof fn lemma_url_find_cut(t: Seq<char>, target: int, i: int)
    requires
        0 <= i,
    ensures
        url_find(t, target, i) matches Some((s, e)) ==> {
            &&& i <= s && s + 7 <= e <= token_end(t, s) <= t.len()
            &&& url_start(t, s)
            &&& s <= target < e
            &&& !closes_sentence(t[e - 1])
            &&& forall|k: int| e <= k < token_end(t, s) ==> closes_sentence(#[trigger] t[k])
        },
    decreases t.len() - i,
{
    if i < t.len() {
        if url_start(t, i) {
            lemma_url_cut(t, i);
            let end = token_end(t, i);
            let b = proj_seq(t);
            lemma_token_end(t, i);
            lemma_trim_tail_cut(b, end, i);
            let cut = trim_tail(b, end, i);
            if i <= target < cut {
                lemma_proj_closes(t[cut - 1]);
                assert forall|k: int| cut <= k < end implies closes_sentence(#[trigger] t[k]) by {
                    assert(b[k] == crate::text::proj(t[k]));
                    lemma_proj_closes(t[k]);
                }
            } else if cut > i {
                lemma_url_find_cut(t, target, cut);
            }
        } else {
            lemma_url_find_cut(t, target, i + 1);
        }
    }
}

/// A scraped URL never ends in sentence punctuation: the text opened for a
/// cell is an `http(s)://` token of the cell's logical line with its
/// trailing `)`, `]`, `>`, `,`, `.` and `;` cut off, so `(see
/// https://example.com/guide)` opens `https://example.com/guide`. What the
/// token holds past the URL is all such punctuation.
pub proof fn law_scraped_url_stops_before_trailing_punctuation(g: GridView, line: i32, col: u16)
    ensures
        spec_url_run_at_cell(g, line, col) matches Some((u, _)) ==> {
            &&& u.len() >= 7
            &&& !closes_sentence(u.last())
        },
        spec_logical_line_at(g, line as int) matches Some((t, cells)) ==> (spec_byte_of(
            cells,
            line,
            col,
        ) matches Some(target) ==> (url_find(t, target, 0) matches Some((s, e)) ==> forall|k: int|
            e <= k < token_end(t, s) ==> closes_sentence(#[trigger] t[k]))),
{
    if let Some((t, cells)) = spec_logical_line_at(g, line as int) {
        if let Some(target) = spec_byte_of(cells, line, col) {
            lemma_url_find_cut(t, target, 0);
            if let Some((s, e)) = url_find(t, target, 0) {
                let u = t.subrange(s, e);
                assert(u.last() == t[e - 1]);
            }
        }
    }
}

} // verus!
