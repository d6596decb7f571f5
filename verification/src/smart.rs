//! Smart selection: a double click inside a detected URL, address or path
//! selects the whole token.
use vstd::prelude::*;
use crate::grid::{GridView, GridCell};
use crate::highlight::{Highlight, HighlightKind, PrivacyClasses, ScanRow};
use crate::detect::{detect_highlights, detect_row, detect_from, spec_detect, term_chars};
use crate::privacy::{privacy_span_at, spec_merged, cell_in, extent_text, cell_char_exec, Extent};
use crate::text::string_push;

verus! {

pub open spec fn is_present(cell: GridCell) -> bool {
    cell.c != ' ' && cell.c != '\0'
}

/// The non-blank cells of `row[..n]` as `(column, char)`.
pub open spec fn present_cols(row: Seq<GridCell>, n: int) -> Seq<(u16, char)>
    decreases n,
{
    if n <= 0 {
        seq![]
    } else if is_present(row[n - 1]) {
        present_cols(row, n - 1).push(((n - 1) as u16, row[n - 1].c))
    } else {
        present_cols(row, n - 1)
    }
}

/// First column of the run of non-blank cells ending at `c`.
pub open spec fn run_left(row: Seq<GridCell>, c: int) -> int
    decreases c,
{
    if c > 0 && is_present(row[c - 1]) {
        run_left(row, c - 1)
    } else {
        c
    }
}

/// Last column of the run of non-blank cells starting at `c`.
pub open spec fn run_right(row: Seq<GridCell>, c: int) -> int
    decreases row.len() - c,
{
    if c + 1 < row.len() && is_present(row[c + 1]) {
        run_right(row, c + 1)
    } else {
        c
    }
}

/// A detected span (numbers excluded) overlapping columns `left..=right`.
pub open spec fn overlaps_token(h: Highlight, left: int, right: int) -> bool {
    h.row == 0 && h.kind != HighlightKind::Number && h.start_col <= right && h.end_col >= left
}

pub open spec fn default_classes() -> PrivacyClasses {
    PrivacyClasses { public_ips: true, private_ips: true, usernames: true }
}

/// The spans the highlighter finds in one row, scanned on its own.
pub open spec fn row_spans(row: Seq<GridCell>) -> Seq<Highlight> {
    detect_row(present_cols(row, row.len() as int), 0, None, seq![], None, false, seq![], default_classes()).0
}

pub open spec fn spec_smart_span_at(g: GridView, line: int, col: int) -> Option<(u16, u16)> {
    if !g.has_line(line) || col >= g.cols || !is_present(g.row(line)[col]) {
        None
    } else {
        let row = g.row(line);
        let left = run_left(row, col);
        let right = run_right(row, col);
        if exists|k: int| 0 <= k < row_spans(row).len() && overlaps_token(#[trigger] row_spans(row)[k], left, right) {
            Some((left as u16, right as u16))
        } else {
            None
        }
    }
}

proof fn lemma_run_left(row: Seq<GridCell>, c: int)
    requires
        0 <= c < row.len(),
    ensures
        0 <= run_left(row, c) <= c,
    decreases c,
{
    if c > 0 && is_present(row[c - 1]) {
        lemma_run_left(row, c - 1);
    }
}

proof fn lemma_run_right(row: Seq<GridCell>, c: int)
    requires
        0 <= c < row.len(),
    ensures
        c <= run_right(row, c) < row.len(),
    decreases row.len() - c,
{
    if c + 1 < row.len() && is_present(row[c + 1]) {
        lemma_run_right(row, c + 1);
    }
}

fn row_cells<'a>(g: &'a GridView, line: i64) -> (r: &'a Vec<GridCell>)
    requires
        g.wf(),
        g.has_line(line as int),
    ensures
        r@ == g.row(line as int),
        r@.len() == g.cols,
{
    let k = (line + g.history as i64) as usize;
    assert(g.rows@[k as int]@.len() == g.cols);
    &g.rows[k]
}

/// Double-click span: when the cell at grid line `line`, column `col` is
/// inside a whitespace-bounded token that overlaps a detected URL, address or
/// path (numbers excluded), the token's inclusive column range; `None`
/// otherwise, so the caller falls back to word selection.
pub fn smart_span_at(g: &GridView, line: i32, col: u16) -> (r: Option<(u16, u16)>)
    requires
        g.wf(),
    ensures
        r == spec_smart_span_at(*g, line as int, col as int),
{
    let top: i64 = -(g.history as i64);
    let bottom: i64 = g.rows.len() as i64 - g.history as i64 - 1;
    let ln = line as i64;
    if ln < top || ln > bottom {
        return None;
    }
    let row = row_cells(g, ln);
    let ncols = g.cols;
    let c = col as usize;
    if c >= ncols || !(row[c].c != ' ' && row[c].c != '\0') {
        return None;
    }
    let mut cols: Vec<(u16, char)> = Vec::new();
    let mut ci: usize = 0;
    while ci < ncols
        invariant
            row@.len() == ncols,
            ncols <= u16::MAX,
            ci <= ncols,
            cols@ == present_cols(row@, ci as int),
        decreases ncols - ci,
    {
        let ch = row[ci].c;
        if ch != ' ' && ch != '\0' {
            cols.push((ci as u16, ch));
        }
        ci = ci + 1;
    }
    let mut left = c;
    proof {
        lemma_run_left(row@, c as int);
        lemma_run_right(row@, c as int);
    }
    while left > 0 && row[left - 1].c != ' ' && row[left - 1].c != '\0'
        invariant
            left <= c < row@.len(),
            run_left(row@, left as int) == run_left(row@, c as int),
        decreases left,
    {
        left = left - 1;
    }
    let mut right = c;
    while right + 1 < ncols && row[right + 1].c != ' ' && row[right + 1].c != '\0'
        invariant
            c <= right < row@.len(),
            row@.len() == ncols,
            run_right(row@, right as int) == run_right(row@, c as int),
        decreases ncols - right,
    {
        right = right + 1;
    }
    let mut rows: Vec<ScanRow> = Vec::new();
    rows.push(ScanRow { row: 0, cols, wraps_at: None });
    let terms: Vec<String> = Vec::new();
    let classes = PrivacyClasses { public_ips: true, private_ips: true, usernames: true };
    let hs = detect_highlights(rows.as_slice(), false, terms.as_slice(), classes);
    proof {
        assert(term_chars(terms@) =~= seq![]);
        let r0 = rows@[0];
        let step = detect_row(r0.cols@, r0.row, r0.wraps_at, seq![], None, false, seq![], classes);
        assert(detect_from(rows@, 1, step.0, step.1, false, seq![], classes) == step.0);
        assert(hs@ == row_spans(row@));
    }
    assert(left == run_left(row@, c as int));
    assert(right == run_right(row@, c as int));
    let mut k: usize = 0;
    while k < hs.len()
        invariant
            k <= hs@.len(),
            hs@ == row_spans(row@),
            row@ == g.row(line as int),
            g.has_line(line as int),
            ln == line,
            c < g.cols,
            row@.len() == g.cols,
            c == col,
            is_present(row@[c as int]),
            left == run_left(row@, c as int),
            right == run_right(row@, c as int),
            left <= right,
            right < ncols <= u16::MAX,
            forall|j: int| 0 <= j < k ==> !overlaps_token(#[trigger] hs@[j], left as int, right as int),
        decreases hs@.len() - k,
    {
        let h = hs[k];
        let is_number = match h.kind {
            HighlightKind::Number => true,
            _ => false,
        };
        if h.row == 0 && !is_number && h.start_col as usize <= right && h.end_col as usize >= left {
            assert(overlaps_token(row_spans(row@)[k as int], left as int, right as int));
            return Some((left as u16, right as u16));
        }
        k = k + 1;
    }
    None
}

/// The spans the highlighter finds in one row under Privacy Mode.
pub open spec fn privacy_row_spans(row: Seq<GridCell>, terms: Seq<Seq<char>>, classes: PrivacyClasses) -> Seq<Highlight> {
    detect_row(present_cols(row, row.len() as int), 0, None, seq![], None, true, terms, classes).0
}

/// The first merged privacy extent covering `(0, col)`.
pub open spec fn first_covering(m: Seq<Extent>, col: u16) -> Option<Extent> {
    if exists|k: int| 0 <= k < m.len() && cell_in(m[k], 0, col) {
        let k = choose|k: int| 0 <= k < m.len() && cell_in(m[k], 0, col) && forall|j: int|
            0 <= j < k ==> !cell_in(#[trigger] m[j], 0, col);
        Some(m[k])
    } else {
        None
    }
}

pub open spec fn spec_privacy_value_at_cell(
    g: GridView,
    terms: Seq<Seq<char>>,
    classes: PrivacyClasses,
    line: int,
    col: u16,
) -> Option<Seq<char>> {
    if !g.has_line(line) || present_cols(g.row(line), g.cols as int).len() == 0 {
        None
    } else {
        let row = g.row(line);
        match first_covering(spec_merged(privacy_row_spans(row, terms, classes)), col) {
            Some(e) => Some(extent_text(present_cols(row, g.cols as int), e)),
            None => None,
        }
    }
}

/// Text of the privacy span covering a cell: the row is rescanned on its own
/// under Privacy Mode and the merged span over the cell is read back (a
/// column without a character reads as a space). Keys the click-to-pin
/// reveal.
pub fn privacy_value_at_cell(
    g: &GridView,
    privacy_terms: &[String],
    classes: PrivacyClasses,
    line: i32,
    col: u16,
) -> (r: Option<String>)
    requires
        g.wf(),
        forall|q: int| 0 <= q < privacy_terms@.len() ==> (#[trigger] privacy_terms@[q])@.len() > 0,
    ensures
        match spec_privacy_value_at_cell(*g, term_chars(privacy_terms@), classes, line as int, col) {
            Some(t) => r is Some && r->0@ == t,
            None => r is None,
        },
{
    let top: i64 = -(g.history as i64);
    let bottom: i64 = g.rows.len() as i64 - g.history as i64 - 1;
    let ln = line as i64;
    if ln < top || ln > bottom {
        return None;
    }
    let row = row_cells(g, ln);
    let ncols = g.cols;
    let mut cols: Vec<(u16, char)> = Vec::new();
    let mut ci: usize = 0;
    while ci < ncols
        invariant
            row@.len() == ncols,
            ncols <= u16::MAX,
            ci <= ncols,
            cols@ == present_cols(row@, ci as int),
        decreases ncols - ci,
    {
        let ch = row[ci].c;
        if ch != ' ' && ch != '\0' {
            cols.push((ci as u16, ch));
        }
        ci = ci + 1;
    }
    if cols.len() == 0 {
        return None;
    }
    let ghost pc = cols@;
    let mut rows: Vec<ScanRow> = Vec::new();
    rows.push(ScanRow { row: 0, cols, wraps_at: None });
    let hs = detect_highlights(rows.as_slice(), true, privacy_terms, classes);
    proof {
        let r0 = rows@[0];
        let step = detect_row(r0.cols@, r0.row, r0.wraps_at, seq![], None, true, term_chars(privacy_terms@), classes);
        assert(detect_from(rows@, 1, step.0, step.1, true, term_chars(privacy_terms@), classes) == step.0);
        assert(hs@ == privacy_row_spans(row@, term_chars(privacy_terms@), classes));
    }
    match privacy_span_at(&hs, 0, col) {
        None => None,
        Some(e) => {
            proof {
                let m = spec_merged(hs@);
                let k = choose|k: int|
                    0 <= k < m.len() && m[k] == e && cell_in(e, 0, col) && forall|j: int|
                        0 <= j < k ==> !cell_in(#[trigger] m[j], 0, col);
                let c = choose|c: int| 0 <= c < m.len() && cell_in(m[c], 0, col) && forall|j: int|
                    0 <= j < c ==> !cell_in(#[trigger] m[j], 0, col);
                if c < k {
                    assert(!cell_in(m[c], 0, col));
                } else if c > k {
                    assert(!cell_in(m[k], 0, col));
                }
                assert(first_covering(m, col) == Some(e));
            }
            let cols_ref = &rows[0].cols;
            let mut text = String::new();
            let width: u32 = (e.2 - e.1) as u32 + 1;
            let mut q: u32 = 0;
            while q < width
                invariant
                    e.1 <= e.2,
                    width == e.2 - e.1 + 1,
                    q <= width,
                    cols_ref@ == pc,
                    text@ =~= Seq::new(q as nat, |j: int| crate::privacy::cell_char(pc, e.1 + j)),
                decreases width - q,
            {
                let c: u16 = (e.1 as u32 + q) as u16;
                string_push(&mut text, cell_char_exec(cols_ref, c));
                q = q + 1;
            }
            assert(text@ =~= extent_text(pc, e));
            Some(text)
        },
    }
}

} // verus!
