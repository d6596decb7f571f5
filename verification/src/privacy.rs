//! Privacy-mask extents: the masking spans of a frame, sorted and merged so
//! overlapping or directly adjacent spans on a row become one redaction.
use vstd::prelude::*;
use crate::highlight::{covers, masks, Highlight, HighlightKind, ScanRow};
use crate::text::string_push;

verus! {

broadcast use vstd::seq_lib::group_to_multiset_ensures;

pub type Extent = (u16, u16, u16);

/// Lexicographic order on `(row, start, end)`.
pub open spec fn tle(a: Extent, b: Extent) -> bool {
    a.0 < b.0 || (a.0 == b.0 && (a.1 < b.1 || (a.1 == b.1 && a.2 <= b.2)))
}

pub open spec fn sorted(s: Seq<Extent>) -> bool {
    forall|i: int, j: int| 0 <= i < j < s.len() ==> tle(s[i], s[j])
}

/// `(row, start, end)` of each masking span, in order.
pub open spec fn mask_exts(hs: Seq<Highlight>) -> Seq<Extent>
    decreases hs.len(),
{
    if hs.len() == 0 {
        seq![]
    } else if masks(hs.last()) {
        mask_exts(hs.drop_last()).push((hs.last().row, hs.last().start_col, hs.last().end_col))
    } else {
        mask_exts(hs.drop_last())
    }
}

/// Index of the first element of `s` that is greater than `x`.
pub open spec fn first_gt(s: Seq<Extent>, x: Extent) -> int
    decreases s.len(),
{
    if s.len() == 0 {
        0
    } else if !tle(s[0], x) {
        0
    } else {
        1 + first_gt(s.drop_first(), x)
    }
}

/// Insertion sort.
pub open spec fn isort(s: Seq<Extent>) -> Seq<Extent>
    decreases s.len(),
{
    if s.len() == 0 {
        seq![]
    } else {
        let m = isort(s.drop_last());
        m.insert(first_gt(m, s.last()), s.last())
    }
}

pub open spec fn sat_inc(v: u16) -> int {
    if v == 65535 { 65535 } else { v + 1 }
}

/// Folds `x` into the merged list: it extends the last extent when on the
/// same row and starting at most one column past its end.
pub open spec fn merge_step(m: Seq<Extent>, x: Extent) -> Seq<Extent> {
    if m.len() > 0 && m.last().0 == x.0 && x.1 <= sat_inc(m.last().2) {
        m.drop_last().push(
            (m.last().0, m.last().1, if x.2 > m.last().2 { x.2 } else { m.last().2 }),
        )
    } else {
        m.push(x)
    }
}

pub open spec fn merge(s: Seq<Extent>) -> Seq<Extent>
    decreases s.len(),
{
    if s.len() == 0 {
        seq![]
    } else {
        merge_step(merge(s.drop_last()), s.last())
    }
}

/// The merged privacy extents of a frame's spans.
pub open spec fn spec_merged(hs: Seq<Highlight>) -> Seq<Extent> {
    merge(isort(mask_exts(hs)))
}

proof fn lemma_first_gt(s: Seq<Extent>, x: Extent)
    ensures
        0 <= first_gt(s, x) <= s.len(),
        forall|k: int| 0 <= k < first_gt(s, x) ==> tle(#[trigger] s[k], x),
        first_gt(s, x) < s.len() ==> !tle(s[first_gt(s, x)], x),
    decreases s.len(),
{
    if s.len() > 0 && tle(s[0], x) {
        lemma_first_gt(s.drop_first(), x);
        assert forall|k: int| 0 <= k < first_gt(s, x) implies tle(#[trigger] s[k], x) by {
            if k > 0 {
                assert(s[k] == s.drop_first()[k - 1]);
            }
        }
    }
}

fn tle_exec(a: Extent, b: Extent) -> (r: bool)
    ensures
        r == tle(a, b),
{
    a.0 < b.0 || (a.0 == b.0 && (a.1 < b.1 || (a.1 == b.1 && a.2 <= b.2)))
}

fn first_gt_exec(s: &Vec<Extent>, x: Extent) -> (r: usize)
    ensures
        r == first_gt(s@, x),
{
    proof {
        lemma_first_gt(s@, x);
    }
    let mut k: usize = 0;
    assert(s@.skip(0) =~= s@);
    while k < s.len() && tle_exec(s[k], x)
        invariant
            k <= s@.len(),
            first_gt(s@, x) == k + first_gt(s@.skip(k as int), x),
        decreases s@.len() - k,
    {
        assert(s@.skip(k as int).drop_first() =~= s@.skip(k + 1));
        assert(s@.skip(k as int)[0] == s@[k as int]);
        k = k + 1;
    }
    proof {
        if k < s@.len() {
            assert(s@.skip(k as int)[0] == s@[k as int]);
        }
    }
    k
}

fn mask_exts_exec(hs: &Vec<Highlight>) -> (r: Vec<Extent>)
    ensures
        r@ == mask_exts(hs@),
{
    let mut r: Vec<Extent> = Vec::new();
    let mut i: usize = 0;
    while i < hs.len()
        invariant
            i <= hs@.len(),
            r@ == mask_exts(hs@.take(i as int)),
        decreases hs@.len() - i,
    {
        assert(hs@.take(i + 1).drop_last() =~= hs@.take(i as int));
        let h = hs[i];
        if h.kind == HighlightKind::Ip || h.kind.privacy_only() {
            r.push((h.row, h.start_col, h.end_col));
        }
        i = i + 1;
    }
    assert(hs@.take(hs@.len() as int) =~= hs@);
    r
}

/// Privacy span extents with overlapping or directly adjacent spans on the
/// same row merged into one `(row, start_col, end_col)`: every consumer
/// (bar drawing, hover reveal, pin-by-text) sees the same unified spans.
pub fn merged_privacy_extents(highlights: &Vec<Highlight>) -> (r: Vec<Extent>)
    ensures
        r@ == spec_merged(highlights@),
{
    let exts = mask_exts_exec(highlights);
    let mut sorted: Vec<Extent> = Vec::new();
    let mut i: usize = 0;
    while i < exts.len()
        invariant
            i <= exts@.len(),
            sorted@ == isort(exts@.take(i as int)),
        decreases exts@.len() - i,
    {
        assert(exts@.take(i + 1).drop_last() =~= exts@.take(i as int));
        let x = exts[i];
        proof {
            lemma_first_gt(sorted@, x);
        }
        let pos = first_gt_exec(&sorted, x);
        sorted.insert(pos, x);
        i = i + 1;
    }
    assert(exts@.take(exts@.len() as int) =~= exts@);
    let mut merged: Vec<Extent> = Vec::new();
    let mut j: usize = 0;
    while j < sorted.len()
        invariant
            j <= sorted@.len(),
            merged@ == merge(sorted@.take(j as int)),
        decreases sorted@.len() - j,
    {
        assert(sorted@.take(j + 1).drop_last() =~= sorted@.take(j as int));
        let x = sorted[j];
        let n = merged.len();
        if n > 0 && merged[n - 1].0 == x.0 && (x.1 as u32) <= (if merged[n - 1].2 == 65535 {
            65535u32
        } else {
            merged[n - 1].2 as u32 + 1
        }) {
            let last = merged.pop().unwrap();
            let end = if x.2 > last.2 {
                x.2
            } else {
                last.2
            };
            merged.push((last.0, last.1, end));
        } else {
            merged.push(x);
        }
        j = j + 1;
    }
    assert(sorted@.take(sorted@.len() as int) =~= sorted@);
    merged
}

/// All privacy span extents of the frame, merged (see
/// [`merged_privacy_extents`]).
pub fn privacy_extents(highlights: &Vec<Highlight>) -> (r: Vec<Extent>)
    ensures
        r@ == spec_merged(highlights@),
{
    merged_privacy_extents(highlights)
}

pub open spec fn cell_in(e: Extent, row: u16, col: u16) -> bool {
    e.0 == row && e.1 <= col <= e.2
}

/// The merged privacy extent covering a cell, if any: what the hover
/// reveal uncovers.
pub fn privacy_span_at(highlights: &Vec<Highlight>, row: u16, col: u16) -> (r: Option<Extent>)
    ensures
        match r {
            Some(e) => exists|k: int|
                0 <= k < spec_merged(highlights@).len() && spec_merged(highlights@)[k] == e
                    && cell_in(e, row, col) && forall|j: int|
                    0 <= j < k ==> !cell_in(#[trigger] spec_merged(highlights@)[j], row, col),
            None => forall|k: int|
                0 <= k < spec_merged(highlights@).len() ==> !cell_in(
                    #[trigger] spec_merged(highlights@)[k],
                    row,
                    col,
                ),
        },
{
    let m = merged_privacy_extents(highlights);
    let mut k: usize = 0;
    while k < m.len()
        invariant
            m@ == spec_merged(highlights@),
            k <= m@.len(),
            forall|j: int| 0 <= j < k ==> !cell_in(#[trigger] m@[j], row, col),
        decreases m@.len() - k,
    {
        let e = m[k];
        if e.0 == row && col >= e.1 && col <= e.2 {
            return Some(e);
        }
        k = k + 1;
    }
    None
}

} // verus!

verus! {

/// Index of the first scan row with index `row`.
pub open spec fn find_row(rows: Seq<ScanRow>, row: u16) -> Option<int>
    decreases rows.len(),
{
    if rows.len() == 0 {
        None
    } else if rows[0].row == row {
        Some(0)
    } else {
        match find_row(rows.drop_first(), row) {
            Some(k) => Some(k + 1),
            None => None,
        }
    }
}

/// Character of the first cell at `col`, or a space.
pub open spec fn cell_char(cols: Seq<(u16, char)>, col: int) -> char
    decreases cols.len(),
{
    if cols.len() == 0 {
        ' '
    } else if cols[0].0 as int == col {
        cols[0].1
    } else {
        cell_char(cols.drop_first(), col)
    }
}

/// The text under an extent: one character per column of the span.
pub open spec fn extent_text(cols: Seq<(u16, char)>, e: Extent) -> Seq<char> {
    Seq::new((e.2 - e.1 + 1) as nat, |i: int| cell_char(cols, e.1 + i))
}

/// The merged extents that lie on a row present in `rows`, with their text.
pub open spec fn spans_text(m: Seq<Extent>, rows: Seq<ScanRow>) -> Seq<(Extent, Seq<char>)>
    decreases m.len(),
{
    if m.len() == 0 {
        seq![]
    } else {
        let prev = spans_text(m.drop_last(), rows);
        match find_row(rows, m.last().0) {
            Some(k) => prev.push((m.last(), extent_text(rows[k].cols@, m.last()))),
            None => prev,
        }
    }
}

/// Every merged extent on a present row is ordered and narrower than the
/// whole 16-bit column range.
pub open spec fn texts_fit(m: Seq<Extent>, rows: Seq<ScanRow>) -> bool {
    forall|k: int|
        0 <= k < m.len() && find_row(rows, (#[trigger] m[k]).0) is Some ==> m[k].1 <= m[k].2
            && m[k].2 - m[k].1 < 65535
}

proof fn lemma_find_row(rows: Seq<ScanRow>, row: u16)
    ensures
        find_row(rows, row) matches Some(k) ==> 0 <= k < rows.len() && rows[k].row == row
            && forall|j: int| 0 <= j < k ==> (#[trigger] rows[j]).row != row,
        find_row(rows, row) is None ==> forall|j: int| 0 <= j < rows.len() ==> (#[trigger] rows[j]).row != row,
    decreases rows.len(),
{
    if rows.len() > 0 && rows[0].row != row {
        lemma_find_row(rows.drop_first(), row);
        assert forall|j: int| 1 <= j < rows.len() implies rows[j] == rows.drop_first()[j - 1] by {}
    }
}

fn find_row_exec(rows: &[ScanRow], row: u16) -> (r: Option<usize>)
    ensures
        r matches Some(k) ==> find_row(rows@, row) == Some(k as int),
        r is None ==> find_row(rows@, row) is None,
{
    proof {
        lemma_find_row(rows@, row);
    }
    let mut k: usize = 0;
    while k < rows.len()
        invariant
            k <= rows@.len(),
            forall|j: int| 0 <= j < k ==> (#[trigger] rows@[j]).row != row,
        decreases rows@.len() - k,
    {
        if rows[k].row == row {
            proof {
                lemma_find_row(rows@, row);
                match find_row(rows@, row) {
                    Some(k2) => {
                        if k2 < k {
                            assert(rows@[k2].row != row);
                        }
                        if k2 > k {
                            assert(rows@[k as int].row != row);
                        }
                    },
                    None => {
                        assert(rows@[k as int].row != row);
                    },
                }
            }
            return Some(k);
        }
        k = k + 1;
    }
    None
}

pub fn cell_char_exec(cols: &Vec<(u16, char)>, col: u16) -> (c: char)
    ensures
        c == cell_char(cols@, col as int),
{
    let mut k: usize = 0;
    assert(cols@.skip(0) =~= cols@);
    while k < cols.len()
        invariant
            k <= cols@.len(),
            cell_char(cols@, col as int) == cell_char(cols@.skip(k as int), col as int),
        decreases cols@.len() - k,
    {
        assert(cols@.skip(k as int)[0] == cols@[k as int]);
        assert(cols@.skip(k as int).drop_first() =~= cols@.skip(k + 1));
        if cols[k].0 == col {
            return cols[k].1;
        }
        k = k + 1;
    }
    ' '
}

/// All merged privacy spans with their text, resolved from the frame's row
/// data (the first row entry with the extent's row; a column without a
/// cell reads as a space). The draw pass matches these against the pinned
/// values so every occurrence of a pinned value stays revealed.
pub fn privacy_spans_with_text(highlights: &Vec<Highlight>, row_chars: &[ScanRow]) -> (r: Vec<
    (Extent, String),
>)
    requires
        texts_fit(spec_merged(highlights@), row_chars@),
    ensures
        r@.map_values(|p: (Extent, String)| (p.0, p.1@)) == spans_text(
            spec_merged(highlights@),
            row_chars@,
        ),
{
    let m = merged_privacy_extents(highlights);
    let mut out: Vec<(Extent, String)> = Vec::new();
    let mut i: usize = 0;
    assert(m@.take(0) =~= Seq::<Extent>::empty());
    while i < m.len()
        invariant
            m@ == spec_merged(highlights@),
            texts_fit(m@, row_chars@),
            i <= m@.len(),
            out@.map_values(|p: (Extent, String)| (p.0, p.1@)) == spans_text(
                m@.take(i as int),
                row_chars@,
            ),
        decreases m@.len() - i,
    {
        assert(m@.take(i + 1).drop_last() =~= m@.take(i as int));
        let e = m[i];
        match find_row_exec(row_chars, e.0) {
            Some(k) => {
                proof {
                    lemma_find_row(row_chars@, e.0);
                }
                let cols = &row_chars[k].cols;
                let mut text = String::new();
                let width: u32 = (e.2 - e.1) as u32 + 1;
                let mut q: u32 = 0;
                while q < width
                    invariant
                        e.1 <= e.2,
                        e.2 - e.1 < 65535,
                        width == e.2 - e.1 + 1,
                        q <= width,
                        text@ =~= Seq::new(q as nat, |j: int| cell_char(cols@, e.1 + j)),
                    decreases width - q,
                {
                    let c: u16 = (e.1 as u32 + q) as u16;
                    string_push(&mut text, cell_char_exec(cols, c));
                    q = q + 1;
                }
                assert(text@ =~= extent_text(cols@, e));
                out.push((e, text));
                assert(out@.map_values(|p: (Extent, String)| (p.0, p.1@)) =~= spans_text(
                    m@.take(i as int),
                    row_chars@,
                ).push((e, extent_text(row_chars@[k as int].cols@, e))));
            },
            None => {},
        }
        i = i + 1;
    }
    assert(m@.take(m@.len() as int) =~= m@);
    out
}

} // verus!

verus! {

pub open spec fn any_cell(s: Seq<Extent>, row: u16, col: u16) -> bool {
    exists|k: int| 0 <= k < s.len() && cell_in(#[trigger] s[k], row, col)
}

/// Some masking span of `hs` covers the cell.
pub open spec fn masked_cell(hs: Seq<Highlight>, row: u16, col: u16) -> bool {
    exists|k: int| 0 <= k < hs.len() && masks(#[trigger] hs[k]) && covers(hs[k], row, col)
}

proof fn lemma_mask_exts_cover(hs: Seq<Highlight>, row: u16, col: u16)
    ensures
        masked_cell(hs, row, col) <==> any_cell(mask_exts(hs), row, col),
    decreases hs.len(),
{
    if hs.len() > 0 {
        let p = hs.drop_last();
        lemma_mask_exts_cover(p, row, col);
        let m = mask_exts(p);
        if masked_cell(hs, row, col) {
            let k = choose|k: int| 0 <= k < hs.len() && masks(#[trigger] hs[k]) && covers(hs[k], row, col);
            if k < hs.len() - 1 {
                assert(p[k] == hs[k]);
                let j = choose|j: int| 0 <= j < m.len() && cell_in(#[trigger] m[j], row, col);
                if masks(hs.last()) {
                    assert(mask_exts(hs)[j] == m[j]);
                }
            } else {
                let e = (hs.last().row, hs.last().start_col, hs.last().end_col);
                assert(mask_exts(hs)[m.len() as int] == e);
            }
        }
        if any_cell(mask_exts(hs), row, col) {
            let j = choose|j: int| 0 <= j < mask_exts(hs).len() && cell_in(
                #[trigger] mask_exts(hs)[j],
                row,
                col,
            );
            if j < m.len() {
                assert(mask_exts(hs)[j] == m[j]);
                let k = choose|k: int| 0 <= k < p.len() && masks(#[trigger] p[k]) && covers(p[k], row, col);
                assert(hs[k] == p[k]);
            } else {
                assert(masks(hs.last()) && covers(hs[hs.len() - 1], row, col));
            }
        }
    }
}

proof fn lemma_isort(s: Seq<Extent>)
    ensures
        sorted(isort(s)),
        isort(s).to_multiset() == s.to_multiset(),
        isort(s).len() == s.len(),
    decreases s.len(),
{
    broadcast use vstd::seq_lib::to_multiset_build, vstd::seq_lib::to_multiset_insert;

    if s.len() > 0 {
        let p = s.drop_last();
        lemma_isort(p);
        let m = isort(p);
        let x = s.last();
        lemma_first_gt(m, x);
        let pos = first_gt(m, x);
        let r = m.insert(pos, x);
        assert(s =~= p.push(x));
        assert forall|i: int, j: int| 0 <= i < j < r.len() implies tle(r[i], r[j]) by {
            if j < pos {
                assert(r[i] == m[i] && r[j] == m[j]);
            } else if j == pos {
                assert(r[i] == m[i]);
            } else if i < pos {
                assert(r[i] == m[i] && r[j] == m[j - 1]);
                assert(tle(m[i], x));
                assert(!tle(m[pos], x));
                assert(tle(m[pos], m[j - 1]) || pos == j - 1);
            } else if i == pos {
                assert(r[j] == m[j - 1]);
                assert(!tle(m[pos], x));
                assert(tle(m[pos], m[j - 1]) || pos == j - 1);
            } else {
                assert(r[i] == m[i - 1] && r[j] == m[j - 1]);
            }
        }
    }
}

proof fn lemma_isort_cells(s: Seq<Extent>, row: u16, col: u16)
    ensures
        any_cell(isort(s), row, col) <==> any_cell(s, row, col),
{
    broadcast use vstd::seq_lib::to_multiset_contains;

    lemma_isort(s);
    let m = isort(s);
    if any_cell(m, row, col) {
        let j = choose|j: int| 0 <= j < m.len() && cell_in(#[trigger] m[j], row, col);
        assert(m.contains(m[j]));
        assert(m.to_multiset().count(m[j]) > 0);
        assert(s.contains(m[j]));
    }
    if any_cell(s, row, col) {
        let j = choose|j: int| 0 <= j < s.len() && cell_in(#[trigger] s[j], row, col);
        assert(s.contains(s[j]));
        assert(s.to_multiset().count(s[j]) > 0);
        assert(m.contains(s[j]));
    }
}

proof fn lemma_merge_shape(s: Seq<Extent>)
    requires
        sorted(s),
    ensures
        (merge(s).len() > 0) == (s.len() > 0),
        s.len() > 0 ==> merge(s).last().0 == s.last().0 && merge(s).last().1 <= s.last().1,
    decreases s.len(),
{
    if s.len() > 0 {
        let p = s.drop_last();
        assert(sorted(p));
        lemma_merge_shape(p);
        if p.len() > 0 {
            assert(tle(p.last(), s.last()));
        }
    }
}

/// One merge step covers the old cells plus those of `x`.
proof fn lemma_step_cells(m: Seq<Extent>, x: Extent, row: u16, col: u16)
    requires
        m.len() > 0 && m.last().0 == x.0 ==> m.last().1 <= x.1,
    ensures
        any_cell(merge_step(m, x), row, col) <==> (any_cell(m, row, col) || cell_in(x, row, col)),
{
    let r = merge_step(m, x);
    if m.len() > 0 && m.last().0 == x.0 && x.1 <= sat_inc(m.last().2) {
        let l = m.last();
        if any_cell(r, row, col) {
            let j = choose|j: int| 0 <= j < r.len() && cell_in(#[trigger] r[j], row, col);
            if j < r.len() - 1 {
                assert(r[j] == m[j]);
            } else if col <= l.2 {
                assert(cell_in(m[m.len() - 1], row, col));
            }
        }
        if any_cell(m, row, col) {
            let j = choose|j: int| 0 <= j < m.len() && cell_in(#[trigger] m[j], row, col);
            if j < m.len() - 1 {
                assert(r[j] == m[j]);
            } else {
                assert(cell_in(r[r.len() - 1], row, col));
            }
        }
        if cell_in(x, row, col) {
            assert(cell_in(r[r.len() - 1], row, col));
        }
    } else {
        if any_cell(r, row, col) {
            let j = choose|j: int| 0 <= j < r.len() && cell_in(#[trigger] r[j], row, col);
            if j < m.len() {
                assert(r[j] == m[j]);
            }
        }
        if any_cell(m, row, col) {
            let j = choose|j: int| 0 <= j < m.len() && cell_in(#[trigger] m[j], row, col);
            assert(r[j] == m[j]);
        }
        if cell_in(x, row, col) {
            assert(r[r.len() - 1] == x);
        }
    }
}

proof fn lemma_merge_cells(s: Seq<Extent>, row: u16, col: u16)
    requires
        sorted(s),
    ensures
        any_cell(merge(s), row, col) <==> any_cell(s, row, col),
    decreases s.len(),
{
    if s.len() > 0 {
        let p = s.drop_last();
        let x = s.last();
        assert(sorted(p));
        lemma_merge_cells(p, row, col);
        lemma_merge_shape(p);
        if p.len() > 0 {
            assert(tle(p.last(), x));
        }
        lemma_step_cells(merge(p), x, row, col);
        if any_cell(s, row, col) {
            let k = choose|k: int| 0 <= k < s.len() && cell_in(#[trigger] s[k], row, col);
            if k < s.len() - 1 {
                assert(p[k] == s[k]);
            }
        }
        if any_cell(p, row, col) {
            let k = choose|k: int| 0 <= k < p.len() && cell_in(#[trigger] p[k], row, col);
            assert(s[k] == p[k]);
        }
        if cell_in(x, row, col) {
            assert(s[s.len() - 1] == x);
        }
    }
}

pub open spec fn separated(m: Seq<Extent>) -> bool {
    forall|i: int|
        0 <= i < m.len() - 1 ==> (#[trigger] m[i]).0 < m[i + 1].0 || (m[i].0 == m[i + 1].0
            && m[i].2 + 1 < m[i + 1].1)
}

proof fn lemma_merge_sep(s: Seq<Extent>)
    requires
        sorted(s),
    ensures
        separated(merge(s)),
    decreases s.len(),
{
    if s.len() > 0 {
        let p = s.drop_last();
        let x = s.last();
        assert(sorted(p));
        lemma_merge_sep(p);
        lemma_merge_shape(p);
        let m = merge(p);
        let r = merge_step(m, x);
        if p.len() > 0 {
            assert(tle(p.last(), x));
        }
        if m.len() > 0 && m.last().0 == x.0 && x.1 <= sat_inc(m.last().2) {
            let l = m.last();
            assert forall|i: int| 0 <= i < r.len() - 1 implies (#[trigger] r[i]).0 < r[i + 1].0 || (
            r[i].0 == r[i + 1].0 && r[i].2 + 1 < r[i + 1].1) by {
                assert(r[i] == m[i]);
                if i + 1 < r.len() - 1 {
                    assert(r[i + 1] == m[i + 1]);
                } else {
                    assert(m[i + 1] == l);
                }
            }
        } else {
            assert forall|i: int| 0 <= i < r.len() - 1 implies (#[trigger] r[i]).0 < r[i + 1].0 || (
            r[i].0 == r[i + 1].0 && r[i].2 + 1 < r[i + 1].1) by {
                assert(r[i] == m[i]);
                if i + 1 < r.len() - 1 {
                    assert(r[i + 1] == m[i + 1]);
                } else {
                    assert(r[i + 1] == x);
                }
            }
        }
    }
}

/// The merged extents cover exactly the cells some masking span covers:
/// one bar is drawn over precisely what is masked, no more and no less.
pub proof fn law_merged_extents_cover_exactly_the_masked_cells(
    hs: Seq<Highlight>,
    row: u16,
    col: u16,
)
    ensures
        masked_cell(hs, row, col) <==> any_cell(spec_merged(hs), row, col),
{
    lemma_mask_exts_cover(hs, row, col);
    lemma_isort_cells(mask_exts(hs), row, col);
    lemma_isort(mask_exts(hs));
    lemma_merge_cells(isort(mask_exts(hs)), row, col);
}

/// Merged extents come in row order and two extents on one row are
/// separated by at least one unmasked column: overlapping or adjacent
/// spans always become a single bar.
pub proof fn law_merged_extents_are_separated(hs: Seq<Highlight>)
    ensures
        forall|i: int|
            0 <= i < spec_merged(hs).len() - 1 ==> (#[trigger] spec_merged(hs)[i]).0
                < spec_merged(hs)[i + 1].0 || (spec_merged(hs)[i].0 == spec_merged(hs)[i + 1].0
                && spec_merged(hs)[i].2 + 1 < spec_merged(hs)[i + 1].1),
{
    lemma_isort(mask_exts(hs));
    lemma_merge_sep(isort(mask_exts(hs)));
}

} // verus!

verus! {

pub open spec fn ordered_ext(s: Seq<Extent>) -> bool {
    forall|k: int| 0 <= k < s.len() ==> (#[trigger] s[k]).1 <= s[k].2
}

proof fn lemma_mask_exts_ordered(hs: Seq<Highlight>)
    requires
        forall|k: int| 0 <= k < hs.len() && masks(#[trigger] hs[k]) ==> hs[k].start_col <= hs[k].end_col,
    ensures
        ordered_ext(mask_exts(hs)),
    decreases hs.len(),
{
    if hs.len() > 0 {
        let p = hs.drop_last();
        assert forall|k: int| 0 <= k < p.len() && masks(#[trigger] p[k]) implies p[k].start_col
            <= p[k].end_col by {
            assert(p[k] == hs[k]);
        }
        lemma_mask_exts_ordered(p);
        if masks(hs.last()) {
            assert(hs[hs.len() - 1] == hs.last());
        }
    }
}

proof fn lemma_isort_ordered(s: Seq<Extent>)
    requires
        ordered_ext(s),
    ensures
        ordered_ext(isort(s)),
{
    broadcast use vstd::seq_lib::to_multiset_contains;

    lemma_isort(s);
    let m = isort(s);
    assert forall|k: int| 0 <= k < m.len() implies (#[trigger] m[k]).1 <= m[k].2 by {
        assert(m.contains(m[k]));
        assert(m.to_multiset().count(m[k]) > 0);
        assert(s.contains(m[k]));
    }
}

proof fn lemma_merge_ordered(s: Seq<Extent>)
    requires
        ordered_ext(s),
    ensures
        ordered_ext(merge(s)),
    decreases s.len(),
{
    if s.len() > 0 {
        let p = s.drop_last();
        assert(ordered_ext(p)) by {
            assert forall|k: int| 0 <= k < p.len() implies (#[trigger] p[k]).1 <= p[k].2 by {
                assert(p[k] == s[k]);
            }
        }
        lemma_merge_ordered(p);
        assert(s[s.len() - 1] == s.last());
    }
}

proof fn lemma_chain(m: Seq<Extent>, i: int, j: int)
    requires
        ordered_ext(m),
        forall|q: int|
            0 <= q < m.len() - 1 ==> (#[trigger] m[q]).0 < m[q + 1].0 || (m[q].0 == m[q + 1].0
                && m[q].2 + 1 < m[q + 1].1),
        0 <= i < j < m.len(),
    ensures
        m[i].0 < m[j].0 || (m[i].0 == m[j].0 && m[i].2 < m[j].1),
    decreases j - i,
{
    if j > i + 1 {
        lemma_chain(m, i, j - 1);
        assert(m[j - 1].1 <= m[j - 1].2);
    }
}

/// With well-formed spans, every masked cell lies in exactly one merged
/// extent: the hover reveal and the pin uncover exactly the one bar that
/// covers the cell.
pub proof fn law_each_masked_cell_lies_in_one_extent(hs: Seq<Highlight>, row: u16, col: u16)
    requires
        forall|k: int| 0 <= k < hs.len() && masks(#[trigger] hs[k]) ==> hs[k].start_col <= hs[k].end_col,
        masked_cell(hs, row, col),
    ensures
        exists|k: int|
            0 <= k < spec_merged(hs).len() && cell_in(#[trigger] spec_merged(hs)[k], row, col)
                && forall|j: int|
                0 <= j < spec_merged(hs).len() && j != k ==> !cell_in(
                    #[trigger] spec_merged(hs)[j],
                    row,
                    col,
                ),
{
    law_merged_extents_cover_exactly_the_masked_cells(hs, row, col);
    law_merged_extents_are_separated(hs);
    lemma_mask_exts_ordered(hs);
    lemma_isort_ordered(mask_exts(hs));
    lemma_merge_ordered(isort(mask_exts(hs)));
    let m = spec_merged(hs);
    let k = choose|k: int| 0 <= k < m.len() && cell_in(#[trigger] m[k], row, col);
    assert forall|j: int| 0 <= j < m.len() && j != k implies !cell_in(#[trigger] m[j], row, col) by {
        if j < k {
            lemma_chain(m, j, k);
        } else {
            lemma_chain(m, k, j);
        }
    }
}

} // verus!
