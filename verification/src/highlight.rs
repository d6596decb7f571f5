//! Highlight spans over terminal rows: their kinds and colours, the row
//! model the scanners read, and the per-cell queries the draw pass makes.
use vstd::prelude::*;

verus! {

/// What a highlight span marks.
#[derive(Clone, Copy, PartialEq, Eq, Structural, Debug)]
pub enum HighlightKind {
    Url,
    Ip,
    Path,
    Number,
    /// `user@host` token; Privacy-Mode only, never coloured.
    HostUser,
    /// The `<name>` segment of a home-directory path; Privacy-Mode only.
    UserDir,
    /// An occurrence of a saved connection's hostname; Privacy-Mode only.
    KnownHost,
    /// An address whose privacy class is disabled: coloured like `Ip` but
    /// never masked.
    VersionQuad,
    /// A user-defined highlight rule's match.
    Rule,
}

pub open spec fn spec_privacy_only(k: HighlightKind) -> bool {
    k == HighlightKind::HostUser || k == HighlightKind::UserDir || k == HighlightKind::KnownHost
}

impl HighlightKind {
    /// Privacy-Mode-only markers: masked by the draw pass, never used as a
    /// keyword-highlight colour.
    pub fn privacy_only(self) -> (r: bool)
        ensures
            r == spec_privacy_only(self),
    {
        match self {
            HighlightKind::HostUser | HighlightKind::UserDir | HighlightKind::KnownHost => true,
            _ => false,
        }
    }
}

/// The colour a span paints: a slot of the active palette's 16 ANSI
/// colours, or an explicit RGB colour (user rules).
#[derive(Clone, Copy, PartialEq, Eq, Structural, Debug)]
pub enum HighlightColor {
    Ansi(u8),
    Rgb(u8, u8, u8),
}

/// One highlighted span: `row`, and inclusive columns `start_col..=end_col`.
#[derive(Clone, Copy, PartialEq, Eq, Structural, Debug)]
pub struct Highlight {
    pub row: u16,
    pub start_col: u16,
    pub end_col: u16,
    pub color: HighlightColor,
    pub kind: HighlightKind,
}

/// One row as the scanners see it: its visible row index, its non-blank
/// cells `(column, char)`, and `Some(last column)` when the row soft-wraps
/// into the next one.
#[derive(Clone, Debug)]
pub struct ScanRow {
    pub row: u16,
    pub cols: Vec<(u16, char)>,
    pub wraps_at: Option<u16>,
}

/// Per-class Privacy Mode gates: each `false` stops that class from
/// masking (the spans are still coloured).
#[derive(Clone, Copy, PartialEq, Eq, Structural, Debug)]
pub struct PrivacyClasses {
    /// Public IP addresses (v4 + v6).
    pub public_ips: bool,
    /// Private / loopback / link-local addresses.
    pub private_ips: bool,
    /// `user@host` tokens and home-directory names.
    pub usernames: bool,
}

impl Default for PrivacyClasses {
    fn default() -> (r: Self)
        ensures
            r.public_ips && r.private_ips && r.usernames,
    {
        PrivacyClasses { public_ips: true, private_ips: true, usernames: true }
    }
}

// ---------------------------------------------------------------------------
// Row text
// ---------------------------------------------------------------------------

/// Largest column among the cells (0 when there are none).
pub open spec fn max_col(cols: Seq<(u16, char)>) -> nat
    decreases cols.len(),
{
    if cols.len() == 0 {
        0
    } else {
        let m = max_col(cols.drop_last());
        if cols.last().0 as nat > m {
            cols.last().0 as nat
        } else {
            m
        }
    }
}

/// `base` with each cell written at its column, later cells winning.
pub open spec fn paint(cols: Seq<(u16, char)>, base: Seq<char>) -> Seq<char>
    decreases cols.len(),
{
    if cols.len() == 0 {
        base
    } else {
        let b = paint(cols.drop_last(), base);
        if (cols.last().0 as int) < b.len() {
            b.update(cols.last().0 as int, cols.last().1)
        } else {
            b
        }
    }
}

/// The text of a row: one character per column from 0 to the last
/// non-blank cell, blanks filled with spaces.
pub open spec fn spec_row_text(cols: Seq<(u16, char)>) -> Seq<char> {
    paint(cols, Seq::new(max_col(cols) + 1, |i: int| ' '))
}

proof fn lemma_paint_len(cols: Seq<(u16, char)>, base: Seq<char>)
    ensures
        paint(cols, base).len() == base.len(),
    decreases cols.len(),
{
    if cols.len() > 0 {
        lemma_paint_len(cols.drop_last(), base);
    }
}

pub proof fn lemma_row_text_len(cols: Seq<(u16, char)>)
    ensures
        spec_row_text(cols).len() == max_col(cols) + 1,
        spec_row_text(cols).len() <= 65536,
{
    lemma_paint_len(cols, Seq::new(max_col(cols) + 1, |i: int| ' '));
    lemma_max_col_bound(cols);
}

proof fn lemma_max_col_bound(cols: Seq<(u16, char)>)
    ensures
        max_col(cols) <= 65535,
    decreases cols.len(),
{
    if cols.len() > 0 {
        lemma_max_col_bound(cols.drop_last());
    }
}

/// The row's text, one char per column (see [`spec_row_text`]).
pub fn row_text(cols: &Vec<(u16, char)>) -> (t: Vec<char>)
    ensures
        t@ == spec_row_text(cols@),
        t@.len() <= 65536,
        t@.len() >= 1,
{
    let n = cols.len();
    let mut m: u16 = 0;
    let mut i: usize = 0;
    while i < n
        invariant
            n == cols@.len(),
            i <= n,
            m as nat == max_col(cols@.take(i as int)),
        decreases n - i,
    {
        assert(cols@.take(i + 1).drop_last() =~= cols@.take(i as int));
        if cols[i].0 > m {
            m = cols[i].0;
        }
        i = i + 1;
    }
    assert(cols@.take(n as int) =~= cols@);
    let mut chars: Vec<char> = Vec::new();
    let mut k: usize = 0;
    while k <= m as usize
        invariant
            k <= m as usize + 1,
            chars@ =~= Seq::new(k as nat, |q: int| ' '),
        decreases m as usize + 1 - k,
    {
        chars.push(' ');
        k = k + 1;
    }
    let ghost base = chars@;
    assert(base =~= Seq::new(max_col(cols@) + 1, |q: int| ' '));
    let mut j: usize = 0;
    while j < n
        invariant
            n == cols@.len(),
            j <= n,
            chars@ == paint(cols@.take(j as int), base),
            chars@.len() == base.len(),
        decreases n - j,
    {
        assert(cols@.take(j + 1).drop_last() =~= cols@.take(j as int));
        let (c, ch) = cols[j];
        if (c as usize) < chars.len() {
            chars.set(c as usize, ch);
        }
        j = j + 1;
    }
    assert(cols@.take(n as int) =~= cols@);
    proof {
        lemma_row_text_len(cols@);
    }
    chars
}

// ---------------------------------------------------------------------------
// Per-cell queries
// ---------------------------------------------------------------------------

pub open spec fn covers(h: Highlight, row: u16, col: u16) -> bool {
    h.row == row && h.start_col <= col <= h.end_col
}

/// Kinds the draw pass masks under Privacy Mode.
pub open spec fn masks(h: Highlight) -> bool {
    h.kind == HighlightKind::Ip || spec_privacy_only(h.kind)
}

/// A span that colours cells: anything but a privacy-only marker.
pub open spec fn colours(h: Highlight) -> bool {
    !spec_privacy_only(h.kind)
}

/// Some span of `hs` starts at or before `col` and ends at or after it on `row`.
pub open spec fn covered(hs: Seq<Highlight>, row: u16, col: u16) -> bool {
    exists|k: int| 0 <= k < hs.len() && covers(#[trigger] hs[k], row, col)
}

pub fn is_covered(hs: &Vec<Highlight>, row: u16, col: u16) -> (r: bool)
    ensures
        r == covered(hs@, row, col),
{
    let mut i: usize = 0;
    while i < hs.len()
        invariant
            i <= hs@.len(),
            forall|k: int| 0 <= k < i ==> !covers(#[trigger] hs@[k], row, col),
        decreases hs@.len() - i,
    {
        let h = hs[i];
        if h.row == row && h.start_col <= col && col <= h.end_col {
            return true;
        }
        i = i + 1;
    }
    false
}

/// The colour a cell is drawn with: that of the first colouring span of `hs`
/// covering it, if any.
pub open spec fn first_colour(hs: Seq<Highlight>, row: u16, col: u16) -> Option<HighlightColor>
    decreases hs.len(),
{
    if hs.len() == 0 {
        None
    } else if colours(hs[0]) && covers(hs[0], row, col) {
        Some(hs[0].color)
    } else {
        first_colour(hs.drop_first(), row, col)
    }
}

/// Some colouring span (not a privacy-only marker) of `hs` covers `(row, col)`.
pub open spec fn coloured(hs: Seq<Highlight>, row: u16, col: u16) -> bool {
    exists|k: int| 0 <= k < hs.len() && colours(#[trigger] hs[k]) && covers(hs[k], row, col)
}

pub fn is_coloured(hs: &Vec<Highlight>, row: u16, col: u16) -> (r: bool)
    ensures
        r == coloured(hs@, row, col),
{
    let mut i: usize = 0;
    while i < hs.len()
        invariant
            i <= hs@.len(),
            forall|k: int| 0 <= k < i ==> !(colours(#[trigger] hs@[k]) && covers(hs@[k], row, col)),
        decreases hs@.len() - i,
    {
        let h = hs[i];
        if !h.kind.privacy_only() && h.row == row && h.start_col <= col && col <= h.end_col {
            return true;
        }
        i = i + 1;
    }
    false
}

/// Check if a cell position falls within any colouring highlight, returning
/// the colour of the first such span. Privacy-only markers never colour.
pub fn highlight_color_at(highlights: &Vec<Highlight>, row: u16, col: u16) -> (r: Option<
    HighlightColor,
>)
    ensures
        match r {
            Some(c) => exists|k: int|
                0 <= k < highlights@.len() && colours(#[trigger] highlights@[k]) && covers(
                    highlights@[k],
                    row,
                    col,
                ) && highlights@[k].color == c && forall|j: int|
                    0 <= j < k ==> !(colours(#[trigger] highlights@[j]) && covers(
                        highlights@[j],
                        row,
                        col,
                    )),
            None => forall|k: int|
                0 <= k < highlights@.len() ==> !(colours(#[trigger] highlights@[k]) && covers(
                    highlights@[k],
                    row,
                    col,
                )),
        },
        r == first_colour(highlights@, row, col),
{
    let mut i: usize = 0;
    assert(highlights@.skip(0) =~= highlights@);
    while i < highlights.len()
        invariant
            i <= highlights@.len(),
            first_colour(highlights@, row, col) == first_colour(highlights@.skip(i as int), row, col),
            forall|j: int|
                0 <= j < i ==> !(colours(#[trigger] highlights@[j]) && covers(
                    highlights@[j],
                    row,
                    col,
                )),
        decreases highlights@.len() - i,
    {
        let h = highlights[i];
        assert(highlights@.skip(i as int)[0] == h);
        if !h.kind.privacy_only() && h.row == row && col >= h.start_col && col <= h.end_col {
            return Some(h.color);
        }
        assert(highlights@.skip(i as int).drop_first() =~= highlights@.skip(i + 1));
        i = i + 1;
    }
    assert(highlights@.skip(i as int).len() == 0);
    None
}

/// The first URL highlight containing a cell, as `(row, start_col, end_col)`.
pub fn hovered_url_range(highlights: &Vec<Highlight>, row: u16, col: u16) -> (r: Option<
    (u16, u16, u16),
>)
    ensures
        match r {
            Some(t) => exists|k: int|
                0 <= k < highlights@.len() && highlights@[k].kind == HighlightKind::Url && covers(
                    #[trigger] highlights@[k],
                    row,
                    col,
                ) && t == (highlights@[k].row, highlights@[k].start_col, highlights@[k].end_col)
                    && forall|j: int|
                    0 <= j < k ==> !(highlights@[j].kind == HighlightKind::Url && covers(
                        #[trigger] highlights@[j],
                        row,
                        col,
                    )),
            None => forall|k: int|
                0 <= k < highlights@.len() ==> !(highlights@[k].kind == HighlightKind::Url
                    && covers(#[trigger] highlights@[k], row, col)),
        },
{
    let mut i: usize = 0;
    while i < highlights.len()
        invariant
            i <= highlights@.len(),
            forall|j: int|
                0 <= j < i ==> !(highlights@[j].kind == HighlightKind::Url && covers(
                    #[trigger] highlights@[j],
                    row,
                    col,
                )),
        decreases highlights@.len() - i,
    {
        let h = highlights[i];
        if h.kind == HighlightKind::Url && h.row == row && col >= h.start_col && col <= h.end_col {
            return Some((h.row, h.start_col, h.end_col));
        }
        i = i + 1;
    }
    None
}

/// Whether a cell falls inside any masking span (an address or a
/// privacy-only marker): the draw pass masks such cells.
pub fn is_privacy_cell(highlights: &Vec<Highlight>, row: u16, col: u16) -> (r: bool)
    ensures
        r == exists|k: int|
            0 <= k < highlights@.len() && masks(#[trigger] highlights@[k]) && covers(
                highlights@[k],
                row,
                col,
            ),
{
    let mut i: usize = 0;
    while i < highlights.len()
        invariant
            i <= highlights@.len(),
            forall|j: int|
                0 <= j < i ==> !(masks(#[trigger] highlights@[j]) && covers(
                    highlights@[j],
                    row,
                    col,
                )),
        decreases highlights@.len() - i,
    {
        let h = highlights[i];
        if (h.kind == HighlightKind::Ip || h.kind.privacy_only()) && h.row == row && col
            >= h.start_col && col <= h.end_col {
            return true;
        }
        i = i + 1;
    }
    false
}

} // verus!
