//! Inline layout of an input-method composition (preedit) at the caret:
//! one glyph per cell run from the caret column, wide glyphs taking two
//! cells, clipped at the right edge of the grid.
use vstd::prelude::*;
use crate::text::chars_of;

verus! {

/// The display width `unicode_width` reports for a character (`None` for a
/// control character), per its Unicode tables.
pub uninterp spec fn unicode_char_width(c: char) -> Option<usize>;

/// `unicode_width::UnicodeWidthChar::width`. Claimed, as its source shows:
/// the result is the table value named above; printable ASCII is one column,
/// C0 / DEL / C1 controls have no width, and any width fits in a byte.
#[verifier::external_body]
fn char_width(c: char) -> (r: Option<usize>)
    ensures
        r == unicode_char_width(c),
        (' ' <= c && c < '\x7f') ==> r == Some(1usize),
        (c < ' ' || ('\x7f' <= c && c < '\u{a0}')) ==> r is None,
        r matches Some(w) ==> w <= 255,
{
    unicode_width::UnicodeWidthChar::width(c)
}

/// Cells a preedit glyph takes: its width, at least one.
pub open spec fn cells_for(w: Option<usize>) -> int {
    match w {
        Some(x) => if x >= 1 { x as int } else { 1 },
        None => 1,
    }
}

/// Glyphs `k..` placed from column `col` on a grid of `cols` columns:
/// `(glyph, column, cells)` until one no longer fits.
pub open spec fn place_from(
    chars: Seq<char>,
    widths: Seq<Option<usize>>,
    col: int,
    cols: int,
    k: int,
) -> Seq<(char, int, int)>
    decreases chars.len() - k,
{
    if k < 0 || k >= chars.len() || col + cells_for(widths[k]) > cols {
        seq![]
    } else {
        seq![(chars[k], col, cells_for(widths[k]))] + place_from(
            chars,
            widths,
            col + cells_for(widths[k]),
            cols,
            k + 1,
        )
    }
}

/// The column after the last placed glyph.
pub open spec fn end_from(chars: Seq<char>, widths: Seq<Option<usize>>, col: int, cols: int, k: int) -> int
    decreases chars.len() - k,
{
    if k < 0 || k >= chars.len() || col + cells_for(widths[k]) > cols {
        col
    } else {
        end_from(chars, widths, col + cells_for(widths[k]), cols, k + 1)
    }
}

/// Where each glyph of a composition goes.
pub struct PreeditLayout {
    /// `(glyph, first column, cells)` of every glyph that fits.
    pub glyphs: Vec<(char, usize, usize)>,
    /// The caret column after the composition.
    pub end_col: usize,
}

pub open spec fn layout_view(l: PreeditLayout) -> (Seq<(char, int, int)>, int) {
    (l.glyphs@.map_values(|g: (char, usize, usize)| (g.0, g.1 as int, g.2 as int)), l.end_col as int)
}

/// Place the glyphs of a composition whose character widths are `widths`,
/// from the caret column `cursor_col` on a grid of `cols` columns, stopping
/// at the first glyph that would cross the right edge.
pub fn place_preedit(chars: &Vec<char>, widths: &Vec<Option<usize>>, cursor_col: usize, cols: usize) -> (r: PreeditLayout)
    requires
        widths@.len() == chars@.len(),
    ensures
        layout_view(r) == (
            place_from(chars@, widths@, cursor_col as int, cols as int, 0),
            end_from(chars@, widths@, cursor_col as int, cols as int, 0),
        ),
{
    let mut glyphs: Vec<(char, usize, usize)> = Vec::new();
    let mut end_col = cursor_col;
    let mut k: usize = 0;
    let mut full = false;
    let ghost mut placed: Seq<(char, int, int)> = seq![];
    while k < chars.len() && !full
        invariant
            widths@.len() == chars@.len(),
            k <= chars@.len(),
            full ==> place_from(chars@, widths@, end_col as int, cols as int, k as int).len() == 0
                && end_from(chars@, widths@, end_col as int, cols as int, k as int) == end_col,
            glyphs@.map_values(|g: (char, usize, usize)| (g.0, g.1 as int, g.2 as int)) == placed,
            placed + place_from(chars@, widths@, end_col as int, cols as int, k as int) == place_from(
                chars@,
                widths@,
                cursor_col as int,
                cols as int,
                0,
            ),
            end_from(chars@, widths@, end_col as int, cols as int, k as int) == end_from(
                chars@,
                widths@,
                cursor_col as int,
                cols as int,
                0,
            ),
        decreases chars@.len() - k + (if full { 0int } else { 1int }),
    {
        let w: usize = match widths[k] {
            Some(x) => if x >= 1 { x } else { 1 },
            None => 1,
        };
        if w > cols || end_col > cols - w {
            full = true;
        } else {
            let g = (chars[k], end_col, w);
            glyphs.push(g);
            proof {
                let rest = place_from(chars@, widths@, end_col + w, cols as int, k + 1);
                assert(place_from(chars@, widths@, end_col as int, cols as int, k as int) =~= seq![
                    (chars@[k as int], end_col as int, w as int),
                ] + rest);
                assert(glyphs@.map_values(|g: (char, usize, usize)| (g.0, g.1 as int, g.2 as int))
                    =~= placed.push((chars@[k as int], end_col as int, w as int)));
                assert(placed.push((chars@[k as int], end_col as int, w as int)) + rest =~= placed + (
                seq![(chars@[k as int], end_col as int, w as int)] + rest));
                placed = placed.push((chars@[k as int], end_col as int, w as int));
            }
            end_col = end_col + w;
            k = k + 1;
        }
    }
    proof {
        assert(place_from(chars@, widths@, end_col as int, cols as int, k as int) =~= seq![]);
        assert(placed + seq![] =~= placed);
    }
    PreeditLayout { glyphs, end_col }
}

/// The widths `unicode_width` gives the characters of `t`.
pub open spec fn widths_of(t: Seq<char>) -> Seq<Option<usize>> {
    t.map_values(|c: char| unicode_char_width(c))
}

/// Lay out the composition `preedit` from the caret column on a grid of
/// `cols` columns: each character's width comes from `unicode_width` (at
/// least one cell), and placement stops at the first glyph that would cross
/// the right edge.
pub fn preedit_layout(preedit: &str, cursor_col: usize, cols: usize) -> (r: PreeditLayout)
    ensures
        layout_view(r) == (
            place_from(preedit@, widths_of(preedit@), cursor_col as int, cols as int, 0),
            end_from(preedit@, widths_of(preedit@), cursor_col as int, cols as int, 0),
        ),
{
    let chars = chars_of(preedit);
    let mut widths: Vec<Option<usize>> = Vec::new();
    let mut i: usize = 0;
    while i < chars.len()
        invariant
            chars@ == preedit@,
            i <= chars@.len(),
            widths@ == widths_of(chars@).take(i as int),
        decreases chars@.len() - i,
    {
        let w = char_width(chars[i]);
        widths.push(w);
        assert(widths_of(chars@).take(i + 1) =~= widths_of(chars@).take(i as int).push(w));
        i = i + 1;
    }
    assert(widths_of(chars@).take(chars@.len() as int) =~= widths_of(chars@));
    place_preedit(&chars, &widths, cursor_col, cols)
}

/// Every placed glyph lies inside the grid and the glyphs follow each other
/// without gaps from the caret.
pub proof fn law_preedit_stays_inside_the_grid(
    chars: Seq<char>,
    widths: Seq<Option<usize>>,
    col: int,
    cols: int,
    k: int,
)
    requires
        0 <= k,
    ensures
        forall|i: int|
            0 <= i < place_from(chars, widths, col, cols, k).len() ==> #[trigger] place_from(chars, widths, col, cols, k)[i].1
                + place_from(chars, widths, col, cols, k)[i].2 <= cols,
        place_from(chars, widths, col, cols, k).len() > 0 ==> place_from(chars, widths, col, cols, k)[0].1 == col,
        col <= end_from(chars, widths, col, cols, k),
    decreases chars.len() - k,
{
    if !(k >= chars.len() || col + cells_for(widths[k]) > cols) {
        let w = cells_for(widths[k]);
        law_preedit_stays_inside_the_grid(chars, widths, col + w, cols, k + 1);
        let rest = place_from(chars, widths, col + w, cols, k + 1);
        assert forall|i: int| 0 <= i < place_from(chars, widths, col, cols, k).len() implies #[trigger] place_from(chars, widths, col, cols, k)[i].1
            + place_from(chars, widths, col, cols, k)[i].2 <= cols by {
            if i > 0 {
                assert(place_from(chars, widths, col, cols, k)[i] == rest[i - 1]);
            }
        }
    }
}

} // verus!
