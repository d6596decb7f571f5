//! Serialising the visible screen back into SGR-styled text that
//! reproduces it when fed to a fresh emulator (colours and the visual
//! attributes round-trip; grid bookkeeping such as wrap markers and
//! wide-glyph spacers does not).
use vstd::prelude::*;
use vstd::string::StringSliceAdditionalSpecFns;
use crate::colors::TermColor;
use crate::text::string_push;
use crate::paste::bytes_of;

verus! {

/// The visual attributes of a cell that a re-fed emulator reproduces.
#[derive(Debug, Clone, Copy, PartialEq, Eq, Structural)]
pub struct CellStyle {
    pub bold: bool,
    pub dim: bool,
    pub italic: bool,
    pub underline: bool,
    pub double_underline: bool,
    pub undercurl: bool,
    pub dotted_underline: bool,
    pub dashed_underline: bool,
    pub inverse: bool,
    pub hidden: bool,
    pub strikeout: bool,
}

/// One screen cell with its colours and attributes.
pub struct StyledCell {
    pub c: char,
    /// Zero-width characters combined into the cell.
    pub zerowidth: Vec<char>,
    pub fg: TermColor,
    pub bg: TermColor,
    pub underline_color: Option<TermColor>,
    pub style: CellStyle,
    /// Trailing half of a double-width glyph.
    pub wide_spacer: bool,
    /// Ghost cell of a double-width glyph that wrapped whole.
    pub leading_wide_spacer: bool,
}

/// The style a run of cells shares.
#[derive(Debug, Clone, Copy, PartialEq, Eq, Structural)]
pub struct RunStyle {
    pub fg: TermColor,
    pub bg: TermColor,
    pub style: CellStyle,
    pub underline_color: Option<TermColor>,
}

/// The colour-table index of the default background.
pub const BACKGROUND: u16 = 257;

pub open spec fn any_underline(s: CellStyle) -> bool {
    s.underline || s.double_underline || s.undercurl || s.dotted_underline || s.dashed_underline
}

/// A cell that shows nothing: a blank without combining marks on the default
/// background, not inverted, struck out or underlined.
pub open spec fn invisible(cell: StyledCell) -> bool {
    (cell.c == ' ' || cell.c == '\0') && cell.zerowidth@.len() == 0 && cell.bg == TermColor::Named(
        BACKGROUND,
    ) && !(cell.style.inverse || cell.style.strikeout || any_underline(cell.style))
}

/// Index of the last visible cell among the first `n`, `-1` for none.
pub open spec fn last_visible(row: Seq<StyledCell>, n: int) -> int
    decreases n,
{
    if n <= 0 {
        -1
    } else if !invisible(row[n - 1]) {
        n - 1
    } else {
        last_visible(row, n - 1)
    }
}

/// ASCII decimal digits of `n`.
pub open spec fn dec(n: nat) -> Seq<char>
    decreases n,
{
    if n < 10 {
        seq![(48 + n) as char]
    } else {
        dec(n / 10).push((48 + n % 10) as char)
    }
}

/// The SGR parameters selecting a colour (`None` for a default or
/// unrepresentable named colour; the leading reset restores those).
pub open spec fn color_params(c: TermColor, bg: bool) -> Option<Seq<char>> {
    match c {
        TermColor::Named(n) => {
            let idx: int = if 259 <= n <= 266 { n - 259 } else { n as int };
            if 0 <= idx <= 7 {
                Some(dec((if bg { 40int } else { 30int } + idx) as nat))
            } else if 8 <= idx <= 15 {
                Some(dec((if bg { 92int } else { 82int } + idx) as nat))
            } else {
                None
            }
        },
        TermColor::Indexed(i) => Some(dec(if bg { 48nat } else { 38nat }) + ";5;"@ + dec(i as nat)),
        TermColor::Spec(r, g, b) => Some(
            dec(if bg { 48nat } else { 38nat }) + ";2;"@ + dec(r as nat) + ";"@ + dec(g as nat) + ";"@ + dec(
                b as nat,
            ),
        ),
    }
}

pub open spec fn opt_param(p: Option<Seq<char>>) -> Seq<char> {
    match p {
        Some(s) => seq![';'] + s,
        None => seq![],
    }
}

pub open spec fn flag(on: bool, s: Seq<char>) -> Seq<char> {
    if on { s } else { seq![] }
}

pub open spec fn underline_params(s: CellStyle) -> Seq<char> {
    if s.underline {
        ";4"@
    } else if s.double_underline {
        ";4:2"@
    } else if s.undercurl {
        ";4:3"@
    } else if s.dotted_underline {
        ";4:4"@
    } else if s.dashed_underline {
        ";4:5"@
    } else {
        seq![]
    }
}

pub open spec fn underline_color_params(c: Option<TermColor>) -> Seq<char> {
    match c {
        Some(TermColor::Indexed(i)) => ";58;5;"@ + dec(i as nat),
        Some(TermColor::Spec(r, g, b)) => ";58;2;"@ + dec(r as nat) + ";"@ + dec(g as nat) + ";"@ + dec(
            b as nat,
        ),
        _ => seq![],
    }
}

/// The reset and the attribute parameters of a run's SGR.
pub open spec fn sgr_head(s: CellStyle) -> Seq<char> {
    "\x1b[0"@ + flag(s.bold, ";1"@) + flag(s.dim, ";2"@) + flag(s.italic, ";3"@) + underline_params(s)
        + flag(s.inverse, ";7"@) + flag(s.hidden, ";8"@) + flag(s.strikeout, ";9"@)
}

/// The full SGR for a run: a reset, then every attribute and colour, so a run
/// never inherits its predecessor's state.
pub open spec fn sgr(r: RunStyle) -> Seq<char> {
    sgr_head(r.style) + opt_param(color_params(r.fg, false)) + opt_param(color_params(r.bg, true))
        + underline_color_params(r.underline_color) + seq!['m']
}

pub open spec fn run_style(cell: StyledCell) -> RunStyle {
    RunStyle { fg: cell.fg, bg: cell.bg, style: cell.style, underline_color: cell.underline_color }
}

pub open spec fn shown(c: char) -> char {
    if c == '\0' { ' ' } else { c }
}

/// Cells `0..k` of a row: the text so far and the style in force.
pub open spec fn row_prefix(row: Seq<StyledCell>, k: int) -> (Seq<char>, Option<RunStyle>)
    decreases k,
{
    if k <= 0 {
        (seq![], None)
    } else {
        let (t, cur) = row_prefix(row, k - 1);
        let cell = row[k - 1];
        if cell.wide_spacer || cell.leading_wide_spacer {
            (t, cur)
        } else {
            let st = run_style(cell);
            let t2 = if cur == Some(st) { t } else { t + sgr(st) };
            (t2 + seq![shown(cell.c)] + cell.zerowidth@, Some(st))
        }
    }
}

/// One screen row: its cells up to the last visible one, a fresh SGR at each
/// change of style.
pub open spec fn row_ansi(row: Seq<StyledCell>, cols: int) -> Seq<char> {
    row_prefix(row, last_visible(row, cols) + 1).0
}

/// The rows `0..n` with the trailing empty ones dropped (as a count).
pub open spec fn kept_rows(rows: Seq<Seq<char>>, n: int) -> int
    decreases n,
{
    if n > 0 && rows[n - 1].len() == 0 {
        kept_rows(rows, n - 1)
    } else {
        n
    }
}

/// Rows `0..n` joined by CR LF, each non-empty row closed by a reset.
pub open spec fn join_rows(rows: Seq<Seq<char>>, n: int) -> Seq<char>
    decreases n,
{
    if n <= 0 {
        seq![]
    } else {
        join_rows(rows, n - 1) + flag(n - 1 > 0, "\r\n"@) + rows[n - 1] + flag(rows[n - 1].len() > 0, "\x1b[0m"@)
    }
}

pub struct ScreenView {
    pub cols: usize,
    /// The rows of the visible screen, top to bottom.
    pub rows: Vec<Vec<StyledCell>>,
}

impl ScreenView {
    pub open spec fn wf(&self) -> bool {
        forall|k: int| 0 <= k < self.rows@.len() ==> (#[trigger] self.rows@[k])@.len() == self.cols
    }

    pub open spec fn row_texts(&self) -> Seq<Seq<char>> {
        Seq::new(self.rows@.len(), |k: int| row_ansi(self.rows@[k]@, self.cols as int))
    }
}

pub open spec fn spec_screen_text(s: ScreenView) -> Seq<char> {
    let rows = s.row_texts();
    join_rows(rows, kept_rows(rows, rows.len() as int))
}

fn push_str_chars(out: &mut Vec<char>, s: &str)
    ensures
        final(out)@ == old(out)@ + s@,
{
    let v = crate::text::chars_of(s);
    let mut i: usize = 0;
    while i < v.len()
        invariant
            v@ == s@,
            i <= v@.len(),
            out@ == old(out)@ + v@.take(i as int),
        decreases v@.len() - i,
    {
        out.push(v[i]);
        assert(v@.take(i + 1) =~= v@.take(i as int).push(v@[i as int]));
        i = i + 1;
    }
    assert(v@.take(v@.len() as int) =~= v@);
}

fn push_dec(out: &mut Vec<char>, n: u16)
    ensures
        final(out)@ == old(out)@ + dec(n as nat),
    decreases n,
{
    if n >= 10 {
        push_dec(out, n / 10);
    }
    let d: u8 = (n % 10) as u8;
    out.push((48u8 + d) as char);
    proof {
        assert(old(out)@ + dec(n as nat) =~= (old(out)@ + (if n >= 10 { dec((n / 10) as nat) } else {
            seq![]
        })).push((48 + n % 10) as char));
    }
}

fn push_color_params(out: &mut Vec<char>, c: TermColor, bg: bool)
    ensures
        final(out)@ == old(out)@ + opt_param(color_params(c, bg)),
{
    match c {
        TermColor::Named(n) => {
            let idx: u16 = if 259 <= n && n <= 266 { n - 259 } else { n };
            if idx <= 7 {
                out.push(';');
                push_dec(out, (if bg { 40 } else { 30 }) + idx);
            } else if 8 <= idx && idx <= 15 {
                out.push(';');
                push_dec(out, (if bg { 92 } else { 82 }) + idx);
            }
        },
        TermColor::Indexed(i) => {
            out.push(';');
            push_dec(out, if bg { 48 } else { 38 });
            push_str_chars(out, ";5;");
            push_dec(out, i as u16);
        },
        TermColor::Spec(r, g, b) => {
            out.push(';');
            push_dec(out, if bg { 48 } else { 38 });
            push_str_chars(out, ";2;");
            push_dec(out, r as u16);
            out.push(';');
            push_dec(out, g as u16);
            out.push(';');
            push_dec(out, b as u16);
        },
    }
    proof {
        reveal_strlit(";5;");
        reveal_strlit(";2;");
        reveal_strlit(";");
    }
    assert(out@ =~= old(out)@ + opt_param(color_params(c, bg)));
}

fn push_flag(out: &mut Vec<char>, on: bool, s: &str)
    ensures
        final(out)@ == old(out)@ + flag(on, s@),
{
    if on {
        push_str_chars(out, s);
    } else {
        assert(old(out)@ + flag(on, s@) =~= old(out)@);
    }
}

fn sgr_head_chars(st: CellStyle) -> (h: Vec<char>)
    ensures
        h@ == sgr_head(st),
{
    let mut h: Vec<char> = Vec::new();
    push_str_chars(&mut h, "\x1b[0");
    assert(h@ =~= "\x1b[0"@);
    push_flag(&mut h, st.bold, ";1");
    push_flag(&mut h, st.dim, ";2");
    push_flag(&mut h, st.italic, ";3");
    let ghost before_ul = h@;
    if st.underline {
        push_str_chars(&mut h, ";4");
    } else if st.double_underline {
        push_str_chars(&mut h, ";4:2");
    } else if st.undercurl {
        push_str_chars(&mut h, ";4:3");
    } else if st.dotted_underline {
        push_str_chars(&mut h, ";4:4");
    } else if st.dashed_underline {
        push_str_chars(&mut h, ";4:5");
    } else {
        assert(before_ul + underline_params(st) =~= before_ul);
    }
    assert(h@ == before_ul + underline_params(st));
    push_flag(&mut h, st.inverse, ";7");
    push_flag(&mut h, st.hidden, ";8");
    push_flag(&mut h, st.strikeout, ";9");
    h
}

fn append_chars(out: &mut Vec<char>, src: &Vec<char>)
    ensures
        final(out)@ == old(out)@ + src@,
{
    let mut i: usize = 0;
    while i < src.len()
        invariant
            i <= src@.len(),
            out@ == old(out)@ + src@.take(i as int),
        decreases src@.len() - i,
    {
        out.push(src[i]);
        assert(src@.take(i + 1) =~= src@.take(i as int).push(src@[i as int]));
        i = i + 1;
    }
    assert(src@.take(src@.len() as int) =~= src@);
}

fn push_underline_color(out: &mut Vec<char>, c: Option<TermColor>)
    ensures
        final(out)@ == old(out)@ + underline_color_params(c),
{
    match c {
        Some(TermColor::Indexed(i)) => {
            push_str_chars(out, ";58;5;");
            push_dec(out, i as u16);
        },
        Some(TermColor::Spec(rr, gg, bb)) => {
            push_str_chars(out, ";58;2;");
            push_dec(out, rr as u16);
            out.push(';');
            push_dec(out, gg as u16);
            out.push(';');
            push_dec(out, bb as u16);
        },
        _ => {},
    }
    proof {
        reveal_strlit(";");
    }
    assert(out@ =~= old(out)@ + underline_color_params(c));
}

fn push_sgr(out: &mut Vec<char>, r: RunStyle)
    ensures
        final(out)@ == old(out)@ + sgr(r),
{
    let mut t = sgr_head_chars(r.style);
    push_color_params(&mut t, r.fg, false);
    push_color_params(&mut t, r.bg, true);
    push_underline_color(&mut t, r.underline_color);
    t.push('m');
    assert(t@ == sgr(r));
    append_chars(out, &t);
}

fn is_invisible(cell: &StyledCell) -> (r: bool)
    ensures
        r == invisible(*cell),
{
    let blank = cell.c == ' ' || cell.c == '\0';
    let default_bg = match cell.bg {
        TermColor::Named(n) => n == BACKGROUND,
        _ => false,
    };
    let s = cell.style;
    blank && cell.zerowidth.len() == 0 && default_bg && !(s.inverse || s.strikeout || s.underline
        || s.double_underline || s.undercurl || s.dotted_underline || s.dashed_underline)
}

fn same_style(a: Option<RunStyle>, b: RunStyle) -> (r: bool)
    ensures
        r == (a == Some(b)),
{
    match a {
        Some(x) => x == b,
        None => false,
    }
}

fn row_text_exec(row: &Vec<StyledCell>, cols: usize) -> (out: Vec<char>)
    requires
        row@.len() == cols,
    ensures
        out@ == row_ansi(row@, cols as int),
{
    let mut n = cols;
    proof {
        lemma_last_visible(row@, cols as int);
    }
    while n > 0 && is_invisible(&row[n - 1])
        invariant
            n <= cols == row@.len(),
            last_visible(row@, n as int) == last_visible(row@, cols as int),
        decreases n,
    {
        n = n - 1;
    }
    // `n` is one past the last visible cell.
    let mut out: Vec<char> = Vec::new();
    let mut cur: Option<RunStyle> = None;
    let mut k: usize = 0;
    while k < n
        invariant
            n <= row@.len(),
            k <= n,
            (out@, cur) == row_prefix(row@, k as int),
        decreases n - k,
    {
        let cell = &row[k];
        if !(cell.wide_spacer || cell.leading_wide_spacer) {
            let st = RunStyle { fg: cell.fg, bg: cell.bg, style: cell.style, underline_color: cell.underline_color };
            if !same_style(cur, st) {
                push_sgr(&mut out, st);
            }
            out.push(if cell.c == '\0' { ' ' } else { cell.c });
            let mut z: usize = 0;
            let ghost before = out@;
            while z < cell.zerowidth.len()
                invariant
                    z <= cell.zerowidth@.len(),
                    out@ == before + cell.zerowidth@.take(z as int),
                decreases cell.zerowidth@.len() - z,
            {
                out.push(cell.zerowidth[z]);
                assert(cell.zerowidth@.take(z + 1) =~= cell.zerowidth@.take(z as int).push(
                    cell.zerowidth@[z as int],
                ));
                z = z + 1;
            }
            assert(cell.zerowidth@.take(cell.zerowidth@.len() as int) =~= cell.zerowidth@);
            cur = Some(st);
        }
        k = k + 1;
    }
    out
}

proof fn lemma_last_visible(row: Seq<StyledCell>, n: int)
    requires
        0 <= n,
    ensures
        -1 <= last_visible(row, n) < n,
    decreases n,
{
    if n > 0 && invisible(row[n - 1]) {
        lemma_last_visible(row, n - 1);
    }
}

/// The visible screen as SGR-styled UTF-8 bytes: each row's cells up to its
/// last visible one (trailing blanks dropped unless a background, inverse,
/// underline or strike-out makes them visible), wide-glyph spacers skipped,
/// a full SGR (reset first) wherever the style changes, rows joined by CR LF
/// with a reset closing every non-empty row, and trailing empty rows
/// dropped.
pub fn screen_as_ansi(screen: &ScreenView) -> (bytes: Vec<u8>)
    requires
        screen.wf(),
    ensures
        bytes@ == vstd::utf8::encode_utf8(spec_screen_text(*screen)),
{
    let ghost texts = screen.row_texts();
    let mut lines: Vec<Vec<char>> = Vec::new();
    let mut r: usize = 0;
    while r < screen.rows.len()
        invariant
            screen.wf(),
            texts == screen.row_texts(),
            r <= screen.rows@.len(),
            lines@.len() == r,
            forall|k: int| 0 <= k < r ==> (#[trigger] lines@[k])@ == texts[k],
        decreases screen.rows@.len() - r,
    {
        assert(screen.rows@[r as int]@.len() == screen.cols);
        lines.push(row_text_exec(&screen.rows[r], screen.cols));
        r = r + 1;
    }
    let mut n = lines.len();
    while n > 0 && lines[n - 1].len() == 0
        invariant
            n <= lines@.len(),
            lines@.len() == texts.len(),
            forall|k: int| 0 <= k < lines@.len() ==> (#[trigger] lines@[k])@ == texts[k],
            kept_rows(texts, n as int) == kept_rows(texts, texts.len() as int),
        decreases n,
    {
        n = n - 1;
    }
    let mut out: Vec<char> = Vec::new();
    let mut i: usize = 0;
    while i < n
        invariant
            n <= lines@.len(),
            lines@.len() == texts.len(),
            forall|k: int| 0 <= k < lines@.len() ==> (#[trigger] lines@[k])@ == texts[k],
            i <= n,
            out@ == join_rows(texts, i as int),
        decreases n - i,
    {
        if i > 0 {
            out.push('\r');
            out.push('\n');
        }
        let line = &lines[i];
        let mut c: usize = 0;
        let ghost before = out@;
        while c < line.len()
            invariant
                c <= line@.len(),
                out@ == before + line@.take(c as int),
            decreases line@.len() - c,
        {
            out.push(line[c]);
            assert(line@.take(c + 1) =~= line@.take(c as int).push(line@[c as int]));
            c = c + 1;
        }
        assert(line@.take(line@.len() as int) =~= line@);
        if line.len() > 0 {
            push_str_chars(&mut out, "\x1b[0m");
        }
        proof {
            reveal_strlit("\r\n");
            reveal_strlit("\x1b[0m");
        }
        assert(out@ =~= join_rows(texts, i + 1));
        i = i + 1;
    }
    let mut s = String::new();
    let mut j: usize = 0;
    while j < out.len()
        invariant
            j <= out@.len(),
            s@ == out@.take(j as int),
        decreases out@.len() - j,
    {
        string_push(&mut s, out[j]);
        assert(out@.take(j + 1) =~= out@.take(j as int).push(out@[j as int]));
        j = j + 1;
    }
    assert(out@.take(out@.len() as int) =~= out@);
    bytes_of(s.as_str())
}

} // verus!
