//! Moving the viewport through scrollback: wheel steps, page keys, clicks on
//! the scrollbar track and the auto-scroll of a selection dragged past an
//! edge. An offset counts lines above the live edge; `0` is the live screen.
use vstd::prelude::*;

verus! {

/// `offset` moved by `lines` (positive: back into history), first floored at
/// the live edge, then capped at `max_scroll`.
pub open spec fn spec_scroll_by(offset: int, lines: int, max_scroll: int) -> int {
    let moved = offset + lines;
    let floored = if moved < 0 { 0 } else { moved };
    if floored > max_scroll { max_scroll } else { floored }
}

/// Scroll the view by `lines` (positive: back into history), clamped to
/// `[0, max_scroll]`.
pub fn scroll_by(offset: i32, lines: i32, max_scroll: i32) -> (r: i32)
    requires
        i32::MIN <= offset + lines <= i32::MAX,
    ensures
        r == spec_scroll_by(offset as int, lines as int, max_scroll as int),
{
    let moved = offset + lines;
    let floored = if moved < 0 { 0 } else { moved };
    if floored > max_scroll { max_scroll } else { floored }
}

/// Lines one page key moves: a screen less one row of overlap, so a line
/// stays visible across the jump, and never zero.
pub fn page_lines(screen_lines: u16) -> (r: i32)
    ensures
        r == (if screen_lines >= 2 { screen_lines - 1 } else { 1 }),
{
    if screen_lines >= 2 { screen_lines as i32 - 1 } else { 1 }
}

/// What a page key does: nothing on the alternate screen (the program there
/// pages itself, so the key is left to it), otherwise the view moves one
/// page up or down within `[0, max_scroll]`.
pub fn page_scroll(up: bool, in_alt_screen: bool, offset: i32, page: i32, max_scroll: i32) -> (r: Option<i32>)
    requires
        !in_alt_screen ==> i32::MIN <= offset + (if up { page as int } else { -page }) <= i32::MAX,
        -i32::MAX <= page,
    ensures
        r == (if in_alt_screen {
            None
        } else {
            Some(spec_scroll_by(offset as int, if up { page as int } else { -page }, max_scroll as int) as i32)
        }),
{
    if in_alt_screen {
        return None;
    }
    let lines: i32 = if up { page } else { -page };
    Some(scroll_by(offset, lines, max_scroll))
}

/// `offset` moved `page` lines back into history (`back`), at most to
/// `history`, or toward the live edge, at most to it.
pub open spec fn spec_track_page(offset: int, page: int, history: int, back: bool) -> int {
    if back {
        if offset + page < history { offset + page } else { history }
    } else {
        if offset - page > 0 { offset - page } else { 0 }
    }
}

/// A click on the scrollbar track outside the thumb pages toward the click:
/// above the thumb one page back (at most to the oldest line), below it one
/// page toward the live edge (at most to it).
pub fn track_page(offset: i32, page: i32, history: i32, above_thumb: bool) -> (r: i32)
    requires
        above_thumb ==> i32::MIN <= offset + page <= i32::MAX,
        !above_thumb ==> i32::MIN <= offset - page <= i32::MAX,
    ensures
        r == spec_track_page(offset as int, page as int, history as int, above_thumb),
{
    if above_thumb {
        let moved = offset + page;
        if moved < history { moved } else { history }
    } else {
        let moved = offset - page;
        if moved > 0 { moved } else { 0 }
    }
}

/// Lines one auto-scroll tick moves when a selection drag passes the top or
/// bottom edge: one at the edge, one more per whole cell of overshoot, at
/// most four.
pub open spec fn autoscroll_step(overshoot_cells: int) -> int {
    let s = overshoot_cells + 1;
    if s < 1 { 1 } else if s > 4 { 4 } else { s }
}

/// One auto-scroll tick of a selection drag: past the top edge the view moves
/// back into history (at most to the oldest line), past the bottom edge
/// toward the live edge (at most to it).
pub fn autoscroll(offset: i32, overshoot_cells: i32, upward: bool, history: i32) -> (r: i32)
    requires
        overshoot_cells < i32::MAX,
        upward ==> offset + 4 <= i32::MAX,
        !upward ==> offset - 4 >= i32::MIN,
    ensures
        r == spec_track_page(offset as int, autoscroll_step(overshoot_cells as int), history as int, upward),
{
    let s = overshoot_cells + 1;
    let step: i32 = if s < 1 { 1 } else if s > 4 { 4 } else { s };
    track_page(offset, step, history, upward)
}

/// Lines a wheel moves per whole notch.
pub const LINES_PER_NOTCH: i32 = 3;

/// Lines `notches` whole wheel notches scroll: three each, with the sign of
/// the wheel (positive: up, back into history).
pub fn lines_for_notches(notches: i32) -> (r: i32)
    requires
        i32::MIN <= notches * 3 <= i32::MAX,
    ensures
        r == notches * 3,
{
    notches * LINES_PER_NOTCH
}

/// The three bytes of one cursor-up (`ESC [ A`) or cursor-down (`ESC [ B`) key.
pub open spec fn arrow_key(up: bool) -> Seq<u8> {
    seq![0x1bu8, 0x5bu8, if up { 0x41u8 } else { 0x42u8 }]
}

/// `n` copies of `s`, one after another.
pub open spec fn repeat(s: Seq<u8>, n: nat) -> Seq<u8>
    decreases n,
{
    if n == 0 {
        Seq::empty()
    } else {
        repeat(s, (n - 1) as nat) + s
    }
}

/// Arrow keys a wheel step sends on the alternate screen: at most ten.
pub open spec fn arrow_count(lines: int) -> nat {
    let a = if lines < 0 { -lines } else { lines };
    if a > 10 { 10 } else { a as nat }
}

/// What a wheel step of `lines` whole lines does.
pub enum WheelOutcome {
    /// Nothing moved yet (only a sub-cell remainder): the event is consumed
    /// and nothing is redrawn.
    Absorb,
    /// The view scrolls to this offset.
    ScrollTo(i32),
    /// On the alternate screen the wheel becomes arrow keys for the program
    /// there (`less`, `vim`, `top` all listen for them): these bytes.
    Keys(Vec<u8>),
}

/// The outcome of a wheel step of `lines` whole lines (positive: up, back
/// into history).
pub open spec fn spec_wheel(lines: int, in_alt_screen: bool, offset: int, max_scroll: int) -> (
    Option<int>,
    Option<Seq<u8>>,
) {
    if lines == 0 {
        (None, None)
    } else if in_alt_screen {
        (None, Some(repeat(arrow_key(lines > 0), arrow_count(lines))))
    } else {
        (Some(spec_scroll_by(offset, lines, max_scroll)), None)
    }
}

pub open spec fn wheel_matches(w: WheelOutcome, s: (Option<int>, Option<Seq<u8>>)) -> bool {
    match w {
        WheelOutcome::Absorb => s == (Option::<int>::None, Option::<Seq<u8>>::None),
        WheelOutcome::ScrollTo(o) => s == (Some(o as int), Option::<Seq<u8>>::None),
        WheelOutcome::Keys(b) => s == (Option::<int>::None, Some(b@)),
    }
}

/// A wheel step of `lines` whole lines: absorbed while nothing moved, arrow
/// keys on the alternate screen, otherwise a scroll clamped to
/// `[0, max_scroll]`.
pub fn wheel_outcome(lines: i32, in_alt_screen: bool, offset: i32, max_scroll: i32) -> (r: WheelOutcome)
    requires
        lines != 0 && !in_alt_screen ==> i32::MIN <= offset + lines <= i32::MAX,
    ensures
        wheel_matches(r, spec_wheel(lines as int, in_alt_screen, offset as int, max_scroll as int)),
{
    if lines == 0 {
        return WheelOutcome::Absorb;
    }
    if in_alt_screen {
        let up = lines > 0;
        let count: u8 = if lines > 10 || lines < -10 {
            10
        } else if lines < 0 {
            (-lines) as u8
        } else {
            lines as u8
        };
        let last: u8 = if up { 0x41 } else { 0x42 };
        let mut bytes: Vec<u8> = Vec::new();
        let mut k: u8 = 0;
        while k < count
            invariant
                k <= count,
                count == arrow_count(lines as int),
                last == arrow_key(up)[2],
                bytes@ == repeat(arrow_key(up), k as nat),
            decreases count - k,
        {
            bytes.push(0x1b);
            bytes.push(0x5b);
            bytes.push(last);
            proof {
                assert(repeat(arrow_key(up), (k + 1) as nat) == repeat(arrow_key(up), k as nat) + arrow_key(up));
                assert(bytes@ =~= repeat(arrow_key(up), (k + 1) as nat));
            }
            k = k + 1;
        }
        return WheelOutcome::Keys(bytes);
    }
    WheelOutcome::ScrollTo(scroll_by(offset, lines, max_scroll))
}

/// Every scroll keeps the view inside scrollback: starting in
/// `[0, max_scroll]`, a wheel step or a page key either way, a track click
/// and an auto-scroll tick either way all land in `[0, max_scroll]`.
pub proof fn law_scrolling_stays_inside_scrollback(
    offset: i32,
    lines: i32,
    max_scroll: i32,
    overshoot: i32,
    back: bool,
)
    requires
        0 <= offset <= max_scroll,
        lines >= 0,
    ensures
        0 <= spec_scroll_by(offset as int, lines as int, max_scroll as int) <= max_scroll,
        0 <= spec_scroll_by(offset as int, -lines, max_scroll as int) <= max_scroll,
        0 <= spec_track_page(offset as int, lines as int, max_scroll as int, back) <= max_scroll,
        0 <= spec_track_page(offset as int, autoscroll_step(overshoot as int), max_scroll as int, back)
            <= max_scroll,
{
}

/// Scrolling back and then forward by the same amount returns to where the
/// view was, as long as the first move was not clamped.
pub proof fn law_scroll_round_trip(offset: i32, lines: i32, max_scroll: i32)
    requires
        0 <= offset + lines <= max_scroll,
        0 <= offset <= max_scroll,
    ensures
        spec_scroll_by(spec_scroll_by(offset as int, lines as int, max_scroll as int), -lines, max_scroll as int)
            == offset,
{
}

/// On the alternate screen the wheel never moves the view; it sends at most
/// ten arrow keys (at least one), all in the direction of the wheel.
pub proof fn law_alternate_screen_wheel_sends_keys(lines: i32, offset: i32, max_scroll: i32)
    requires
        lines != 0,
    ensures
        spec_wheel(lines as int, true, offset as int, max_scroll as int).0 is None,
        ({
            let n = arrow_count(lines as int);
            let b = spec_wheel(lines as int, true, offset as int, max_scroll as int).1->0;
            &&& spec_wheel(lines as int, true, offset as int, max_scroll as int).1 is Some
            &&& 1 <= n <= 10
            &&& b.len() == 3 * n
            &&& forall|k: int| 0 <= k < n ==> #[trigger] b.subrange(3 * k, 3 * k + 3) == arrow_key(lines > 0)
        }),
{
    let n = arrow_count(lines as int);
    let s = arrow_key(lines > 0);
    lemma_repeat_len(s, n);
    assert forall|k: int| 0 <= k < n implies #[trigger] repeat(s, n).subrange(3 * k, 3 * k + 3) == s by {
        lemma_repeat_piece(s, n, k);
    }
}

/// Piece `k` of `n` copies of a three-byte sequence is that sequence.
proof fn lemma_repeat_piece(s: Seq<u8>, n: nat, k: int)
    requires
        s.len() == 3,
        0 <= k < n,
    ensures
        repeat(s, n).subrange(3 * k, 3 * k + 3) == s,
    decreases n,
{
    let prev = repeat(s, (n - 1) as nat);
    lemma_repeat_len(s, (n - 1) as nat);
    assert(prev.len() == 3 * (n - 1));
    assert(repeat(s, n) == prev + s);
    if k == n - 1 {
        assert(repeat(s, n).subrange(3 * k, 3 * k + 3) =~= s);
    } else {
        lemma_repeat_piece(s, (n - 1) as nat, k);
        assert(repeat(s, n).subrange(3 * k, 3 * k + 3) =~= prev.subrange(3 * k, 3 * k + 3));
    }
}

proof fn lemma_repeat_len(s: Seq<u8>, n: nat)
    ensures
        repeat(s, n).len() == s.len() * n,
    decreases n,
{
    if n > 0 {
        lemma_repeat_len(s, (n - 1) as nat);
        assert(repeat(s, n).len() == repeat(s, (n - 1) as nat).len() + s.len());
        assert(s.len() * n == s.len() * (n - 1) + s.len()) by (nonlinear_arith);
    } else {
        assert(s.len() * n == 0) by (nonlinear_arith)
            requires
                n == 0,
        ;
    }
}

} // verus!
