//! XTerm mouse-reporting encoders: SGR (1006) and legacy X10 wire formats.
use vstd::prelude::*;
use crate::text::{decimal, push_decimal};

verus! {

/// Logical button for a report. Wheel directions are buttons 64 / 65 on the
/// wire; `None` is the "no button" sentinel of any-motion tracking.
#[derive(Clone, Copy, PartialEq, Eq, Structural, Debug)]
pub enum MouseButton {
    Left,
    Middle,
    Right,
    WheelUp,
    WheelDown,
    NoButton,
}

/// The three event shapes the encoder handles.
#[derive(Clone, Copy, PartialEq, Eq, Structural, Debug)]
pub enum MouseEventKind {
    Press,
    Release,
    Motion,
}

/// Keyboard modifier state folded into the report's button byte.
#[derive(Clone, Copy, Default, Debug)]
pub struct Mods {
    pub shift: bool,
    pub alt: bool,
    pub ctrl: bool,
}

/// The mouse-related terminal modes the encoder reads: click tracking
/// (1000), drag tracking (1002), any-motion tracking (1003) and the SGR
/// coordinate extension (1006).
#[derive(Clone, Copy, Default, Debug)]
pub struct MouseMode {
    pub click: bool,
    pub drag: bool,
    pub motion: bool,
    pub sgr: bool,
}

pub open spec fn spec_button_code(b: MouseButton) -> u8 {
    match b {
        MouseButton::Left => 0,
        MouseButton::Middle => 1,
        MouseButton::Right => 2,
        MouseButton::WheelUp => 64,
        MouseButton::WheelDown => 65,
        MouseButton::NoButton => 3,
    }
}

impl MouseButton {
    /// Base button code before the motion / modifier bits are folded in.
    pub fn code(self) -> (c: u8)
        ensures
            c == spec_button_code(self),
    {
        match self {
            MouseButton::Left => 0,
            MouseButton::Middle => 1,
            MouseButton::Right => 2,
            MouseButton::WheelUp => 64,
            MouseButton::WheelDown => 65,
            MouseButton::NoButton => 3,
        }
    }
}

/// The button byte of a report before any wire-format offset: the button
/// code, plus 32 for motion, 4 for Shift, 8 for Alt and 16 for Ctrl.
pub open spec fn report_code(kind: MouseEventKind, button: MouseButton, mods: Mods) -> nat {
    spec_button_code(button) as nat + (if kind == MouseEventKind::Motion { 32nat } else { 0 })
        + (if mods.shift { 4nat } else { 0 }) + (if mods.alt { 8nat } else { 0 }) + (if mods.ctrl {
        16nat
    } else {
        0
    })
}

/// A one-based wire coordinate, saturating at `u16::MAX`.
pub open spec fn one_based(v: u16) -> nat {
    if v == u16::MAX { u16::MAX as nat } else { (v + 1) as nat }
}

/// The legacy button byte: a release cannot say which button went up, so
/// its two low bits become 3 while the motion / modifier bits stay.
pub open spec fn legacy_code(kind: MouseEventKind, cb: nat) -> nat {
    if kind == MouseEventKind::Release { (cb - cb % 4 + 3) as nat } else { cb }
}

/// Whether the modes ask for this event at all: motion is reported only
/// under drag or any-motion tracking.
pub open spec fn reported(mode: MouseMode, kind: MouseEventKind) -> bool {
    kind != MouseEventKind::Motion || mode.drag || mode.motion
}

/// The SGR report `ESC [ < Cb ; Cx ; Cy` followed by `m` for a release and
/// `M` otherwise.
pub open spec fn sgr_report(cb: nat, cx: nat, cy: nat, release: bool) -> Seq<u8> {
    seq![0x1bu8, 0x5bu8, 0x3cu8] + decimal(cb) + seq![0x3bu8] + decimal(cx) + seq![0x3bu8]
        + decimal(cy) + seq![if release { 0x6du8 } else { 0x4du8 }]
}

/// What `encode` produces: `None` for an event the modes do not report or a
/// legacy coordinate past the single-byte ceiling, the report bytes otherwise.
pub open spec fn spec_encode(
    mode: MouseMode,
    kind: MouseEventKind,
    button: MouseButton,
    col: u16,
    row: u16,
    mods: Mods,
) -> Option<Seq<u8>> {
    let cb = report_code(kind, button, mods);
    let cx = one_based(col);
    let cy = one_based(row);
    if !reported(mode, kind) {
        None
    } else if mode.sgr {
        Some(sgr_report(cb, cx, cy, kind == MouseEventKind::Release))
    } else if cx + 32 > 255 || cy + 32 > 255 {
        None
    } else {
        Some(
            seq![0x1bu8, 0x5bu8, 0x4du8, (legacy_code(kind, cb) + 32) as u8, (cx + 32) as u8, (cy + 32) as u8],
        )
    }
}

/// The button byte of a report (`report_code`) as a machine value.
fn button_byte(kind: MouseEventKind, button: MouseButton, mods: Mods) -> (cb: u8)
    ensures
        cb as nat == report_code(kind, button, mods),
        cb <= 125,
{
    let mut cb: u8 = button.code();
    if kind == MouseEventKind::Motion {
        cb = cb + 32;
    }
    if mods.shift {
        cb = cb + 4;
    }
    if mods.alt {
        cb = cb + 8;
    }
    if mods.ctrl {
        cb = cb + 16;
    }
    cb
}

/// The SGR report bytes for an already-computed button byte and one-based
/// coordinates.
fn sgr_bytes(cb: u8, cx: u16, cy: u16, release: bool) -> (out: Vec<u8>)
    ensures
        out@ == sgr_report(cb as nat, cx as nat, cy as nat, release),
{
    let mut out: Vec<u8> = Vec::new();
    out.push(0x1b);
    out.push(0x5b);
    out.push(0x3c);
    push_decimal(&mut out, cb as u16);
    out.push(0x3b);
    push_decimal(&mut out, cx);
    out.push(0x3b);
    push_decimal(&mut out, cy);
    let final_byte: u8 = if release { 0x6d } else { 0x4d };
    out.push(final_byte);
    assert(out@ =~= sgr_report(cb as nat, cx as nat, cy as nat, release));
    out
}

/// The legacy button byte (`legacy_code`) as a machine value.
fn legacy_byte(kind: MouseEventKind, cb: u8) -> (b: u8)
    requires
        cb <= 125,
    ensures
        b as nat == legacy_code(kind, cb as nat),
        b <= 127,
{
    if kind == MouseEventKind::Release {
        assert((cb & 0xFC) | 0x03 == cb - cb % 4 + 3) by (bit_vector);
        (cb & 0xFC) | 0x03
    } else {
        cb
    }
}

/// Encode one mouse event, or `None` when the current terminal mode says it
/// shouldn't be reported (motion while only click tracking is on, or a legacy
/// coordinate past the single-byte ceiling). `col` / `row` are zero-based
/// cell coordinates; the wire protocol is one-based.
pub fn encode(
    mode: MouseMode,
    kind: MouseEventKind,
    button: MouseButton,
    col: u16,
    row: u16,
    mods: Mods,
) -> (out: Option<Vec<u8>>)
    ensures
        match spec_encode(mode, kind, button, col, row, mods) {
            Some(s) => out is Some && out->0@ == s,
            None => out is None,
        },
{
    if kind == MouseEventKind::Motion && !(mode.drag || mode.motion) {
        return None;
    }
    let cb = button_byte(kind, button, mods);
    let cx: u16 = col.saturating_add(1);
    let cy: u16 = row.saturating_add(1);
    if mode.sgr {
        Some(sgr_bytes(cb, cx, cy, kind == MouseEventKind::Release))
    } else {
        let cb_legacy = legacy_byte(kind, cb);
        if cx > 223 || cy > 223 {
            return None;
        }
        let mut out: Vec<u8> = Vec::new();
        out.push(0x1b);
        out.push(0x5b);
        out.push(0x4d);
        out.push(cb_legacy + 32);
        out.push((cx + 32) as u8);
        out.push((cy + 32) as u8);
        assert(out@ =~= seq![0x1bu8, 0x5bu8, 0x4du8, (cb_legacy + 32) as u8, (cx + 32) as u8, (cy + 32) as u8]);
        Some(out)
    }
}

/// The xterm modifier bits of a report: holding Shift adds exactly 4 to the
/// button code, Alt exactly 8 and Ctrl exactly 16, whatever the other
/// modifiers, the button and the event. In the SGR format that is the `Cb`
/// field; in the legacy format the button byte (the fourth) grows by the
/// same amount, a release included, and the coordinates stay.
pub proof fn law_modifier_bits(
    mode: MouseMode,
    kind: MouseEventKind,
    button: MouseButton,
    col: u16,
    row: u16,
    shift: bool,
    alt: bool,
    ctrl: bool,
)
    requires
        reported(mode, kind),
    ensures
        ({
            let bare = Mods { shift: false, alt: false, ctrl: false };
            let m = Mods { shift, alt, ctrl };
            let add = (if shift { 4nat } else { 0 }) + (if alt { 8nat } else { 0 }) + (if ctrl {
                16nat
            } else {
                0
            });
            &&& mode.sgr ==> spec_encode(mode, kind, button, col, row, m) == Some(
                sgr_report(
                    report_code(kind, button, bare) + add,
                    one_based(col),
                    one_based(row),
                    kind == MouseEventKind::Release,
                ),
            )
            &&& !mode.sgr ==> (spec_encode(mode, kind, button, col, row, m) is Some
                <==> spec_encode(mode, kind, button, col, row, bare) is Some)
            &&& !mode.sgr && spec_encode(mode, kind, button, col, row, bare) is Some
                ==> spec_encode(mode, kind, button, col, row, m) == Some(
                spec_encode(mode, kind, button, col, row, bare)->0.update(
                    3,
                    (spec_encode(mode, kind, button, col, row, bare)->0[3] + add) as u8,
                ),
            )
        }),
        report_code(MouseEventKind::Press, button, Mods { shift: false, alt: false, ctrl: false })
            == (match button {
            MouseButton::Left => 0nat,
            MouseButton::Middle => 1nat,
            MouseButton::Right => 2nat,
            MouseButton::NoButton => 3nat,
            MouseButton::WheelUp => 64nat,
            MouseButton::WheelDown => 65nat,
        }),
        report_code(MouseEventKind::Motion, button, Mods { shift: false, alt: false, ctrl: false })
            == report_code(MouseEventKind::Press, button, Mods { shift: false, alt: false, ctrl: false }) + 32,
{
    let bare = Mods { shift: false, alt: false, ctrl: false };
    let m = Mods { shift, alt, ctrl };
    let cb0 = report_code(kind, button, bare);
    let cb = report_code(kind, button, m);
    let add = (if shift { 4nat } else { 0 }) + (if alt { 8nat } else { 0 }) + (if ctrl {
        16nat
    } else {
        0
    });
    assert(cb == cb0 + add);
    if !mode.sgr && spec_encode(mode, kind, button, col, row, bare) is Some {
        let s0 = spec_encode(mode, kind, button, col, row, bare)->0;
        assert(add % 4 == 0);
        assert(legacy_code(kind, cb) == legacy_code(kind, cb0) + add);
        assert(spec_encode(mode, kind, button, col, row, m)->0 =~= s0.update(3, (s0[3] + add) as u8));
    }
}

/// How the event shapes relate on the wire. In the SGR format a release
/// reports the same button code and coordinates as the press and differs
/// only in its final byte, `m` in place of `M`. In the legacy format a
/// release keeps the motion and modifier bits of the press but sets the two
/// low bits of the button byte to 3 ("some button went up"), and a report
/// exists exactly when both one-based coordinates fit the single-byte
/// encoding (zero-based column and row below 223), each sent as the
/// zero-based coordinate plus 33. Motion is reported only under drag or
/// any-motion tracking.
pub proof fn law_event_shapes(
    mode: MouseMode,
    button: MouseButton,
    col: u16,
    row: u16,
    mods: Mods,
)
    ensures
        !mode.drag && !mode.motion ==> spec_encode(
            mode,
            MouseEventKind::Motion,
            button,
            col,
            row,
            mods,
        ) is None,
        mode.sgr ==> ({
            let p = spec_encode(mode, MouseEventKind::Press, button, col, row, mods);
            let r = spec_encode(mode, MouseEventKind::Release, button, col, row, mods);
            &&& p is Some && r is Some
            &&& p->0.last() == 0x4du8
            &&& r->0 == p->0.update(p->0.len() - 1, 0x6du8)
        }),
        !mode.sgr ==> ({
            let p = spec_encode(mode, MouseEventKind::Press, button, col, row, mods);
            let r = spec_encode(mode, MouseEventKind::Release, button, col, row, mods);
            &&& (p is Some <==> (col < 223 && row < 223))
            &&& (r is Some <==> (col < 223 && row < 223))
            &&& p is Some ==> {
                &&& p->0.len() == 6
                &&& p->0[4] == col + 33
                &&& p->0[5] == row + 33
                &&& r->0 == p->0.update(3, r->0[3])
                &&& r->0[3] % 4 == 3
                &&& r->0[3] / 4 == p->0[3] / 4
            }
        }),
{
    let cb = report_code(MouseEventKind::Press, button, mods);
    assert(report_code(MouseEventKind::Release, button, mods) == cb);
    assert(cb <= 125);
    if mode.sgr {
        let p = spec_encode(mode, MouseEventKind::Press, button, col, row, mods)->0;
        let r = spec_encode(mode, MouseEventKind::Release, button, col, row, mods)->0;
        assert(r =~= p.update(p.len() - 1, 0x6du8));
    } else if col < 223 && row < 223 {
        let p = spec_encode(mode, MouseEventKind::Press, button, col, row, mods)->0;
        let r = spec_encode(mode, MouseEventKind::Release, button, col, row, mods)->0;
        assert(r =~= p.update(3, r[3]));
    }
}

} // verus!
