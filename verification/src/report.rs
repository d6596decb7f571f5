//! Mouse reporting while an application holds mouse tracking: the decisions
//! of the pointer-event handler, as a step from (tracking state, event) to
//! (new state, action). The widget turns pixels into cells and wheel deltas
//! into whole notches, runs the action, and keeps the state.
use vstd::prelude::*;
use crate::mouse::{encode, spec_encode, Mods, MouseButton, MouseEventKind, MouseMode};

verus! {

/// What the handler remembers between events: the button whose press was
/// reported (its release must be reported too), the last reported cell, and
/// whether the selection hint was already shown for the current drag.
#[derive(Debug, Clone, Copy)]
pub struct ReportState {
    pub button: Option<MouseButton>,
    pub cell: Option<(u16, u16)>,
    pub hint_emitted: bool,
}

/// A pointer event; `at` is the clamped cell under the pointer, `None` when
/// the pointer is outside the terminal.
#[derive(Debug, Clone, Copy)]
pub enum PointerEvent {
    Pressed { button: MouseButton, at: Option<(u16, u16)> },
    Released { button: MouseButton, at: Option<(u16, u16)> },
    Moved { at: Option<(u16, u16)> },
    /// Whole wheel notches (positive = up) accumulated from this event.
    Wheel { notches: i32, at: Option<(u16, u16)> },
}

/// The widget's settings that bear on reporting.
#[derive(Debug, Clone, Copy)]
pub struct ReportConfig {
    /// Mouse reporting is enabled for this host.
    pub enabled: bool,
    /// The application's mouse modes.
    pub mode: MouseMode,
    pub alt: bool,
    pub ctrl: bool,
    /// A selection hint can be shown (the application wired a callback).
    pub hint_available: bool,
}

pub enum ReportAction {
    /// Not a report: the local handlers take the event.
    Ignore,
    /// Consumed without output.
    Capture,
    /// Consumed; these bytes go to the application.
    Emit(Vec<u8>),
    /// Consumed; the "hold Shift to select" hint is shown.
    Hint,
}

/// The action as a value of the specification.
pub enum ActionModel {
    Ignore,
    Capture,
    Emit(Seq<u8>),
    Hint,
}

pub open spec fn reportable(b: MouseButton) -> bool {
    b == MouseButton::Left || b == MouseButton::Middle || b == MouseButton::Right
}

/// Shift is the local-selection bypass and never part of a report.
pub open spec fn report_mods(cfg: ReportConfig) -> Mods {
    Mods { shift: false, alt: cfg.alt, ctrl: cfg.ctrl }
}

/// `n` copies of `s`.
pub open spec fn repeat(s: Seq<u8>, n: nat) -> Seq<u8>
    decreases n,
{
    if n == 0 {
        seq![]
    } else {
        repeat(s, (n - 1) as nat) + s
    }
}

/// Reports per wheel event: the notch count, at least one and at most five.
pub open spec fn wheel_reports(notches: i32) -> nat {
    let a = if notches < 0 { -notches } else { notches as int };
    if a < 1 {
        1
    } else if a > 5 {
        5
    } else {
        a as nat
    }
}

pub open spec fn emit_or_ignore(r: Option<Seq<u8>>) -> ActionModel {
    match r {
        Some(b) => ActionModel::Emit(b),
        None => ActionModel::Ignore,
    }
}

pub open spec fn spec_report_step(s: ReportState, ev: PointerEvent, cfg: ReportConfig) -> (ReportState, ActionModel) {
    let mods = report_mods(cfg);
    if !cfg.enabled {
        (s, ActionModel::Ignore)
    } else {
        match ev {
            PointerEvent::Pressed { button, at } => match at {
                None => (s, ActionModel::Ignore),
                Some(c) => if !reportable(button) {
                    (s, ActionModel::Ignore)
                } else {
                    (
                        ReportState { button: Some(button), cell: Some(c), hint_emitted: false },
                        emit_or_ignore(spec_encode(cfg.mode, MouseEventKind::Press, button, c.0, c.1, mods)),
                    )
                },
            },
            PointerEvent::Released { button, at } => if !reportable(button) || s.button != Some(button) {
                (s, ActionModel::Ignore)
            } else {
                let c = match at {
                    Some(c) => c,
                    None => match s.cell {
                        Some(c) => c,
                        None => (0u16, 0u16),
                    },
                };
                (
                    ReportState { button: None, ..s },
                    emit_or_ignore(spec_encode(cfg.mode, MouseEventKind::Release, button, c.0, c.1, mods)),
                )
            },
            PointerEvent::Moved { at } => match at {
                None => (s, ActionModel::Ignore),
                Some(c) => if s.cell == Some(c) {
                    (s, ActionModel::Ignore)
                } else if s.button is None && !cfg.mode.motion {
                    (s, ActionModel::Ignore)
                } else if !s.hint_emitted && s.button == Some(MouseButton::Left) && cfg.hint_available {
                    (ReportState { hint_emitted: true, cell: Some(c), ..s }, ActionModel::Hint)
                } else {
                    let b = match s.button {
                        Some(b) => b,
                        None => MouseButton::NoButton,
                    };
                    match spec_encode(cfg.mode, MouseEventKind::Motion, b, c.0, c.1, mods) {
                        None => (s, ActionModel::Ignore),
                        Some(bytes) => (ReportState { cell: Some(c), ..s }, ActionModel::Emit(bytes)),
                    }
                },
            },
            PointerEvent::Wheel { notches, at } => if cfg.ctrl {
                (s, ActionModel::Ignore)
            } else {
                match at {
                    None => (s, ActionModel::Ignore),
                    Some(c) => if notches == 0 {
                        (s, ActionModel::Capture)
                    } else {
                        let b = if notches > 0 { MouseButton::WheelUp } else { MouseButton::WheelDown };
                        match spec_encode(cfg.mode, MouseEventKind::Press, b, c.0, c.1, mods) {
                            None => (s, ActionModel::Ignore),
                            Some(one) => if one.len() == 0 {
                                (s, ActionModel::Ignore)
                            } else {
                                (s, ActionModel::Emit(repeat(one, wheel_reports(notches))))
                            },
                        }
                    },
                }
            },
        }
    }
}

pub open spec fn action_model(a: ReportAction) -> ActionModel {
    match a {
        ReportAction::Ignore => ActionModel::Ignore,
        ReportAction::Capture => ActionModel::Capture,
        ReportAction::Emit(v) => ActionModel::Emit(v@),
        ReportAction::Hint => ActionModel::Hint,
    }
}

fn encode_action(out: Option<Vec<u8>>) -> (a: ReportAction)
    ensures
        action_model(a) == emit_or_ignore(match out {
            Some(v) => Some(v@),
            None => None,
        }),
{
    match out {
        Some(v) => ReportAction::Emit(v),
        None => ReportAction::Ignore,
    }
}

fn is_reportable(b: MouseButton) -> (r: bool)
    ensures
        r == reportable(b),
{
    match b {
        MouseButton::Left | MouseButton::Middle | MouseButton::Right => true,
        _ => false,
    }
}

fn same_button(a: Option<MouseButton>, b: MouseButton) -> (r: bool)
    ensures
        r == (a == Some(b)),
{
    match a {
        Some(x) => x == b,
        None => false,
    }
}

fn same_cell(a: Option<(u16, u16)>, b: (u16, u16)) -> (r: bool)
    ensures
        r == (a == Some(b)),
{
    match a {
        Some(x) => x.0 == b.0 && x.1 == b.1,
        None => false,
    }
}

/// One step of mouse reporting; see [`spec_report_step`] for the rules:
/// nothing is reported while reporting is off; a press of the left, middle
/// or right button over the terminal is reported and tracked; a release is
/// reported only when its press was, at the last reported cell when the
/// pointer left the terminal; motion is reported when it enters a new cell
/// and a button is held (drag tracking) or any-motion tracking is on, except
/// that the first left-button drag shows the selection hint instead; a wheel
/// event reports one to five notches (Ctrl+wheel stays local, a fraction of
/// a notch is consumed silently).
pub fn report_step(state: &mut ReportState, ev: PointerEvent, cfg: ReportConfig) -> (a: ReportAction)
    ensures
        (*final(state), action_model(a)) == spec_report_step(*old(state), ev, cfg),
{
    let mods = Mods { shift: false, alt: cfg.alt, ctrl: cfg.ctrl };
    if !cfg.enabled {
        return ReportAction::Ignore;
    }
    match ev {
        PointerEvent::Pressed { button, at } => match at {
            None => ReportAction::Ignore,
            Some(c) => {
                if !is_reportable(button) {
                    return ReportAction::Ignore;
                }
                state.button = Some(button);
                state.cell = Some(c);
                state.hint_emitted = false;
                encode_action(encode(cfg.mode, MouseEventKind::Press, button, c.0, c.1, mods))
            },
        },
        PointerEvent::Released { button, at } => {
            if !is_reportable(button) || !same_button(state.button, button) {
                return ReportAction::Ignore;
            }
            let c = match at {
                Some(c) => c,
                None => match state.cell {
                    Some(c) => c,
                    None => (0u16, 0u16),
                },
            };
            state.button = None;
            encode_action(encode(cfg.mode, MouseEventKind::Release, button, c.0, c.1, mods))
        },
        PointerEvent::Moved { at } => match at {
            None => ReportAction::Ignore,
            Some(c) => {
                if same_cell(state.cell, c) {
                    return ReportAction::Ignore;
                }
                if state.button.is_none() && !cfg.mode.motion {
                    return ReportAction::Ignore;
                }
                if !state.hint_emitted && same_button(state.button, MouseButton::Left)
                    && cfg.hint_available {
                    state.hint_emitted = true;
                    state.cell = Some(c);
                    return ReportAction::Hint;
                }
                let b = match state.button {
                    Some(b) => b,
                    None => MouseButton::NoButton,
                };
                match encode(cfg.mode, MouseEventKind::Motion, b, c.0, c.1, mods) {
                    None => ReportAction::Ignore,
                    Some(bytes) => {
                        state.cell = Some(c);
                        ReportAction::Emit(bytes)
                    },
                }
            },
        },
        PointerEvent::Wheel { notches, at } => {
            if cfg.ctrl {
                return ReportAction::Ignore;
            }
            match at {
                None => ReportAction::Ignore,
                Some(c) => {
                    if notches == 0 {
                        return ReportAction::Capture;
                    }
                    let b = if notches > 0 { MouseButton::WheelUp } else { MouseButton::WheelDown };
                    let one = match encode(cfg.mode, MouseEventKind::Press, b, c.0, c.1, mods) {
                        None => return ReportAction::Ignore,
                        Some(v) => v,
                    };
                    if one.len() == 0 {
                        return ReportAction::Ignore;
                    }
                    let n: u32 = if notches > 5 || notches < -5 {
                        5
                    } else if notches < 0 {
                        (-notches) as u32
                    } else {
                        notches as u32
                    };
                    let mut bytes: Vec<u8> = Vec::new();
                    let mut k: u32 = 0;
                    while k < n
                        invariant
                            k <= n,
                            bytes@ == repeat(one@, k as nat),
                        decreases n - k,
                    {
                        let mut i: usize = 0;
                        let ghost before = bytes@;
                        while i < one.len()
                            invariant
                                i <= one@.len(),
                                bytes@ == before + one@.take(i as int),
                            decreases one@.len() - i,
                        {
                            bytes.push(one[i]);
                            assert(one@.take(i + 1) =~= one@.take(i as int).push(one@[i as int]));
                            i = i + 1;
                        }
                        assert(one@.take(one@.len() as int) =~= one@);
                        k = k + 1;
                    }
                    assert(n == wheel_reports(notches));
                    ReportAction::Emit(bytes)
                },
            }
        },
    }
}

/// Whether `ev` is the release of the button whose press was reported: such
/// a release is reported even while Shift (the local-selection bypass) is
/// held, so the application always receives its button-up.
pub fn release_completes_tracked_press(state: &ReportState, ev: &PointerEvent) -> (r: bool)
    ensures
        r == (*ev matches PointerEvent::Released { button, .. } && reportable(button) && state.button
            == Some(button)),
{
    match ev {
        PointerEvent::Released { button, .. } => is_reportable(*button) && same_button(state.button, *button),
        _ => false,
    }
}

/// The report sequence stays balanced: a release is reported only for the
/// button whose press was reported, and reporting it clears the tracked
/// button; a reported press tracks its button.
pub proof fn law_releases_follow_reported_presses(s: ReportState, ev: PointerEvent, cfg: ReportConfig)
    ensures
        ev matches PointerEvent::Released { button, .. } ==> ((spec_report_step(s, ev, cfg).1 is Emit
            ==> s.button == Some(button) && spec_report_step(s, ev, cfg).0.button is None)
            && (s.button != Some(button) ==> spec_report_step(s, ev, cfg) == (s, ActionModel::Ignore))),
        ev matches PointerEvent::Pressed { button, .. } ==> (spec_report_step(s, ev, cfg).1 is Emit
            ==> spec_report_step(s, ev, cfg).0.button == Some(button)),
        !cfg.enabled ==> spec_report_step(s, ev, cfg) == (s, ActionModel::Ignore),
{
}

/// Moving within the cell last reported never produces a report.
pub proof fn law_no_repeats_within_a_cell(s: ReportState, c: (u16, u16), cfg: ReportConfig)
    ensures
        s.cell == Some(c) ==> spec_report_step(s, PointerEvent::Moved { at: Some(c) }, cfg).1 is Ignore,
{
}

} // verus!
