//! Process-wide terminal settings and the OSC 52 clipboard policy.
//!
//! The application owns one [`GlobalSettings`] value (it is shared by every
//! terminal it creates) and one [`Osc52Override`] per terminal.
use vstd::prelude::*;

verus! {

/// Settings applied to every terminal created afterwards.
#[derive(Debug, Clone, Copy)]
pub struct GlobalSettings {
    /// Lines of history for new terminals.
    pub scrollback: usize,
    /// Applications may set the system clipboard (OSC 52 store).
    pub osc52_write: bool,
    /// Applications may query the system clipboard (OSC 52 load).
    pub osc52_read: bool,
}

impl Default for GlobalSettings {
    /// 10,000 lines of scrollback; clipboard write on, read off.
    fn default() -> (r: Self)
        ensures
            r.scrollback == 10_000,
            r.osc52_write,
            !r.osc52_read,
    {
        GlobalSettings { scrollback: 10_000, osc52_write: true, osc52_read: false }
    }
}

/// Set the scrollback used by terminals created after this call.
pub fn set_default_scrollback(settings: &mut GlobalSettings, lines: usize)
    ensures
        *final(settings) == (GlobalSettings { scrollback: lines, ..*old(settings) }),
{
    settings.scrollback = lines;
}

/// The scrollback new terminals get.
pub fn default_scrollback(settings: &GlobalSettings) -> (r: usize)
    ensures
        r == settings.scrollback,
{
    settings.scrollback
}

/// The scrollback a terminal is created with: an explicit budget when the
/// caller gives one, otherwise the default in force at creation. The budget
/// is copied into the terminal, so a later change of the default leaves
/// terminals created before it alone.
pub open spec fn spec_new_scrollback(settings: GlobalSettings, explicit: Option<usize>) -> usize {
    match explicit {
        Some(n) => n,
        None => settings.scrollback,
    }
}

pub fn new_terminal_scrollback(settings: &GlobalSettings, explicit: Option<usize>) -> (r: usize)
    ensures
        r == spec_new_scrollback(*settings, explicit),
{
    match explicit {
        Some(n) => n,
        None => settings.scrollback,
    }
}

/// After the default scrollback is set to `lines`, every terminal created
/// without an explicit budget gets `lines`; one created before the change
/// keeps the budget it was created with (its own copy), and the clipboard
/// policy is untouched.
pub proof fn law_new_terminals_take_the_default_in_force(settings: GlobalSettings, lines: usize)
    ensures
        ({
            let before = spec_new_scrollback(settings, None);
            let after = GlobalSettings { scrollback: lines, ..settings };
            &&& spec_new_scrollback(after, None) == lines
            &&& before == settings.scrollback
            &&& after.osc52_write == settings.osc52_write && after.osc52_read == settings.osc52_read
        }),
{
}

/// Set the OSC 52 clipboard access policy: `write` lets applications set the
/// system clipboard, `read` lets them query it.
pub fn set_clipboard_access(settings: &mut GlobalSettings, write: bool, read: bool)
    ensures
        final(settings).osc52_write == write,
        final(settings).osc52_read == read,
        final(settings).scrollback == old(settings).scrollback,
{
    settings.osc52_write = write;
    settings.osc52_read = read;
}

/// Per-terminal OSC 52 override, each direction encoded as `-1` (inherit the
/// global policy), `0` (forced off) or `1` (forced on).
#[derive(Debug, Clone, Copy)]
pub struct Osc52Override {
    pub write: i8,
    pub read: i8,
}

pub open spec fn spec_encode_override(o: Option<bool>) -> i8 {
    match o {
        None => -1i8,
        Some(false) => 0i8,
        Some(true) => 1i8,
    }
}

/// Effective write policy: the override when it forces a value, else the
/// global setting.
pub open spec fn spec_write_allowed(o: Osc52Override, g: GlobalSettings) -> bool {
    if o.write == 0 {
        false
    } else if o.write == 1 {
        true
    } else {
        g.osc52_write
    }
}

/// Effective read policy: a terminal may only tighten read, never grant it,
/// so a forced-off override blocks and anything else follows the global.
pub open spec fn spec_read_allowed(o: Osc52Override, g: GlobalSettings) -> bool {
    if o.read == 0 {
        false
    } else {
        g.osc52_read
    }
}

fn encode_override(o: Option<bool>) -> (r: i8)
    ensures
        r == spec_encode_override(o),
{
    match o {
        None => -1,
        Some(false) => 0,
        Some(true) => 1,
    }
}

impl Osc52Override {
    /// Both directions inherit the global policy.
    pub fn new() -> (r: Self)
        ensures
            r.write == -1,
            r.read == -1,
    {
        Osc52Override { write: -1, read: -1 }
    }

    /// Set the overrides: `None` inherits the global policy for that
    /// direction, `Some(b)` forces it.
    pub fn set_osc52_override(&mut self, write: Option<bool>, read: Option<bool>)
        ensures
            final(self).write == spec_encode_override(write),
            final(self).read == spec_encode_override(read),
    {
        self.write = encode_override(write);
        self.read = encode_override(read);
    }

    pub fn osc52_write_allowed(&self, global: &GlobalSettings) -> (r: bool)
        ensures
            r == spec_write_allowed(*self, *global),
    {
        if self.write == 0 {
            false
        } else if self.write == 1 {
            true
        } else {
            global.osc52_write
        }
    }

    pub fn osc52_read_allowed(&self, global: &GlobalSettings) -> (r: bool)
        ensures
            r == spec_read_allowed(*self, *global),
    {
        if self.read == 0 {
            false
        } else {
            global.osc52_read
        }
    }
}

/// A forced write override beats the global policy both ways, and an
/// inheriting one follows it.
pub proof fn law_write_override_beats_global(write: Option<bool>, g: GlobalSettings)
    ensures
        ({
            let o = Osc52Override { write: spec_encode_override(write), read: -1i8 };
            spec_write_allowed(o, g) == match write {
                Some(b) => b,
                None => g.osc52_write,
            }
        }),
{
}

/// No per-terminal override can grant clipboard read that the global policy
/// denies; forcing it off always denies.
pub proof fn law_read_override_never_grants(read: Option<bool>, o: Osc52Override, g: GlobalSettings)
    ensures
        spec_read_allowed(o, g) ==> g.osc52_read,
        read == Some(false) ==> !spec_read_allowed(
            Osc52Override { write: o.write, read: spec_encode_override(read) },
            g,
        ),
        read is None ==> spec_read_allowed(
            Osc52Override { write: o.write, read: spec_encode_override(read) },
            g,
        ) == g.osc52_read,
{
}

} // verus!
