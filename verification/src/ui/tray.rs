//! The tray icon's decisions: what a mouse message or a menu command does,
//! and the UTF-16 text the Windows calls take.

use vstd::prelude::*;

verus! {

/// `WM_APP + 1`: the message the tray icon's mouse events arrive with.
pub const WM_TRAY: u32 = 0x8001;

/// `WM_DESTROY`.
pub const WM_DESTROY: u32 = 0x0002;

/// `WM_LBUTTONUP`.
pub const WM_LBUTTONUP: u32 = 0x0202;

/// `WM_RBUTTONUP`.
pub const WM_RBUTTONUP: u32 = 0x0205;

/// The menu command that opens the settings.
pub const ID_SETTINGS: usize = 1;

/// The menu command that switches starting with Windows on or off.
pub const ID_STARTUP: usize = 2;

/// What the tray window does with a message.
pub enum TrayAction {
    /// Open the settings screen in a new process.
    OpenSettings,
    /// Show the context menu.
    ShowMenu,
    /// Switch starting with Windows on or off.
    ToggleStartup,
    /// Remove the icon and end the message loop.
    RemoveIconAndQuit,
    /// Add the icon again (the taskbar was recreated).
    AddIconAgain,
    /// A tray message that needs nothing.
    Handled,
    /// Leave the message to the default window procedure.
    PassOn,
}

/// What the tray window does with message `msg`; `lparam_low` is the low
/// 32 bits of its `lParam`, and `taskbar_created` the id of the
/// `TaskbarCreated` message.
pub open spec fn tray_message_spec(msg: u32, lparam_low: u32, taskbar_created: u32) -> TrayAction {
    if msg == WM_TRAY {
        let ev = lparam_low % 0x10000;
        if ev == WM_LBUTTONUP {
            TrayAction::OpenSettings
        } else if ev == WM_RBUTTONUP {
            TrayAction::ShowMenu
        } else {
            TrayAction::Handled
        }
    } else if msg == WM_DESTROY {
        TrayAction::RemoveIconAndQuit
    } else if msg == taskbar_created {
        TrayAction::AddIconAgain
    } else {
        TrayAction::PassOn
    }
}

/// What the tray window does with a message.
pub fn tray_message(msg: u32, lparam_low: u32, taskbar_created: u32) -> (r: TrayAction)
    ensures
        r == tray_message_spec(msg, lparam_low, taskbar_created),
{
    if msg == WM_TRAY {
        let ev = lparam_low & 0xFFFF;
        assert(lparam_low & 0xFFFF == lparam_low % 0x10000) by (bit_vector);
        if ev == WM_LBUTTONUP {
            TrayAction::OpenSettings
        } else if ev == WM_RBUTTONUP {
            TrayAction::ShowMenu
        } else {
            TrayAction::Handled
        }
    } else if msg == WM_DESTROY {
        TrayAction::RemoveIconAndQuit
    } else if msg == taskbar_created {
        TrayAction::AddIconAgain
    } else {
        TrayAction::PassOn
    }
}

/// What a command chosen in the context menu does.
pub fn menu_command(cmd: usize) -> (r: TrayAction)
    ensures
        cmd == ID_SETTINGS ==> r == TrayAction::OpenSettings,
        cmd == ID_STARTUP ==> r == TrayAction::ToggleStartup,
        cmd != ID_SETTINGS && cmd != ID_STARTUP ==> r == TrayAction::Handled,
{
    if cmd == ID_SETTINGS {
        TrayAction::OpenSettings
    } else if cmd == ID_STARTUP {
        TrayAction::ToggleStartup
    } else {
        TrayAction::Handled
    }
}

/// Switching starting with Windows.
pub enum StartupChange {
    Register,
    Unregister,
}

/// Switching starting with Windows turns it off when it is on, and on otherwise.
pub fn toggle_startup(registered: bool) -> (r: StartupChange)
    ensures
        registered ==> r == StartupChange::Unregister,
        !registered ==> r == StartupChange::Register,
{
    if registered {
        StartupChange::Unregister
    } else {
        StartupChange::Register
    }
}

/// The UTF-16 code units of a character, as `str::encode_utf16` gives them.
pub open spec fn utf16_of(c: char) -> Seq<u16> {
    let u = c as u32;
    if u < 0x10000 {
        seq![u as u16]
    } else {
        let v = u - 0x10000;
        seq![(0xD800 + v / 1024) as u16, (0xDC00 + v % 1024) as u16]
    }
}

/// The UTF-16 code units of a text.
pub open spec fn utf16(s: Seq<char>) -> Seq<u16>
    decreases s.len(),
{
    if s.len() == 0 {
        Seq::empty()
    } else {
        utf16(s.drop_last()) + utf16_of(s.last())
    }
}

/// A text as Windows wants it: UTF-16 ended by a zero unit.
pub fn to_wide(s: &str) -> (r: Vec<u16>)
    ensures
        r@ == utf16(s@).push(0u16),
{
    let v = crate::text::chars_of(s);
    let mut r: Vec<u16> = Vec::new();
    let mut i: usize = 0;
    assert(v@.take(0) =~= Seq::<char>::empty());
    while i < v.len()
        invariant
            i <= v.len(),
            v@ == s@,
            r@ == utf16(v@.take(i as int)),
        decreases v.len() - i,
    {
        let u = v[i] as u32;
        let ghost before = r@;
        if u < 0x10000 {
            r.push(u as u16);
        } else {
            proof { vstd::utf8::char_is_scalar(v@[i as int]); }
            let w = u - 0x10000;
            r.push((0xD800 + w / 1024) as u16);
            r.push((0xDC00 + w % 1024) as u16);
        }
        proof {
            assert(v@.take(i + 1).drop_last() =~= v@.take(i as int));
            assert(v@.take(i + 1).last() == v@[i as int]);
            assert(r@ =~= before + utf16_of(v@[i as int]));
        }
        i += 1;
    }
    assert(v@.take(v.len() as int) =~= v@);
    r.push(0);
    r
}

} // verus!
