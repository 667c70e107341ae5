//! The notification-area icon: which window messages concern it, which of its
//! events select and which open the menu, the menu's commands and flags, and
//! the fixed tooltip buffer.
use vstd::prelude::*;

use crate::text::{encode_utf16, utf16_encode};

verus! {

/// The id of the app's notification-area icon.
pub const TRAY_ICON_ID: u32 = 1;

/// The menu command id of "Run at startup".
pub const TRAY_STARTUP_COMMAND_ID: usize = 1000;

/// The menu command id of "Exit".
pub const TRAY_EXIT_COMMAND_ID: usize = 1001;

/// `WM_CONTEXTMENU`.
pub const WM_CONTEXTMENU: u32 = 0x007b;

/// `WM_LBUTTONUP`.
pub const WM_LBUTTONUP: u32 = 0x0202;

/// `WM_LBUTTONDBLCLK`.
pub const WM_LBUTTONDBLCLK: u32 = 0x0203;

/// `WM_RBUTTONUP`.
pub const WM_RBUTTONUP: u32 = 0x0205;

/// `NIN_SELECT` (`WM_USER`).
pub const NIN_SELECT: u32 = 0x0400;

/// `MF_STRING`.
pub const MF_STRING: u32 = 0x0000;

/// `MF_CHECKED`.
pub const MF_CHECKED: u32 = 0x0008;

/// What the tray menu asked for.
#[derive(Clone, Copy, Debug, PartialEq, Eq, Structural)]
pub enum TrayMenuCommand {
    Nothing,
    ToggleStartup,
    Exit,
}

/// The command of a menu item id; any other id (0 when the menu was
/// dismissed) asks for nothing.
pub fn menu_command_from_id(command_id: usize) -> (r: TrayMenuCommand)
    ensures
        r == if command_id == TRAY_STARTUP_COMMAND_ID {
            TrayMenuCommand::ToggleStartup
        } else if command_id == TRAY_EXIT_COMMAND_ID {
            TrayMenuCommand::Exit
        } else {
            TrayMenuCommand::Nothing
        },
{
    if command_id == TRAY_STARTUP_COMMAND_ID {
        TrayMenuCommand::ToggleStartup
    } else if command_id == TRAY_EXIT_COMMAND_ID {
        TrayMenuCommand::Exit
    } else {
        TrayMenuCommand::Nothing
    }
}

/// The flags of the "Run at startup" item: a string item, checked when the
/// app runs at startup.
pub fn checked_menu_flags(checked: bool) -> (r: u32)
    ensures
        r == if checked {
            MF_STRING | MF_CHECKED
        } else {
            MF_STRING
        },
{
    if checked {
        MF_STRING | MF_CHECKED
    } else {
        MF_STRING
    }
}

/// The low 16 bits of a message parameter.
pub open spec fn low_word(v: int) -> int {
    v % 0x10000
}

/// Whether a tray callback message is about this app's icon: the icon id is
/// in the low word of `wparam` (legacy callbacks) or in the high word of the
/// low 32 bits of `lparam` (version 4 callbacks).
pub fn is_tray_icon_message(wparam: usize, lparam: isize) -> (r: bool)
    ensures
        r == (low_word(wparam as int) == TRAY_ICON_ID || low_word((lparam as usize as int) / 0x10000)
            == TRAY_ICON_ID),
{
    let legacy_icon_id = wparam % 0x10000;
    let raw = lparam as usize;
    let v4_icon_id = (raw / 0x10000) % 0x10000;
    legacy_icon_id == 1 || v4_icon_id == 1
}

/// The event of a tray callback: the low word of `lparam`.
pub open spec fn tray_event(lparam: isize) -> int {
    low_word(lparam as usize as int)
}

/// A right-button release or context-menu request on the icon.
pub fn is_tray_context_event(lparam: isize) -> (r: bool)
    ensures
        r == (tray_event(lparam) == WM_RBUTTONUP || tray_event(lparam) == WM_CONTEXTMENU),
{
    let e = (lparam as usize) % 0x10000;
    e == 0x0205 || e == 0x007b
}

/// A selection of the icon: keyboard select, left-button release or double
/// click.
pub fn is_tray_select_event(lparam: isize) -> (r: bool)
    ensures
        r == (tray_event(lparam) == NIN_SELECT || tray_event(lparam) == WM_LBUTTONUP
            || tray_event(lparam) == WM_LBUTTONDBLCLK),
{
    let e = (lparam as usize) % 0x10000;
    e == 0x0400 || e == 0x0202 || e == 0x0203
}

/// Writes the UTF-16 units of `value` into a fixed buffer, at most all but its
/// last slot, from the start; the other slots keep what they held.
pub fn write_wide_fixed(target: &mut [u16], value: &str)
    requires
        old(target)@.len() >= 1,
    ensures
        final(target)@.len() == old(target)@.len(),
        forall|i: int|
            0 <= i < final(target)@.len() ==> #[trigger] final(target)@[i] == if i < old(target)@.len()
                - 1 && i < utf16_encode(value@).len() {
                utf16_encode(value@)[i]
            } else {
                old(target)@[i]
            },
{
    let units = encode_utf16(value);
    let n = target.len();
    let mut i: usize = 0;
    while i < n - 1 && i < units.len()
        invariant
            n == old(target)@.len(),
            n >= 1,
            target@.len() == n,
            i <= n - 1,
            i <= units@.len(),
            units@ == utf16_encode(value@),
            forall|j: int|
                0 <= j < n ==> #[trigger] target@[j] == if j < i {
                    units@[j]
                } else {
                    old(target)@[j]
                },
        decreases n - i,
    {
        target[i] = units[i];
        i = i + 1;
    }
}

} // verus!
