//! Decisions of the switcher overlay: what a key press does, which window a
//! result acts on, how selection and status text follow the result list, how
//! a requested Chrome tab title is recognised, and when a pending close is
//! given up.
use vstd::prelude::*;

use crate::entries::{ActivationTarget, DesktopLocation, SearchResult, SearchResultKind, WindowEntry};
use crate::search::{TargetView, ResultView};
use crate::text::{
    append_chars, append_str, chars_eq, chars_of, decimal, decimal_chars, encode_utf16,
    ends_with, eq_str, normalize_chars, normalize_for_match_spec, normalize_window_match_spec,
    normalize_window_match_text, starts_with, string_from_chars,
    sub_chars, trim_chars, trim_seq, utf16_encode,
};

verus! {

/// Whether the overlay lists windows and tabs or apps and folders.
#[derive(Clone, Copy, Debug, PartialEq, Eq, Structural)]
pub enum OverlayMode {
    WindowsAndTabs,
    Apps,
}

// ---------------------------------------------------------------------------
// Keys
// ---------------------------------------------------------------------------

/// Virtual-key codes of the keys the overlay handles.
pub const KEY_BACK: u32 = 0x08;
pub const KEY_TAB: u32 = 0x09;
pub const KEY_RETURN: u32 = 0x0d;
pub const KEY_ESCAPE: u32 = 0x1b;
pub const KEY_SPACE: u32 = 0x20;
pub const KEY_LEFT: u32 = 0x25;
pub const KEY_UP: u32 = 0x26;
pub const KEY_RIGHT: u32 = 0x27;
pub const KEY_DOWN: u32 = 0x28;
pub const KEY_D: u32 = 0x44;
pub const KEY_F: u32 = 0x46;
pub const KEY_S: u32 = 0x53;
pub const KEY_W: u32 = 0x57;
/// `VK_OEM_2`, the `/?` key.
pub const KEY_OEM_2: u32 = 0xbf;

/// The `/?` key switches between window and app mode.
pub fn is_app_mode_toggle_key(key: u32) -> (r: bool)
    ensures
        r == (key == KEY_OEM_2),
{
    key == KEY_OEM_2
}

/// What a key press asks of the overlay.
#[derive(Clone, Copy, Debug, PartialEq, Eq, Structural)]
pub enum KeyAction {
    Ignore,
    Hide,
    Show,
    DeleteQueryChar,
    ToggleMaximize,
    MinimizeWindow,
    CloseWindow,
    ToggleAppMode,
    ToggleAllDesktops,
    MoveToNextMonitor,
    MoveToPreviousMonitor,
    SelectPrevious,
    SelectNext,
    Peek,
    Activate,
}

/// The action of a key press: nothing while hidden; on the splash screen
/// Escape hides and Enter or Space shows the switcher; otherwise the keys of
/// the README's table, Ctrl combinations first.
pub open spec fn key_action_spec(
    key: u32,
    visible: bool,
    splash_visible: bool,
    ctrl_down: bool,
    mode: OverlayMode,
) -> KeyAction {
    if !visible {
        KeyAction::Ignore
    } else if splash_visible {
        if key == KEY_ESCAPE {
            KeyAction::Hide
        } else if key == KEY_RETURN || key == KEY_SPACE {
            KeyAction::Show
        } else {
            KeyAction::Ignore
        }
    } else if key == KEY_ESCAPE {
        KeyAction::Hide
    } else if key == KEY_BACK {
        KeyAction::DeleteQueryChar
    } else if ctrl_down && key == KEY_F {
        KeyAction::ToggleMaximize
    } else if ctrl_down && key == KEY_S {
        KeyAction::MinimizeWindow
    } else if ctrl_down && key == KEY_W {
        KeyAction::CloseWindow
    } else if ctrl_down && key == KEY_OEM_2 {
        KeyAction::ToggleAppMode
    } else if ctrl_down && mode == OverlayMode::WindowsAndTabs && key == KEY_D {
        KeyAction::ToggleAllDesktops
    } else if ctrl_down && key == KEY_RIGHT {
        KeyAction::MoveToNextMonitor
    } else if ctrl_down && key == KEY_LEFT {
        KeyAction::MoveToPreviousMonitor
    } else if key == KEY_UP {
        KeyAction::SelectPrevious
    } else if key == KEY_DOWN || key == KEY_TAB {
        KeyAction::SelectNext
    } else if mode == OverlayMode::WindowsAndTabs && (key == KEY_LEFT || key == KEY_RIGHT) {
        KeyAction::Peek
    } else if key == KEY_RETURN {
        KeyAction::Activate
    } else {
        KeyAction::Ignore
    }
}

pub fn key_action(
    key: u32,
    visible: bool,
    splash_visible: bool,
    ctrl_down: bool,
    mode: OverlayMode,
) -> (r: KeyAction)
    ensures
        r == key_action_spec(key, visible, splash_visible, ctrl_down, mode),
{
    if !visible {
        return KeyAction::Ignore;
    }
    if splash_visible {
        return if key == KEY_ESCAPE {
            KeyAction::Hide
        } else if key == KEY_RETURN || key == KEY_SPACE {
            KeyAction::Show
        } else {
            KeyAction::Ignore
        };
    }
    if key == KEY_ESCAPE {
        KeyAction::Hide
    } else if key == KEY_BACK {
        KeyAction::DeleteQueryChar
    } else if ctrl_down && key == KEY_F {
        KeyAction::ToggleMaximize
    } else if ctrl_down && key == KEY_S {
        KeyAction::MinimizeWindow
    } else if ctrl_down && key == KEY_W {
        KeyAction::CloseWindow
    } else if ctrl_down && is_app_mode_toggle_key(key) {
        KeyAction::ToggleAppMode
    } else if ctrl_down && mode == OverlayMode::WindowsAndTabs && key == KEY_D {
        KeyAction::ToggleAllDesktops
    } else if ctrl_down && key == KEY_RIGHT {
        KeyAction::MoveToNextMonitor
    } else if ctrl_down && key == KEY_LEFT {
        KeyAction::MoveToPreviousMonitor
    } else if key == KEY_UP {
        KeyAction::SelectPrevious
    } else if key == KEY_DOWN || key == KEY_TAB {
        KeyAction::SelectNext
    } else if mode == OverlayMode::WindowsAndTabs && (key == KEY_LEFT || key == KEY_RIGHT) {
        KeyAction::Peek
    } else if key == KEY_RETURN {
        KeyAction::Activate
    } else {
        KeyAction::Ignore
    }
}

/// Typed characters extend the query unless they are control characters
/// (below a space, or DEL).
pub fn accepts_query_char(ch: char) -> (r: bool)
    ensures
        r == (ch >= ' ' && ch != '\u{7f}'),
{
    ch >= ' ' && ch != '\u{7f}'
}

// ---------------------------------------------------------------------------
// Selection
// ---------------------------------------------------------------------------

/// The selection after the result list changed: kept where it still points
/// at a result, else the last result, or 0 for an empty list.
pub fn clamp_selection(selected: usize, len: usize) -> (r: usize)
    ensures
        len == 0 ==> r == 0,
        len > 0 ==> r == (if selected < len {
            selected
        } else {
            (len - 1) as usize
        }),
{
    if len == 0 {
        0
    } else if selected >= len {
        len - 1
    } else {
        selected
    }
}

/// Up moves the selection one result back, stopping at the first.
pub fn select_previous(selected: usize, len: usize) -> (r: usize)
    ensures
        len == 0 ==> r == selected,
        len > 0 ==> r == (if selected > 0 {
            (selected - 1) as usize
        } else {
            0
        }),
{
    if len == 0 {
        selected
    } else if selected > 0 {
        selected - 1
    } else {
        0
    }
}

/// Down and Tab move the selection one result on, stopping at the last.
pub fn select_next(selected: usize, len: usize) -> (r: usize)
    requires
        selected < usize::MAX,
    ensures
        len == 0 ==> r == selected,
        len > 0 ==> r == (if selected + 1 < len {
            (selected + 1) as usize
        } else {
            (len - 1) as usize
        }),
{
    if len == 0 {
        selected
    } else if selected + 1 < len {
        selected + 1
    } else {
        len - 1
    }
}

// ---------------------------------------------------------------------------
// Key and character steps
// ---------------------------------------------------------------------------

/// What the overlay's key handling reads and changes: whether it is shown,
/// the splash screen, the mode, the all-desktops switch, the query, the
/// selection, and how many results are listed.
#[derive(Debug)]
pub struct OverlayKeyState {
    pub visible: bool,
    pub splash_visible: bool,
    pub mode: OverlayMode,
    pub all_desktops: bool,
    pub query: String,
    pub selected: usize,
    pub result_count: usize,
}

/// The other mode.
pub open spec fn toggled_mode(m: OverlayMode) -> OverlayMode {
    match m {
        OverlayMode::WindowsAndTabs => OverlayMode::Apps,
        OverlayMode::Apps => OverlayMode::WindowsAndTabs,
    }
}

/// `r` is `s` with the given mode, switch, query and selection.
pub open spec fn key_state_with(
    r: OverlayKeyState,
    s: OverlayKeyState,
    mode: OverlayMode,
    all_desktops: bool,
    query: Seq<char>,
    selected: int,
) -> bool {
    &&& r.visible == s.visible
    &&& r.splash_visible == s.splash_visible
    &&& r.mode == mode
    &&& r.all_desktops == all_desktops
    &&& r.query@ == query
    &&& r.selected == selected
    &&& r.result_count == s.result_count
}

/// `r` is the state of a freshly shown (or hidden) overlay: window mode, this
/// desktop only, an empty query and the first result selected.
pub open spec fn key_state_reset(r: OverlayKeyState, s: OverlayKeyState, visible: bool) -> bool {
    &&& r.visible == visible
    &&& !r.splash_visible
    &&& r.mode == OverlayMode::WindowsAndTabs
    &&& !r.all_desktops
    &&& r.query@.len() == 0
    &&& r.selected == 0
    &&& r.result_count == s.result_count
}

/// One key press: its action (as `key_action` decides it) and the state it
/// leaves. Hiding, showing and activating reset the state; Backspace drops the
/// query's last character; Ctrl+/ switches the mode and Ctrl+D the
/// all-desktops switch, keeping the query; each of these selects the first
/// result. Up and Down (or Tab) move the selection within the results. Every
/// other action acts on the selected window and leaves the state as it was.
/// The caller rebuilds the results where the query, mode or switch changed.
pub fn apply_key(state: OverlayKeyState, key: u32, ctrl_down: bool) -> (r: (
    OverlayKeyState,
    KeyAction,
))
    ensures
        r.1 == key_action_spec(key, state.visible, state.splash_visible, ctrl_down, state.mode),
        match r.1 {
            KeyAction::Hide | KeyAction::Activate => key_state_reset(r.0, state, false),
            KeyAction::Show => key_state_reset(r.0, state, true),
            KeyAction::DeleteQueryChar => key_state_with(
                r.0,
                state,
                state.mode,
                state.all_desktops,
                if state.query@.len() > 0 {
                    state.query@.drop_last()
                } else {
                    state.query@
                },
                0,
            ),
            KeyAction::ToggleAppMode => key_state_with(
                r.0,
                state,
                toggled_mode(state.mode),
                state.all_desktops,
                state.query@,
                0,
            ),
            KeyAction::ToggleAllDesktops => key_state_with(
                r.0,
                state,
                state.mode,
                !state.all_desktops,
                state.query@,
                0,
            ),
            KeyAction::SelectPrevious => key_state_with(
                r.0,
                state,
                state.mode,
                state.all_desktops,
                state.query@,
                if state.result_count > 0 {
                    if state.selected > 0 {
                        state.selected - 1
                    } else {
                        0
                    }
                } else {
                    state.selected as int
                },
            ),
            KeyAction::SelectNext => key_state_with(
                r.0,
                state,
                state.mode,
                state.all_desktops,
                state.query@,
                if state.result_count > 0 && state.selected < usize::MAX {
                    if state.selected + 1 < state.result_count {
                        state.selected + 1
                    } else {
                        state.result_count - 1
                    }
                } else {
                    state.selected as int
                },
            ),
            _ => key_state_with(
                r.0,
                state,
                state.mode,
                state.all_desktops,
                state.query@,
                state.selected as int,
            ),
        },
{
    let action = key_action(key, state.visible, state.splash_visible, ctrl_down, state.mode);
    let OverlayKeyState {
        visible,
        splash_visible,
        mode,
        all_desktops,
        query,
        selected,
        result_count,
    } = state;
    let q = chars_of(query.as_str());
    match action {
        KeyAction::Hide | KeyAction::Activate | KeyAction::Show => {
            let empty: Vec<char> = Vec::new();
            let next = OverlayKeyState {
                visible: action == KeyAction::Show,
                splash_visible: false,
                mode: OverlayMode::WindowsAndTabs,
                all_desktops: false,
                query: string_from_chars(empty.as_slice()),
                selected: 0,
                result_count,
            };
            (next, action)
        },
        KeyAction::DeleteQueryChar => {
            let shorter = if q.len() > 0 {
                let t = sub_chars(q.as_slice(), 0, q.len() - 1);
                assert(t@ =~= q@.drop_last());
                string_from_chars(t.as_slice())
            } else {
                string_from_chars(q.as_slice())
            };
            let next = OverlayKeyState {
                visible,
                splash_visible,
                mode,
                all_desktops,
                query: shorter,
                selected: 0,
                result_count,
            };
            (next, action)
        },
        KeyAction::ToggleAppMode => {
            let other = match mode {
                OverlayMode::WindowsAndTabs => OverlayMode::Apps,
                OverlayMode::Apps => OverlayMode::WindowsAndTabs,
            };
            let next = OverlayKeyState {
                visible,
                splash_visible,
                mode: other,
                all_desktops,
                query,
                selected: 0,
                result_count,
            };
            (next, action)
        },
        KeyAction::ToggleAllDesktops => {
            let next = OverlayKeyState {
                visible,
                splash_visible,
                mode,
                all_desktops: !all_desktops,
                query,
                selected: 0,
                result_count,
            };
            (next, action)
        },
        KeyAction::SelectPrevious => {
            let moved = if result_count > 0 {
                select_previous(selected, result_count)
            } else {
                selected
            };
            let next = OverlayKeyState {
                visible,
                splash_visible,
                mode,
                all_desktops,
                query,
                selected: moved,
                result_count,
            };
            (next, action)
        },
        KeyAction::SelectNext => {
            let moved = if result_count > 0 && selected < usize::MAX {
                select_next(selected, result_count)
            } else {
                selected
            };
            let next = OverlayKeyState {
                visible,
                splash_visible,
                mode,
                all_desktops,
                query,
                selected: moved,
                result_count,
            };
            (next, action)
        },
        _ => {
            let next = OverlayKeyState {
                visible,
                splash_visible,
                mode,
                all_desktops,
                query,
                selected,
                result_count,
            };
            (next, action)
        },
    }
}

/// One typed character: while the overlay is shown past its splash and Ctrl
/// is up, a character that `accepts_query_char` takes is appended to the
/// query and the first result is selected (the flag is then `true`, and the
/// caller rebuilds the results); otherwise nothing changes.
pub fn apply_char(state: OverlayKeyState, ch: char, ctrl_down: bool) -> (r: (OverlayKeyState, bool))
    ensures
        r.1 == (state.visible && !state.splash_visible && !ctrl_down && ch >= ' ' && ch != '\u{7f}'),
        r.1 ==> key_state_with(
            r.0,
            state,
            state.mode,
            state.all_desktops,
            state.query@.push(ch),
            0,
        ),
        !r.1 ==> key_state_with(
            r.0,
            state,
            state.mode,
            state.all_desktops,
            state.query@,
            state.selected as int,
        ),
{
    if !state.visible || state.splash_visible || ctrl_down || !accepts_query_char(ch) {
        return (state, false);
    }
    let OverlayKeyState {
        visible,
        splash_visible,
        mode,
        all_desktops,
        query,
        selected: _,
        result_count,
    } = state;
    let mut q = chars_of(query.as_str());
    q.push(ch);
    let next = OverlayKeyState {
        visible,
        splash_visible,
        mode,
        all_desktops,
        query: string_from_chars(q.as_slice()),
        selected: 0,
        result_count,
    };
    (next, true)
}

/// The first visible row, so that the selected row is the last one shown
/// once the selection passes the visible rows.
pub fn visible_result_start(selected: usize, visible_rows: usize) -> (r: usize)
    ensures
        visible_rows == 0 ==> r == 0,
        visible_rows > 0 ==> ({
            let next = if selected < usize::MAX {
                selected + 1
            } else {
                selected as int
            };
            r == (if next >= visible_rows {
                next - visible_rows
            } else {
                0
            })
        }),
{
    if visible_rows == 0 {
        0
    } else {
        let next = if selected < usize::MAX {
            selected + 1
        } else {
            usize::MAX
        };
        if next >= visible_rows {
            next - visible_rows
        } else {
            0
        }
    }
}

/// "selected / total", one-based, with the selection held within the list;
/// "0 / 0" for an empty list.
pub open spec fn selection_status_spec(selected: nat, total: nat) -> Seq<char> {
    if total == 0 {
        "0 / 0"@
    } else {
        let shown = if selected < total {
            selected + 1
        } else {
            total
        };
        decimal(shown as nat) + " / "@ + decimal(total)
    }
}

pub fn selection_status_text(selected: usize, total: usize) -> (r: String)
    ensures
        r@ == selection_status_spec(selected as nat, total as nat),
{
    if total == 0 {
        let v = chars_of("0 / 0");
        return string_from_chars(v.as_slice());
    }
    let shown: u64 = if selected < total {
        (selected as u64) + 1
    } else {
        total as u64
    };
    let mut v = decimal_chars(shown as u128);
    append_str(&mut v, " / ");
    let t = decimal_chars(total as u128);
    append_chars(&mut v, t.as_slice());
    string_from_chars(v.as_slice())
}

/// The one-based number shown beside a result row.
pub fn result_number_label(index: usize) -> (r: String)
    requires
        index < usize::MAX,
    ensures
        r@ == decimal((index + 1) as nat),
{
    let v = decimal_chars((index as u128) + 1);
    string_from_chars(v.as_slice())
}

/// The width of the number column: 12 pixels per digit of the result count
/// plus 24, at least 38.
pub fn result_number_column_width(total: usize) -> (r: i32)
    ensures
        r == (if 12 * decimal((if total > 1 {
            total
        } else {
            1
        }) as nat).len() + 24 > 38 {
            12 * decimal((if total > 1 {
                total
            } else {
                1
            }) as nat).len() + 24
        } else {
            38
        }),
{
    let n: u64 = if total > 1 {
        total as u64
    } else {
        1
    };
    let digits = decimal_chars(n as u128);
    proof {
        lemma_decimal_len_bound(n as nat);
    }
    let w = (digits.len() as i32) * 12 + 24;
    if w > 38 {
        w
    } else {
        38
    }
}

proof fn lemma_decimal_len_bound(n: nat)
    requires
        n <= u64::MAX,
    ensures
        decimal(n).len() <= 20,
{
    reveal_with_fuel(pow10, 21);
    assert(pow10(20) == 100000000000000000000nat);
    lemma_decimal_len_below(n, 20);
}

/// Below 10 to the power `k`, a numeral has at most `k` digits.
proof fn lemma_decimal_len_below(n: nat, k: nat)
    requires
        k >= 1,
        n < pow10(k),
    ensures
        decimal(n).len() <= k,
    decreases n,
{
    if n >= 10 {
        assert(k >= 2) by {
            if k == 1 {
                assert(pow10(1) == 10) by {
                    reveal_with_fuel(pow10, 2);
                }
            }
        }
        assert(n / 10 < pow10((k - 1) as nat));
        lemma_decimal_len_below(n / 10, (k - 1) as nat);
    }
}

pub open spec fn pow10(k: nat) -> nat
    decreases k,
{
    if k == 0 {
        1
    } else {
        10 * pow10((k - 1) as nat)
    }
}

/// "Update available: <version> - open releases".
pub fn update_link_text(latest_version: &str) -> (r: String)
    ensures
        r@ == "Update available: "@ + latest_version@ + " - open releases"@,
{
    let mut v = chars_of("Update available: ");
    append_str(&mut v, latest_version);
    append_str(&mut v, " - open releases");
    string_from_chars(v.as_slice())
}

/// The text of the search box: a prompt while the query is empty, otherwise
/// the query after a label naming what is searched.
pub open spec fn search_prompt_spec(mode: OverlayMode, all_desktops: bool, query: Seq<char>) -> Seq<
    char,
> {
    match mode {
        OverlayMode::WindowsAndTabs => if !all_desktops {
            if query.len() == 0 {
                "Type to search windows and Chrome tabs"@
            } else {
                "Search: "@ + query
            }
        } else {
            if query.len() == 0 {
                "Type to search all desktops"@
            } else {
                "All desktops: "@ + query
            }
        },
        OverlayMode::Apps => if query.len() == 0 {
            "Type to search installed apps and favorite folders"@
        } else {
            "Apps: "@ + query
        },
    }
}

pub fn search_prompt_text(mode: OverlayMode, all_desktops: bool, query: &str) -> (r: String)
    ensures
        r@ == search_prompt_spec(mode, all_desktops, query@),
{
    let q = chars_of(query);
    let empty = q.len() == 0;
    let (prompt, label) = match mode {
        OverlayMode::WindowsAndTabs => if !all_desktops {
            ("Type to search windows and Chrome tabs", "Search: ")
        } else {
            ("Type to search all desktops", "All desktops: ")
        },
        OverlayMode::Apps => ("Type to search installed apps and favorite folders", "Apps: "),
    };
    if empty {
        return string_from_chars(chars_of(prompt).as_slice());
    }
    let mut v = chars_of(label);
    append_chars(&mut v, q.as_slice());
    string_from_chars(v.as_slice())
}

/// The label a result row shows before its subtitle.
pub open spec fn kind_label_spec(kind: SearchResultKind) -> Seq<char> {
    match kind {
        SearchResultKind::Window => "Window"@,
        SearchResultKind::Tab => "Chrome tab"@,
        SearchResultKind::App => "Application"@,
        SearchResultKind::Folder => "Favorite folder"@,
    }
}

/// The second line of a result row: "<kind> - <subtitle>".
pub fn result_detail_text(kind: SearchResultKind, subtitle: &str) -> (r: String)
    ensures
        r@ == kind_label_spec(kind) + " - "@ + subtitle@,
{
    let label = match kind {
        SearchResultKind::Window => "Window",
        SearchResultKind::Tab => "Chrome tab",
        SearchResultKind::App => "Application",
        SearchResultKind::Folder => "Favorite folder",
    };
    let mut v = chars_of(label);
    append_str(&mut v, " - ");
    append_str(&mut v, subtitle);
    string_from_chars(v.as_slice())
}

/// The message shown when no result matches.
pub open spec fn empty_message_spec(mode: OverlayMode, all_desktops: bool, scanning: bool) -> Seq<
    char,
> {
    match mode {
        OverlayMode::WindowsAndTabs => if all_desktops {
            "No matching windows or Chrome tabs on any desktop"@
        } else {
            "No matching windows or Chrome tabs"@
        },
        OverlayMode::Apps => if scanning {
            "Scanning installed apps and favorite folders..."@
        } else {
            "No matching installed apps or favorite folders"@
        },
    }
}

pub fn empty_message(mode: OverlayMode, all_desktops: bool, scanning: bool) -> (r: &'static str)
    ensures
        r@ == empty_message_spec(mode, all_desktops, scanning),
{
    match mode {
        OverlayMode::WindowsAndTabs => if all_desktops {
            "No matching windows or Chrome tabs on any desktop"
        } else {
            "No matching windows or Chrome tabs"
        },
        OverlayMode::Apps => if scanning {
            "Scanning installed apps and favorite folders..."
        } else {
            "No matching installed apps or favorite folders"
        },
    }
}

// ---------------------------------------------------------------------------
// Targets of the selected result
// ---------------------------------------------------------------------------

/// The window whose thumbnail a result shows: the window itself, or a tab's
/// parent window.
pub open spec fn thumbnail_hwnd_spec(t: TargetView) -> Option<isize> {
    match t {
        TargetView::Window { hwnd } => Some(hwnd),
        TargetView::Tab { parent_hwnd, .. } => parent_hwnd,
        _ => None,
    }
}

pub fn result_thumbnail_hwnd(result: &SearchResult) -> (r: Option<isize>)
    ensures
        r == thumbnail_hwnd_spec(result.target@),
{
    match &result.target {
        ActivationTarget::Window { hwnd } => Some(*hwnd),
        ActivationTarget::Tab { parent_hwnd, .. } => *parent_hwnd,
        _ => None,
    }
}

/// Whether an app's name names a window: after normalisation it equals the
/// window's app name or title, or begins or ends the title as a whole word.
pub open spec fn app_title_matches_window_spec(app_title: Seq<char>, w: WindowEntry) -> bool {
    let a = normalize_window_match_spec(app_title);
    let n = normalize_window_match_spec(w.app_name@);
    let t = normalize_window_match_spec(w.title@);
    a.len() > 0 && (n == a || t == a || (a + seq![' ']).is_prefix_of(t) || (seq![' '] + a).is_suffix_of(t))
}

pub fn app_title_matches_window(app_title: &str, w: &WindowEntry) -> (r: bool)
    ensures
        r == app_title_matches_window_spec(app_title@, *w),
{
    let a = normalize_window_match_text(app_title);
    if a.len() == 0 {
        return false;
    }
    let n = normalize_window_match_text(w.app_name.as_str());
    let t = normalize_window_match_text(w.title.as_str());
    if chars_eq(n.as_slice(), a.as_slice()) || chars_eq(t.as_slice(), a.as_slice()) {
        return true;
    }
    let mut with_space = a.clone();
    with_space.push(' ');
    assert(with_space@ =~= a@ + seq![' ']);
    let mut space_first: Vec<char> = vec![' '];
    append_chars(&mut space_first, a.as_slice());
    assert(space_first@ =~= seq![' '] + a@);
    starts_with(t.as_slice(), with_space.as_slice()) || ends_with(
        t.as_slice(),
        space_first.as_slice(),
    )
}

/// The first window that an app's name names.
pub open spec fn running_window_spec(app_title: Seq<char>, ws: Seq<WindowEntry>) -> Option<isize>
    decreases ws.len(),
{
    if ws.len() == 0 {
        None
    } else if app_title_matches_window_spec(app_title, ws[0]) {
        Some(ws[0].hwnd)
    } else {
        running_window_spec(app_title, ws.drop_first())
    }
}

pub fn running_window_for_app(app_title: &str, windows: &[WindowEntry]) -> (r: Option<isize>)
    ensures
        r == running_window_spec(app_title@, windows@),
{
    let mut i: usize = 0;
    assert(windows@.skip(0) =~= windows@);
    while i < windows.len()
        invariant
            i <= windows@.len(),
            running_window_spec(app_title@, windows@) == running_window_spec(
                app_title@,
                windows@.skip(i as int),
            ),
        decreases windows.len() - i,
    {
        if app_title_matches_window(app_title, &windows[i]) {
            return Some(windows[i].hwnd);
        }
        assert(windows@.skip(i as int).drop_first() =~= windows@.skip(i + 1));
        i = i + 1;
    }
    None
}

/// The window that maximize, minimize, close, peek and move act on: a
/// window result's window, a tab's parent, or for an app the first window it
/// names.
pub open spec fn move_target_spec(r: ResultView, ws: Seq<WindowEntry>) -> Option<isize> {
    match r.target {
        TargetView::Window { hwnd } => Some(hwnd),
        TargetView::Tab { parent_hwnd, .. } => parent_hwnd,
        TargetView::App { .. } => running_window_spec(r.title, ws),
        TargetView::Folder { .. } => None,
    }
}

pub fn selected_move_target_hwnd(result: &SearchResult, windows: &[WindowEntry]) -> (r: Option<
    isize,
>)
    ensures
        r == move_target_spec(result@, windows@),
{
    match &result.target {
        ActivationTarget::Window { hwnd } => Some(*hwnd),
        ActivationTarget::Tab { parent_hwnd, .. } => *parent_hwnd,
        ActivationTarget::App { .. } => running_window_for_app(result.title.as_str(), windows),
        ActivationTarget::Folder { .. } => None,
    }
}

/// The path of the selected folder, which app mode can remove from the
/// favorites; none in window mode or for any other result.
pub open spec fn folder_removal_spec(mode: OverlayMode, result: Option<&SearchResult>) -> Option<
    Seq<char>,
> {
    if mode != OverlayMode::Apps {
        None
    } else {
        match result {
            Some(r) => match r.target@ {
                TargetView::Folder { path } => Some(path),
                _ => None,
            },
            None => None,
        }
    }
}

/// In app mode a selected folder can be removed from the favorites.
pub fn selected_folder_removal_target(mode: OverlayMode, result: Option<&SearchResult>) -> (r:
    Option<String>)
    ensures
        match r {
            Some(p) => folder_removal_spec(mode, result) == Some(p@),
            None => folder_removal_spec(mode, result) is None,
        },
{
    if mode != OverlayMode::Apps {
        return None;
    }
    match result {
        Some(res) => match &res.target {
            ActivationTarget::Folder { path } => Some(path.clone()),
            _ => None,
        },
        None => None,
    }
}

/// A second peek at the same window within this many milliseconds highlights
/// it.
pub const HIGHLIGHT_SECOND_TAP_MS: u64 = 1600;

/// Whether a peek repeats the last one on the same target soon enough to
/// highlight it; times are milliseconds on the app's monotonic clock, and the
/// elapsed time saturates at zero.
pub fn should_highlight_repeated_peek(
    last_target: Option<isize>,
    last_at: Option<u64>,
    target: Option<isize>,
    now: u64,
) -> (r: bool)
    ensures
        r == (last_target is Some && last_at is Some && target is Some && last_target == target
            && (if now >= last_at.unwrap() {
            now - last_at.unwrap()
        } else {
            0
        }) <= HIGHLIGHT_SECOND_TAP_MS),
{
    match (last_target, last_at, target) {
        (Some(lt), Some(la), Some(t)) => lt == t && now.saturating_sub(la) <= HIGHLIGHT_SECOND_TAP_MS,
        _ => false,
    }
}

// ---------------------------------------------------------------------------
// Pending close
// ---------------------------------------------------------------------------

/// What to do on a poll of a window that was asked to close.
#[derive(Clone, Copy, Debug, PartialEq, Eq, Structural)]
pub enum PendingClosePollDecision {
    Keep(u8),
    RemoveAndRefresh,
    RemoveQuietly,
}

/// Polls of this many attempts are made before a close is given up.
pub const CLOSE_REFRESH_ATTEMPTS: u8 = 20;

/// A window that is gone is dropped and the list refreshed; one still there
/// is kept with one attempt fewer, until none are left.
pub fn pending_close_poll_decision(window_still_listable: bool, attempts_remaining: u8) -> (r:
    PendingClosePollDecision)
    ensures
        r == (if !window_still_listable {
            PendingClosePollDecision::RemoveAndRefresh
        } else if attempts_remaining == 0 {
            PendingClosePollDecision::RemoveQuietly
        } else {
            PendingClosePollDecision::Keep((attempts_remaining - 1) as u8)
        }),
{
    if !window_still_listable {
        return PendingClosePollDecision::RemoveAndRefresh;
    }
    if attempts_remaining == 0 {
        return PendingClosePollDecision::RemoveQuietly;
    }
    PendingClosePollDecision::Keep(attempts_remaining - 1)
}

// ---------------------------------------------------------------------------
// Chrome tab titles
// ---------------------------------------------------------------------------

/// `rest`, what follows a matched title, ends the title or starts with a
/// separator: " - ", " | ", ": ", " – " or " — ".
pub open spec fn title_prefix_boundary_spec(rest: Seq<char>) -> bool {
    ||| rest.len() == 0
    ||| " - "@.is_prefix_of(rest)
    ||| " | "@.is_prefix_of(rest)
    ||| ": "@.is_prefix_of(rest)
    ||| " – "@.is_prefix_of(rest)
    ||| " — "@.is_prefix_of(rest)
}

pub fn title_prefix_boundary(rest: &[char]) -> (r: bool)
    ensures
        r == title_prefix_boundary_spec(rest@),
{
    rest.len() == 0 || crate::text::starts_with_str(rest, " - ") || crate::text::starts_with_str(
        rest,
        " | ",
    ) || crate::text::starts_with_str(rest, ": ") || crate::text::starts_with_str(rest, " – ")
        || crate::text::starts_with_str(rest, " — ")
}

/// `value` is `prefix`, or `prefix` followed by a separator.
pub open spec fn titles_match_spec(value: Seq<char>, prefix: Seq<char>) -> bool {
    value == prefix || (prefix.is_prefix_of(value) && title_prefix_boundary_spec(
        value.skip(prefix.len() as int),
    ))
}

pub fn titles_match(value: &[char], prefix: &[char]) -> (r: bool)
    ensures
        r == titles_match_spec(value@, prefix@),
{
    if chars_eq(value, prefix) {
        return true;
    }
    if starts_with(value, prefix) {
        let rest = sub_chars(value, prefix.len(), value.len());
        assert(rest@ =~= value@.skip(prefix@.len() as int));
        title_prefix_boundary(rest.as_slice())
    } else {
        false
    }
}

/// A tab title in comparable form: normalised, without a trailing
/// " - google chrome" or " - chrome", trimmed.
pub open spec fn chrome_tab_title_spec(title: Seq<char>) -> Seq<char> {
    crate::search::strip_first_suffix(
        normalize_for_match_spec(title),
        " - google chrome"@,
        " - chrome"@,
    )
}

pub fn normalize_chrome_tab_title(title: &str) -> (r: Vec<char>)
    ensures
        r@ == chrome_tab_title_spec(title@),
{
    let n = crate::text::normalize_str(title);
    crate::search::strip_browser_suffix(n.as_slice(), " - google chrome", " - chrome")
}

/// Whether an accessible tab title and a requested title name the same tab:
/// either, in comparable form, equals the other or continues it after a
/// separator; an empty requested title names none.
pub open spec fn chrome_tab_title_matches_spec(accessible: Seq<char>, requested: Seq<char>) -> bool {
    let a = chrome_tab_title_spec(accessible);
    let q = chrome_tab_title_spec(requested);
    q.len() > 0 && (titles_match_spec(a, q) || titles_match_spec(q, a))
}

pub fn chrome_tab_title_matches(accessible_title: &str, requested_title: &str) -> (r: bool)
    ensures
        r == chrome_tab_title_matches_spec(accessible_title@, requested_title@),
{
    let a = normalize_chrome_tab_title(accessible_title);
    let q = normalize_chrome_tab_title(requested_title);
    q.len() > 0 && (titles_match(a.as_slice(), q.as_slice()) || titles_match(
        q.as_slice(),
        a.as_slice(),
    ))
}

// ---------------------------------------------------------------------------
// Command line and wide strings
// ---------------------------------------------------------------------------

/// Whether one of the arguments is exactly `--startup`.
pub fn has_startup_arg(args: &[String]) -> (r: bool)
    ensures
        r == exists|i: int| 0 <= i < args@.len() && args@[i]@ == "--startup"@,
{
    let mut i: usize = 0;
    while i < args.len()
        invariant
            i <= args@.len(),
            forall|j: int| 0 <= j < i ==> args@[j]@ != "--startup"@,
        decreases args.len() - i,
    {
        let a = chars_of(args[i].as_str());
        if eq_str(a.as_slice(), "--startup") {
            return true;
        }
        i = i + 1;
    }
    false
}

/// The UTF-16 units of `value`, for Win32 text calls.
pub fn to_wide(value: &str) -> (r: Vec<u16>)
    ensures
        r@ == utf16_encode(value@),
{
    encode_utf16(value)
}

/// The UTF-16 units of `value` followed by a terminating zero.
pub fn to_wide_null(value: &str) -> (r: Vec<u16>)
    ensures
        r@ == utf16_encode(value@).push(0),
{
    let mut r = encode_utf16(value);
    r.push(0);
    r
}

// ---------------------------------------------------------------------------
// Virtual desktops
// ---------------------------------------------------------------------------

/// Whether a window is listed: windows on another virtual desktop only in
/// all-desktops mode, and cloaked windows only when they are cloaked because
/// they sit on another desktop that is being listed.
pub fn should_include_window_for_desktop(
    include_all_desktops: bool,
    desktop_location: DesktopLocation,
    cloaked: bool,
) -> (r: bool)
    ensures
        r == if !include_all_desktops && desktop_location == DesktopLocation::Other {
            false
        } else {
            !cloaked || (include_all_desktops && desktop_location == DesktopLocation::Other)
        },
{
    let other = match desktop_location {
        DesktopLocation::Other => true,
        _ => false,
    };
    if !include_all_desktops && other {
        return false;
    }
    !cloaked || (include_all_desktops && other)
}

} // verus!
