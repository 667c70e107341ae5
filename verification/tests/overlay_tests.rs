use mega_win_alt_tab::geometry::{
    attention_border_positions, mouse_point, point_in_rect, search_button_rects, Rect,
};
use mega_win_alt_tab::overlay::{
    apply_char, apply_key, KeyAction, OverlayKeyState, KEY_BACK, KEY_DOWN, KEY_ESCAPE, KEY_OEM_2,
    KEY_UP,
    chrome_tab_title_matches, has_startup_arg, pending_close_poll_decision, result_number_column_width,
    result_number_label, result_thumbnail_hwnd, selected_folder_removal_target,
    selected_move_target_hwnd, selection_status_text, should_highlight_repeated_peek,
    should_include_window_for_desktop, update_link_text, OverlayMode, PendingClosePollDecision,
    CLOSE_REFRESH_ATTEMPTS, HIGHLIGHT_SECOND_TAP_MS,
};
use mega_win_alt_tab::startup::{legacy_startup_prompt, LegacyStartupEntry};
use mega_win_alt_tab::{ActivationTarget, DesktopLocation, SearchResult, SearchResultKind, WindowEntry};

fn result_with_target(target: ActivationTarget) -> SearchResult {
    SearchResult {
        kind: SearchResultKind::Window,
        title: "Result".to_string(),
        subtitle: "Subtitle".to_string(),
        screen_number: None,
        rank: 0,
        target,
    }
}

fn window_entry(hwnd: isize, title: &str, app_name: &str) -> WindowEntry {
    WindowEntry {
        hwnd,
        title: title.to_string(),
        app_name: app_name.to_string(),
        class_name: "TestWindow".to_string(),
        screen_number: Some(1),
        desktop_location: DesktopLocation::Current,
        minimized: false,
        has_thumbnail: true,
    }
}

fn rect(left: i32, top: i32, right: i32, bottom: i32) -> Rect {
    Rect { left, top, right, bottom }
}

#[test]
fn result_thumbnail_handles_windows_tabs_and_apps() {
    assert_eq!(
        result_thumbnail_hwnd(&result_with_target(ActivationTarget::Window { hwnd: 42 })),
        Some(42)
    );
    assert_eq!(
        result_thumbnail_hwnd(&result_with_target(ActivationTarget::Tab {
            parent_hwnd: Some(77),
            browser: "chrome".to_string(),
            title: "Tab".to_string(),
            extension_window_id: None,
            extension_tab_id: None,
        })),
        Some(77)
    );
    assert_eq!(
        result_thumbnail_hwnd(&result_with_target(ActivationTarget::Tab {
            parent_hwnd: None,
            browser: "chrome".to_string(),
            title: "Tab".to_string(),
            extension_window_id: Some(1),
            extension_tab_id: Some(2),
        })),
        None
    );
    assert_eq!(
        result_thumbnail_hwnd(&result_with_target(ActivationTarget::App {
            launch_path: "C:\\Tools\\Signal.lnk".to_string(),
        })),
        None
    );
    assert_eq!(
        result_thumbnail_hwnd(&result_with_target(ActivationTarget::Folder {
            path: "C:\\Users\\Example\\Downloads".to_string(),
        })),
        None
    );
}

#[test]
fn selected_move_target_uses_window_or_tab_parent_handles() {
    assert_eq!(
        selected_move_target_hwnd(&result_with_target(ActivationTarget::Window { hwnd: 42 }), &[]),
        Some(42)
    );
    assert_eq!(
        selected_move_target_hwnd(
            &result_with_target(ActivationTarget::Tab {
                parent_hwnd: Some(77),
                browser: "chrome".to_string(),
                title: "Tab".to_string(),
                extension_window_id: None,
                extension_tab_id: None,
            }),
            &[]
        ),
        Some(77)
    );
}

#[test]
fn selected_move_target_matches_running_app_results_when_possible() {
    let windows = vec![window_entry(5, "Notes", "notepad"), window_entry(9, "Signal", "Signal")];
    let mut result = result_with_target(ActivationTarget::App {
        launch_path: "C:\\Users\\Example\\Signal.lnk".to_string(),
    });
    result.title = "Signal".to_string();

    assert_eq!(selected_move_target_hwnd(&result, &windows), Some(9));
}

#[test]
fn selected_move_target_has_no_window_for_non_running_app_results() {
    let windows = vec![window_entry(5, "Notes", "notepad")];
    let mut result = result_with_target(ActivationTarget::App {
        launch_path: "C:\\Users\\Example\\Signal.lnk".to_string(),
    });
    result.title = "Signal".to_string();

    assert_eq!(selected_move_target_hwnd(&result, &windows), None);
}

#[test]
fn selected_folder_removal_target_only_applies_in_app_mode() {
    let result = result_with_target(ActivationTarget::Folder {
        path: "C:\\Users\\Example\\Downloads".to_string(),
    });

    assert_eq!(
        selected_folder_removal_target(OverlayMode::Apps, Some(&result)),
        Some("C:\\Users\\Example\\Downloads".to_string())
    );
    assert_eq!(selected_folder_removal_target(OverlayMode::WindowsAndTabs, Some(&result)), None);
    assert_eq!(selected_folder_removal_target(OverlayMode::Apps, None), None);
}

#[test]
fn repeated_peek_highlights_same_target_within_short_window() {
    let first_tap: u64 = 5_000;
    let second_tap = first_tap + (HIGHLIGHT_SECOND_TAP_MS - 1);
    let late_tap = first_tap + (HIGHLIGHT_SECOND_TAP_MS + 1);

    assert!(should_highlight_repeated_peek(Some(42), Some(first_tap), Some(42), second_tap));
    assert!(!should_highlight_repeated_peek(Some(42), Some(first_tap), Some(77), second_tap));
    assert!(!should_highlight_repeated_peek(Some(42), Some(first_tap), Some(42), late_tap));
    assert!(!should_highlight_repeated_peek(None, Some(first_tap), Some(42), second_tap));
}

#[test]
fn repeated_peek_with_clock_behind_last_tap_counts_as_no_time() {
    assert!(should_highlight_repeated_peek(Some(3), Some(9_000), Some(3), 8_000));
}

#[test]
fn pending_close_poll_refreshes_when_window_is_no_longer_listable() {
    assert_eq!(
        pending_close_poll_decision(false, CLOSE_REFRESH_ATTEMPTS),
        PendingClosePollDecision::RemoveAndRefresh
    );
}

#[test]
fn pending_close_poll_keeps_visible_window_until_attempts_expire() {
    assert_eq!(pending_close_poll_decision(true, 2), PendingClosePollDecision::Keep(1));
    assert_eq!(pending_close_poll_decision(true, 0), PendingClosePollDecision::RemoveQuietly);
}

#[test]
fn attention_border_stays_outside_normal_window_when_space_allows() {
    let window = rect(100, 100, 500, 400);
    let bounds = rect(0, 0, 1000, 800);

    assert_eq!(
        attention_border_positions(window, bounds, 6),
        [
            rect(94, 94, 506, 100),
            rect(94, 400, 506, 406),
            rect(94, 100, 100, 400),
            rect(500, 100, 506, 400),
        ]
    );
}

#[test]
fn attention_border_moves_inside_maximized_window_bounds() {
    let window = rect(0, 0, 1920, 1080);

    assert_eq!(
        attention_border_positions(window, window, 6),
        [
            rect(0, 0, 1920, 6),
            rect(0, 1074, 1920, 1080),
            rect(0, 0, 6, 1080),
            rect(1914, 0, 1920, 1080),
        ]
    );
}

#[test]
fn update_link_text_names_version_and_destination() {
    assert_eq!(update_link_text("v1.2.3"), "Update available: v1.2.3 - open releases");
}

#[test]
fn selection_status_is_one_based_and_clamped() {
    assert_eq!(selection_status_text(0, 0), "0 / 0");
    assert_eq!(selection_status_text(0, 20), "1 / 20");
    assert_eq!(selection_status_text(19, 20), "20 / 20");
    assert_eq!(selection_status_text(99, 20), "20 / 20");
}

#[test]
fn result_number_labels_are_one_based() {
    assert_eq!(result_number_label(0), "1");
    assert_eq!(result_number_label(19), "20");
}

#[test]
fn result_number_column_width_expands_for_large_lists() {
    assert!(result_number_column_width(1) >= 38);
    assert!(result_number_column_width(100) > result_number_column_width(20));
}

#[test]
fn result_number_column_width_is_exact_per_digit() {
    assert_eq!(result_number_column_width(0), 38);
    assert_eq!(result_number_column_width(9), 38);
    assert_eq!(result_number_column_width(100), 60);
    assert_eq!(result_number_column_width(12345), 84);
}

#[test]
fn search_buttons_keep_help_left_of_close() {
    let search_rect = rect(28, 22, 772, 78);

    let buttons = search_button_rects(search_rect);

    assert!(buttons.help.left > search_rect.left);
    assert!(buttons.help.right < buttons.close.left);
    assert_eq!(buttons.help.top, buttons.close.top);
    assert_eq!(buttons.help.bottom, buttons.close.bottom);
    assert_eq!(buttons.close.right, search_rect.right - 18);
}

#[test]
fn startup_argument_is_detected_exactly() {
    let args = |list: &[&str]| list.iter().map(|a| a.to_string()).collect::<Vec<_>>();
    assert!(has_startup_arg(&args(&["mega-win-alt-tab.exe", "--startup"])));
    assert!(!has_startup_arg(&args(&["mega-win-alt-tab.exe"])));
    assert!(!has_startup_arg(&args(&["mega-win-alt-tab.exe", "--startup-now"])));
}

#[test]
fn legacy_startup_prompt_lists_entry_names_and_paths() {
    let entries = vec![LegacyStartupEntry {
        name: "mega-win-alt-tab-v1.0.0-windows-x64.exe".to_string(),
        command: r#""C:\Downloads\mega-win-alt-tab-v1.0.0-windows-x64.exe" --startup"#.to_string(),
    }];

    let prompt = legacy_startup_prompt(&entries);

    assert!(prompt.contains("possible older startup entries"));
    assert!(prompt.contains("Name: mega-win-alt-tab-v1.0.0-windows-x64.exe"));
    assert!(prompt.contains(r#"Path: "C:\Downloads\mega-win-alt-tab-v1.0.0-windows-x64.exe" --startup"#));
    assert!(prompt.contains("No leaves them alone"));
}

#[test]
fn chrome_tab_title_matching_handles_suffixes_and_separators() {
    assert!(chrome_tab_title_matches("LinkedIn - Google Chrome", "LinkedIn"));
    assert!(chrome_tab_title_matches("LinkedIn | Feed", "LinkedIn"));
    assert!(chrome_tab_title_matches("LinkedIn", "LinkedIn | Feed"));
    assert!(!chrome_tab_title_matches("Gmail", "LinkedIn"));
    assert!(!chrome_tab_title_matches("LinkedOut", "LinkedIn"));
}

#[test]
fn chrome_tab_title_matching_rejects_blank_request() {
    assert!(!chrome_tab_title_matches("Anything", "   "));
}

fn mouse_lparam(x: i16, y: i16) -> isize {
    let raw = (x as u16 as u32) | ((y as u16 as u32) << 16);
    raw as isize
}

#[test]
fn mouse_helpers_decode_signed_coordinates_and_hit_test_edges() {
    assert_eq!(mouse_point(mouse_lparam(-4, 12)), (-4, 12));

    let r = rect(10, 20, 30, 40);
    assert!(point_in_rect(r, 10, 20));
    assert!(point_in_rect(r, 29, 39));
    assert!(!point_in_rect(r, 30, 39));
    assert!(!point_in_rect(r, 29, 40));
}

#[test]
fn desktop_filter_keeps_current_windows_in_normal_mode() {
    assert!(should_include_window_for_desktop(false, DesktopLocation::Current, false));
    assert!(should_include_window_for_desktop(true, DesktopLocation::Current, false));
}

#[test]
fn desktop_filter_hides_other_desktop_windows_until_all_desktops_mode() {
    assert!(!should_include_window_for_desktop(false, DesktopLocation::Other, false));
    assert!(should_include_window_for_desktop(true, DesktopLocation::Other, false));
}

#[test]
fn desktop_filter_keeps_cloaked_windows_only_when_they_are_off_desktop() {
    assert!(!should_include_window_for_desktop(true, DesktopLocation::Current, true));
    assert!(!should_include_window_for_desktop(true, DesktopLocation::Unknown, true));
    assert!(should_include_window_for_desktop(true, DesktopLocation::Other, true));
}


fn key_state(query: &str, selected: usize, result_count: usize) -> OverlayKeyState {
    OverlayKeyState {
        visible: true,
        splash_visible: false,
        mode: OverlayMode::WindowsAndTabs,
        all_desktops: false,
        query: query.to_string(),
        selected,
        result_count,
    }
}

#[test]
fn backspace_drops_the_last_query_character_and_selects_the_first_result() {
    let (next, action) = apply_key(key_state("chrö", 3, 5), KEY_BACK, false);
    assert_eq!(action, KeyAction::DeleteQueryChar);
    assert_eq!(next.query, "chr");
    assert_eq!(next.selected, 0);
    assert_eq!(next.mode, OverlayMode::WindowsAndTabs);

    let (empty, _) = apply_key(key_state("", 2, 5), KEY_BACK, false);
    assert_eq!(empty.query, "");
    assert_eq!(empty.selected, 0);
}

#[test]
fn ctrl_slash_switches_mode_and_keeps_the_query() {
    let (next, action) = apply_key(key_state("sig", 2, 4), KEY_OEM_2, true);
    assert_eq!(action, KeyAction::ToggleAppMode);
    assert_eq!(next.mode, OverlayMode::Apps);
    assert_eq!(next.query, "sig");
    assert_eq!(next.selected, 0);

    let (back, _) = apply_key(next, KEY_OEM_2, true);
    assert_eq!(back.mode, OverlayMode::WindowsAndTabs);
}

#[test]
fn arrow_keys_move_the_selection_within_the_results() {
    let (down, action) = apply_key(key_state("", 3, 4), KEY_DOWN, false);
    assert_eq!(action, KeyAction::SelectNext);
    assert_eq!(down.selected, 3);
    let (up, _) = apply_key(key_state("", 0, 4), KEY_UP, false);
    assert_eq!(up.selected, 0);
    let (up, _) = apply_key(key_state("", 2, 4), KEY_UP, false);
    assert_eq!(up.selected, 1);
}

#[test]
fn escape_hides_and_resets_the_overlay() {
    let mut state = key_state("abc", 2, 4);
    state.mode = OverlayMode::Apps;
    state.all_desktops = true;
    let (next, action) = apply_key(state, KEY_ESCAPE, false);
    assert_eq!(action, KeyAction::Hide);
    assert!(!next.visible);
    assert_eq!(next.query, "");
    assert_eq!(next.mode, OverlayMode::WindowsAndTabs);
    assert!(!next.all_desktops);
}

#[test]
fn typed_characters_extend_the_query_unless_ctrl_is_down() {
    let (next, changed) = apply_char(key_state("ab", 3, 4), 'c', false);
    assert!(changed);
    assert_eq!(next.query, "abc");
    assert_eq!(next.selected, 0);

    let (same, changed) = apply_char(key_state("ab", 3, 4), 'c', true);
    assert!(!changed);
    assert_eq!(same.query, "ab");
    assert_eq!(same.selected, 3);

    let (same, changed) = apply_char(key_state("ab", 3, 4), '\u{8}', false);
    assert!(!changed);
    assert_eq!(same.query, "ab");
}

#[test]
fn attention_border_strips_have_the_thickness_and_stay_on_the_monitor() {
    let bounds = Rect { left: 0, top: 0, right: 1920, bottom: 1080 };
    let window = Rect { left: -20, top: 5, right: 900, bottom: 1100 };
    let strips = attention_border_positions(window, bounds, 6);
    assert_eq!(strips[0].bottom - strips[0].top, 6);
    assert_eq!(strips[1].bottom - strips[1].top, 6);
    assert_eq!(strips[2].right - strips[2].left, 6);
    assert_eq!(strips[3].right - strips[3].left, 6);
    for strip in strips {
        assert!(strip.left >= bounds.left && strip.right <= bounds.right);
        assert!(strip.top >= bounds.top && strip.bottom <= bounds.bottom);
    }
}
