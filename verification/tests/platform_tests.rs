use mega_win_alt_tab::bridge::{
    body_within_limit, error_body, escape_json, find_header_end, json_response, read_request_head,
    request_from_head, route_request, simple_response, tabs_from_snapshot, ExtensionBridge,
    RequestError, Route, MAX_BODY_BYTES, TAB_MAX_AGE_MS,
};
use mega_win_alt_tab::folders::{
    add_favorite_folder, favorite_folder_entry, normalize_folder_path, remove_favorite_folder_path,
};
use mega_win_alt_tab::geometry::{next_monitor_window_placement, Rect, WindowPlacement};
use mega_win_alt_tab::icons::{fill_icon_rect, mega_icon_xor_bits, rgba_to_bottom_up_bgra, set_icon_pixel};
use mega_win_alt_tab::monitors::{number_monitors, parse_display_number};
use mega_win_alt_tab::sort::Order;
use mega_win_alt_tab::tray::{
    checked_menu_flags, is_tray_context_event, is_tray_icon_message, is_tray_select_event,
    menu_command_from_id, write_wide_fixed, TrayMenuCommand, MF_CHECKED, MF_STRING, NIN_SELECT,
    TRAY_EXIT_COMMAND_ID, TRAY_ICON_ID, TRAY_STARTUP_COMMAND_ID, WM_CONTEXTMENU, WM_LBUTTONDBLCLK,
    WM_LBUTTONUP, WM_RBUTTONUP,
};
use mega_win_alt_tab::updates::{compare_versions, is_release_newer, update_info_from_tag, version_parts};
use mega_win_alt_tab::{ExtensionCommand, ExtensionTabPayload, ExtensionTabSnapshot};

fn rect(left: i32, top: i32, right: i32, bottom: i32) -> Rect {
    Rect { left, top, right, bottom }
}

#[test]
fn next_monitor_placement_preserves_offset_and_clamps_to_visible_area() {
    let current = rect(0, 0, 1920, 1080);
    let next = rect(1920, 0, 3200, 720);
    let window = rect(100, 900, 900, 1300);

    assert_eq!(
        next_monitor_window_placement(window, window, current, next),
        WindowPlacement { left: 2020, top: 320, width: 800, height: 400 }
    );
}

#[test]
fn next_monitor_placement_resizes_to_fit_smaller_screen() {
    let current = rect(0, 0, 2560, 1440);
    let next = rect(2560, 0, 3840, 720);
    let original = rect(100, 100, 2100, 1300);

    assert_eq!(
        next_monitor_window_placement(original, original, current, next),
        WindowPlacement { left: 2560, top: 0, width: 1280, height: 720 }
    );
}

#[test]
fn next_monitor_placement_restores_original_size_on_larger_screen() {
    let current = rect(0, 0, 1280, 720);
    let next = rect(1280, 0, 3840, 1440);
    let original = rect(100, 100, 2100, 1300);
    let current_resized = rect(0, 0, 1280, 720);

    assert_eq!(
        next_monitor_window_placement(current_resized, original, current, next),
        WindowPlacement { left: 1280, top: 0, width: 2000, height: 1200 }
    );
}

#[test]
fn display_number_parser_uses_trailing_digits() {
    assert_eq!(parse_display_number(r"\\.\DISPLAY1"), Some(1));
    assert_eq!(parse_display_number(r"\\.\DISPLAY27"), Some(27));
    assert_eq!(parse_display_number("Display"), None);
}

#[test]
fn display_number_parser_rejects_numbers_beyond_u32() {
    assert_eq!(parse_display_number("DISPLAY99999999999"), None);
    assert_eq!(parse_display_number("DISPLAY007"), Some(7));
}

#[test]
fn monitors_keep_free_device_numbers_and_fill_gaps_in_order() {
    let found = vec![
        (10isize, Some(2u32), rect(1920, 0, 3840, 1080)),
        (11, Some(2), rect(0, 0, 1920, 1080)),
        (12, None, rect(-1920, 0, 0, 1080)),
        (13, Some(5), rect(3840, 0, 5760, 1080)),
    ];

    let monitors = number_monitors(&found);

    let summary = monitors.iter().map(|m| (m.handle, m.number)).collect::<Vec<_>>();
    assert_eq!(summary, vec![(11, 1), (10, 2), (12, 3), (13, 5)]);
}

#[test]
fn tray_icon_message_accepts_legacy_and_v4_icon_ids() {
    let tray_lparam = |event: u32, icon_id: u32| (((icon_id as usize) << 16) | (event as usize & 0xffff)) as isize;
    assert!(is_tray_icon_message(TRAY_ICON_ID as usize, WM_RBUTTONUP as isize));
    assert!(is_tray_icon_message(0, tray_lparam(NIN_SELECT, TRAY_ICON_ID)));
    assert!(!is_tray_icon_message(0, tray_lparam(NIN_SELECT, TRAY_ICON_ID + 1)));
    assert!(!is_tray_icon_message((TRAY_ICON_ID + 1) as usize, tray_lparam(NIN_SELECT, TRAY_ICON_ID + 1)));
}

#[test]
fn tray_event_classifiers_split_select_from_context_menu() {
    let tray_lparam = |event: u32, icon_id: u32| (((icon_id as usize) << 16) | (event as usize & 0xffff)) as isize;
    assert!(is_tray_select_event(tray_lparam(NIN_SELECT, TRAY_ICON_ID)));
    assert!(is_tray_select_event(WM_LBUTTONUP as isize));
    assert!(is_tray_select_event(WM_LBUTTONDBLCLK as isize));
    assert!(!is_tray_select_event(WM_RBUTTONUP as isize));

    assert!(is_tray_context_event(WM_RBUTTONUP as isize));
    assert!(is_tray_context_event(WM_CONTEXTMENU as isize));
    assert!(!is_tray_context_event(tray_lparam(NIN_SELECT, TRAY_ICON_ID)));
}

#[test]
fn menu_command_ids_map_to_actions() {
    assert_eq!(menu_command_from_id(TRAY_STARTUP_COMMAND_ID), TrayMenuCommand::ToggleStartup);
    assert_eq!(menu_command_from_id(TRAY_EXIT_COMMAND_ID), TrayMenuCommand::Exit);
    assert_eq!(menu_command_from_id(0), TrayMenuCommand::Nothing);
}

#[test]
fn startup_menu_item_can_be_checked() {
    assert_eq!(checked_menu_flags(false), MF_STRING);
    assert_eq!(checked_menu_flags(true), MF_STRING | MF_CHECKED);
}

#[test]
fn tooltip_buffer_keeps_room_for_its_terminator() {
    let mut tip = [7u16; 5];
    write_wide_fixed(&mut tip, "abcdef");
    assert_eq!(tip, [97, 98, 99, 100, 7]);
    let mut short = [0u16; 8];
    write_wide_fixed(&mut short, "hi");
    assert_eq!(short, [104, 105, 0, 0, 0, 0, 0, 0]);
}

#[test]
fn version_compare_handles_v_prefix_and_numeric_ordering() {
    assert!(is_release_newer("v1.10.0", "1.2.0"));
    assert!(is_release_newer("1.0.1", "1.0.0"));
    assert!(!is_release_newer("v1.0.0", "1.0.0"));
    assert!(!is_release_newer("0.9.9", "1.0.0"));
}

#[test]
fn version_parts_skip_separators_and_oversized_numbers() {
    assert_eq!(version_parts(" vV2.5-beta.11 "), vec![2, 5, 11]);
    assert_eq!(version_parts("1.99999999999999999999.3"), vec![1, 3]);
    assert_eq!(version_parts("release"), Vec::<u64>::new());
    assert_eq!(compare_versions("1.2", "1.2.0"), Order::Equal);
    assert_eq!(compare_versions("1.2", "1.2.1"), Order::Less);
}

#[test]
fn latest_release_json_reports_update_only_for_newer_versions() {
    assert_eq!(
        update_info_from_tag("v1.2.3", "1.2.2").map(|info| info.latest_version),
        Some("v1.2.3".to_string())
    );
    assert!(update_info_from_tag("v1.2.3", "1.2.3").is_none());
    assert_eq!(update_info_from_tag("  v2.0 ", "1.9").map(|info| info.latest_version), Some("v2.0".to_string()));
}

fn contains_bgra(bits: &[u8], color: [u8; 4]) -> bool {
    let mut index = 0;
    while index + 4 <= bits.len() {
        if bits[index..index + 4] == color {
            return true;
        }
        index += 4;
    }
    false
}

#[test]
fn mega_icon_bits_have_expected_size_and_signature_colors() {
    let bits = mega_icon_xor_bits(32);

    assert_eq!(bits.len(), 32 * 32 * 4);
    assert!(contains_bgra(&bits, [39, 30, 19, 255]));
    assert!(contains_bgra(&bits, [220, 211, 70, 255]));
    assert!(contains_bgra(&bits, [86, 206, 255, 255]));
}

#[test]
fn icon_pixels_land_bottom_up_in_bgra_order() {
    let bits = mega_icon_xor_bits(32);
    let at = |x: usize, y: usize| {
        let i = ((31 - y) * 32 + x) * 4;
        [bits[i], bits[i + 1], bits[i + 2], bits[i + 3]]
    };
    assert_eq!(at(0, 0), [39, 30, 19, 255]);
    assert_eq!(at(5, 5), [52, 42, 25, 255]);
    assert_eq!(at(8, 8), [220, 211, 70, 255]);
    assert_eq!(at(20, 25), [52, 42, 25, 255]);
    assert_eq!(at(20, 26), [86, 206, 255, 255]);
    assert_eq!(at(29, 29), [86, 206, 255, 255]);
}

#[test]
fn icon_rects_and_pixels_clip_to_the_image() {
    let mut pixels = vec![0u8; 2 * 2 * 4];
    fill_icon_rect(&mut pixels, 2, 1, 0, 9, 9, [1, 2, 3, 4]);
    assert_eq!(pixels, vec![0, 0, 0, 0, 1, 2, 3, 4, 0, 0, 0, 0, 1, 2, 3, 4]);
    set_icon_pixel(&mut pixels, 2, 2, 0, [9, 9, 9, 9]);
    assert_eq!(pixels, vec![0, 0, 0, 0, 1, 2, 3, 4, 0, 0, 0, 0, 1, 2, 3, 4]);
    set_icon_pixel(&mut pixels, 2, 0, 1, [5, 6, 7, 8]);
    let flipped = rgba_to_bottom_up_bgra(&pixels, 2);
    assert_eq!(flipped, vec![7, 6, 5, 8, 3, 2, 1, 4, 0, 0, 0, 0, 3, 2, 1, 4]);
}

#[test]
fn header_end_is_the_first_blank_line() {
    assert_eq!(find_header_end(b"GET / HTTP/1.1\r\nA: b\r\n\r\nbody\r\n\r\n"), Some(20));
    assert_eq!(find_header_end(b"GET / HTTP/1.1\r\n"), None);
    assert_eq!(find_header_end(b"\r\n\r"), None);
}

#[test]
fn request_heads_give_method_path_and_length() {
    let raw = b"POST /tabs?x=1 HTTP/1.1\r\nHost: localhost\r\ncontent-LENGTH: +5\r\n\r\nhello!";
    let head = read_request_head(raw).expect("a complete head");
    assert_eq!(head.method, "POST");
    assert_eq!(head.path, "/tabs");
    assert_eq!(head.content_length, 5);
    assert_eq!(head.body_start, raw.len() - 6);
    assert!(!head.needs_more_body(raw.len()));
    let request = request_from_head(head, raw);
    assert_eq!(request.body, b"hello".to_vec());
}

#[test]
fn request_heads_report_each_error() {
    assert_eq!(read_request_head(b"GET / HTTP/1.1\r\n").err(), Some(RequestError::Malformed));
    assert_eq!(read_request_head(b"\r\n\r\n").err(), Some(RequestError::MissingRequestLine));
    assert_eq!(read_request_head(b"   \r\nHost: x\r\n\r\n").err(), Some(RequestError::MissingMethod));
    assert_eq!(read_request_head(b"GET\r\n\r\n").err(), Some(RequestError::MissingPath));
    assert_eq!(
        read_request_head(b"POST /tabs HTTP/1.1\r\nContent-Length: 1048577\r\n\r\n").err(),
        Some(RequestError::BodyTooLarge)
    );
    assert_eq!(RequestError::BodyTooLarge.message(), "request body too large");
}

#[test]
fn request_heads_skip_unreadable_lengths() {
    let head = read_request_head(b"GET /health HTTP/1.1\r\nContent-Length: ten\r\nContent-Length: 3\r\n\r\n")
        .expect("a complete head");
    assert_eq!(head.content_length, 3);
    assert!(head.needs_more_body(head.body_start + 2));
    let plain = read_request_head(b"GET /health HTTP/1.1\r\n\r\n").expect("a complete head");
    assert_eq!(plain.content_length, 0);
}

#[test]
fn routes_follow_method_and_path() {
    assert_eq!(route_request("OPTIONS", "/anything"), Route::Preflight);
    assert_eq!(route_request("GET", "/health"), Route::Health);
    assert_eq!(route_request("GET", "/commands"), Route::Commands);
    assert_eq!(route_request("POST", "/tabs"), Route::Tabs);
    assert_eq!(route_request("GET", "/tabs"), Route::NotFound);
    assert!(simple_response(Route::Tabs).is_none());
}

#[test]
fn json_responses_carry_status_headers_and_byte_length() {
    let response = json_response(200, "{\"ok\":true}");
    assert_eq!(
        response,
        "HTTP/1.1 200 OK\r\nContent-Type: application/json; charset=utf-8\r\nAccess-Control-Allow-Origin: *\r\nAccess-Control-Allow-Methods: GET, POST, OPTIONS\r\nAccess-Control-Allow-Headers: content-type\r\nContent-Length: 11\r\nConnection: close\r\n\r\n{\"ok\":true}"
    );
    assert!(json_response(204, "").starts_with("HTTP/1.1 204 No Content\r\n"));
    assert!(json_response(404, "é").contains("Content-Length: 2\r\n"));
    assert!(json_response(500, "").starts_with("HTTP/1.1 500 OK\r\n"));
    assert_eq!(simple_response(Route::NotFound), Some(json_response(404, "{\"error\":\"not found\"}")));
}

#[test]
fn error_messages_are_escaped_for_json() {
    assert_eq!(escape_json(r#"bad "quote" \ here"#), r#"bad \"quote\" \\ here"#);
    assert_eq!(error_body("invalid tab snapshot json"), r#"{"error":"invalid tab snapshot json"}"#);
}

#[test]
fn parses_snapshot_and_fills_empty_browser() {
    let snapshot = ExtensionTabSnapshot {
        browser: "chrome".to_string(),
        tabs: vec![
            ExtensionTabPayload {
                browser: "".to_string(),
                window_id: 1,
                tab_id: 2,
                title: "Inbox".to_string(),
                active: true,
            },
            ExtensionTabPayload {
                browser: "chrome".to_string(),
                window_id: 1,
                tab_id: 3,
                title: "".to_string(),
                active: false,
            },
        ],
    };

    let tabs = tabs_from_snapshot(snapshot);
    assert_eq!(tabs.len(), 1);
    assert_eq!(tabs[0].browser, "chrome");
    assert_eq!(tabs[0].title, "Inbox");
    assert!(body_within_limit(MAX_BODY_BYTES));
    assert!(!body_within_limit(MAX_BODY_BYTES + 1));
}

#[test]
fn bridge_hands_out_commands_once_in_order() {
    let mut bridge = ExtensionBridge::new();
    bridge.queue_activate_tab("chrome", 1, 2);
    bridge.queue_activate_tab("edge", 3, 4);
    let commands = bridge.take_commands();
    assert_eq!(
        commands,
        vec![
            ExtensionCommand::ActivateTab { browser: "chrome".to_string(), window_id: 1, tab_id: 2 },
            ExtensionCommand::ActivateTab { browser: "edge".to_string(), window_id: 3, tab_id: 4 },
        ]
    );
    assert!(bridge.take_commands().is_empty());
}

#[test]
fn bridge_forgets_tabs_that_were_not_reported_recently() {
    let mut bridge = ExtensionBridge::new();
    bridge.store_tabs(
        vec![ExtensionTabPayload {
            browser: "chrome".to_string(),
            window_id: 1,
            tab_id: 2,
            title: "Inbox".to_string(),
            active: true,
        }],
        1_000,
    );
    assert_eq!(bridge.tabs(1_000 + TAB_MAX_AGE_MS).len(), 1);
    assert_eq!(bridge.tabs(1_001 + TAB_MAX_AGE_MS).len(), 0);
    assert!(bridge.tabs(1_000).is_empty());
}

#[test]
fn favorite_folder_normalizes_paths_case_and_separators() {
    assert_eq!(normalize_folder_path(r"C:/Users/Example/Downloads/"), r"c:\users\example\downloads");
    assert_eq!(
        normalize_folder_path(r"\\?\C:\Users\Example\Downloads\"),
        r"c:\users\example\downloads"
    );
    assert_eq!(
        normalize_folder_path(r"\\?\UNC\Server\Share\Reports"),
        r"\\server\share\reports"
    );
    assert_eq!(normalize_folder_path(r"\\?\C:/Users/Example/Downloads/"), r"c:\users\example\downloads");
    assert_eq!(normalize_folder_path(r"C:\"), r"c:\");
    assert_eq!(normalize_folder_path(r"\\?\UNC\Server\Share\"), r"\\server\share");
}

#[test]
fn add_and_remove_favorite_folder_paths_update_collection() {
    let mut folders = Vec::new();
    let entry = favorite_folder_entry(r"C:\Users\Example\Downloads");
    assert_eq!(entry.name, "Downloads");

    let added = add_favorite_folder(&mut folders, entry.clone());
    assert!(added.added);
    assert_eq!(folders.len(), 1);

    let again = add_favorite_folder(&mut folders, favorite_folder_entry(r"c:/users/example/downloads/"));
    assert!(!again.added);
    assert_eq!(again.entry, entry);
    assert_eq!(folders.len(), 1);

    assert!(remove_favorite_folder_path(&mut folders, r"C:\USERS\Example\Downloads"));
    assert!(folders.is_empty());
    assert!(!remove_favorite_folder_path(&mut folders, r"C:\Users\Example\Downloads"));
}
