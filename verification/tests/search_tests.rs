use mega_win_alt_tab::{
    build_app_results, build_folder_results, build_launcher_results, build_results,
    build_results_with_options, dedupe_apps, dedupe_favorite_folders, display_folder_path,
    match_score, merge_tabs, prune_stale_tabs, ActivationTarget, AppEntry, AppSource,
    BuildResultOptions, DesktopLocation, FavoriteFolderEntry, SearchResultKind, TabEntry,
    TabSource, WindowEntry,
};

const NOW: u64 = 1_000_000;

fn window(hwnd: isize, title: &str, app_name: &str, class_name: &str) -> WindowEntry {
    WindowEntry {
        hwnd,
        title: title.to_string(),
        app_name: app_name.to_string(),
        class_name: class_name.to_string(),
        screen_number: Some(1),
        desktop_location: DesktopLocation::Current,
        minimized: false,
        has_thumbnail: true,
    }
}

fn tab(
    title: &str,
    source: TabSource,
    parent_hwnd: Option<isize>,
    ids: Option<(i64, i64)>,
    now: u64,
) -> TabEntry {
    TabEntry {
        browser: "chrome".to_string(),
        parent_hwnd,
        window_title: parent_hwnd.map(|_| "Chrome".to_string()),
        title: title.to_string(),
        active: false,
        extension_window_id: ids.map(|ids| ids.0),
        extension_tab_id: ids.map(|ids| ids.1),
        source,
        last_seen: now,
    }
}

fn active_extension_tab(title: &str, ids: (i64, i64), now: u64) -> TabEntry {
    TabEntry {
        browser: "chrome".to_string(),
        parent_hwnd: None,
        window_title: None,
        title: title.to_string(),
        active: true,
        extension_window_id: Some(ids.0),
        extension_tab_id: Some(ids.1),
        source: TabSource::Extension,
        last_seen: now,
    }
}

fn app(name: &str, launch_path: &str, source: AppSource) -> AppEntry {
    AppEntry {
        name: name.to_string(),
        launch_path: launch_path.to_string(),
        launch_identity: None,
        source,
    }
}

fn app_with_identity(
    name: &str,
    launch_path: &str,
    launch_identity: &str,
    source: AppSource,
) -> AppEntry {
    AppEntry {
        name: name.to_string(),
        launch_path: launch_path.to_string(),
        launch_identity: Some(launch_identity.to_string()),
        source,
    }
}

fn folder(name: &str, path: &str) -> FavoriteFolderEntry {
    FavoriteFolderEntry {
        name: name.to_string(),
        path: path.to_string(),
        normalized_path: path.replace('/', "\\").to_lowercase(),
    }
}

#[test]
fn match_score_prefers_exact_prefix_then_contains() {
    let exact = match_score("notes", "notes").unwrap();
    let prefix = match_score("notes", "notes from standup").unwrap();
    let contains = match_score("notes", "weekly notes from standup").unwrap();
    assert!(exact > prefix);
    assert!(prefix > contains);
    assert!(match_score("zzz", "notes from standup").is_none());
}

#[test]
fn match_score_requires_contiguous_query_text() {
    assert!(match_score("alt tab", "Mega Win Alt Tab design doc").is_some());
    assert!(match_score("sign", "Signal").is_some());
    assert!(match_score("nfs", "notes from standup").is_none());
    assert!(match_score("sgn", "Signal").is_none());
}

#[test]
fn empty_query_returns_windows_only_in_current_order() {
    let windows = vec![
        window(1, "First", "app", "class"),
        window(2, "Second", "app", "class"),
    ];
    let now = NOW;
    let tabs = vec![tab("First tab", TabSource::Extension, None, Some((1, 10)), now)];

    let results = build_results("", &windows, &[], &tabs);
    assert_eq!(results.len(), 2);
    assert!(matches!(results[0].target, ActivationTarget::Window { hwnd: 1 }));
    assert!(results
        .iter()
        .all(|result| result.kind == SearchResultKind::Window));
}

#[test]
fn search_includes_matching_windows_and_tabs() {
    let windows = vec![window(1, "Project README", "notepad", "Notepad")];
    let now = NOW;
    let tabs = vec![tab(
        "Mega Win Alt Tab design doc",
        TabSource::Extension,
        None,
        Some((2, 20)),
        now,
    )];

    let results = build_results("alt tab", &windows, &[], &tabs);
    assert_eq!(results.len(), 1);
    assert_eq!(results[0].kind, SearchResultKind::Tab);
}

#[test]
fn app_results_match_contiguous_search_text() {
    let apps = vec![
        app(
            "Snipping Tool",
            "C:\\ProgramData\\Microsoft\\Windows\\Start Menu\\Programs\\Snipping Tool.lnk",
            AppSource::AllUsersStartMenu,
        ),
        app(
            "Signal",
            "C:\\Users\\Example\\AppData\\Roaming\\Microsoft\\Windows\\Start Menu\\Programs\\Signal.lnk",
            AppSource::UserStartMenu,
        ),
    ];

    let results = build_app_results("sign", &apps);
    assert_eq!(results.len(), 1);
    assert_eq!(results[0].kind, SearchResultKind::App);
    assert_eq!(results[0].title, "Signal");
    assert!(matches!(results[0].target, ActivationTarget::App { .. }));

    let non_contiguous = build_app_results("sgn", &apps);
    assert!(non_contiguous.is_empty());
}

#[test]
fn app_results_match_substrings_inside_app_names() {
    let apps = vec![app(
        "Thunderbird",
        "C:\\Program Files\\Mozilla Thunderbird\\thunderbird.exe",
        AppSource::UserAppPath,
    )];

    let results = build_app_results("thunder", &apps);

    assert_eq!(results.len(), 1);
    assert_eq!(results[0].title, "Thunderbird");
}

#[test]
fn app_dedupe_prefers_current_user_shortcut() {
    let apps = vec![
        app(
            "Signal",
            "C:\\ProgramData\\Microsoft\\Windows\\Start Menu\\Programs\\Signal.lnk",
            AppSource::AllUsersStartMenu,
        ),
        app(
            "Signal",
            "C:\\Users\\Example\\AppData\\Roaming\\Microsoft\\Windows\\Start Menu\\Programs\\Signal.lnk",
            AppSource::UserStartMenu,
        ),
    ];

    let deduped = dedupe_apps(&apps);
    assert_eq!(deduped.len(), 1);
    assert_eq!(deduped[0].source, AppSource::UserStartMenu);
    assert!(deduped[0].launch_path.contains("Roaming"));
}

#[test]
fn app_dedupe_collapses_different_names_with_same_launch_identity() {
    let apps = vec![
        app_with_identity(
            "Google Chrome",
            "C:\\ProgramData\\Microsoft\\Windows\\Start Menu\\Programs\\Google Chrome.lnk",
            "C:\\Program Files\\Google\\Chrome\\Application\\chrome.exe",
            AppSource::AllUsersStartMenu,
        ),
        app_with_identity(
            "Chrome",
            "C:\\Program Files\\Google\\Chrome\\Application\\chrome.exe",
            "c:/program files/google/chrome/application/chrome.exe",
            AppSource::MachineAppPath,
        ),
    ];

    let deduped = dedupe_apps(&apps);

    assert_eq!(deduped.len(), 1);
    assert_eq!(deduped[0].name, "Google Chrome");
    assert_eq!(deduped[0].source, AppSource::AllUsersStartMenu);
}

#[test]
fn app_mode_results_do_not_include_window_or_tab_entries() {
    let apps = vec![app(
        "Signal",
        "C:\\Users\\Example\\AppData\\Roaming\\Microsoft\\Windows\\Start Menu\\Programs\\Signal.lnk",
        AppSource::UserStartMenu,
    )];

    let results = build_app_results("", &apps);
    assert_eq!(results.len(), 1);
    assert!(results
        .iter()
        .all(|result| result.kind == SearchResultKind::App));
}

#[test]
fn favorite_folder_dedupe_collapses_normalized_paths() {
    let folders = vec![
        folder("Downloads", r"C:\Users\Example\Downloads"),
        folder("downloads duplicate", "c:/users/example/downloads"),
    ];

    let deduped = dedupe_favorite_folders(&folders);

    assert_eq!(deduped.len(), 1);
    assert_eq!(deduped[0].name, "Downloads");
}

#[test]
fn display_folder_path_strips_windows_verbatim_prefixes() {
    assert_eq!(
        display_folder_path(r"\\?\C:\Users\Example\Downloads"),
        r"C:\Users\Example\Downloads"
    );
    assert_eq!(
        display_folder_path(r"\\?\UNC\server\share\Reports"),
        r"\\server\share\Reports"
    );
    assert_eq!(
        display_folder_path(r"C:\Users\Example\Downloads"),
        r"C:\Users\Example\Downloads"
    );
}

#[test]
fn folder_results_match_name_and_path_segments() {
    let folders = vec![folder("Work Notes", r"\\?\C:\Users\Example\Documents\Projects")];

    let by_name = build_folder_results("work", &folders);
    assert_eq!(by_name.len(), 1);
    assert_eq!(by_name[0].kind, SearchResultKind::Folder);
    assert_eq!(by_name[0].subtitle, r"C:\Users\Example\Documents\Projects");

    let by_path = build_folder_results("projects", &folders);
    assert_eq!(by_path.len(), 1);
    assert_eq!(by_path[0].title, "Work Notes");
    assert!(matches!(by_path[0].target, ActivationTarget::Folder { .. }));
}

#[test]
fn folder_results_show_paths_for_same_named_folders() {
    let folders = vec![
        folder("Reports", r"C:\Users\Example\Work\Reports"),
        folder("Reports", r"D:\Archive\Reports"),
    ];

    let results = build_folder_results("reports", &folders);
    let subtitles = results
        .iter()
        .map(|result| result.subtitle.as_str())
        .collect::<Vec<_>>();

    assert_eq!(
        subtitles,
        vec![r"C:\Users\Example\Work\Reports", r"D:\Archive\Reports"]
    );
}

#[test]
fn launcher_results_include_matching_apps_and_folders() {
    let apps = vec![app(
        "Signal",
        r"C:\Users\Example\AppData\Roaming\Microsoft\Windows\Start Menu\Programs\Signal.lnk",
        AppSource::UserStartMenu,
    )];
    let folders = vec![folder("Signal Assets", r"C:\Users\Example\Signal Assets")];

    let results = build_launcher_results("signal", &apps, &folders);

    assert_eq!(results.len(), 2);
    assert!(results
        .iter()
        .any(|result| result.kind == SearchResultKind::App));
    assert!(results
        .iter()
        .any(|result| result.kind == SearchResultKind::Folder));
}

#[test]
fn all_desktop_mode_labels_window_desktop_location() {
    let mut current = window(1, "Current Project", "notepad", "Notepad");
    current.desktop_location = DesktopLocation::Current;
    let mut other = window(2, "Other Project", "code", "Chrome_WidgetWin_1");
    other.desktop_location = DesktopLocation::Other;

    let results = build_results_with_options(
        "project",
        &[current, other],
        &[],
        &[],
        BuildResultOptions {
            show_desktop_labels: true,
        },
    );

    assert_eq!(results.len(), 2);
    assert!(results
        .iter()
        .any(|result| result.subtitle.ends_with("Current desktop")));
    assert!(results
        .iter()
        .any(|result| result.subtitle.ends_with("Other desktop")));
}

#[test]
fn default_results_do_not_label_desktop_location() {
    let mut other = window(2, "Other Project", "code", "Chrome_WidgetWin_1");
    other.desktop_location = DesktopLocation::Other;

    let results = build_results("project", &[other], &[], &[]);

    assert_eq!(results.len(), 1);
    assert!(!results[0].subtitle.contains("desktop"));
}

#[test]
fn all_desktop_mode_labels_tab_parent_desktop_location() {
    let mut chrome = window(42, "Chrome", "chrome", "Chrome_WidgetWin_1");
    chrome.desktop_location = DesktopLocation::Other;
    let now = NOW;
    let tabs = vec![tab("Planning", TabSource::Accessibility, Some(42), None, now)];

    let results = build_results_with_options(
        "planning",
        &[chrome],
        &tabs,
        &[],
        BuildResultOptions {
            show_desktop_labels: true,
        },
    );

    assert_eq!(results.len(), 1);
    assert_eq!(results[0].kind, SearchResultKind::Tab);
    assert!(results[0].subtitle.ends_with("Other desktop"));
}

#[test]
fn search_prefers_tab_over_matching_chrome_window() {
    let windows = vec![window(
        42,
        "Calendar - Google Chrome",
        "chrome",
        "Chrome_WidgetWin_1",
    )];
    let now = NOW;
    let tabs = vec![tab("Calendar", TabSource::Accessibility, Some(42), None, now)];

    let results = build_results("calendar", &windows, &tabs, &[]);
    assert_eq!(results.len(), 1);
    assert_eq!(results[0].kind, SearchResultKind::Tab);
    assert!(matches!(
        results[0].target,
        ActivationTarget::Tab {
            parent_hwnd: Some(42),
            ..
        }
    ));
}

#[test]
fn active_extension_tab_can_suppress_matching_chrome_window_without_parent() {
    let windows = vec![window(
        42,
        "Inbox - Work - Google Chrome",
        "chrome",
        "Chrome_WidgetWin_1",
    )];
    let now = NOW;
    let tabs = vec![active_extension_tab("Inbox", (1, 2), now)];

    let results = build_results("inbox", &windows, &[], &tabs);
    assert_eq!(results.len(), 1);
    assert_eq!(results[0].kind, SearchResultKind::Tab);
}

#[test]
fn tab_results_inherit_parent_window_screen_number() {
    let windows = vec![window(42, "Chrome", "chrome", "Chrome_WidgetWin_1")];
    let now = NOW;
    let tabs = vec![tab(
        "Planning notes",
        TabSource::Accessibility,
        Some(42),
        None,
        now,
    )];

    let results = build_results("planning", &windows, &tabs, &[]);
    assert_eq!(results[0].screen_number, Some(1));
}

#[test]
fn merge_prefers_extension_identity_and_adds_accessibility_parent() {
    let now = NOW;
    let accessibility = vec![tab(
        "Calendar - Work",
        TabSource::Accessibility,
        Some(42),
        None,
        now,
    )];
    let extension = vec![tab(
        "Calendar - Work",
        TabSource::Extension,
        None,
        Some((7, 77)),
        now,
    )];

    let merged = merge_tabs(&accessibility, &extension);
    assert_eq!(merged.len(), 1);
    assert_eq!(merged[0].parent_hwnd, Some(42));
    assert_eq!(merged[0].extension_tab_id, Some(77));
    assert_eq!(merged[0].source, TabSource::Extension);
}

#[test]
fn stale_tabs_are_removed() {
    let now = NOW;
    let mut tabs = vec![
        tab("Fresh", TabSource::Extension, None, Some((1, 1)), now),
        tab("Old", TabSource::Extension, None, Some((1, 2)), now - 60_000),
    ];

    prune_stale_tabs(&mut tabs, now, 30_000);
    assert_eq!(tabs.len(), 1);
    assert_eq!(tabs[0].title, "Fresh");
}

#[test]
fn app_dedupe_replacement_leaves_no_duplicate_names_or_targets() {
    let apps = vec![
        app("x", "C:\\Tools\\a.exe", AppSource::MachineAppPath),
        app("y", "C:\\Tools\\b.exe", AppSource::MachineAppPath),
        app("y", "C:\\Tools\\a.exe", AppSource::UserStartMenu),
    ];

    let deduped = dedupe_apps(&apps);

    assert_eq!(deduped.len(), 1);
    assert_eq!(deduped[0].name, "y");
    assert_eq!(deduped[0].launch_path, "C:\\Tools\\a.exe");
    assert_eq!(deduped[0].source, AppSource::UserStartMenu);
}

#[test]
fn app_dedupe_keeps_first_entry_when_the_duplicate_is_not_preferred() {
    let apps = vec![
        app("x", "C:\\Tools\\a.exe", AppSource::UserStartMenu),
        app("y", "C:\\Tools\\b.exe", AppSource::MachineAppPath),
        app("y", "C:\\Tools\\a.exe", AppSource::PackagedApp),
    ];

    let deduped = dedupe_apps(&apps);

    assert_eq!(deduped.len(), 2);
    assert_eq!(deduped[0].name, "x");
    assert_eq!(deduped[1].name, "y");
    assert_eq!(deduped[1].launch_path, "C:\\Tools\\b.exe");
}

#[test]
fn deduplicating_favorite_folders_twice_changes_nothing() {
    let folders = vec![
        folder("Downloads", r"C:\Users\Example\Downloads"),
        folder("Projects", r"C:\Users\Example\Projects"),
        folder("downloads", r"C:/Users/Example/Downloads"),
    ];
    let once = dedupe_favorite_folders(&folders);
    let twice = dedupe_favorite_folders(&once);
    assert_eq!(once, twice);
    assert_eq!(once.len(), 2);
}

#[test]
fn build_results_equals_build_with_default_options() {
    let windows = vec![
        window(1, "Inbox - Mail", "mail", "MailWindow"),
        window(2, "Notes", "notepad", "Notepad"),
    ];
    let tabs = vec![tab("Mail docs", TabSource::Accessibility, Some(1), None, 0)];
    let plain = build_results("mail", &windows, &tabs, &[]);
    let with_default =
        build_results_with_options("mail", &windows, &tabs, &[], BuildResultOptions::default());
    assert_eq!(plain, with_default);
}

#[test]
fn launcher_results_hold_exactly_the_app_and_folder_results() {
    let apps = vec![app("Signal", r"C:\Apps\Signal.lnk", AppSource::UserStartMenu)];
    let folders = vec![folder("Signal Backups", r"C:\Backups\Signal")];
    let launcher = build_launcher_results("sig", &apps, &folders);
    let app_results = build_app_results("sig", &apps);
    let folder_results = build_folder_results("sig", &folders);
    assert_eq!(launcher.len(), app_results.len() + folder_results.len());
    for result in app_results.iter().chain(folder_results.iter()) {
        assert!(launcher.contains(result));
    }
}

#[test]
fn normalized_text_has_single_inner_spaces() {
    let normalized = mega_win_alt_tab::normalize_for_match("  Mega \t\u{7}WIN\u{a0}\u{3000} Alt  ");
    assert_eq!(normalized, "mega win alt");
    assert!(!normalized.contains("  "));
    assert!(!normalized.starts_with(' ') && !normalized.ends_with(' '));
}
