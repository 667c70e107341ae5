use mega_win_alt_tab::apps::{
    app_name_from_app_path_key, app_user_model_id_from_launch_path, app_user_model_launch_path,
    is_absolute_executable_launch_target, is_executable_launch_target, is_start_app_launch_id,
    is_start_menu_app_shortcut_type, launch_plan, launch_working_directory, pretty_app_name,
    shortcut_app_entry, shortcut_app_launch_identity, start_app_launch_path,
    start_apps_from_entries, utf16z_to_string, LaunchPlan,
};
use mega_win_alt_tab::startup::{
    command_exe_name, is_legacy_startup_entry, matches_generated_startup_convention,
    registry_bytes_to_string, registry_string_bytes, startup_command_for_exe, LegacyStartupEntry, RUN_VALUE_NAME,
};
use mega_win_alt_tab::AppSource;

fn le_bytes(text: &str) -> Vec<u8> {
    text.encode_utf16().flat_map(u16::to_le_bytes).collect::<Vec<_>>()
}

#[test]
fn startup_command_quotes_executable_and_adds_startup_flag() {
    assert_eq!(
        startup_command_for_exe(r"C:\Tools\Mega Win Alt Tab\mega-win-alt-tab.exe"),
        r#""C:\Tools\Mega Win Alt Tab\mega-win-alt-tab.exe" --startup"#
    );
}

#[test]
fn startup_registry_string_decoder_trims_null_terminator() {
    let bytes = le_bytes("abc\0");

    assert_eq!(registry_bytes_to_string(&bytes), Some("abc".to_string()));
}

#[test]
fn registry_string_decoder_rejects_odd_byte_count() {
    assert_eq!(registry_bytes_to_string(b"a"), None);
}

#[test]
fn registry_string_decoder_rejects_unpaired_surrogates() {
    assert_eq!(registry_bytes_to_string(&[0x00, 0xd8]), None);
}

#[test]
fn registry_string_decoder_keeps_inner_zero_units() {
    assert_eq!(registry_bytes_to_string(&le_bytes("a\0b\0\0")), Some("a\0b".to_string()));
}

#[test]
fn generated_startup_detection_matches_release_asset_conventions() {
    assert!(matches_generated_startup_convention(
        "Some old release",
        r#""C:\Downloads\mega-win-alt-tab-v1.2.3-windows-x64.exe" --startup"#
    ));
    assert!(matches_generated_startup_convention(
        "mega-win-alt-tab-v1.2.3-windows-x64.exe",
        r#""C:\Other\anything.exe" --startup"#
    ));
    assert!(matches_generated_startup_convention(
        "Mega Win Alt Tab v1.2.3",
        r#""C:\Other\anything.exe" --startup"#
    ));
}

#[test]
fn generated_startup_detection_ignores_unversioned_current_name() {
    assert!(!matches_generated_startup_convention(
        "Mega Win Alt Tab",
        r#""C:\Tools\mega-win-alt-tab.exe" --startup"#
    ));
    assert!(!matches_generated_startup_convention("Other App", r#""C:\Tools\other.exe" --startup"#));
}

#[test]
fn legacy_startup_entry_ignores_current_registry_value_name() {
    let entry = LegacyStartupEntry {
        name: RUN_VALUE_NAME.to_string(),
        command: r#""C:\Downloads\mega-win-alt-tab-v1.0.0-windows-x64.exe" --startup"#.to_string(),
    };

    assert!(!is_legacy_startup_entry(&entry, None));
}

#[test]
fn legacy_startup_entry_ignores_current_startup_command() {
    let command = r#""C:\Downloads\mega-win-alt-tab-v1.0.0-windows-x64.exe" --startup"#;
    let entry = LegacyStartupEntry {
        name: "mega-win-alt-tab-v1.0.0-windows-x64.exe".to_string(),
        command: command.to_string(),
    };

    assert!(!is_legacy_startup_entry(&entry, Some(command)));
}

#[test]
fn legacy_startup_entry_reports_older_release_entries() {
    let entry = LegacyStartupEntry {
        name: "mega-win-alt-tab-v1.0.0-windows-x64.exe".to_string(),
        command: r#""C:\Downloads\mega-win-alt-tab-v1.0.0-windows-x64.exe" --startup"#.to_string(),
    };

    assert!(is_legacy_startup_entry(&entry, Some(r#""C:\Tools\mega-win-alt-tab.exe" --startup"#)));
}

#[test]
fn command_exe_name_handles_quoted_and_unquoted_commands() {
    assert_eq!(
        command_exe_name(r#""C:\Downloads\mega-win-alt-tab-v1.0.0-windows-x64.exe" --startup"#),
        Some("mega-win-alt-tab-v1.0.0-windows-x64.exe".to_string())
    );
    assert_eq!(
        command_exe_name(r"C:\Tools\mega-win-alt-tab-v1.0.0.exe --startup"),
        Some("mega-win-alt-tab-v1.0.0.exe".to_string())
    );
}

#[test]
fn command_exe_name_rejects_unclosed_quote_and_blank() {
    assert_eq!(command_exe_name(r#""C:\Downloads\app.exe --startup"#), None);
    assert_eq!(command_exe_name("   "), None);
}

#[test]
fn shortcut_type_filter_accepts_app_shortcut_file_types() {
    assert!(is_start_menu_app_shortcut_type("Signal.lnk"));
    assert!(is_start_menu_app_shortcut_type("ClickOnce.APPREF-MS"));
    assert!(!is_start_menu_app_shortcut_type("Website.URL"));
    assert!(!is_start_menu_app_shortcut_type("Signal.exe"));
    assert!(!is_start_menu_app_shortcut_type("notes.txt"));
    assert!(!is_start_menu_app_shortcut_type("Signal"));
}

#[test]
fn shortcut_type_filter_reads_the_last_component_only() {
    assert!(is_start_menu_app_shortcut_type(r"C:\Start Menu\Programs\Signal.lnk"));
    assert!(!is_start_menu_app_shortcut_type(r"C:\Links.lnk\notes"));
    assert!(!is_start_menu_app_shortcut_type(".lnk"));
}

#[test]
fn executable_target_filter_rejects_help_and_document_targets() {
    assert!(is_executable_launch_target(r"C:\Program Files\Signal\Signal.exe"));
    assert!(is_executable_launch_target(r"C:\Tools\launcher.cmd"));
    assert!(is_executable_launch_target(r"shell:AppsFolder\Example.App!App"));
    assert!(!is_executable_launch_target(r"C:\Program Files\7-Zip\7-zip.chm"));
    assert!(!is_executable_launch_target(r"C:\Program Files\App\readme.txt"));
    assert!(!is_executable_launch_target(r"C:\Program Files\App\manual.pdf"));
    assert!(!is_executable_launch_target(" "));
}

#[test]
fn shortcut_identity_depends_on_kind_and_target() {
    assert_eq!(shortcut_app_launch_identity(r"C:\Menu\Tool.appref-ms", None), Some(None));
    assert_eq!(
        shortcut_app_launch_identity(r"C:\Menu\Signal.lnk", Some(r"C:\Apps\Signal.exe".to_string())),
        Some(Some(r"C:\Apps\Signal.exe".to_string()))
    );
    assert_eq!(
        shortcut_app_launch_identity(r"C:\Menu\Manual.lnk", Some(r"C:\Apps\manual.pdf".to_string())),
        None
    );
    assert_eq!(shortcut_app_launch_identity(r"C:\Menu\Signal.lnk", None), None);
    assert_eq!(shortcut_app_launch_identity(r"C:\Menu\Site.url", None), None);
}

#[test]
fn shortcut_entries_are_named_by_file_stem() {
    let entry = shortcut_app_entry(r"C:\Menu\Nested App.appref-ms", AppSource::UserStartMenu, None)
        .expect("appref-ms files are apps");
    assert_eq!(entry.name, "Nested App");
    assert_eq!(entry.launch_path, r"C:\Menu\Nested App.appref-ms");
    assert_eq!(entry.launch_identity, None);
    assert_eq!(entry.source, AppSource::UserStartMenu);
    assert!(shortcut_app_entry(r"C:\Menu\notes.txt", AppSource::UserStartMenu, None).is_none());
}

#[test]
fn app_path_key_names_become_searchable_app_names() {
    assert_eq!(app_name_from_app_path_key("thunderbird.exe"), "Thunderbird");
    assert_eq!(app_name_from_app_path_key("some-tool.exe"), "Some Tool");
}

#[test]
fn pretty_app_names_capitalise_each_word() {
    assert_eq!(pretty_app_name("my__SUPER-tool"), "My Super Tool");
    assert_eq!(pretty_app_name("   "), "");
    assert_eq!(app_name_from_app_path_key("---.exe"), "---.exe");
}

#[test]
fn apps_registry_string_decoder_trims_null_terminator() {
    let bytes = le_bytes("C:\\Tools\\thunderbird.exe\0");

    assert_eq!(registry_bytes_to_string(&bytes), Some(r"C:\Tools\thunderbird.exe".to_string()));
}

#[test]
fn start_app_ids_launch_through_app_user_model_activation() {
    let packaged_app_id = "5319275A.WhatsAppDesktop_cv1g1gvanyjgm!App";
    let docker_app_id = "Docker.DockerForWindows.Settings";

    assert!(is_start_app_launch_id(packaged_app_id));
    assert!(is_start_app_launch_id(docker_app_id));
    assert!(is_start_app_launch_id(r"C:\Program Files\Docker\Docker\Docker Desktop.exe"));
    assert!(is_start_app_launch_id("steam://rungameid/400020"));
    assert_eq!(
        start_app_launch_path("WhatsApp", packaged_app_id),
        "appusermodelid:5319275A.WhatsAppDesktop_cv1g1gvanyjgm!App"
    );
    assert_eq!(
        start_app_launch_path("Docker Desktop", docker_app_id),
        "appusermodelid:Docker.DockerForWindows.Settings"
    );
    assert_eq!(start_app_launch_path("Steam Game", "steam://rungameid/400020"), "steam://rungameid/400020");
    assert_eq!(
        start_app_launch_path("Docker Desktop", r"C:\Program Files\Docker\Docker\Docker Desktop.exe"),
        r"C:\Program Files\Docker\Docker\Docker Desktop.exe"
    );
    assert!(!is_start_app_launch_id(r"{6D809377-6AF0-444B-8957-A3773F02200E}\IrfanView\i_changes.txt"));
    assert!(!is_start_app_launch_id(r"{6D809377-6AF0-444B-8957-A3773F02200E}\7-Zip\7-zip.chm"));
    assert!(!is_start_app_launch_id("Microsoft.AutoGenerated.{8ABD94FB-E7D6-84A6-A997-C918EDDE0AE5}"));
}

#[test]
fn app_user_model_launch_path_round_trips_internal_prefix() {
    let launch_path = app_user_model_launch_path("Docker.DockerForWindows.Settings");

    assert_eq!(
        app_user_model_id_from_launch_path(&launch_path),
        Some("Docker.DockerForWindows.Settings".to_string())
    );
    assert_eq!(app_user_model_id_from_launch_path(""), None);
    assert_eq!(app_user_model_id_from_launch_path("C:\\Tools\\App.exe"), None);
    assert_eq!(app_user_model_id_from_launch_path("appusermodelid:   "), None);
}

#[test]
fn executable_launches_use_parent_working_directory() {
    assert_eq!(
        launch_working_directory(r"C:\Program Files\Docker\Docker\Docker Desktop.exe"),
        Some(r"C:\Program Files\Docker\Docker".to_string())
    );
    assert_eq!(launch_working_directory("shell:AppsFolder\\Example.App!App"), None);
    assert_eq!(launch_working_directory("steam://rungameid/400020"), None);
}

#[test]
fn working_directory_of_root_programs_and_shares() {
    assert_eq!(launch_working_directory(r"C:\tool.exe"), Some(r"C:\".to_string()));
    assert_eq!(launch_working_directory(r"\\server\share\tool.exe"), Some(r"\\server\share\".to_string()));
    assert_eq!(launch_working_directory(r"C:\Tools\\app.exe\"), Some(r"C:\Tools".to_string()));
    assert_eq!(launch_working_directory(r"Tools\app.exe"), None);
    assert!(is_absolute_executable_launch_target(r" D:/games/run.bat "));
}

#[test]
fn launch_plans_pick_activation_or_execution() {
    match launch_plan("appusermodelid:Example.App!App") {
        LaunchPlan::ActivateAppId { app_id } => assert_eq!(app_id, "Example.App!App"),
        LaunchPlan::Execute { .. } => panic!("app ids are activated"),
    }
    match launch_plan(r"C:\Apps\tool.exe") {
        LaunchPlan::Execute { file, directory } => {
            assert_eq!(file, r"C:\Apps\tool.exe");
            assert_eq!(directory, Some(r"C:\Apps".to_string()));
        }
        LaunchPlan::ActivateAppId { .. } => panic!("paths are executed"),
    }
}

#[test]
fn start_menu_entries_become_packaged_apps() {
    let entries = vec![
        (" WhatsApp ".to_string(), "5319275A.WhatsAppDesktop_cv1g1gvanyjgm!App".to_string()),
        ("".to_string(), "Some.App".to_string()),
        ("Help".to_string(), r"{6D809377-6AF0-444B-8957-A3773F02200E}\App\help.chm".to_string()),
    ];

    let apps = start_apps_from_entries(&entries);

    assert_eq!(apps.len(), 1);
    assert_eq!(apps[0].name, "WhatsApp");
    assert_eq!(apps[0].launch_path, "appusermodelid:5319275A.WhatsAppDesktop_cv1g1gvanyjgm!App");
    assert_eq!(apps[0].launch_identity, Some(apps[0].launch_path.clone()));
    assert_eq!(apps[0].source, AppSource::PackagedApp);
}

#[test]
fn zero_terminated_buffers_stop_at_the_first_zero() {
    let mut units = "Display".encode_utf16().collect::<Vec<_>>();
    units.push(0);
    units.push(b'x' as u16);
    assert_eq!(utf16z_to_string(&units), "Display");
    assert_eq!(utf16z_to_string(&[0xd800, b'a' as u16]), "\u{fffd}a");
}


#[test]
fn registry_string_bytes_read_back_as_the_written_text() {
    let command = "\"C:\\Tools\\Mega Win Alt Tab \u{1f600}.exe\" --startup";
    let bytes = registry_string_bytes(command);
    assert_eq!(bytes.len() % 2, 0);
    assert_eq!(&bytes[bytes.len() - 2..], &[0, 0]);
    assert_eq!(registry_bytes_to_string(&bytes), Some(command.to_string()));
    assert_eq!(registry_bytes_to_string(&registry_string_bytes("")), Some(String::new()));
}

#[test]
fn lossy_utf16_replaces_each_unpaired_surrogate() {
    assert_eq!(utf16z_to_string(&[0x61, 0xd800, 0x62, 0xdc00, 0]), "a\u{fffd}b\u{fffd}");
    assert_eq!(utf16z_to_string(&[0xd83d, 0xde00, 0x63]), "\u{1f600}c");
}
