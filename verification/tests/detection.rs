use brows::browser::{
    display_name, extract_exe, group_browsers, merge_clients,
    profile_name_from_local_state, retain_browsers, select_profiles, user_data_parts, Browser,
    ProfileEntry, RegistryClient,
};

fn browser(name: &str, exe: &str) -> Browser {
    Browser { name: name.to_string(), exe_path: exe.to_string(), profile_dir: None }
}

fn client(key: &str, command: Option<&str>, default_value: Option<&str>, app_name: Option<&str>) -> RegistryClient {
    RegistryClient {
        key_name: key.to_string(),
        command: command.map(|s| s.to_string()),
        default_value: default_value.map(|s| s.to_string()),
        app_name: app_name.map(|s| s.to_string()),
    }
}

/// A `Local State` text whose profile entries are followed by plenty of text.
fn local_state() -> String {
    let pad = "x".repeat(3000);
    format!(
        "{{\"profile\":{{\"info_cache\":{{\"Default\":{{\"name\":\"Person 1\",\"pad\":\"{pad}\"}},\"Profile 1\":{{\"avatar\":\"a\",\"name\": \"Work\",\"pad\":\"{pad}\"}}}}}}}}"
    )
}

#[test]
fn extract_exe_takes_quoted_path() {
    let cmd = r#""C:\Program Files\Google\Chrome\Application\chrome.exe" --single-argument %1"#;
    assert_eq!(extract_exe(cmd), r"C:\Program Files\Google\Chrome\Application\chrome.exe");
}

#[test]
fn extract_exe_unquoted_path_ends_at_exe_in_any_case() {
    let cmd = r#"  C:\Program Files\Mozilla Firefox\firefox.EXE -osint -url "%1""#;
    assert_eq!(extract_exe(cmd), r"C:\Program Files\Mozilla Firefox\firefox.EXE");
}

#[test]
fn extract_exe_without_exe_stops_at_space() {
    assert_eq!(extract_exe("  launcher --flag "), "launcher");
    assert_eq!(extract_exe("launcher"), "launcher");
}

#[test]
fn extract_exe_unterminated_quote_takes_rest() {
    assert_eq!(extract_exe(r#""C:\apps\b.exe"#), r"C:\apps\b.exe");
}

#[test]
fn extract_exe_of_blank_is_empty() {
    assert_eq!(extract_exe("   "), "");
    assert_eq!(extract_exe(""), "");
}

#[test]
fn display_name_prefers_default_value_then_application_name() {
    let some = |s: &str| Some(s.to_string());
    assert_eq!(display_name(&some("Google Chrome"), &some("Chrome App"), "Google Chrome Key"), "Google Chrome");
    assert_eq!(display_name(&some(""), &some("Chrome App"), "Key"), "Chrome App");
    assert_eq!(display_name(&None, &some(""), "Key"), "Key");
    assert_eq!(display_name(&None, &None, "Key"), "Key");
}

#[test]
fn profile_name_is_read_from_info_cache() {
    let ls = local_state();
    assert_eq!(profile_name_from_local_state(&ls, "Default"), Some("Person 1".to_string()));
    assert_eq!(profile_name_from_local_state(&ls, "Profile 1"), Some("Work".to_string()));
}

#[test]
fn profile_name_of_unknown_profile_is_none() {
    let ls = local_state();
    assert_eq!(profile_name_from_local_state(&ls, "Profile 9"), None);
    assert_eq!(profile_name_from_local_state("{}", "Default"), None);
}

#[test]
fn profile_name_from_a_short_local_state() {
    let short = r#"{"profile":{"info_cache":{"Default":{"name":"Work"}}}}"#;
    assert_eq!(profile_name_from_local_state(short, "Default"), Some("Work".to_string()));
}

#[test]
fn profile_name_is_looked_up_in_the_first_2048_bytes_of_the_entry() {
    let pad = "x".repeat(2100);
    let late = format!("{{\"info_cache\":{{\"Default\":{{\"pad\":\"{pad}\",\"name\":\"Late\"}}}}}}");
    assert_eq!(profile_name_from_local_state(&late, "Default"), None);
    // `"name":"` takes 8 bytes and 679 three-byte characters 2037 more, so the
    // closing quote is byte 2046; one character more pushes it past 2048.
    let wide = "あ".repeat(679);
    let edge = format!("{{\"info_cache\":{{\"Default\":{{\"name\":\"{wide}\"}}}}}}");
    assert_eq!(profile_name_from_local_state(&edge, "Default"), Some(wide.clone()));
    let over = format!("{{\"info_cache\":{{\"Default\":{{\"name\":\"{wide}あ\"}}}}}}");
    assert_eq!(profile_name_from_local_state(&over, "Default"), None);
    // Here byte 2048 falls inside a character: the window stops before it.
    let cut = format!("{{\"info_cache\":{{\"Default\":{{\"name\":\"x{wide}あ\"}}}}}}");
    assert_eq!(profile_name_from_local_state(&cut, "Default"), None);
}

#[test]
fn select_profiles_keeps_profiles_default_first_then_by_name() {
    let ls = local_state();
    let entries = vec![
        ProfileEntry { dir_name: "Profile 2".to_string(), has_preferences: true },
        ProfileEntry { dir_name: "Default".to_string(), has_preferences: true },
        ProfileEntry { dir_name: "Profile 3".to_string(), has_preferences: false },
        ProfileEntry { dir_name: "System Profile".to_string(), has_preferences: true },
        ProfileEntry { dir_name: "Profile 10".to_string(), has_preferences: true },
        ProfileEntry { dir_name: "Profile 1".to_string(), has_preferences: true },
    ];
    let got = select_profiles(&ls, &entries).expect("profiles");
    let expected: Vec<(String, String)> = vec![
        ("Person 1".to_string(), "Default".to_string()),
        ("Work".to_string(), "Profile 1".to_string()),
        ("Profile 10".to_string(), "Profile 10".to_string()),
        ("Profile 2".to_string(), "Profile 2".to_string()),
    ];
    assert_eq!(got, expected);
}

#[test]
fn select_profiles_without_profiles_is_none() {
    let entries = vec![
        ProfileEntry { dir_name: "Crashpad".to_string(), has_preferences: true },
        ProfileEntry { dir_name: "Default".to_string(), has_preferences: false },
    ];
    assert_eq!(select_profiles("{}", &entries), None);
    assert_eq!(select_profiles("{}", &vec![]), None);
}

#[test]
fn group_browsers_expands_several_profiles_only() {
    let base = vec![
        browser("Google Chrome", r"C:\chrome.exe"),
        browser("Firefox", r"C:\firefox.exe"),
        browser("Microsoft Edge", r"C:\msedge.exe"),
    ];
    let profiles = vec![
        vec![
            ("Person 1".to_string(), "Default".to_string()),
            ("Work".to_string(), "Profile 1".to_string()),
        ],
        vec![],
        vec![("Person 1".to_string(), "Default".to_string())],
    ];
    let groups = group_browsers(&base, &profiles);
    assert_eq!(groups.len(), 3);
    assert_eq!(groups[0].name, "Google Chrome");
    assert_eq!(groups[0].browsers.len(), 2);
    assert_eq!(groups[0].browsers[1].name, "Work");
    assert_eq!(groups[0].browsers[1].exe_path, r"C:\chrome.exe");
    assert_eq!(groups[0].browsers[1].profile_dir, Some("Profile 1".to_string()));
    assert_eq!(groups[1].browsers.len(), 1);
    assert_eq!(groups[1].browsers[0].name, "Firefox");
    assert_eq!(groups[1].browsers[0].profile_dir, None);
    assert_eq!(groups[2].browsers.len(), 1);
    assert_eq!(groups[2].browsers[0].name, "Microsoft Edge");
    assert_eq!(groups[2].browsers[0].profile_dir, None);
}

#[test]
fn merge_clients_keeps_machine_order_and_skips_known_user_executables() {
    let machine = vec![
        client("Google Chrome", Some(r#""C:\chrome.exe" -- "%1""#), Some("Google Chrome"), None),
        client("Broken", None, Some("Broken"), None),
        client("Empty", Some(""), None, None),
        client("FIREFOX.EXE", Some(r"C:\ff\firefox.exe -url %1"), None, Some("Firefox")),
    ];
    let user = vec![
        client("Chrome Again", Some(r#""C:\chrome.exe""#), Some("Chrome (user)"), None),
        client("Brave", Some(r#""C:\brave.exe" "%1""#), None, None),
    ];
    let got = merge_clients(&machine, &user);
    let names: Vec<&str> = got.iter().map(|b| b.name.as_str()).collect();
    let exes: Vec<&str> = got.iter().map(|b| b.exe_path.as_str()).collect();
    assert_eq!(names, vec!["Google Chrome", "Firefox", "Brave"]);
    assert_eq!(exes, vec![r"C:\chrome.exe", r"C:\ff\firefox.exe", r"C:\brave.exe"]);
    assert!(got.iter().all(|b| b.profile_dir.is_none()));
}

#[test]
fn retain_browsers_drops_internet_explorer_and_self() {
    let browsers = vec![
        browser("Internet Explorer", r"C:\Program Files\Internet Explorer\IEXPLORE.EXE"),
        browser("Google Chrome", r"C:\chrome.exe"),
        browser("brows", r"C:\Tools\Brows.exe"),
    ];
    let file_names = vec![
        Some("IEXPLORE.EXE".to_string()),
        Some("chrome.exe".to_string()),
        Some("Brows.exe".to_string()),
    ];
    let kept = retain_browsers(browsers, &file_names, &Some("brows.exe".to_string()));
    assert_eq!(kept.len(), 1);
    assert_eq!(kept[0].name, "Google Chrome");
}

#[test]
fn retain_browsers_without_own_name_keeps_others() {
    let browsers = vec![browser("brows", r"C:\Tools\brows.exe"), browser("x", "x")];
    let kept = retain_browsers(browsers, &vec![Some("brows.exe".to_string()), None], &None);
    assert_eq!(kept.len(), 2);
}

#[test]
fn launch_args_put_profile_before_url() {
    let b = Browser {
        name: "Work".to_string(),
        exe_path: r"C:\chrome.exe".to_string(),
        profile_dir: Some("Profile 1".to_string()),
    };
    assert_eq!(
        b.launch_args("https://example.com"),
        vec!["--profile-directory=Profile 1".to_string(), "https://example.com".to_string()]
    );
    let plain = browser("Firefox", r"C:\firefox.exe");
    assert_eq!(plain.launch_args("https://a.b"), vec!["https://a.b".to_string()]);
}

#[test]
fn user_data_parts_of_known_chromium_browsers() {
    assert_eq!(
        user_data_parts("Chrome.exe"),
        Some(vec!["Google".to_string(), "Chrome".to_string(), "User Data".to_string()])
    );
    assert_eq!(
        user_data_parts("msedge.exe"),
        Some(vec!["Microsoft".to_string(), "Edge".to_string(), "User Data".to_string()])
    );
    assert_eq!(user_data_parts("vivaldi.exe"), Some(vec!["Vivaldi".to_string(), "User Data".to_string()]));
    assert_eq!(
        user_data_parts("BRAVE.EXE"),
        Some(vec!["BraveSoftware".to_string(), "Brave-Browser".to_string(), "User Data".to_string()])
    );
    assert_eq!(user_data_parts("firefox.exe"), None);
}

#[test]
fn short_local_state_still_names_profiles() {
    let short = r#"{"profile":{"info_cache":{"Default":{"name":"Person 1"},"Profile 1":{"name":"Work"}}}}"#;
    let entries = vec![
        ProfileEntry { dir_name: "Profile 1".to_string(), has_preferences: true },
        ProfileEntry { dir_name: "Default".to_string(), has_preferences: true },
    ];
    let expected: Vec<(String, String)> = vec![
        ("Person 1".to_string(), "Default".to_string()),
        ("Work".to_string(), "Profile 1".to_string()),
    ];
    assert_eq!(select_profiles(short, &entries), Some(expected));
}

#[test]
fn registered_command_gives_back_the_path() {
    for path in [r"C:\Program Files\brows\brows.exe", "C:/path/browser.exe", r"D:\a b\c d.EXE", ""] {
        let cmd = format!(" \t\"{path}\" \"%1\"\r\n ");
        assert_eq!(extract_exe(&cmd), path);
        assert_eq!(extract_exe(&brows::registry::open_command(path)), path);
    }
}
