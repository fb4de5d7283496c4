use brows::browser::{Browser, BrowserGroup};
use brows::cli::{list_line, parse_command, Command};
use brows::config::Rule;
use brows::icon::bgra_to_rgba;
use brows::lang::{get, is_japanese};
use brows::registry::{client_key, open_command, registration_writes, url_class_key, RegRoot, APP_NAME};
use brows::ui::settings::{
    browser_names, can_add_rule, elevation_arg, first_browser_name, registration_outcome, update_control,
    visible_rules, RegistrationOutcome, UpdateControl,
};
use brows::updater::UpdateState;
use brows::ui::tray::{
    menu_command, to_wide, toggle_startup, tray_message, StartupChange, TrayAction, ID_SETTINGS,
    ID_STARTUP, WM_DESTROY, WM_LBUTTONUP, WM_RBUTTONUP, WM_TRAY,
};

fn args(a: &[&str]) -> Vec<String> {
    a.iter().map(|s| s.to_string()).collect()
}

fn browser(name: &str, exe: &str) -> Browser {
    Browser { name: name.to_string(), exe_path: exe.to_string(), profile_dir: None }
}

#[test]
fn language_follows_the_primary_language_id() {
    assert!(is_japanese(0x0411));
    assert!(is_japanese(0x0811));
    assert!(!is_japanese(0x0409));
    assert!(!is_japanese(0x0012));
    assert_eq!(get(0x0411).which_browser, "どのブラウザで開きますか？");
    assert_eq!(get(0x0411).cancel, "キャンセル");
    assert_eq!(get(0x0409).which_browser, "Open with which browser?");
    assert_eq!(get(0x0409).no_browsers, "No browsers found");
    assert_eq!(get(0x0407).update_suffix, "available");
}

#[test]
fn registration_command_quotes_the_executable() {
    assert_eq!(open_command(r"C:\Tools\brows.exe"), r#""C:\Tools\brows.exe" "%1""#);
    assert_eq!(APP_NAME, "brows");
    assert_eq!(client_key(), r"SOFTWARE\Clients\StartMenuInternet\brows");
    assert_eq!(url_class_key(), "browsURL");
}

#[test]
fn registration_writes_in_order() {
    let w = registration_writes(r"C:\b.exe");
    assert_eq!(w.len(), 12);
    let cmd = r#""C:\b.exe" "%1""#;
    assert!(matches!(w[0].root, RegRoot::LocalMachine));
    assert_eq!(w[0].key, r"SOFTWARE\Clients\StartMenuInternet\brows\Capabilities");
    assert_eq!((w[0].name.as_str(), w[0].value.as_str()), ("ApplicationName", "brows"));
    assert_eq!((w[1].name.as_str(), w[1].value.as_str()), ("ApplicationDescription", "Browser picker for Windows"));
    assert_eq!(w[2].key, r"SOFTWARE\Clients\StartMenuInternet\brows\Capabilities\URLAssociations");
    assert_eq!((w[3].name.as_str(), w[3].value.as_str()), ("https", "browsURL"));
    assert_eq!(w[4].key, r"SOFTWARE\Clients\StartMenuInternet\brows\shell\open\command");
    assert_eq!((w[4].name.as_str(), w[4].value.as_str()), ("", cmd));
    assert!(matches!(w[5].root, RegRoot::ClassesRoot));
    assert_eq!(w[5].key, r"browsURL\shell\open\command");
    assert_eq!(w[6].value, "URL:http Protocol");
    assert_eq!(w[9].value, "URL:https Protocol");
    assert_eq!((w[10].name.as_str(), w[10].value.as_str()), ("URL Protocol", ""));
    assert!(matches!(w[11].root, RegRoot::LocalMachine));
    assert_eq!(w[11].key, r"SOFTWARE\RegisteredApplications");
    assert_eq!((w[11].name.as_str(), w[11].value.as_str()), ("brows", r"SOFTWARE\Clients\StartMenuInternet\brows\Capabilities"));
}

#[test]
fn bgra_becomes_rgba() {
    assert_eq!(bgra_to_rgba(&vec![1, 2, 3, 4, 5, 6, 7, 8]), vec![3, 2, 1, 4, 7, 6, 5, 8]);
    assert_eq!(bgra_to_rgba(&vec![]), Vec::<u8>::new());
}

#[test]
fn icons_without_alpha_get_opaque_colored_pixels() {
    assert_eq!(bgra_to_rgba(&vec![10, 0, 0, 0, 0, 0, 0, 0]), vec![0, 0, 10, 255, 0, 0, 0, 0]);
    assert_eq!(bgra_to_rgba(&vec![10, 0, 0, 0, 0, 0, 0, 9]), vec![0, 0, 10, 0, 0, 0, 0, 9]);
}

#[test]
fn tray_messages() {
    let created = 0xC0DE;
    assert!(matches!(tray_message(WM_TRAY, WM_LBUTTONUP, created), TrayAction::OpenSettings));
    assert!(matches!(tray_message(WM_TRAY, 0x0001_0000 + WM_RBUTTONUP, created), TrayAction::ShowMenu));
    assert!(matches!(tray_message(WM_TRAY, 0x0200, created), TrayAction::Handled));
    assert!(matches!(tray_message(WM_DESTROY, 0, created), TrayAction::RemoveIconAndQuit));
    assert!(matches!(tray_message(created, 0, created), TrayAction::AddIconAgain));
    assert!(matches!(tray_message(0x0010, 0, created), TrayAction::PassOn));
}

#[test]
fn tray_menu_commands() {
    assert!(matches!(menu_command(ID_SETTINGS), TrayAction::OpenSettings));
    assert!(matches!(menu_command(ID_STARTUP), TrayAction::ToggleStartup));
    assert!(matches!(menu_command(0), TrayAction::Handled));
    assert!(matches!(toggle_startup(true), StartupChange::Unregister));
    assert!(matches!(toggle_startup(false), StartupChange::Register));
}

#[test]
fn wide_strings_end_with_zero() {
    assert_eq!(to_wide("brows"), vec![98, 114, 111, 119, 115, 0]);
    assert_eq!(to_wide("a😀"), vec![0x61, 0xD83D, 0xDE00, 0]);
    assert_eq!(to_wide(""), vec![0]);
}

#[test]
fn command_line_commands() {
    assert!(matches!(parse_command(&args(&["brows.exe"])), Command::Settings));
    assert!(matches!(parse_command(&args(&["brows.exe", "--register"])), Command::Register));
    assert!(matches!(parse_command(&args(&["brows.exe", "--unregister"])), Command::Unregister));
    assert!(matches!(parse_command(&args(&["brows.exe", "--list"])), Command::List));
    assert!(matches!(parse_command(&args(&["brows.exe", "--resident"])), Command::Resident));
    match parse_command(&args(&["brows.exe", "https://example.com", "x"])) {
        Command::Open(u) => assert_eq!(u, "https://example.com"),
        _ => panic!("expected a link"),
    }
    assert!(matches!(parse_command(&args(&["brows.exe", "ftp://x"])), Command::Settings));
    assert!(matches!(parse_command(&args(&["brows.exe", "--REGISTER"])), Command::Settings));
}

#[test]
fn list_lines() {
    assert_eq!(list_line(&browser("Firefox", r"C:\ff.exe")), r"Firefox : C:\ff.exe");
}

#[test]
fn rule_browser_names_list_profiles_of_multi_profile_groups() {
    let groups = vec![
        BrowserGroup {
            name: "Firefox".to_string(),
            exe_path: "ff.exe".to_string(),
            browsers: vec![browser("Firefox Main", "ff.exe")],
        },
        BrowserGroup {
            name: "Chrome".to_string(),
            exe_path: "chrome.exe".to_string(),
            browsers: vec![browser("Person 1", "chrome.exe"), browser("Work", "chrome.exe")],
        },
    ];
    assert_eq!(browser_names(&groups), vec!["Firefox".to_string(), "Person 1".to_string(), "Work".to_string()]);
    assert_eq!(first_browser_name(&groups), "Firefox Main");
    assert_eq!(first_browser_name(&vec![]), "");
}

#[test]
fn rule_search_is_case_insensitive_on_pattern_and_browser() {
    let rules = vec![
        Rule { pattern: "GitHub.com".to_string(), browser: "Firefox".to_string() },
        Rule { pattern: "example.org".to_string(), browser: "Chrome".to_string() },
        Rule { pattern: "intranet".to_string(), browser: "Edge Work".to_string() },
    ];
    assert_eq!(visible_rules(&rules, ""), vec![0, 1, 2]);
    assert_eq!(visible_rules(&rules, "github"), vec![0]);
    assert_eq!(visible_rules(&rules, "CHROME"), vec![1]);
    assert_eq!(visible_rules(&rules, "o"), vec![0, 1, 2]);
    assert_eq!(visible_rules(&rules, "zzz"), Vec::<usize>::new());
}

#[test]
fn a_rule_needs_pattern_and_browser() {
    assert!(can_add_rule("github.com", "Firefox"));
    assert!(!can_add_rule("", "Firefox"));
    assert!(!can_add_rule("github.com", ""));
}

#[test]
fn update_control_per_state() {
    assert!(matches!(update_control(&UpdateState::UpToDate), UpdateControl::CheckButton));
    assert!(matches!(update_control(&UpdateState::Error("x".to_string())), UpdateControl::CheckButton));
    assert!(matches!(update_control(&UpdateState::Available("v2".to_string())), UpdateControl::DownloadButton));
    assert!(matches!(update_control(&UpdateState::ReadyToRestart), UpdateControl::RestartButton));
    assert!(matches!(update_control(&UpdateState::Checking), UpdateControl::Busy));
    assert!(matches!(update_control(&UpdateState::Downloading), UpdateControl::Busy));
}

#[test]
fn registration_outcomes() {
    assert!(matches!(registration_outcome(true, true), RegistrationOutcome::Done { registered: true }));
    assert!(matches!(registration_outcome(false, true), RegistrationOutcome::Done { registered: false }));
    assert!(matches!(registration_outcome(true, false), RegistrationOutcome::Elevate { register: true }));
    assert!(matches!(registration_outcome(false, false), RegistrationOutcome::Elevate { register: false }));
    assert_eq!(elevation_arg(true), "--register");
    assert_eq!(elevation_arg(false), "--unregister");
}
