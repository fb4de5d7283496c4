use brows::browser::{Browser, BrowserGroup};
use brows::config::{Config, Rule};
use brows::ipc::Request;
use brows::ui::picker::{
    copy_groups, dismiss, display_url, drop_target, find_auto_browser, find_named_browser,
    groups_differ, hide_tick, initial_hide_countdown, move_row, on_request, open_url,
    refresh_groups, run_resident, selected_browser, start_groups, version_label, Dismiss,
    HideStep, OpenAction, OpenEvent, OpenState, ServerAction,
};

fn browser(name: &str, exe: &str, profile: Option<&str>) -> Browser {
    Browser { name: name.to_string(), exe_path: exe.to_string(), profile_dir: profile.map(|s| s.to_string()) }
}

fn groups() -> Vec<BrowserGroup> {
    vec![
        BrowserGroup {
            name: "Google Chrome".to_string(),
            exe_path: "chrome.exe".to_string(),
            browsers: vec![
                browser("Person 1", "chrome.exe", Some("Default")),
                browser("Work", "chrome.exe", Some("Profile 1")),
            ],
        },
        BrowserGroup {
            name: "Firefox".to_string(),
            exe_path: "firefox.exe".to_string(),
            browsers: vec![browser("Firefox", "firefox.exe", None)],
        },
    ]
}

fn config(default_browser: Option<&str>, rules: &[(&str, &str)], cached: Vec<BrowserGroup>) -> Config {
    Config {
        default_browser: default_browser.map(|s| s.to_string()),
        rules: rules.iter().map(|(p, b)| Rule { pattern: p.to_string(), browser: b.to_string() }).collect(),
        browser_order: vec!["firefox.exe".to_string()],
        last_update_check: None,
        update_available: None,
        cached_groups: cached,
    }
}

fn step(s: OpenState, e: OpenEvent) -> (OpenState, OpenAction) {
    open_url(s, e)
}

#[test]
fn find_named_browser_searches_profiles() {
    let g = groups();
    assert_eq!(find_named_browser(&g, "Work").map(|b| b.profile_dir), Some(Some("Profile 1".to_string())));
    assert_eq!(find_named_browser(&g, "Firefox").map(|b| b.exe_path), Some("firefox.exe".to_string()));
    assert!(find_named_browser(&g, "Google Chrome").is_none());
}

#[test]
fn auto_browser_rule_first_then_default() {
    let g = groups();
    let c = config(Some("Firefox"), &[("github.com", "Work"), ("example", "Missing")], vec![]);
    assert_eq!(find_auto_browser(&g, &c, "https://github.com/").map(|b| b.name), Some("Work".to_string()));
    assert_eq!(find_auto_browser(&g, &c, "https://example.com/").map(|b| b.name), Some("Firefox".to_string()));
    assert_eq!(find_auto_browser(&g, &c, "https://other.org/").map(|b| b.name), Some("Firefox".to_string()));
    let no_default = config(None, &[("example", "Missing")], vec![]);
    assert!(find_auto_browser(&g, &no_default, "https://example.com/").is_none());
    assert!(find_auto_browser(&g, &no_default, "https://other.org/").is_none());
}

#[test]
fn open_url_forwarded_link_ends_the_process() {
    let (s, a) = step(OpenState::Start, OpenEvent::Begin);
    assert!(matches!(a, OpenAction::SendToResident));
    let (s, a) = step(s, OpenEvent::Forwarded(true));
    assert!(matches!(a, OpenAction::Exit));
    assert!(matches!(s, OpenState::Finished));
}

#[test]
fn open_url_becomes_resident_when_no_one_answers() {
    let (s, _) = step(OpenState::Start, OpenEvent::Begin);
    let (s, a) = step(s, OpenEvent::Forwarded(false));
    assert!(matches!(a, OpenAction::BecomeResident));
    let (s, a) = step(s, OpenEvent::Bound(true));
    assert!(matches!(a, OpenAction::ShowPicker { resident: true }));
    assert!(matches!(s, OpenState::Finished));
}

#[test]
fn open_url_retries_once_then_shows_the_picker_alone() {
    let (s, _) = step(OpenState::Start, OpenEvent::Begin);
    let (s, _) = step(s, OpenEvent::Forwarded(false));
    let (s, a) = step(s, OpenEvent::Bound(false));
    assert!(matches!(a, OpenAction::SendToResident));
    assert!(matches!(s, OpenState::Retrying));
    let (s2, a2) = step(s, OpenEvent::Forwarded(false));
    assert!(matches!(a2, OpenAction::ShowPicker { resident: false }));
    assert!(matches!(s2, OpenState::Finished));
    let (_, a3) = step(OpenState::Retrying, OpenEvent::Forwarded(true));
    assert!(matches!(a3, OpenAction::Exit));
}

#[test]
fn open_url_ignores_events_that_do_not_fit() {
    let (s, a) = step(OpenState::Finished, OpenEvent::Begin);
    assert!(matches!(a, OpenAction::Nothing));
    assert!(matches!(s, OpenState::Finished));
    let (s, a) = step(OpenState::Start, OpenEvent::Bound(true));
    assert!(matches!(a, OpenAction::Nothing));
    assert!(matches!(s, OpenState::Start));
}

#[test]
fn run_resident_shows_hidden_picker_only_when_bound() {
    assert!(matches!(run_resident(true), OpenAction::ShowPicker { resident: true }));
    assert!(matches!(run_resident(false), OpenAction::Exit));
}

#[test]
fn start_groups_uses_the_sorted_cache() {
    let c = config(None, &[], groups());
    let g = start_groups(&c).expect("cached groups");
    let exes: Vec<&str> = g.iter().map(|x| x.exe_path.as_str()).collect();
    assert_eq!(exes, vec!["firefox.exe", "chrome.exe"]);
    assert!(start_groups(&config(None, &[], vec![])).is_none());
}

#[test]
fn groups_differ_by_length_or_executables() {
    let a = groups();
    let b = copy_groups(&a);
    assert!(!groups_differ(&a, &b));
    let mut c = copy_groups(&a);
    c[1].name = "Renamed".to_string();
    assert!(!groups_differ(&a, &c));
    c[1].exe_path = "other.exe".to_string();
    assert!(groups_differ(&a, &c));
    assert!(groups_differ(&a, &a[..1].to_vec()));
}

#[test]
fn refresh_groups_replaces_only_a_changed_list() {
    let c = config(None, &[], vec![]);
    let shown = start_groups(&config(None, &[], groups())).unwrap();
    assert!(refresh_groups(&c, &shown, groups()).is_none());
    let mut fresh = groups();
    fresh.push(BrowserGroup { name: "Brave".to_string(), exe_path: "brave.exe".to_string(), browsers: vec![] });
    let got = refresh_groups(&c, &shown, fresh).expect("changed");
    let exes: Vec<&str> = got.iter().map(|x| x.exe_path.as_str()).collect();
    assert_eq!(exes, vec!["firefox.exe", "chrome.exe", "brave.exe"]);
}

#[test]
fn drop_target_next_to_the_source_is_the_source() {
    assert_eq!(drop_target(2, 2), 2);
    assert_eq!(drop_target(2, 3), 2);
    assert_eq!(drop_target(2, 0), 0);
    assert_eq!(drop_target(2, 5), 5);
}

#[test]
fn move_row_moves_into_the_gap() {
    let mut v = vec!['a', 'b', 'c', 'd'];
    assert!(move_row(&mut v, 0, 3));
    assert_eq!(v, vec!['b', 'c', 'a', 'd']);
    let mut w = vec!['a', 'b', 'c', 'd'];
    assert!(move_row(&mut w, 3, 0));
    assert_eq!(w, vec!['d', 'a', 'b', 'c']);
    let mut x = vec!['a', 'b', 'c', 'd'];
    assert!(move_row(&mut x, 1, 4));
    assert_eq!(x, vec!['a', 'c', 'd', 'b']);
}

#[test]
fn move_row_next_to_itself_changes_nothing() {
    let mut v = vec![1, 2, 3];
    assert!(!move_row(&mut v, 1, 1));
    assert!(!move_row(&mut v, 1, 2));
    assert_eq!(v, vec![1, 2, 3]);
}

#[test]
fn moving_rows_and_icons_together_keeps_pairs() {
    let mut rows = vec!["chrome", "firefox", "edge"];
    let mut icons = vec![1, 2, 3];
    assert!(move_row(&mut rows, 2, 0));
    assert!(move_row(&mut icons, 2, 0));
    assert_eq!(rows, vec!["edge", "chrome", "firefox"]);
    assert_eq!(icons, vec![3, 1, 2]);
}

#[test]
fn display_url_cuts_at_fifty_characters() {
    let long = "a".repeat(60);
    assert_eq!(display_url(&long), format!("{}...", "a".repeat(50)));
    let exact = "b".repeat(50);
    assert_eq!(display_url(&exact), exact);
    let wide = "あ".repeat(51);
    assert_eq!(display_url(&wide), format!("{}...", "あ".repeat(50)));
    assert_eq!(display_url(""), "");
}

#[test]
fn hidden_start_counts_down_two_frames() {
    assert_eq!(initial_hide_countdown(""), 2);
    assert_eq!(initial_hide_countdown("https://x"), 0);
    let (c, s) = hide_tick(2, true);
    assert_eq!(c, 1);
    assert!(matches!(s, HideStep::Repaint));
    let (c, s) = hide_tick(c, true);
    assert_eq!(c, 0);
    assert!(matches!(s, HideStep::Hide));
    let (c, s) = hide_tick(c, true);
    assert_eq!(c, 0);
    assert!(matches!(s, HideStep::Idle));
    let (c, s) = hide_tick(2, false);
    assert_eq!(c, 2);
    assert!(matches!(s, HideStep::Idle));
}

#[test]
fn selected_browser_checks_both_indices() {
    let g = groups();
    assert_eq!(selected_browser(&g, 0, 1).map(|b| b.name), Some("Work".to_string()));
    assert!(selected_browser(&g, 1, 1).is_none());
    assert!(selected_browser(&g, 2, 0).is_none());
}

#[test]
fn dismiss_hides_only_a_resident_window() {
    assert!(matches!(dismiss(true, true), Dismiss::Hide));
    assert!(matches!(dismiss(true, false), Dismiss::Close));
    assert!(matches!(dismiss(false, true), Dismiss::Close));
}

#[test]
fn version_label_announces_a_newer_release() {
    assert_eq!(
        version_label(&Some("v9.0.0".to_string()), "1.0.0", "available"),
        ("⬆ v9.0.0 available".to_string(), true)
    );
    assert_eq!(version_label(&Some("v0.1.0".to_string()), "1.0.0", "available"), ("v1.0.0".to_string(), false));
    assert_eq!(version_label(&None, "1.0.0", "公開中"), ("v1.0.0".to_string(), false));
}

#[test]
fn resident_answers_requests() {
    assert!(matches!(on_request(Request::Exit, &None), ServerAction::Quit));
    match on_request(Request::Open("https://x.org".to_string()), &None) {
        ServerAction::Show(u) => assert_eq!(u, "https://x.org"),
        _ => panic!("expected the picker"),
    }
    let c = config(None, &[("github", "Work")], groups());
    match on_request(Request::Open("https://github.com/".to_string()), &Some(c)) {
        ServerAction::Launch(b, u) => {
            assert_eq!(b.name, "Work");
            assert_eq!(u, "https://github.com/");
        },
        _ => panic!("expected a launch"),
    }
    let c2 = config(None, &[("github", "Work")], groups());
    match on_request(Request::Open("https://gitlab.com/".to_string()), &Some(c2)) {
        ServerAction::Show(u) => assert_eq!(u, "https://gitlab.com/"),
        _ => panic!("expected the picker"),
    }
}
