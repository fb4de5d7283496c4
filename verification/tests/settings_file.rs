use brows::browser::{Browser, BrowserGroup};
use brows::config::{order_key_of, Config, Rule};
use brows::ui::picker::browser_order_of;

fn group(name: &str, exe: &str) -> BrowserGroup {
    BrowserGroup {
        name: name.to_string(),
        exe_path: exe.to_string(),
        browsers: vec![Browser { name: name.to_string(), exe_path: exe.to_string(), profile_dir: None }],
    }
}

fn config_with(order: &[&str], rules: &[(&str, &str)]) -> Config {
    Config {
        default_browser: None,
        rules: rules
            .iter()
            .map(|(p, b)| Rule { pattern: p.to_string(), browser: b.to_string() })
            .collect(),
        browser_order: order.iter().map(|s| s.to_string()).collect(),
        last_update_check: None,
        update_available: None,
        cached_groups: vec![],
    }
}

fn exes(groups: &[BrowserGroup]) -> Vec<&str> {
    groups.iter().map(|g| g.exe_path.as_str()).collect()
}

#[test]
fn sort_groups_follows_browser_order_and_puts_unlisted_last() {
    let cfg = config_with(&["b.exe", "a.exe"], &[]);
    let mut groups = vec![group("A", "a.exe"), group("C", "c.exe"), group("B", "b.exe"), group("D", "d.exe")];
    cfg.sort_groups(&mut groups);
    assert_eq!(exes(&groups), vec!["b.exe", "a.exe", "c.exe", "d.exe"]);
}

#[test]
fn sort_groups_is_stable_for_equal_keys() {
    let cfg = config_with(&["x.exe"], &[]);
    let mut groups = vec![group("First", "q.exe"), group("X", "x.exe"), group("Second", "p.exe"), group("Third", "q.exe")];
    cfg.sort_groups(&mut groups);
    let names: Vec<&str> = groups.iter().map(|g| g.name.as_str()).collect();
    assert_eq!(names, vec!["X", "First", "Second", "Third"]);
}

#[test]
fn sort_groups_with_empty_order_changes_nothing() {
    let cfg = config_with(&[], &[]);
    let mut groups = vec![group("C", "c.exe"), group("A", "a.exe")];
    cfg.sort_groups(&mut groups);
    assert_eq!(exes(&groups), vec!["c.exe", "a.exe"]);
}

#[test]
fn saved_order_sorts_back_to_itself() {
    let groups = vec![group("C", "c.exe"), group("A", "a.exe"), group("B", "b.exe")];
    let mut cfg = config_with(&[], &[]);
    cfg.browser_order = browser_order_of(&groups);
    assert_eq!(cfg.browser_order, vec!["c.exe".to_string(), "a.exe".to_string(), "b.exe".to_string()]);
    let mut shuffled = vec![group("B", "b.exe"), group("C", "c.exe"), group("A", "a.exe")];
    cfg.sort_groups(&mut shuffled);
    assert_eq!(exes(&shuffled), exes(&groups));
}

#[test]
fn unlisted_executables_have_the_largest_key() {
    let order = vec!["a.exe".to_string(), "b.exe".to_string(), "a.exe".to_string()];
    assert_eq!(order_key_of(&order, &"a.exe".to_string()), 0);
    assert_eq!(order_key_of(&order, &"b.exe".to_string()), 1);
    assert_eq!(order_key_of(&order, &"z.exe".to_string()), usize::MAX);
}

#[test]
fn match_rule_takes_the_first_matching_rule() {
    let cfg = config_with(&[], &[("github.com", "Firefox"), ("git", "Chrome")]);
    assert_eq!(cfg.match_rule("https://github.com/verus-lang"), Some("Firefox"));
    assert_eq!(cfg.match_rule("https://gitlab.com/"), Some("Chrome"));
    assert_eq!(cfg.match_rule("https://example.com/"), None);
}

#[test]
fn match_rule_with_empty_pattern_matches_everything() {
    let cfg = config_with(&[], &[("", "Edge")]);
    assert_eq!(cfg.match_rule("https://example.com/"), Some("Edge"));
    let none = config_with(&[], &[]);
    assert_eq!(none.match_rule("https://example.com/"), None);
}
