use brows::config::{Config, Rule};
use brows::updater::{
    check_download_header, check_download_size, check_if_due, check_if_due_at, download_failed,
    download_url, is_due, is_newer, latest_release_url, latest_tag, push_decimal, record_check,
    update_script, UpdateState, Updater, CHECK_INTERVAL_SECS, MIN_DOWNLOAD_BYTES,
};

fn config(last: Option<u64>, available: Option<&str>) -> Config {
    Config {
        default_browser: Some("Firefox".to_string()),
        rules: vec![Rule { pattern: "git".to_string(), browser: "Chrome".to_string() }],
        browser_order: vec!["a.exe".to_string()],
        last_update_check: last,
        update_available: available.map(|s| s.to_string()),
        cached_groups: vec![],
    }
}

fn shown(state: &UpdateState) -> String {
    match state {
        UpdateState::UpToDate => "up to date".to_string(),
        UpdateState::Checking => "checking".to_string(),
        UpdateState::Available(t) => format!("available {t}"),
        UpdateState::Downloading => "downloading".to_string(),
        UpdateState::ReadyToRestart => "ready".to_string(),
        UpdateState::Error(e) => format!("error {e}"),
    }
}

#[test]
fn is_newer_compares_numbers_in_order() {
    assert!(is_newer("v1.2.0", "1.1.9"));
    assert!(is_newer("v1.10.0", "1.9.9"));
    assert!(is_newer("1.2.0", "1.2"));
    assert!(!is_newer("1.2", "1.2.0"));
    assert!(!is_newer("v1.2.3", "1.2.3"));
    assert!(!is_newer("v0.9.0", "1.0.0"));
}

#[test]
fn is_newer_skips_leading_vs_and_parts_that_are_not_numbers() {
    assert!(is_newer("vv2", "1.9"));
    assert!(is_newer("1.x.3", "1.2"));
    assert!(!is_newer("garbage", "0.1.0"));
    assert!(is_newer("0.0.1", "beta"));
    assert!(is_newer("+2", "1"));
    assert!(is_newer("99999999999.5", "4"));
    assert!(!is_newer("99999999999.3", "4"));
}

#[test]
fn newer_is_irreflexive_and_asymmetric() {
    for (a, b) in [("1.0", "1.0.1"), ("v2", "1.9.9"), ("x", "1"), ("1.2.3", "1.2.3")] {
        assert!(!(is_newer(a, b) && is_newer(b, a)));
        assert!(!is_newer(a, a));
    }
}

#[test]
fn newer_is_transitive() {
    assert!(is_newer("1.2", "1.1") && is_newer("1.1", "1.0.5"));
    assert!(is_newer("1.2", "1.0.5"));
}

#[test]
fn check_is_due_after_a_day() {
    assert!(is_due(None, 0));
    assert!(!is_due(Some(1_000), 1_000 + CHECK_INTERVAL_SECS - 1));
    assert!(is_due(Some(1_000), 1_000 + CHECK_INTERVAL_SECS));
    assert!(!is_due(Some(5_000), 10));
}

#[test]
fn check_if_due_reads_the_settings() {
    assert!(!check_if_due_at(&None, 1_000_000));
    assert!(check_if_due_at(&Some(config(None, None)), 0));
    assert!(!check_if_due_at(&Some(config(Some(100), None)), 200));
    assert!(check_if_due_at(&Some(config(Some(100), None)), 100 + CHECK_INTERVAL_SECS));
    assert!(!check_if_due(&None));
    assert!(check_if_due(&Some(config(None, None))));
}

#[test]
fn from_config_shows_a_recorded_newer_release() {
    let (u, due) = Updater::from_config(&config(Some(0), Some("v9.0.0")), "1.0.0", CHECK_INTERVAL_SECS);
    assert_eq!(shown(&u.state), "available v9.0.0");
    assert!(due);
    let (u, due) = Updater::from_config(&config(Some(10), Some("v0.9.0")), "1.0.0", 20);
    assert_eq!(shown(&u.state), "up to date");
    assert!(!due);
    let (u, _) = Updater::from_config(&config(None, None), "1.0.0", 20);
    assert_eq!(shown(&u.state), "up to date");
}

#[test]
fn check_now_starts_only_when_idle() {
    let mut u = Updater { state: UpdateState::UpToDate };
    assert!(u.check_now());
    assert_eq!(shown(&u.state), "checking");
    assert!(!u.check_now());
    assert_eq!(shown(&u.state), "checking");
    let mut d = Updater { state: UpdateState::Downloading };
    assert!(!d.check_now());
    assert_eq!(shown(&d.state), "downloading");
    let mut e = Updater { state: UpdateState::Error("x".to_string()) };
    assert!(e.check_now());
}

#[test]
fn manual_check_results() {
    let mut u = Updater { state: UpdateState::Checking };
    u.finish_manual_check(Some("v2.0.0".to_string()), "1.0.0", "check failed");
    assert_eq!(shown(&u.state), "available v2.0.0");
    u.finish_manual_check(Some("v1.0.0".to_string()), "1.0.0", "check failed");
    assert_eq!(shown(&u.state), "up to date");
    u.finish_manual_check(None, "1.0.0", "check failed");
    assert_eq!(shown(&u.state), "error check failed");
}

#[test]
fn background_check_failure_keeps_the_state() {
    let mut u = Updater { state: UpdateState::Available("v3".to_string()) };
    u.finish_background_check(None, "1.0.0");
    assert_eq!(shown(&u.state), "available v3");
    u.finish_background_check(Some("0.5".to_string()), "1.0.0");
    assert_eq!(shown(&u.state), "up to date");
    u.finish_background_check(Some("1.0.1".to_string()), "1.0.0");
    assert_eq!(shown(&u.state), "available 1.0.1");
}

#[test]
fn download_only_from_available() {
    let mut u = Updater { state: UpdateState::Available("v2.1.0".to_string()) };
    assert_eq!(u.download_and_restart(), Some("v2.1.0".to_string()));
    assert_eq!(shown(&u.state), "downloading");
    u.finish_download(Ok(()));
    assert_eq!(shown(&u.state), "ready");
    let mut idle = Updater { state: UpdateState::UpToDate };
    assert_eq!(idle.download_and_restart(), None);
    assert_eq!(shown(&idle.state), "up to date");
    let mut failing = Updater { state: UpdateState::Downloading };
    failing.finish_download(Err("broken".to_string()));
    assert_eq!(shown(&failing.state), "error broken");
}

#[test]
fn record_check_updates_only_update_fields() {
    let mut c = config(None, Some("v5"));
    record_check(&mut c, 777, &Some("v0.1".to_string()), "1.0.0");
    assert_eq!(c.last_update_check, Some(777));
    assert_eq!(c.update_available, None);
    assert_eq!(c.default_browser, Some("Firefox".to_string()));
    assert_eq!(c.rules.len(), 1);
    assert_eq!(c.browser_order, vec!["a.exe".to_string()]);

    record_check(&mut c, 800, &Some("v2.0".to_string()), "1.0.0");
    assert_eq!(c.update_available, Some("v2.0".to_string()));
    record_check(&mut c, 900, &None, "1.0.0");
    assert_eq!(c.last_update_check, Some(900));
    assert_eq!(c.update_available, Some("v2.0".to_string()));
}

#[test]
fn release_addresses() {
    assert_eq!(latest_release_url(), "https://api.github.com/repos/gentianster/brows/releases/latest");
    assert_eq!(download_url("v1.2.3"), "https://github.com/gentianster/brows/releases/download/v1.2.3/brows.exe");
}

#[test]
fn latest_tag_from_api_reply() {
    assert_eq!(latest_tag(r#"{"url":"u","tag_name": "v1.4.0","name":"x"}"#), Some("v1.4.0".to_string()));
    assert_eq!(latest_tag(r#"{"message":"Not Found"}"#), None);
    assert_eq!(latest_tag(""), None);
}

#[test]
fn download_checks() {
    assert!(check_download_size(MIN_DOWNLOAD_BYTES).is_ok());
    assert_eq!(check_download_size(99_999), Err("ファイルサイズ異常: 99999 bytes".to_string()));
    assert_eq!(check_download_size(0), Err("ファイルサイズ異常: 0 bytes".to_string()));
    assert!(check_download_header(b"MZ").is_ok());
    assert_eq!(check_download_header(b"PK"), Err("無効な実行ファイル（PE ヘッダーなし）".to_string()));
    assert_eq!(download_failed(), "ダウンロード失敗");
}

#[test]
fn decimal_text() {
    let mut s = String::from("n=");
    push_decimal(&mut s, 0);
    assert_eq!(s, "n=0");
    let mut t = String::new();
    push_decimal(&mut t, 18_446_744_073_709_551_615);
    assert_eq!(t, "18446744073709551615");
}

#[test]
fn update_script_text() {
    let expected = [
        "@echo off\r\n",
        "timeout /t 2 /nobreak >nul\r\n",
        "move /y \"C:\\a.exe\" \"C:\\a.old.exe\"\r\n",
        "if errorlevel 1 (\r\n",
        "  del \"T:\\n.exe\" 2>nul\r\n",
        "  del \"%~f0\"\r\n",
        "  exit /b 1\r\n",
        ")\r\n",
        "move /y \"T:\\n.exe\" \"C:\\a.exe\"\r\n",
        "if errorlevel 1 (\r\n",
        "  move /y \"C:\\a.old.exe\" \"C:\\a.exe\" 2>nul\r\n",
        "  del \"T:\\n.exe\" 2>nul\r\n",
        "  del \"%~f0\"\r\n",
        "  exit /b 1\r\n",
        ")\r\n",
        "start \"\" \"C:\\a.exe\" --resident\r\n",
        "del \"%~f0\"",
    ]
    .concat();
    assert_eq!(update_script("C:\\a.exe", "C:\\a.old.exe", "T:\\n.exe"), expected);
}
