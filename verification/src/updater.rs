//! Self-update: when to check GitHub for a newer release, what the settings
//! screen shows meanwhile, and how a downloaded executable is checked and
//! swapped in. The network, file and process work is done by the application;
//! this module decides.

use vstd::prelude::*;
use crate::config::Config;
use crate::ipc::push_str;
use crate::version::{lex_less_exec, newer_spec, tag_numbers_of};

verus! {

/// The GitHub repository releases are published in.
pub const REPO: &'static str = "gentianster/brows";

/// How long a check stays fresh: one day.
pub const CHECK_INTERVAL_SECS: u64 = 86400;

/// The smallest size a downloaded executable may have.
pub const MIN_DOWNLOAD_BYTES: u64 = 100_000;

/// What the settings screen shows about updates.
#[derive(Debug)]
pub enum UpdateState {
    UpToDate,
    Checking,
    Available(String),
    Downloading,
    ReadyToRestart,
    Error(String),
}

/// What an [`UpdateState`] is, as a value.
pub enum UpdateStateView {
    UpToDate,
    Checking,
    Available(Seq<char>),
    Downloading,
    ReadyToRestart,
    Error(Seq<char>),
}

impl View for UpdateState {
    type V = UpdateStateView;

    open spec fn view(&self) -> UpdateStateView {
        match self {
            UpdateState::UpToDate => UpdateStateView::UpToDate,
            UpdateState::Checking => UpdateStateView::Checking,
            UpdateState::Available(t) => UpdateStateView::Available(t@),
            UpdateState::Downloading => UpdateStateView::Downloading,
            UpdateState::ReadyToRestart => UpdateStateView::ReadyToRestart,
            UpdateState::Error(e) => UpdateStateView::Error(e@),
        }
    }
}

impl Clone for UpdateState {
    fn clone(&self) -> (r: Self)
        ensures
            r@ == self@,
    {
        match self {
            UpdateState::UpToDate => UpdateState::UpToDate,
            UpdateState::Checking => UpdateState::Checking,
            UpdateState::Available(t) => UpdateState::Available(t.clone()),
            UpdateState::Downloading => UpdateState::Downloading,
            UpdateState::ReadyToRestart => UpdateState::ReadyToRestart,
            UpdateState::Error(e) => UpdateState::Error(e.clone()),
        }
    }
}

/// The update state shown by the settings screen.
pub struct Updater {
    pub state: UpdateState,
}

/// A check is due when none was made, or the last one is at least a day old.
pub open spec fn is_due_spec(last: Option<u64>, now: u64) -> bool {
    match last {
        None => true,
        Some(t) => (if now >= t { now - t } else { 0 }) >= CHECK_INTERVAL_SECS,
    }
}

/// The state shown first: an update recorded in the settings is shown when
/// it is still newer than the running version.
pub open spec fn initial_state_spec(recorded: Option<Seq<char>>, current: Seq<char>) -> UpdateStateView {
    match recorded {
        Some(tag) if newer_spec(tag, current) => UpdateStateView::Available(tag),
        _ => UpdateStateView::UpToDate,
    }
}

/// The state after a check that the user asked for.
pub open spec fn after_manual_check(latest: Option<Seq<char>>, current: Seq<char>, failure: Seq<char>) -> UpdateStateView {
    match latest {
        Some(tag) if newer_spec(tag, current) => UpdateStateView::Available(tag),
        Some(_) => UpdateStateView::UpToDate,
        None => UpdateStateView::Error(failure),
    }
}

/// The state after a background check: a failed check leaves it as it was.
pub open spec fn after_background_check(
    before: UpdateStateView,
    latest: Option<Seq<char>>,
    current: Seq<char>,
) -> UpdateStateView {
    match latest {
        Some(tag) if newer_spec(tag, current) => UpdateStateView::Available(tag),
        Some(_) => UpdateStateView::UpToDate,
        None => before,
    }
}

/// After a check at time `now` is recorded, the next one is due exactly a
/// day later.
pub proof fn law_check_fresh_for_a_day(now: u64, t: u64)
    requires
        t >= now,
    ensures
        is_due_spec(Some(now), t) <==> t - now >= CHECK_INTERVAL_SECS,
{
}

/// A clock that reads earlier than the recorded check (it was set back)
/// makes no check due.
pub proof fn law_clock_set_back_not_due(last: u64, t: u64)
    requires
        t < last,
    ensures
        !is_due_spec(Some(last), t),
{
}

/// A check is always due when none was ever recorded.
pub proof fn law_first_check_due(t: u64)
    ensures
        is_due_spec(None, t),
{
}

/// The value of an optional string.
pub open spec fn opt_str(s: Option<String>) -> Option<Seq<char>> {
    match s {
        Some(x) => Some(x@),
        None => None,
    }
}

/// Is the release `tag` later than the running version `current`?
/// Leading `v`s are ignored, the rest is split at `.`, parts that are not
/// numbers are skipped, and the number lists are compared in order.
pub fn is_newer(tag: &str, current: &str) -> (r: bool)
    ensures
        r == newer_spec(tag@, current@),
{
    let t = tag_numbers_of(tag);
    let c = tag_numbers_of(current);
    lex_less_exec(&c, &t)
}

/// `std::time::SystemTime`, carried through without looking inside.
#[verifier::external_type_specification]
#[verifier::external_body]
pub struct ExSystemTime(std::time::SystemTime);

/// `std::time::SystemTimeError`, carried through without looking inside.
#[verifier::external_type_specification]
#[verifier::external_body]
pub struct ExSystemTimeError(std::time::SystemTimeError);

/// `SystemTime::now`: the clock's current reading. Nothing is promised of
/// it: it depends on the machine's clock.
#[verifier::external_body]
fn clock_now() -> std::time::SystemTime {
    std::time::SystemTime::now()
}

/// `SystemTime::duration_since` from `UNIX_EPOCH`: the time since 1970, or
/// an error when the reading lies before it. Nothing is promised of which.
#[verifier::external_body]
fn since_unix_epoch(t: &std::time::SystemTime) -> Result<std::time::Duration, std::time::SystemTimeError> {
    t.duration_since(std::time::UNIX_EPOCH)
}

/// `Duration::as_secs`: the whole seconds of a duration. The duration is
/// opaque here, so nothing is stated of the number.
#[verifier::external_body]
fn whole_seconds(d: &std::time::Duration) -> u64 {
    d.as_secs()
}

/// The current Unix time in seconds (0 when the clock reads before 1970).
fn unix_now() -> u64 {
    match since_unix_epoch(&clock_now()) {
        Ok(d) => whole_seconds(&d),
        Err(_) => 0,
    }
}

/// Is a check due at time `now`?
pub fn is_due(last: Option<u64>, now: u64) -> (r: bool)
    ensures
        r == is_due_spec(last, now),
{
    match last {
        None => true,
        Some(t) => now.saturating_sub(t) >= CHECK_INTERVAL_SECS,
    }
}

/// Should a background check start, given the settings as loaded (`None`
/// when they could not be loaded) and the time `now`?
pub fn check_if_due_at(config: &Option<Config>, now: u64) -> (r: bool)
    ensures
        r == match config {
            Some(c) => is_due_spec(c.last_update_check, now),
            None => false,
        },
{
    match config {
        Some(c) => is_due(c.last_update_check, now),
        None => false,
    }
}

/// Should a background check start now? Never when the settings could not
/// be loaded, always when no check was ever made; otherwise it depends on
/// the clock.
pub fn check_if_due(config: &Option<Config>) -> (r: bool)
    ensures
        config is None ==> !r,
        config matches Some(c) && c.last_update_check is None ==> r,
{
    check_if_due_at(config, unix_now())
}

/// Copies an optional string.
fn copy_opt(s: &Option<String>) -> (r: Option<String>)
    ensures
        opt_str(r) == opt_str(*s),
{
    match s {
        Some(x) => Some(x.clone()),
        None => None,
    }
}

impl Updater {
    /// The updater for the settings screen, and whether a background check
    /// should start now.
    pub fn from_config(config: &Config, current: &str, now: u64) -> (r: (Updater, bool))
        ensures
            r.0.state@ == initial_state_spec(opt_str(config.update_available), current@),
            r.1 == is_due_spec(config.last_update_check, now),
    {
        let state = match &config.update_available {
            Some(tag) => {
                if is_newer(tag.as_str(), current) {
                    UpdateState::Available(tag.clone())
                } else {
                    UpdateState::UpToDate
                }
            },
            None => UpdateState::UpToDate,
        };
        (Updater { state }, is_due(config.last_update_check, now))
    }

    /// The user asks for a check: refused (`false`) while a check or a
    /// download is running; otherwise the state becomes `Checking` and the
    /// check should start.
    pub fn check_now(&mut self) -> (start: bool)
        ensures
            start == !(old(self).state@ is Checking || old(self).state@ is Downloading),
            start ==> final(self).state@ == UpdateStateView::Checking,
            !start ==> final(self).state@ == old(self).state@,
    {
        match self.state {
            UpdateState::Checking | UpdateState::Downloading => false,
            _ => {
                self.state = UpdateState::Checking;
                true
            },
        }
    }

    /// Records the outcome of a check the user asked for: `latest` is the
    /// newest release tag, `None` when it could not be fetched.
    pub fn finish_manual_check(&mut self, latest: Option<String>, current: &str, failure: &str)
        ensures
            final(self).state@ == after_manual_check(opt_str(latest), current@, failure@),
    {
        self.state = match latest {
            Some(tag) => if is_newer(tag.as_str(), current) {
                UpdateState::Available(tag)
            } else {
                UpdateState::UpToDate
            },
            None => {
                let mut e = String::new();
                push_str(&mut e, failure);
                assert(e@ =~= failure@);
                UpdateState::Error(e)
            },
        };
    }

    /// Records the outcome of a background check.
    pub fn finish_background_check(&mut self, latest: Option<String>, current: &str)
        ensures
            final(self).state@ == after_background_check(old(self).state@, opt_str(latest), current@),
    {
        match latest {
            Some(tag) => {
                self.state = if is_newer(tag.as_str(), current) {
                    UpdateState::Available(tag)
                } else {
                    UpdateState::UpToDate
                };
            },
            None => {},
        }
    }

    /// The user asks for the download: only when an update is available; the
    /// state becomes `Downloading` and the tag to download is returned.
    pub fn download_and_restart(&mut self) -> (tag: Option<String>)
        ensures
            old(self).state@ matches UpdateStateView::Available(t) ==> (tag matches Some(g) && g@ == t
                && final(self).state@ == UpdateStateView::Downloading),
            !(old(self).state@ is Available) ==> tag is None && final(self).state@ == old(self).state@,
    {
        let t = match &self.state {
            UpdateState::Available(t) => t.clone(),
            _ => return None,
        };
        self.state = UpdateState::Downloading;
        Some(t)
    }

    /// Records the outcome of the download.
    pub fn finish_download(&mut self, result: Result<(), String>)
        ensures
            result is Ok ==> final(self).state@ == UpdateStateView::ReadyToRestart,
            result matches Err(e) ==> final(self).state@ == UpdateStateView::Error(e@),
    {
        self.state = match result {
            Ok(()) => UpdateState::ReadyToRestart,
            Err(e) => UpdateState::Error(e),
        };
    }
}

/// Records a finished check in the settings: the time, and the newest tag
/// when it is newer than the running version (cleared when it is not, kept
/// when the check failed).
pub fn record_check(config: &mut Config, now: u64, latest: &Option<String>, current: &str)
    ensures
        final(config).last_update_check == Some(now),
        opt_str(final(config).update_available) == match opt_str(*latest) {
            Some(tag) => if newer_spec(tag, current@) {
                Some(tag)
            } else {
                None
            },
            None => opt_str(old(config).update_available),
        },
        final(config).default_browser == old(config).default_browser,
        final(config).rules == old(config).rules,
        final(config).browser_order == old(config).browser_order,
        final(config).cached_groups == old(config).cached_groups,
{
    config.last_update_check = Some(now);
    match latest {
        Some(tag) => {
            if is_newer(tag.as_str(), current) {
                config.update_available = Some(tag.clone());
            } else {
                config.update_available = None;
            }
        },
        None => {},
    }
}

/// The decimal digits of `n`, as `u64`'s `Display` writes them.
pub open spec fn decimal_spec(n: nat) -> Seq<char>
    decreases n,
{
    if n < 10 {
        seq![(48 + n) as char]
    } else {
        decimal_spec(n / 10).push((48 + n % 10) as char)
    }
}

/// The character of a decimal digit.
fn digit_char(d: u64) -> (c: char)
    requires
        d < 10,
    ensures
        c == (48 + d) as char,
{
    ((48 + d) as u8) as char
}

/// Appends the decimal digits of `n`.
pub fn push_decimal(out: &mut String, n: u64)
    ensures
        final(out)@ == old(out)@ + decimal_spec(n as nat),
    decreases n,
{
    if n >= 10 {
        push_decimal(out, n / 10);
    }
    out.push(digit_char(n % 10));
    proof {
        if n < 10 {
            assert(old(out)@ + decimal_spec(n as nat) =~= old(out)@.push((48 + n) as char));
        }
    }
}

/// The release API address that reports the latest release.
pub open spec fn latest_release_url_spec() -> Seq<char> {
    "https://api.github.com/repos/gentianster/brows/releases/latest"@
}

/// The download address of the executable of release `tag`.
pub open spec fn download_url_spec(tag: Seq<char>) -> Seq<char> {
    "https://github.com/gentianster/brows/releases/download/"@ + tag + "/brows.exe"@
}

/// The release API address that reports the latest release.
pub fn latest_release_url() -> (r: String)
    ensures
        r@ == latest_release_url_spec(),
{
    let mut r = String::new();
    push_str(&mut r, "https://api.github.com/repos/gentianster/brows/releases/latest");
    assert(r@ =~= latest_release_url_spec());
    r
}

/// The download address of the executable of release `tag`.
pub fn download_url(tag: &str) -> (r: String)
    ensures
        r@ == download_url_spec(tag@),
{
    let mut r = String::new();
    push_str(&mut r, "https://github.com/gentianster/brows/releases/download/");
    push_str(&mut r, tag);
    push_str(&mut r, "/brows.exe");
    assert(r@ =~= download_url_spec(tag@));
    r
}

/// The latest release's tag in the release API's answer.
pub fn latest_tag(body: &str) -> (r: Option<String>)
    ensures
        r matches Some(t) ==> crate::util::json_str_spec(body@, "tag_name"@) == Some(t@),
        r is None ==> crate::util::json_str_spec(body@, "tag_name"@) is None,
{
    crate::util::json_str(body, "tag_name")
}

/// The message for a download that the downloader reported as failed.
pub open spec fn download_failed_spec() -> Seq<char> {
    "ダウンロード失敗"@
}

/// The message for a download that is too small to be the program.
pub open spec fn bad_size_spec(len: u64) -> Seq<char> {
    "ファイルサイズ異常: "@ + decimal_spec(len as nat) + " bytes"@
}

/// The message for a download that is not a Windows executable.
pub open spec fn bad_header_spec() -> Seq<char> {
    "無効な実行ファイル（PE ヘッダーなし）"@
}

/// The message for a download that the downloader reported as failed.
pub fn download_failed() -> (r: String)
    ensures
        r@ == download_failed_spec(),
{
    let mut r = String::new();
    push_str(&mut r, "ダウンロード失敗");
    assert(r@ =~= download_failed_spec());
    r
}

/// Checks the size of a downloaded executable.
pub fn check_download_size(len: u64) -> (r: Result<(), String>)
    ensures
        len >= MIN_DOWNLOAD_BYTES ==> r is Ok,
        len < MIN_DOWNLOAD_BYTES ==> (r matches Err(e) && e@ == bad_size_spec(len)),
{
    if len < 100_000 {
        let mut e = String::new();
        push_str(&mut e, "ファイルサイズ異常: ");
        push_decimal(&mut e, len);
        push_str(&mut e, " bytes");
        assert(e@ =~= bad_size_spec(len));
        Err(e)
    } else {
        Ok(())
    }
}

/// Checks that a downloaded file starts with the `MZ` of a Windows executable.
pub fn check_download_header(header: &[u8; 2]) -> (r: Result<(), String>)
    ensures
        header@ == seq![77u8, 90u8] ==> r is Ok,
        header@ != seq![77u8, 90u8] ==> (r matches Err(e) && e@ == bad_header_spec()),
{
    if header[0] == 77u8 && header[1] == 90u8 {
        assert(header@ =~= seq![77u8, 90u8]);
        Ok(())
    } else {
        let mut e = String::new();
        push_str(&mut e, "無効な実行ファイル（PE ヘッダーなし）");
        assert(e@ =~= bad_header_spec());
        Err(e)
    }
}

/// The batch script that replaces the running executable `cur` by the
/// downloaded `new`, keeping the old one as `backup` until the move
/// succeeded (and putting it back when it did not), restarts the program as
/// a resident, and deletes itself.
pub open spec fn update_script_spec(cur: Seq<char>, backup: Seq<char>, new: Seq<char>) -> Seq<char> {
    "@echo off\r\ntimeout /t 2 /nobreak >nul\r\nmove /y \""@ + cur + "\" \""@ + backup
        + "\"\r\nif errorlevel 1 (\r\n  del \""@ + new
        + "\" 2>nul\r\n  del \"%~f0\"\r\n  exit /b 1\r\n)\r\nmove /y \""@ + new + "\" \""@ + cur
        + "\"\r\nif errorlevel 1 (\r\n  move /y \""@ + backup + "\" \""@ + cur + "\" 2>nul\r\n  del \""@
        + new + "\" 2>nul\r\n  del \"%~f0\"\r\n  exit /b 1\r\n)\r\nstart \"\" \""@ + cur
        + "\" --resident\r\ndel \"%~f0\""@
}

/// The batch script that installs a downloaded update.
pub fn update_script(cur: &str, backup: &str, new: &str) -> (r: String)
    ensures
        r@ == update_script_spec(cur@, backup@, new@),
{
    let mut r = String::new();
    push_str(&mut r, "@echo off\r\ntimeout /t 2 /nobreak >nul\r\nmove /y \"");
    push_str(&mut r, cur);
    push_str(&mut r, "\" \"");
    push_str(&mut r, backup);
    push_str(&mut r, "\"\r\nif errorlevel 1 (\r\n  del \"");
    push_str(&mut r, new);
    push_str(&mut r, "\" 2>nul\r\n  del \"%~f0\"\r\n  exit /b 1\r\n)\r\nmove /y \"");
    push_str(&mut r, new);
    push_str(&mut r, "\" \"");
    push_str(&mut r, cur);
    push_str(&mut r, "\"\r\nif errorlevel 1 (\r\n  move /y \"");
    push_str(&mut r, backup);
    push_str(&mut r, "\" \"");
    push_str(&mut r, cur);
    push_str(&mut r, "\" 2>nul\r\n  del \"");
    push_str(&mut r, new);
    push_str(&mut r, "\" 2>nul\r\n  del \"%~f0\"\r\n  exit /b 1\r\n)\r\nstart \"\" \"");
    push_str(&mut r, cur);
    push_str(&mut r, "\" --resident\r\ndel \"%~f0\"");
    assert(r@ =~= update_script_spec(cur@, backup@, new@));
    r
}

/// A recorded release is offered only when it is strictly later than the
/// running version; a recorded release that is not later, such as the one
/// now running after a self-update, shows up to date, as does no record.
pub proof fn law_offer_only_newer(recorded: Option<Seq<char>>, current: Seq<char>)
    ensures
        initial_state_spec(recorded, current) matches UpdateStateView::Available(t) ==> recorded == Some(t)
            && newer_spec(t, current),
        recorded is Some && newer_spec(recorded->0, current) ==> initial_state_spec(recorded, current)
            == UpdateStateView::Available(recorded->0),
        recorded is Some && !newer_spec(recorded->0, current) ==> initial_state_spec(recorded, current)
            == UpdateStateView::UpToDate,
        recorded is None ==> initial_state_spec(recorded, current) == UpdateStateView::UpToDate,
        initial_state_spec(recorded, current) is UpToDate || initial_state_spec(recorded, current) is Available,
{
}

/// A recorded tag that names the running version (the same numbers, such
/// as `v1.4.0` for `1.4.0`) shows up to date.
pub proof fn law_running_release_up_to_date(tag: Seq<char>, current: Seq<char>)
    requires
        crate::version::tag_numbers(tag) == crate::version::tag_numbers(current),
    ensures
        initial_state_spec(Some(tag), current) == UpdateStateView::UpToDate,
{
    crate::version::law_not_newer_than_itself(tag);
}

/// A check offers a release only when it is strictly later than the running
/// version; a failed manual check shows the failure, a failed background
/// check leaves the state as it was.
pub proof fn law_checks_offer_only_newer(
    latest: Option<Seq<char>>,
    current: Seq<char>,
    failure: Seq<char>,
    before: UpdateStateView,
)
    ensures
        after_manual_check(latest, current, failure) matches UpdateStateView::Available(t) ==> latest == Some(t)
            && newer_spec(t, current),
        latest is Some && !newer_spec(latest->0, current) ==> after_manual_check(latest, current, failure)
            == UpdateStateView::UpToDate,
        latest is None ==> after_manual_check(latest, current, failure) == UpdateStateView::Error(failure),
        latest is Some ==> (after_background_check(before, latest, current) matches UpdateStateView::Available(t)
            ==> latest == Some(t) && newer_spec(t, current)),
        latest is None ==> after_background_check(before, latest, current) == before,
        latest is Some && !newer_spec(latest->0, current) ==> after_background_check(before, latest, current)
            == UpdateStateView::UpToDate,
{
}

} // verus!
