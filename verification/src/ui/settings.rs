//! The settings screen's decisions: the browser names a rule can name,
//! which rules the search box leaves visible, which update control is
//! shown, and what a registration attempt leads to.

use vstd::prelude::*;
use crate::browser::{group_views, BrowserGroup, BrowserView, GroupView};
use crate::config::{string_views, Rule};
use crate::text::{chars_of, find, find_chars, lowercase, to_lowercase};
use crate::updater::{UpdateState, UpdateStateView};

verus! {

/// The names a rule can choose from: a group with one browser gives its own
/// name, a group with several gives the names of its profiles.
pub open spec fn names_of(gs: Seq<GroupView>) -> Seq<Seq<char>>
    decreases gs.len(),
{
    if gs.len() == 0 {
        Seq::empty()
    } else {
        let g = gs.last();
        names_of(gs.drop_last()) + if g.browsers.len() == 1 {
            seq![g.name]
        } else {
            g.browsers.map_values(|b: BrowserView| b.name)
        }
    }
}

/// The names a rule can choose from.
pub fn browser_names(groups: &Vec<BrowserGroup>) -> (r: Vec<String>)
    ensures
        string_views(r@) == names_of(group_views(groups@)),
{
    let mut r: Vec<String> = Vec::new();
    let mut i: usize = 0;
    assert(group_views(groups@).take(0) =~= Seq::<GroupView>::empty());
    assert(string_views(r@) =~= Seq::<Seq<char>>::empty());
    while i < groups.len()
        invariant
            i <= groups.len(),
            string_views(r@) == names_of(group_views(groups@).take(i as int)),
        decreases groups.len() - i,
    {
        let g = &groups[i];
        let ghost before = string_views(r@);
        let ghost gv = g@;
        proof {
            assert(group_views(groups@).take(i + 1).drop_last() =~= group_views(groups@).take(i as int));
            assert(group_views(groups@).take(i + 1).last() == gv);
        }
        if g.browsers.len() == 1 {
            r.push(g.name.clone());
            assert(string_views(r@) =~= before + seq![gv.name]);
        } else {
            let mut j: usize = 0;
            while j < g.browsers.len()
                invariant
                    j <= g.browsers.len(),
                    gv == g@,
                    string_views(r@) == before + gv.browsers.map_values(|b: BrowserView| b.name).take(j as int),
                decreases g.browsers.len() - j,
            {
                let n = g.browsers[j].name.clone();
                let ghost mid = r@;
                r.push(n);
                proof {
                    let m = gv.browsers.map_values(|b: BrowserView| b.name);
                    assert(m[j as int] == g.browsers@[j as int].name@);
                    assert(string_views(r@) =~= string_views(mid).push(n@));
                    assert(m.take(j + 1) =~= m.take(j as int).push(m[j as int]));
                }
                j += 1;
            }
            assert(gv.browsers.map_values(|b: BrowserView| b.name).take(g.browsers.len() as int)
                =~= gv.browsers.map_values(|b: BrowserView| b.name));
        }
        i += 1;
    }
    assert(group_views(groups@).take(groups.len() as int) =~= group_views(groups@));
    r
}

/// The browser a new rule names at first: the first browser of the first row.
pub open spec fn first_browser_name_spec(gs: Seq<GroupView>) -> Seq<char> {
    if gs.len() > 0 && gs[0].browsers.len() > 0 {
        gs[0].browsers[0].name
    } else {
        Seq::empty()
    }
}

/// The browser a new rule names at first.
pub fn first_browser_name(groups: &Vec<BrowserGroup>) -> (r: String)
    ensures
        r@ == first_browser_name_spec(group_views(groups@)),
{
    if groups.len() > 0 && groups[0].browsers.len() > 0 {
        groups[0].browsers[0].name.clone()
    } else {
        String::new()
    }
}

/// A rule stays visible for a search when the lowercased search is empty
/// or occurs in its lowercased pattern or browser name.
pub open spec fn rule_visible_spec(rule: Rule, search: Seq<char>) -> bool {
    let q = lowercase(search);
    q.len() == 0 || find(lowercase(rule.pattern@), q) is Some || find(lowercase(rule.browser@), q) is Some
}

/// The positions of the rules that stay visible for a search, in order.
pub open spec fn visible_rules_spec(rules: Seq<Rule>, search: Seq<char>) -> Seq<int>
    decreases rules.len(),
{
    if rules.len() == 0 {
        Seq::empty()
    } else {
        let prev = visible_rules_spec(rules.drop_last(), search);
        if rule_visible_spec(rules.last(), search) {
            prev.push(rules.len() - 1)
        } else {
            prev
        }
    }
}

/// Does `q` occur in the lowercased `s`?
fn occurs_lowered(s: &String, q: &Vec<char>) -> (r: bool)
    ensures
        r == (find(lowercase(s@), q@) is Some),
{
    let l = to_lowercase(s.as_str());
    let v = chars_of(l.as_str());
    find_chars(&v, q).is_some()
}

/// The positions of the rules that stay visible for a search.
pub fn visible_rules(rules: &Vec<Rule>, search: &str) -> (r: Vec<usize>)
    ensures
        r@.map_values(|i: usize| i as int) == visible_rules_spec(rules@, search@),
{
    let ql = to_lowercase(search);
    let q = chars_of(ql.as_str());
    let mut r: Vec<usize> = Vec::new();
    let mut i: usize = 0;
    assert(rules@.take(0) =~= Seq::<Rule>::empty());
    assert(r@.map_values(|i: usize| i as int) =~= Seq::<int>::empty());
    while i < rules.len()
        invariant
            i <= rules.len(),
            q@ == lowercase(search@),
            r@.map_values(|i: usize| i as int) == visible_rules_spec(rules@.take(i as int), search@),
        decreases rules.len() - i,
    {
        proof {
            assert(rules@.take(i + 1).drop_last() =~= rules@.take(i as int));
            assert(rules@.take(i + 1).last() == rules@[i as int]);
        }
        let visible = q.len() == 0 || occurs_lowered(&rules[i].pattern, &q) || occurs_lowered(&rules[i].browser, &q);
        if visible {
            let ghost before = r@;
            r.push(i);
            assert(r@.map_values(|i: usize| i as int) =~= before.map_values(|i: usize| i as int).push(i as int));
        }
        i += 1;
    }
    assert(rules@.take(rules.len() as int) =~= rules@);
    r
}

/// A rule can be added when both its pattern and its browser are chosen.
pub fn can_add_rule(pattern: &str, browser: &str) -> (r: bool)
    ensures
        r == (pattern@.len() > 0 && browser@.len() > 0),
{
    pattern.unicode_len() > 0 && browser.unicode_len() > 0
}

/// The control next to the update status.
#[derive(Debug)]
pub enum UpdateControl {
    /// A button that checks for updates now.
    CheckButton,
    /// A button that downloads the available release.
    DownloadButton,
    /// A button that restarts into the downloaded release.
    RestartButton,
    /// No button while work is under way; the screen keeps repainting.
    Busy,
}

/// Up to date or after an error, a check can be asked for; a found release
/// can be downloaded; a finished download can be restarted into; while
/// checking or downloading there is nothing to press.
pub open spec fn update_control_spec(state: UpdateStateView) -> UpdateControl {
    match state {
        UpdateStateView::UpToDate => UpdateControl::CheckButton,
        UpdateStateView::Error(_) => UpdateControl::CheckButton,
        UpdateStateView::Available(_) => UpdateControl::DownloadButton,
        UpdateStateView::ReadyToRestart => UpdateControl::RestartButton,
        UpdateStateView::Checking => UpdateControl::Busy,
        UpdateStateView::Downloading => UpdateControl::Busy,
    }
}

/// The control shown for an update state.
pub fn update_control(state: &UpdateState) -> (r: UpdateControl)
    ensures
        r == update_control_spec(state@),
{
    match state {
        UpdateState::UpToDate => UpdateControl::CheckButton,
        UpdateState::Error(_) => UpdateControl::CheckButton,
        UpdateState::Available(_) => UpdateControl::DownloadButton,
        UpdateState::ReadyToRestart => UpdateControl::RestartButton,
        UpdateState::Checking => UpdateControl::Busy,
        UpdateState::Downloading => UpdateControl::Busy,
    }
}

/// What follows an attempt to register (or unregister) the program.
#[derive(Debug)]
pub enum RegistrationOutcome {
    /// It worked: show the registration state `registered` and its message.
    Done { registered: bool },
    /// It failed for want of rights: run the program again elevated with
    /// `--register` (`register`) or `--unregister`, and close this window.
    Elevate { register: bool },
}

/// The outcome of registering (`register`) or unregistering, given whether it succeeded.
pub fn registration_outcome(register: bool, succeeded: bool) -> (r: RegistrationOutcome)
    ensures
        succeeded ==> r == (RegistrationOutcome::Done { registered: register }),
        !succeeded ==> r == (RegistrationOutcome::Elevate { register: register }),
{
    if succeeded {
        RegistrationOutcome::Done { registered: register }
    } else {
        RegistrationOutcome::Elevate { register }
    }
}

/// The argument that repeats an attempt elevated.
pub fn elevation_arg(register: bool) -> (r: &'static str)
    ensures
        register ==> r@ == "--register"@,
        !register ==> r@ == "--unregister"@,
{
    if register {
        "--register"
    } else {
        "--unregister"
    }
}

} // verus!
