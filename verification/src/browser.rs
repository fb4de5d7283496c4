//! Installed browsers, their Chromium profiles, and how they are grouped for the picker.

use vstd::prelude::*;
use crate::text::{
    chars_of, find, find_chars, find_chars_from, lemma_find, lemma_find_from_props, matches_at,
    occurs_at, bytes_window, bytes_window_from, starts_with, string_from, trim, trim_bounds,
};
use crate::util::{json_key, json_key_chars, json_str_in, json_str_spec, lemma_find_shift};

verus! {

/// One way of opening a link: a browser executable, optionally with a Chromium profile.
#[derive(Debug)]
pub struct Browser {
    pub name: String,
    pub exe_path: String,
    /// The value for `--profile-directory`.
    pub profile_dir: Option<String>,
}

/// One row of the picker: an executable and the profiles it can be opened with.
/// A group with a single browser is opened directly.
#[derive(Debug)]
pub struct BrowserGroup {
    pub name: String,
    pub exe_path: String,
    pub browsers: Vec<Browser>,
}

/// What a [`Browser`] is, as a value.
pub struct BrowserView {
    pub name: Seq<char>,
    pub exe_path: Seq<char>,
    pub profile_dir: Option<Seq<char>>,
}

/// What a [`BrowserGroup`] is, as a value.
pub struct GroupView {
    pub name: Seq<char>,
    pub exe_path: Seq<char>,
    pub browsers: Seq<BrowserView>,
}

/// The value of an optional string.
pub open spec fn opt_view(s: Option<String>) -> Option<Seq<char>> {
    match s {
        Some(x) => Some(x@),
        None => None,
    }
}

impl View for Browser {
    type V = BrowserView;

    open spec fn view(&self) -> BrowserView {
        BrowserView { name: self.name@, exe_path: self.exe_path@, profile_dir: opt_view(self.profile_dir) }
    }
}

/// The values of a sequence of browsers.
pub open spec fn browser_views(s: Seq<Browser>) -> Seq<BrowserView> {
    s.map_values(|b: Browser| b@)
}

impl View for BrowserGroup {
    type V = GroupView;

    open spec fn view(&self) -> GroupView {
        GroupView { name: self.name@, exe_path: self.exe_path@, browsers: browser_views(self.browsers@) }
    }
}

/// The values of a sequence of groups.
pub open spec fn group_views(s: Seq<BrowserGroup>) -> Seq<GroupView> {
    s.map_values(|g: BrowserGroup| g@)
}

/// Copies an optional string.
pub fn copy_opt_string(s: &Option<String>) -> (r: Option<String>)
    ensures
        r == *s,
{
    match s {
        Some(x) => Some(x.clone()),
        None => None,
    }
}

impl Clone for Browser {
    fn clone(&self) -> (r: Self)
        ensures
            r == *self,
    {
        Browser {
            name: self.name.clone(),
            exe_path: self.exe_path.clone(),
            profile_dir: copy_opt_string(&self.profile_dir),
        }
    }
}

impl Clone for BrowserGroup {
    fn clone(&self) -> (r: Self)
        ensures
            r@ == self@,
    {
        let browsers = self.browsers.clone();
        proof {
            assert forall|i: int| 0 <= i < browsers.len() implies browsers@[i] == self.browsers@[i] by {
                assert(cloned::<Browser>(self.browsers[i], browsers[i]));
            }
            assert(browser_views(browsers@) =~= browser_views(self.browsers@));
        }
        BrowserGroup { name: self.name.clone(), exe_path: self.exe_path.clone(), browsers }
    }
}

/// `.exe` stands at position `i` of `s`, in any letter case.
pub open spec fn exe_at(s: Seq<char>, i: int) -> bool {
    &&& 0 <= i
    &&& i + 4 <= s.len()
    &&& s[i] == '.'
    &&& (s[i + 1] == 'e' || s[i + 1] == 'E')
    &&& (s[i + 2] == 'x' || s[i + 2] == 'X')
    &&& (s[i + 3] == 'e' || s[i + 3] == 'E')
}

/// The first position at or after `i` where `.exe` stands, in any letter case.
pub open spec fn exe_from(s: Seq<char>, i: int) -> Option<int>
    decreases s.len() - i,
{
    if i < 0 || i + 4 > s.len() {
        None
    } else if exe_at(s, i) {
        Some(i)
    } else {
        exe_from(s, i + 1)
    }
}

/// The executable path in a registry `shell\open\command` value such as
/// `"C:\path\browser.exe" "%1"`: after trimming, a quoted path is taken up
/// to its closing quote (or to the end); otherwise the text up to and
/// including the first `.exe` (in any case); otherwise the text up to the
/// first space.
pub open spec fn extract_exe_spec(cmd: Seq<char>) -> Seq<char> {
    let c = trim(cmd);
    if c.len() > 0 && c[0] == '"' {
        let rest = c.drop_first();
        match find(rest, seq!['"']) {
            Some(e) => rest.take(e),
            None => rest,
        }
    } else {
        match exe_from(c, 0) {
            Some(p) => c.take(p + 4),
            None => match find(c, seq![' ']) {
                Some(e) => c.take(e),
                None => c,
            },
        }
    }
}

/// Extracts the executable path from a registry command line.
pub fn extract_exe(cmd: &str) -> (r: String)
    ensures
        r@ == extract_exe_spec(cmd@),
{
    let v = chars_of(cmd);
    let (a, b) = trim_bounds(&v);
    let ghost c = trim(cmd@);
    let mut w: Vec<char> = Vec::new();
    let mut i = a;
    while i < b
        invariant
            a <= i <= b <= v.len(),
            v@.subrange(a as int, b as int) == c,
            w@ == c.take(i - a),
        decreases b - i,
    {
        w.push(v[i]);
        assert(c.take(i + 1 - a) =~= c.take(i - a).push(c[i - a]));
        i += 1;
    }
    assert(w@ =~= c);
    if w.len() > 0 && w[0] == '"' {
        let mut quote: Vec<char> = Vec::new();
        quote.push('"');
        assert(quote@ =~= seq!['"']);
        proof {
            crate::util::lemma_find_shift(w@, quote@, 1);
            lemma_find_from_props(w@, quote@, 1);
            assert(w@.skip(1) =~= c.drop_first());
        }
        match find_chars_from(&w, &quote, 1) {
            Some(e) => {
                proof {
                    assert(c.drop_first().take(e - 1) =~= w@.subrange(1, e as int));
                }
                return string_from(&w, 1, e);
            },
            None => {
                assert(c.drop_first() =~= w@.subrange(1, w.len() as int));
                return string_from(&w, 1, w.len());
            },
        }
    }
    let mut j: usize = 0;
    while j < w.len() && w.len() - j >= 4
        invariant
            j <= w.len(),
            w@ == c,
            c == trim(cmd@),
            !(c.len() > 0 && c[0] == '"'),
            exe_from(c, 0) == exe_from(c, j as int),
        decreases w.len() - j,
    {
        if w[j] == '.' && (w[j + 1] == 'e' || w[j + 1] == 'E') && (w[j + 2] == 'x' || w[j + 2]
            == 'X') && (w[j + 3] == 'e' || w[j + 3] == 'E') {
            assert(exe_at(c, j as int));
            assert(exe_from(c, j as int) == Some(j as int));
            assert(c.take(j + 4) =~= w@.subrange(0, j + 4));
            return string_from(&w, 0, j + 4);
        }
        j += 1;
    }
    let mut space: Vec<char> = Vec::new();
    space.push(' ');
    assert(space@ =~= seq![' ']);
    proof {
        lemma_find(w@, space@);
    }
    match find_chars(&w, &space) {
        Some(e) => {
            assert(c.take(e as int) =~= w@.subrange(0, e as int));
            string_from(&w, 0, e)
        },
        None => {
            assert(c =~= w@.subrange(0, w.len() as int));
            string_from(&w, 0, w.len())
        },
    }
}

/// The name shown for a browser: the registry key's default value, else its
/// `Capabilities\ApplicationName`, else the key's own name (empty values do not count).
pub open spec fn display_name_spec(
    default_value: Option<Seq<char>>,
    app_name: Option<Seq<char>>,
    key_name: Seq<char>,
) -> Seq<char> {
    match default_value {
        Some(d) if d.len() > 0 => d,
        _ => match app_name {
            Some(n) if n.len() > 0 => n,
            _ => key_name,
        },
    }
}

/// Chooses the name shown for a browser from what its registry key holds.
pub fn display_name(default_value: &Option<String>, app_name: &Option<String>, key_name: &str) -> (r: String)
    ensures
        r@ == display_name_spec(opt_view(*default_value), opt_view(*app_name), key_name@),
{
    if let Some(d) = default_value {
        if d.as_str().unicode_len() > 0 {
            return d.clone();
        }
    }
    if let Some(n) = app_name {
        if n.as_str().unicode_len() > 0 {
            return n.clone();
        }
    }
    let v = chars_of(key_name);
    string_from(&v, 0, v.len())
}

/// The characters after the `{` that opens the entry for profile `dir`
/// inside `"info_cache":` of Chromium's `Local State`, when every step of
/// locating it succeeds.
pub open spec fn profile_object(ls: Seq<char>, dir: Seq<char>) -> Option<Seq<char>> {
    match find(ls, "\"info_cache\":"@) {
        None => None,
        Some(cp) => match find(ls.skip(cp), seq!['{']) {
            None => None,
            Some(b) => {
                let body = ls.skip(cp + b + 1);
                let key = json_key(dir);
                match find(body, key) {
                    None => None,
                    Some(kp) => {
                        let after = body.skip(kp + key.len());
                        match find(after, seq!['{']) {
                            None => None,
                            Some(ob) => Some(after.skip(ob + 1)),
                        }
                    },
                }
            },
        },
    }
}

/// The display name of profile `dir` in `Local State`: the `"name"` value
/// within the first 2048 bytes (cut back to a character boundary) of its
/// entry in `info_cache`.
pub open spec fn profile_name_spec(ls: Seq<char>, dir: Seq<char>) -> Option<Seq<char>> {
    match profile_object(ls, dir) {
        None => None,
        Some(rest) => json_str_spec(rest.take(bytes_window(rest, 2048) as int), "name"@),
    }
}

/// The position just after the `{` that opens profile `dir`'s entry, if there is one.
#[verifier::rlimit(40)]
fn profile_object_at(v: &Vec<char>, dir: &str) -> (r: Option<usize>)
    ensures
        r matches Some(o) ==> o <= v.len() && profile_object(v@, dir@) == Some(v@.skip(o as int)),
        r is None ==> profile_object(v@, dir@) is None,
{
    let ghost ls = v@;
    let total = v.len();
    let tag = chars_of("\"info_cache\":");
    let mut brace: Vec<char> = Vec::new();
    brace.push('{');
    assert(brace@ =~= seq!['{']);
    assert(ls.skip(0) =~= ls);
    proof { lemma_find_shift(ls, tag@, 0); }
    let cp = match find_chars_from(v, &tag, 0) {
        None => return None,
        Some(cp) => cp,
    };
    proof {
        lemma_find_from_props(ls, tag@, 0);
        lemma_find_shift(ls, brace@, cp as int);
    }
    let b = match find_chars_from(v, &brace, cp) {
        None => return None,
        Some(b) => b,
    };
    proof {
        lemma_find_from_props(ls, brace@, cp as int);
        assert(crate::text::occurs_at(ls, brace@, b as int));
        assert(ls.skip(cp as int).skip(b - cp + 1) =~= ls.skip(b + 1));
    }
    assert(b + 1 <= total);
    let start = b + 1;
    let key = json_key_chars(dir);
    proof { lemma_find_shift(ls, key@, start as int); }
    let kp = match find_chars_from(v, &key, start) {
        None => return None,
        Some(kp) => kp,
    };
    proof {
        lemma_find_from_props(ls, key@, start as int);
        assert(crate::text::occurs_at(ls, key@, kp as int));
        assert(ls.skip(start as int).skip(kp - start + key.len()) =~= ls.skip(kp + key.len()));
    }
    assert(kp + key.len() <= total);
    let after = kp + key.len();
    proof { lemma_find_shift(ls, brace@, after as int); }
    let ob = match find_chars_from(v, &brace, after) {
        None => return None,
        Some(ob) => ob,
    };
    proof {
        lemma_find_from_props(ls, brace@, after as int);
        assert(crate::text::occurs_at(ls, brace@, ob as int));
        assert(ls.skip(after as int).skip(ob - after + 1) =~= ls.skip(ob + 1));
    }
    Some(ob + 1)
}

/// The display name of profile `dir_name` recorded in Chromium's `Local State`.
pub fn profile_name_from_local_state(local_state: &str, dir_name: &str) -> (r: Option<String>)
    ensures
        r matches Some(n) ==> profile_name_spec(local_state@, dir_name@) == Some(n@),
        r is None ==> profile_name_spec(local_state@, dir_name@) is None,
{
    let v = chars_of(local_state);
    let o = match profile_object_at(&v, dir_name) {
        None => return None,
        Some(o) => o,
    };
    let k = bytes_window_from(&v, o, 2048);
    let ghost rest = v@.skip(o as int);
    let mut w: Vec<char> = Vec::new();
    let mut i: usize = 0;
    while i < k
        invariant
            i <= k <= rest.len(),
            o + rest.len() == v.len(),
            rest == v@.skip(o as int),
            w@ == rest.take(i as int),
        decreases k - i,
    {
        w.push(v[o + i]);
        assert(rest.take(i + 1) =~= rest.take(i as int).push(rest[i as int]));
        i += 1;
    }
    assert(w@.skip(0) =~= rest.take(k as int));
    json_str_in(&w, 0, "name")
}

/// A directory found in Chromium's `User Data` folder.
pub struct ProfileEntry {
    pub dir_name: String,
    /// The directory holds a `Preferences` file.
    pub has_preferences: bool,
}

/// `Default`, the first profile's directory.
pub open spec fn default_dir() -> Seq<char> {
    seq!['D', 'e', 'f', 'a', 'u', 'l', 't']
}

/// `Profile `, the prefix of the other profiles' directories.
pub open spec fn profile_prefix() -> Seq<char> {
    seq!['P', 'r', 'o', 'f', 'i', 'l', 'e', ' ']
}

/// A directory is a profile when it is `Default` or `Profile …` and holds `Preferences`.
pub open spec fn is_profile(e: ProfileEntry) -> bool {
    (e.dir_name@ == default_dir() || starts_with(e.dir_name@, profile_prefix())) && e.has_preferences
}

/// A profile's display name: its name in `Local State`, else its directory name.
pub open spec fn display_of(ls: Seq<char>, dir: Seq<char>) -> Seq<char> {
    match profile_name_spec(ls, dir) {
        Some(n) => n,
        None => dir,
    }
}

/// The (display name, directory) pairs of the profiles among `es`, in their order.
pub open spec fn candidates(ls: Seq<char>, es: Seq<ProfileEntry>) -> Seq<(Seq<char>, Seq<char>)>
    decreases es.len(),
{
    if es.len() == 0 {
        Seq::empty()
    } else {
        let prev = candidates(ls, es.drop_last());
        let e = es.last();
        if is_profile(e) {
            prev.push((display_of(ls, e.dir_name@), e.dir_name@))
        } else {
            prev
        }
    }
}

/// `a < b` as `String` compares: by code point, a proper prefix first.
pub open spec fn chars_less(a: Seq<char>, b: Seq<char>) -> bool
    decreases a.len(),
{
    if a.len() == 0 {
        b.len() > 0
    } else if b.len() == 0 {
        false
    } else if a[0] != b[0] {
        (a[0] as u32) < (b[0] as u32)
    } else {
        chars_less(a.drop_first(), b.drop_first())
    }
}

/// Directory `a` is listed before directory `b`: `Default` first, the rest by name.
pub open spec fn profile_before(a: Seq<char>, b: Seq<char>) -> bool {
    if a == default_dir() {
        b != default_dir()
    } else if b == default_dir() {
        false
    } else {
        chars_less(a, b)
    }
}

/// No profile is listed after one that should follow it.
pub open spec fn profiles_sorted(r: Seq<(Seq<char>, Seq<char>)>) -> bool {
    forall|i: int, j: int| 0 <= i < j < r.len() ==> !profile_before(#[trigger] r[j].1, #[trigger] r[i].1)
}

/// The values of (display name, directory) pairs.
pub open spec fn pair_views(v: Seq<(String, String)>) -> Seq<(Seq<char>, Seq<char>)> {
    v.map_values(|p: (String, String)| (p.0@, p.1@))
}

/// String order is transitive.
pub proof fn lemma_chars_less_transitive(a: Seq<char>, b: Seq<char>, c: Seq<char>)
    requires
        chars_less(a, b),
        chars_less(b, c),
    ensures
        chars_less(a, c),
    decreases a.len(),
{
    if a.len() > 0 && b.len() > 0 && c.len() > 0 && a[0] == b[0] && b[0] == c[0] {
        lemma_chars_less_transitive(a.drop_first(), b.drop_first(), c.drop_first());
    }
}

/// The profile order is transitive.
pub proof fn lemma_profile_before_transitive(a: Seq<char>, b: Seq<char>, c: Seq<char>)
    requires
        profile_before(a, b),
        profile_before(b, c),
    ensures
        profile_before(a, c),
{
    if a != default_dir() {
        lemma_chars_less_transitive(a, b, c);
    }
}

/// `a < b` as `String` compares.
pub fn chars_less_exec(a: &Vec<char>, b: &Vec<char>) -> (r: bool)
    ensures
        r == chars_less(a@, b@),
{
    let mut i: usize = 0;
    assert(a@.skip(0) =~= a@);
    assert(b@.skip(0) =~= b@);
    while i < a.len() && i < b.len()
        invariant
            i <= a.len(),
            i <= b.len(),
            chars_less(a@, b@) == chars_less(a@.skip(i as int), b@.skip(i as int)),
        decreases a.len() - i,
    {
        proof {
            assert(a@.skip(i as int).drop_first() =~= a@.skip(i + 1));
            assert(b@.skip(i as int).drop_first() =~= b@.skip(i + 1));
        }
        if a[i] != b[i] {
            return (a[i] as u32) < (b[i] as u32);
        }
        i += 1;
    }
    i == a.len() && i < b.len()
}

/// Is this directory name `Default`?
fn is_default_dir(v: &Vec<char>) -> (r: bool)
    ensures
        r == (v@ == default_dir()),
{
    let d = chars_of("Default");
    proof {
        reveal_strlit("Default");
        assert(d@ =~= default_dir());
    }
    if v.len() != d.len() {
        return false;
    }
    let r = matches_at(v, &d, 0);
    assert(v@.subrange(0, d.len() as int) =~= v@);
    r
}

/// Should directory `a` be listed before directory `b`?
fn profile_before_exec(a: &Vec<char>, b: &Vec<char>) -> (r: bool)
    ensures
        r == profile_before(a@, b@),
{
    let ad = is_default_dir(a);
    let bd = is_default_dir(b);
    if ad {
        !bd
    } else if bd {
        false
    } else {
        chars_less_exec(a, b)
    }
}

/// Is this directory one of Chromium's profile directories (by its name)?
fn is_profile_dir_name(v: &Vec<char>) -> (r: bool)
    ensures
        r == (v@ == default_dir() || starts_with(v@, profile_prefix())),
{
    let p = chars_of("Profile ");
    proof {
        reveal_strlit("Profile ");
        assert(p@ =~= profile_prefix());
    }
    is_default_dir(v) || crate::text::starts_with_chars(v, &p)
}

/// The profiles of a Chromium browser, given its `Local State` text and the
/// directories of its `User Data` folder: `Default` and `Profile …`
/// directories that hold `Preferences`, each with its display name, listed
/// `Default` first and then by directory name. `None` when there is none.
pub fn select_profiles(local_state: &str, entries: &Vec<ProfileEntry>) -> (r: Option<Vec<(String, String)>>)
    ensures
        r is None <==> candidates(local_state@, entries@).len() == 0,
        r matches Some(v) ==> pair_views(v@).to_multiset() == candidates(local_state@, entries@).to_multiset()
            && profiles_sorted(pair_views(v@)),
{
    broadcast use vstd::seq_lib::to_multiset_build, vstd::seq_lib::to_multiset_insert;

    let ghost ls = local_state@;
    let mut out: Vec<(String, String)> = Vec::new();
    let mut dirs: Vec<Vec<char>> = Vec::new();
    let mut i: usize = 0;
    proof {
        assert(entries@.take(0) =~= Seq::<ProfileEntry>::empty());
        assert(pair_views(out@) =~= Seq::<(Seq<char>, Seq<char>)>::empty());
    }
    while i < entries.len()
        invariant
            i <= entries.len(),
            ls == local_state@,
            dirs.len() == out.len(),
            forall|k: int| 0 <= k < out.len() ==> #[trigger] dirs@[k]@ == out@[k].1@,
            pair_views(out@).to_multiset() == candidates(ls, entries@.take(i as int)).to_multiset(),
            profiles_sorted(pair_views(out@)),
        decreases entries.len() - i,
    {
        let e = &entries[i];
        let name = chars_of(e.dir_name.as_str());
        proof {
            assert(entries@.take(i + 1).drop_last() =~= entries@.take(i as int));
            assert(entries@.take(i + 1).last() == entries@[i as int]);
        }
        if is_profile_dir_name(&name) && e.has_preferences {
            proof {
                assert(is_profile(entries@[i as int]));
            }
            let display = match profile_name_from_local_state(local_state, e.dir_name.as_str()) {
                Some(n) => n,
                None => e.dir_name.clone(),
            };
            let ghost old_out = pair_views(out@);
            let ghost x = (display@, e.dir_name@);
            let mut p: usize = 0;
            while p < out.len() && !profile_before_exec(&name, &dirs[p])
                invariant
                    p <= out.len(),
                    dirs.len() == out.len(),
                    forall|k: int| 0 <= k < out.len() ==> #[trigger] dirs@[k]@ == out@[k].1@,
                    old_out == pair_views(out@),
                    name@ == e.dir_name@,
                    forall|k: int| 0 <= k < p ==> !profile_before(name@, #[trigger] old_out[k].1),
                decreases out.len() - p,
            {
                p += 1;
            }
            proof {
                if p < out.len() {
                    assert(profile_before(name@, old_out[p as int].1));
                }
            }
            out.insert(p, (display, e.dir_name.clone()));
            dirs.insert(p, name);
            proof {
                let nw = pair_views(out@);
                assert(nw =~= old_out.insert(p as int, x));
                assert(x == (display_of(ls, e.dir_name@), e.dir_name@));
                assert(candidates(ls, entries@.take(i + 1)) == candidates(ls, entries@.take(i as int)).push(x));
                vstd::seq_lib::to_multiset_insert(old_out, p as int, x);
                vstd::seq_lib::to_multiset_build(candidates(ls, entries@.take(i as int)), x);
                assert(nw.to_multiset() == old_out.to_multiset().insert(x));
                assert forall|k: int| 0 <= k < out.len() implies #[trigger] dirs@[k]@ == out@[k].1@ by {
                    if k < p {
                    } else if k == p {
                    } else {
                    }
                }
                assert forall|a: int, c: int| 0 <= a < c < nw.len() implies !profile_before(
                    #[trigger] nw[c].1,
                    #[trigger] nw[a].1,
                ) by {
                    if a < p && c < p {
                        assert(nw[a] == old_out[a] && nw[c] == old_out[c]);
                    } else if a < p && c == p {
                        assert(nw[a] == old_out[a]);
                    } else if a < p {
                        assert(nw[a] == old_out[a] && nw[c] == old_out[c - 1]);
                    } else if a == p {
                        assert(nw[c] == old_out[c - 1]);
                        if profile_before(nw[c].1, x.1) {
                            lemma_profile_before_transitive(nw[c].1, x.1, old_out[p as int].1);
                            assert(!profile_before(old_out[c - 1].1, old_out[p as int].1) || c - 1 == p);
                            if c - 1 == p {
                                lemma_profile_before_irreflexive(x.1, old_out[p as int].1);
                            }
                        }
                    } else {
                        assert(nw[a] == old_out[a - 1] && nw[c] == old_out[c - 1]);
                    }
                }
            }
        } else {
            proof {
                assert(!is_profile(entries@[i as int]));
                assert(candidates(ls, entries@.take(i + 1)) == candidates(ls, entries@.take(i as int)));
            }
        }
        i += 1;
    }
    proof {
        assert(entries@.take(entries.len() as int) =~= entries@);
        vstd::seq_lib::to_multiset_len(pair_views(out@));
        vstd::seq_lib::to_multiset_len(candidates(ls, entries@));
    }
    if out.len() == 0 {
        None
    } else {
        Some(out)
    }
}

/// The group a browser forms in the picker: its profiles when it has more
/// than one, otherwise the browser alone.
pub open spec fn group_of(b: BrowserView, profiles: Seq<(Seq<char>, Seq<char>)>) -> GroupView {
    if profiles.len() > 1 {
        GroupView {
            name: b.name,
            exe_path: b.exe_path,
            browsers: profiles.map_values(
                |p: (Seq<char>, Seq<char>)|
                    BrowserView { name: p.0, exe_path: b.exe_path, profile_dir: Some(p.1) },
            ),
        }
    } else {
        GroupView { name: b.name, exe_path: b.exe_path, browsers: seq![b] }
    }
}

/// Groups the detected browsers for the picker. `profiles[i]` lists the
/// (display name, directory) profiles found for `base[i]` (empty when it is
/// not a Chromium browser); a browser with several profiles becomes a group
/// of one entry per profile, any other browser a group of its own.
pub fn group_browsers(base: &Vec<Browser>, profiles: &Vec<Vec<(String, String)>>) -> (r: Vec<BrowserGroup>)
    requires
        base.len() == profiles.len(),
    ensures
        r.len() == base.len(),
        forall|i: int| 0 <= i < base.len() ==> #[trigger] r@[i]@ == group_of(base@[i]@, pair_views(profiles@[i]@)),
{
    let mut r: Vec<BrowserGroup> = Vec::new();
    let mut i: usize = 0;
    while i < base.len()
        invariant
            i <= base.len() == profiles.len(),
            r.len() == i,
            forall|k: int| 0 <= k < i ==> #[trigger] r@[k]@ == group_of(base@[k]@, pair_views(profiles@[k]@)),
        decreases base.len() - i,
    {
        let b = &base[i];
        let ps = &profiles[i];
        if ps.len() > 1 {
            let mut browsers: Vec<Browser> = Vec::new();
            let mut j: usize = 0;
            while j < ps.len()
                invariant
                    j <= ps.len(),
                    browsers.len() == j,
                    forall|k: int| 0 <= k < j ==> #[trigger] browsers@[k]@ == (BrowserView {
                        name: ps@[k].0@,
                        exe_path: b.exe_path@,
                        profile_dir: Some(ps@[k].1@),
                    }),
                decreases ps.len() - j,
            {
                browsers.push(Browser {
                    name: ps[j].0.clone(),
                    exe_path: b.exe_path.clone(),
                    profile_dir: Some(ps[j].1.clone()),
                });
                j += 1;
            }
            let g = BrowserGroup { name: b.name.clone(), exe_path: b.exe_path.clone(), browsers };
            proof {
                assert(g@.browsers =~= group_of(b@, pair_views(ps@)).browsers);
            }
            r.push(g);
        } else {
            let mut browsers: Vec<Browser> = Vec::new();
            browsers.push(b.clone());
            let g = BrowserGroup { name: b.name.clone(), exe_path: b.exe_path.clone(), browsers };
            proof {
                assert(g@.browsers =~= seq![b@]);
            }
            r.push(g);
        }
        i += 1;
    }
    r
}

/// What the registry holds for one `StartMenuInternet` client.
pub struct RegistryClient {
    /// The client's key name.
    pub key_name: String,
    /// The default value of `shell\open\command` (empty when unset); `None`
    /// when that key cannot be opened.
    pub command: Option<String>,
    /// The key's default value, if it has one.
    pub default_value: Option<String>,
    /// `Capabilities\ApplicationName`, if present.
    pub app_name: Option<String>,
}

/// The browser a registry client stands for: none without a command or
/// when no executable path can be taken from it.
pub open spec fn client_browser(c: RegistryClient) -> Option<BrowserView> {
    match c.command {
        None => None,
        Some(cmd) => {
            let exe = extract_exe_spec(cmd@);
            if exe.len() == 0 {
                None
            } else {
                Some(
                    BrowserView {
                        name: display_name_spec(opt_view(c.default_value), opt_view(c.app_name), c.key_name@),
                        exe_path: exe,
                        profile_dir: None,
                    },
                )
            }
        },
    }
}

/// Some browser in `bs` has this executable path.
pub open spec fn has_exe(bs: Seq<BrowserView>, exe: Seq<char>) -> bool {
    exists|i: int| 0 <= i < bs.len() && #[trigger] bs[i].exe_path == exe
}

/// The browsers of the machine-wide clients, in order.
pub open spec fn machine_browsers(cs: Seq<RegistryClient>) -> Seq<BrowserView>
    decreases cs.len(),
{
    if cs.len() == 0 {
        Seq::empty()
    } else {
        let prev = machine_browsers(cs.drop_last());
        match client_browser(cs.last()) {
            Some(b) => prev.push(b),
            None => prev,
        }
    }
}

/// The browsers after adding the per-user clients to `acc`, skipping an
/// executable that is already listed.
pub open spec fn with_user_browsers(acc: Seq<BrowserView>, cs: Seq<RegistryClient>) -> Seq<BrowserView>
    decreases cs.len(),
{
    if cs.len() == 0 {
        acc
    } else {
        let prev = with_user_browsers(acc, cs.drop_last());
        match client_browser(cs.last()) {
            Some(b) => if has_exe(prev, b.exe_path) {
                prev
            } else {
                prev.push(b)
            },
            None => prev,
        }
    }
}

/// The browser a registry client stands for.
pub fn browser_of_client(c: &RegistryClient) -> (r: Option<Browser>)
    ensures
        r matches Some(b) ==> client_browser(*c) == Some(b@),
        r is None ==> client_browser(*c) is None,
{
    match &c.command {
        None => None,
        Some(cmd) => {
            let exe = extract_exe(cmd.as_str());
            if exe.as_str().unicode_len() == 0 {
                None
            } else {
                let name = display_name(&c.default_value, &c.app_name, c.key_name.as_str());
                Some(Browser { name, exe_path: exe, profile_dir: None })
            }
        },
    }
}

/// Is some browser in `bs` started by `exe`?
fn has_exe_exec(bs: &Vec<Browser>, exe: &String) -> (r: bool)
    ensures
        r == has_exe(browser_views(bs@), exe@),
{
    let mut i: usize = 0;
    while i < bs.len()
        invariant
            i <= bs.len(),
            forall|k: int| 0 <= k < i ==> #[trigger] bs@[k].exe_path@ != exe@,
        decreases bs.len() - i,
    {
        if bs[i].exe_path == *exe {
            assert(browser_views(bs@)[i as int].exe_path == exe@);
            return true;
        }
        i += 1;
    }
    proof {
        assert forall|k: int| 0 <= k < bs.len() implies #[trigger] browser_views(bs@)[k].exe_path != exe@ by {
            assert(browser_views(bs@)[k] == bs@[k]@);
        }
    }
    false
}

/// The installed browsers registered under `StartMenuInternet`: the
/// machine-wide clients in order, then the per-user clients whose executable
/// is not listed yet.
pub fn merge_clients(machine: &Vec<RegistryClient>, user: &Vec<RegistryClient>) -> (r: Vec<Browser>)
    ensures
        browser_views(r@) == with_user_browsers(machine_browsers(machine@), user@),
{
    let mut r: Vec<Browser> = Vec::new();
    let mut i: usize = 0;
    assert(browser_views(r@) =~= Seq::<BrowserView>::empty());
    while i < machine.len()
        invariant
            i <= machine.len(),
            browser_views(r@) == machine_browsers(machine@.take(i as int)),
        decreases machine.len() - i,
    {
        proof {
            assert(machine@.take(i + 1).drop_last() =~= machine@.take(i as int));
        }
        match browser_of_client(&machine[i]) {
            Some(b) => {
                r.push(b);
                assert(browser_views(r@) =~= machine_browsers(machine@.take(i + 1)));
            },
            None => {},
        }
        i += 1;
    }
    assert(machine@.take(machine.len() as int) =~= machine@);
    let ghost acc = browser_views(r@);
    let mut j: usize = 0;
    assert(user@.take(0) =~= Seq::<RegistryClient>::empty());
    while j < user.len()
        invariant
            j <= user.len(),
            acc == machine_browsers(machine@),
            browser_views(r@) == with_user_browsers(acc, user@.take(j as int)),
        decreases user.len() - j,
    {
        proof {
            assert(user@.take(j + 1).drop_last() =~= user@.take(j as int));
        }
        match browser_of_client(&user[j]) {
            Some(b) => {
                if !has_exe_exec(&r, &b.exe_path) {
                    r.push(b);
                    assert(browser_views(r@) =~= with_user_browsers(acc, user@.take(j + 1)));
                }
            },
            None => {},
        }
        j += 1;
    }
    assert(user@.take(user.len() as int) =~= user@);
    r
}

/// `iexplore.exe`.
pub open spec fn iexplore() -> Seq<char> {
    seq!['i', 'e', 'x', 'p', 'l', 'o', 'r', 'e', '.', 'e', 'x', 'e']
}

/// A detected browser stays in the list unless it is Internet Explorer or
/// this program itself (compared by lowercased file name).
pub open spec fn keeps_browser(b: BrowserView, file_name: Option<Seq<char>>, self_name: Option<Seq<char>>) -> bool {
    &&& !crate::text::ends_with(crate::text::lowercase(b.exe_path), iexplore())
    &&& match self_name {
        None => true,
        Some(s) => match file_name {
            None => true,
            Some(f) => crate::text::lowercase(f) != crate::text::lowercase(s),
        },
    }
}

/// The browsers that stay, in order.
pub open spec fn kept_browsers(
    bs: Seq<BrowserView>,
    file_names: Seq<Option<Seq<char>>>,
    self_name: Option<Seq<char>>,
) -> Seq<BrowserView>
    decreases bs.len(),
{
    if bs.len() == 0 || file_names.len() != bs.len() {
        Seq::empty()
    } else {
        let prev = kept_browsers(bs.drop_last(), file_names.drop_last(), self_name);
        if keeps_browser(bs.last(), file_names.last(), self_name) {
            prev.push(bs.last())
        } else {
            prev
        }
    }
}

/// The values of optional strings.
pub open spec fn opt_views(v: Seq<Option<String>>) -> Seq<Option<Seq<char>>> {
    v.map_values(|s: Option<String>| opt_view(s))
}

/// Is the browser's name `name`?
pub fn same_name(a: &String, name: &str) -> (r: bool)
    ensures
        r == (a@ == name@),
{
    let b = owned(name);
    *a == b
}

/// Are two texts equal?
fn same_text(a: &String, b: &String) -> (r: bool)
    ensures
        r == (a@ == b@),
{
    *a == *b
}

/// Drops Internet Explorer and this program from the detected browsers.
/// `file_names[i]` is the file name of `browsers[i]`'s executable path, and
/// `self_name` the file name of the running executable.
pub fn retain_browsers(
    browsers: Vec<Browser>,
    file_names: &Vec<Option<String>>,
    self_name: &Option<String>,
) -> (r: Vec<Browser>)
    requires
        browsers.len() == file_names.len(),
    ensures
        browser_views(r@) == kept_browsers(browser_views(browsers@), opt_views(file_names@), opt_view(*self_name)),
{
    let ie = chars_of("iexplore.exe");
    proof {
        reveal_strlit("iexplore.exe");
        assert(ie@ =~= iexplore());
    }
    let self_lower: Option<String> = match self_name {
        Some(s) => Some(crate::text::to_lowercase(s.as_str())),
        None => None,
    };
    let mut r: Vec<Browser> = Vec::new();
    let mut i: usize = 0;
    let ghost bv = browser_views(browsers@);
    let ghost fv = opt_views(file_names@);
    assert(bv.take(0) =~= Seq::<BrowserView>::empty());
    assert(browser_views(r@) =~= Seq::<BrowserView>::empty());
    while i < browsers.len()
        invariant
            i <= browsers.len() == file_names.len(),
            bv == browser_views(browsers@),
            fv == opt_views(file_names@),
            ie@ == iexplore(),
            self_lower matches Some(l) ==> (self_name matches Some(s) && l@ == crate::text::lowercase(s@)),
            self_lower is None <==> self_name is None,
            browser_views(r@) == kept_browsers(bv.take(i as int), fv.take(i as int), opt_view(*self_name)),
        decreases browsers.len() - i,
    {
        let b = &browsers[i];
        let lower = crate::text::to_lowercase(b.exe_path.as_str());
        let lv = chars_of(lower.as_str());
        let is_ie = crate::text::ends_with_chars(&lv, &ie);
        let is_self = match (&self_lower, &file_names[i]) {
            (Some(l), Some(f)) => {
                let fl = crate::text::to_lowercase(f.as_str());
                same_text(&fl, l)
            },
            _ => false,
        };
        proof {
            assert(bv.take(i + 1).drop_last() =~= bv.take(i as int));
            assert(fv.take(i + 1).drop_last() =~= fv.take(i as int));
            assert(bv.take(i + 1).last() == b@);
            assert(fv.take(i + 1).last() == opt_view(file_names@[i as int]));
        }
        if !is_ie && !is_self {
            r.push(b.clone());
            assert(browser_views(r@) =~= kept_browsers(bv.take(i + 1), fv.take(i + 1), opt_view(*self_name)));
        }
        i += 1;
    }
    assert(bv.take(browsers.len() as int) =~= bv);
    assert(fv.take(browsers.len() as int) =~= fv);
    r
}

/// The arguments a browser is started with to open `url`: the profile
/// option when it has a profile, then the URL.
pub open spec fn launch_args_spec(b: BrowserView, url: Seq<char>) -> Seq<Seq<char>> {
    match b.profile_dir {
        Some(d) => seq!["--profile-directory="@ + d, url],
        None => seq![url],
    }
}

impl Browser {
    /// The command-line arguments that open `url` in this browser.
    pub fn launch_args(&self, url: &str) -> (r: Vec<String>)
        ensures
            string_views_of(r@) == launch_args_spec(self@, url@),
    {
        let mut r: Vec<String> = Vec::new();
        if let Some(dir) = &self.profile_dir {
            let mut a = String::new();
            crate::ipc::push_str(&mut a, "--profile-directory=");
            crate::ipc::push_str(&mut a, dir.as_str());
            r.push(a);
        }
        let mut u = String::new();
        crate::ipc::push_str(&mut u, url);
        r.push(u);
        proof {
            assert(string_views_of(r@) =~= launch_args_spec(self@, url@));
        }
        r
    }
}

/// The values of a sequence of strings.
pub open spec fn string_views_of(v: Seq<String>) -> Seq<Seq<char>> {
    v.map_values(|s: String| s@)
}

/// The folders under `%LOCALAPPDATA%` that hold a Chromium browser's
/// `User Data`, chosen by the executable's lowercased file name.
pub open spec fn user_data_parts_spec(file_name: Seq<char>) -> Option<Seq<Seq<char>>> {
    let f = crate::text::lowercase(file_name);
    if f == "chrome.exe"@ {
        Some(seq!["Google"@, "Chrome"@, "User Data"@])
    } else if f == "msedge.exe"@ {
        Some(seq!["Microsoft"@, "Edge"@, "User Data"@])
    } else if f == "vivaldi.exe"@ {
        Some(seq!["Vivaldi"@, "User Data"@])
    } else if f == "brave.exe"@ {
        Some(seq!["BraveSoftware"@, "Brave-Browser"@, "User Data"@])
    } else {
        None
    }
}

/// A string holding the characters of a literal.
fn owned(s: &str) -> (r: String)
    ensures
        r@ == s@,
{
    let mut r = String::new();
    crate::ipc::push_str(&mut r, s);
    assert(r@ =~= s@);
    r
}

/// Compares a text with a literal.
fn is_text(a: &String, lit: &str) -> (r: bool)
    ensures
        r == (a@ == lit@),
{
    let b = owned(lit);
    *a == b
}

/// The `User Data` location of a Chromium browser, relative to `%LOCALAPPDATA%`,
/// given its executable's file name; `None` for other browsers.
pub fn user_data_parts(file_name: &str) -> (r: Option<Vec<String>>)
    ensures
        r matches Some(v) ==> user_data_parts_spec(file_name@) == Some(string_views_of(v@)),
        r is None ==> user_data_parts_spec(file_name@) is None,
{
    let f = crate::text::to_lowercase(file_name);
    let mut v: Vec<String> = Vec::new();
    if is_text(&f, "chrome.exe") {
        v.push(owned("Google"));
        v.push(owned("Chrome"));
        v.push(owned("User Data"));
    } else if is_text(&f, "msedge.exe") {
        v.push(owned("Microsoft"));
        v.push(owned("Edge"));
        v.push(owned("User Data"));
    } else if is_text(&f, "vivaldi.exe") {
        v.push(owned("Vivaldi"));
        v.push(owned("User Data"));
    } else if is_text(&f, "brave.exe") {
        v.push(owned("BraveSoftware"));
        v.push(owned("Brave-Browser"));
        v.push(owned("User Data"));
    } else {
        return None;
    }
    proof {
        assert(Some(string_views_of(v@)) =~= user_data_parts_spec(file_name@));
    }
    Some(v)
}

/// The profile order is asymmetric.
proof fn lemma_profile_before_irreflexive(a: Seq<char>, b: Seq<char>)
    requires
        profile_before(a, b),
    ensures
        !profile_before(b, a),
{
    if a != default_dir() && b != default_dir() {
        lemma_chars_less_asymmetric(a, b);
    }
}

/// String order is asymmetric.
proof fn lemma_chars_less_asymmetric(a: Seq<char>, b: Seq<char>)
    ensures
        !(chars_less(a, b) && chars_less(b, a)),
    decreases a.len(),
{
    if a.len() > 0 && b.len() > 0 && a[0] == b[0] {
        lemma_chars_less_asymmetric(a.drop_first(), b.drop_first());
    }
}

/// When the `Default` profile is among sorted profiles, it is listed first.
pub proof fn law_default_profile_first(r: Seq<(Seq<char>, Seq<char>)>, i: int)
    requires
        profiles_sorted(r),
        0 <= i < r.len(),
        r[i].1 == default_dir(),
    ensures
        r[0].1 == default_dir(),
{
    if i > 0 && r[0].1 != default_dir() {
        assert(profile_before(r[i].1, r[0].1));
    }
}

/// Every entry of a picker group is started by the group's executable.
pub proof fn law_group_members_share_exe(b: BrowserView, profiles: Seq<(Seq<char>, Seq<char>)>, k: int)
    requires
        0 <= k < group_of(b, profiles).browsers.len(),
    ensures
        group_of(b, profiles).browsers[k].exe_path == group_of(b, profiles).exe_path,
{
}

/// A per-user registration never adds an executable that is already listed:
/// each browser after the machine-wide ones has an executable of its own.
pub proof fn law_user_browsers_new(acc: Seq<BrowserView>, cs: Seq<RegistryClient>, i: int, j: int)
    requires
        0 <= i < j < with_user_browsers(acc, cs).len(),
        acc.len() <= j,
    ensures
        with_user_browsers(acc, cs)[i].exe_path != with_user_browsers(acc, cs)[j].exe_path,
    decreases cs.len(),
{
    if cs.len() > 0 {
        let prev = with_user_browsers(acc, cs.drop_last());
        match client_browser(cs.last()) {
            Some(b) => {
                if has_exe(prev, b.exe_path) || j < prev.len() {
                    law_user_browsers_new(acc, cs.drop_last(), i, j);
                } else {
                    assert(!(0 <= i < prev.len() && prev[i].exe_path == b.exe_path));
                }
            },
            None => law_user_browsers_new(acc, cs.drop_last(), i, j),
        }
    }
}

/// Internet Explorer never stays among the detected browsers.
pub proof fn law_internet_explorer_dropped(
    bs: Seq<BrowserView>,
    file_names: Seq<Option<Seq<char>>>,
    self_name: Option<Seq<char>>,
    k: int,
)
    requires
        0 <= k < kept_browsers(bs, file_names, self_name).len(),
    ensures
        !crate::text::ends_with(
            crate::text::lowercase(kept_browsers(bs, file_names, self_name)[k].exe_path),
            iexplore(),
        ),
    decreases bs.len(),
{
    if bs.len() > 0 && file_names.len() == bs.len() {
        let prev = kept_browsers(bs.drop_last(), file_names.drop_last(), self_name);
        if k < prev.len() {
            law_internet_explorer_dropped(bs.drop_last(), file_names.drop_last(), self_name, k);
        }
    }
}

/// The command line the program registers, `"<path>" "%1"`, gives back the
/// path, whatever white space surrounds it, when the path holds no quote.
pub proof fn law_registered_command_gives_path(path: Seq<char>, before: Seq<char>, after: Seq<char>)
    requires
        forall|i: int| 0 <= i < path.len() ==> path[i] != '"',
        forall|i: int| 0 <= i < before.len() ==> crate::text::is_space(#[trigger] before[i]),
        forall|i: int| 0 <= i < after.len() ==> crate::text::is_space(#[trigger] after[i]),
    ensures
        extract_exe_spec(before + crate::registry::open_command_spec(path) + after) == path,
{
    reveal_strlit("\"");
    reveal_strlit("\" \"%1\"");
    let tail = "\" \"%1\""@;
    let cmd = crate::registry::open_command_spec(path);
    assert(cmd[0] == '"');
    assert(cmd.last() == '"');
    crate::text::lemma_trim_padded(before, cmd, after);
    let rest = cmd.drop_first();
    assert(rest =~= path + tail);
    let q = seq!['"'];
    lemma_find(rest, q);
    assert(occurs_at(rest, q, path.len() as int)) by {
        assert(rest.subrange(path.len() as int, path.len() + 1 as int) =~= q);
    }
    match find(rest, q) {
        Some(k) => {
            if k < path.len() {
                assert(rest.subrange(k, k + 1)[0] == rest[k]);
                assert(rest[k] == path[k]);
            }
            assert(k == path.len());
            assert(rest.take(k) =~= path);
        },
        None => {},
    }
}

/// A browser with several profiles becomes one picker entry per profile, in
/// their order: entry `k` shows profile `k`'s display name, uses the
/// browser's executable and carries profile `k`'s directory (the `Default`
/// profile's too), so it is started with `--profile-directory=<dir>` before
/// the URL. A browser with at most one profile is an entry of its own.
pub proof fn law_profiles_launch_with_their_directory(
    b: BrowserView,
    profiles: Seq<(Seq<char>, Seq<char>)>,
    url: Seq<char>,
)
    ensures
        group_of(b, profiles).name == b.name,
        group_of(b, profiles).exe_path == b.exe_path,
        profiles.len() > 1 ==> group_of(b, profiles).browsers.len() == profiles.len(),
        profiles.len() > 1 ==> forall|k: int| 0 <= k < profiles.len() ==> {
            &&& #[trigger] group_of(b, profiles).browsers[k].name == profiles[k].0
            &&& group_of(b, profiles).browsers[k].exe_path == b.exe_path
            &&& group_of(b, profiles).browsers[k].profile_dir == Some(profiles[k].1)
            &&& launch_args_spec(group_of(b, profiles).browsers[k], url) == seq![
                "--profile-directory="@ + profiles[k].1,
                url,
            ]
        },
        profiles.len() <= 1 ==> group_of(b, profiles).browsers == seq![b],
{
}

} // verus!
