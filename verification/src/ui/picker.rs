//! The browser picker: which browser a link opens in without asking, what
//! the picker lists, and how a short-lived instance hands a link to the
//! resident one.

use vstd::prelude::*;
use crate::browser::{browser_views, group_views, Browser, BrowserGroup, BrowserView, GroupView};
use crate::config::{match_rule_spec, Config};
use crate::config::{string_views, stable_sorted_by_order};
use crate::ipc::{push_str, Request, RequestView};
use crate::version::newer_spec;

verus! {

/// The first browser named `name` in `bs`.
pub open spec fn first_named_browser(bs: Seq<BrowserView>, name: Seq<char>) -> Option<BrowserView>
    decreases bs.len(),
{
    if bs.len() == 0 {
        None
    } else if bs[0].name == name {
        Some(bs[0])
    } else {
        first_named_browser(bs.drop_first(), name)
    }
}

/// The first browser named `name`, searching the groups in order.
pub open spec fn find_named(gs: Seq<GroupView>, name: Seq<char>) -> Option<BrowserView>
    decreases gs.len(),
{
    if gs.len() == 0 {
        None
    } else {
        match first_named_browser(gs[0].browsers, name) {
            Some(b) => Some(b),
            None => find_named(gs.drop_first(), name),
        }
    }
}

/// The browser a link opens in without showing the picker: the browser of
/// the first rule the URL matches, else the default browser; a name that
/// no listed browser has does not count.
pub open spec fn auto_browser_spec(
    gs: Seq<GroupView>,
    rules: Seq<crate::config::Rule>,
    default_browser: Option<Seq<char>>,
    url: Seq<char>,
) -> Option<BrowserView> {
    let by_default = match default_browser {
        Some(d) => find_named(gs, d),
        None => None,
    };
    match match_rule_spec(rules, url) {
        Some(n) => match find_named(gs, n) {
            Some(b) => Some(b),
            None => by_default,
        },
        None => by_default,
    }
}

/// The first browser named `name` among `bs[i..]`.
fn first_named_from(bs: &Vec<Browser>, name: &str) -> (r: Option<Browser>)
    ensures
        r matches Some(b) ==> first_named_browser(browser_views(bs@), name@) == Some(b@),
        r is None ==> first_named_browser(browser_views(bs@), name@) is None,
{
    let ghost v = browser_views(bs@);
    let mut i: usize = 0;
    assert(v.skip(0) =~= v);
    while i < bs.len()
        invariant
            i <= bs.len(),
            v == browser_views(bs@),
            first_named_browser(v, name@) == first_named_browser(v.skip(i as int), name@),
        decreases bs.len() - i,
    {
        proof {
            assert(v.skip(i as int)[0] == bs@[i as int]@);
            assert(v.skip(i as int).drop_first() =~= v.skip(i + 1));
        }
        if crate::browser::same_name(&bs[i].name, name) {
            return Some(bs[i].clone());
        }
        i += 1;
    }
    None
}

/// The first browser named `name`, searching the groups in order.
pub fn find_named_browser(groups: &Vec<BrowserGroup>, name: &str) -> (r: Option<Browser>)
    ensures
        r matches Some(b) ==> find_named(group_views(groups@), name@) == Some(b@),
        r is None ==> find_named(group_views(groups@), name@) is None,
{
    let ghost v = group_views(groups@);
    let mut i: usize = 0;
    assert(v.skip(0) =~= v);
    while i < groups.len()
        invariant
            i <= groups.len(),
            v == group_views(groups@),
            find_named(v, name@) == find_named(v.skip(i as int), name@),
        decreases groups.len() - i,
    {
        proof {
            assert(v.skip(i as int)[0] == groups@[i as int]@);
            assert(v.skip(i as int).drop_first() =~= v.skip(i + 1));
        }
        match first_named_from(&groups[i].browsers, name) {
            Some(b) => return Some(b),
            None => {},
        }
        i += 1;
    }
    None
}

/// The browser a link opens in without showing the picker, if any.
pub fn find_auto_browser(groups: &Vec<BrowserGroup>, config: &Config, url: &str) -> (r: Option<Browser>)
    ensures
        r matches Some(b) ==> auto_browser_spec(
            group_views(groups@),
            config.rules@,
            crate::browser::opt_view(config.default_browser),
            url@,
        ) == Some(b@),
        r is None ==> auto_browser_spec(
            group_views(groups@),
            config.rules@,
            crate::browser::opt_view(config.default_browser),
            url@,
        ) is None,
{
    if let Some(n) = config.match_rule(url) {
        if let Some(b) = find_named_browser(groups, n) {
            return Some(b);
        }
    }
    match &config.default_browser {
        Some(d) => find_named_browser(groups, d.as_str()),
        None => None,
    }
}

/// Where the hand-over of a link stands.
pub enum OpenState {
    /// Nothing was tried yet.
    Start,
    /// The link is being sent to a resident instance.
    Forwarding,
    /// This instance tries to become the resident one.
    Binding,
    /// Sending is tried once more (a resident may just have started).
    Retrying,
    /// Nothing is left to do.
    Finished,
}

/// The outcome of the last step.
pub enum OpenEvent {
    /// The hand-over begins.
    Begin,
    /// The resident did (`true`) or did not acknowledge the link.
    Forwarded(bool),
    /// This instance did (`true`) or did not get the pipe.
    Bound(bool),
}

/// What the application does next.
pub enum OpenAction {
    /// Send the link to the resident instance.
    SendToResident,
    /// Try to create the pipe and become the resident instance.
    BecomeResident,
    /// Show the picker for the link, as the resident instance or not.
    ShowPicker { resident: bool },
    /// End this process: the link was handed over.
    Exit,
    /// Nothing (the event does not fit the state).
    Nothing,
}

/// One step of handing a link over: send it to the resident instance; if
/// none answers, become the resident and show the picker; if that fails
/// too, send it once more, and failing that show the picker without
/// staying resident.
pub open spec fn open_url_spec(state: OpenState, event: OpenEvent) -> (OpenState, OpenAction) {
    match (state, event) {
        (OpenState::Start, OpenEvent::Begin) => (OpenState::Forwarding, OpenAction::SendToResident),
        (OpenState::Forwarding, OpenEvent::Forwarded(true)) => (OpenState::Finished, OpenAction::Exit),
        (OpenState::Forwarding, OpenEvent::Forwarded(false)) => (OpenState::Binding, OpenAction::BecomeResident),
        (OpenState::Binding, OpenEvent::Bound(true)) => (OpenState::Finished, OpenAction::ShowPicker { resident: true }),
        (OpenState::Binding, OpenEvent::Bound(false)) => (OpenState::Retrying, OpenAction::SendToResident),
        (OpenState::Retrying, OpenEvent::Forwarded(true)) => (OpenState::Finished, OpenAction::Exit),
        (OpenState::Retrying, OpenEvent::Forwarded(false)) => (OpenState::Finished, OpenAction::ShowPicker { resident: false }),
        (s, _) => (s, OpenAction::Nothing),
    }
}

/// Takes one step of handing a link over to the resident instance.
pub fn open_url(state: OpenState, event: OpenEvent) -> (r: (OpenState, OpenAction))
    ensures
        r == open_url_spec(state, event),
{
    match (state, event) {
        (OpenState::Start, OpenEvent::Begin) => (OpenState::Forwarding, OpenAction::SendToResident),
        (OpenState::Forwarding, OpenEvent::Forwarded(ok)) => if ok {
            (OpenState::Finished, OpenAction::Exit)
        } else {
            (OpenState::Binding, OpenAction::BecomeResident)
        },
        (OpenState::Binding, OpenEvent::Bound(ok)) => if ok {
            (OpenState::Finished, OpenAction::ShowPicker { resident: true })
        } else {
            (OpenState::Retrying, OpenAction::SendToResident)
        },
        (OpenState::Retrying, OpenEvent::Forwarded(ok)) => if ok {
            (OpenState::Finished, OpenAction::Exit)
        } else {
            (OpenState::Finished, OpenAction::ShowPicker { resident: false })
        },
        (s, _) => (s, OpenAction::Nothing),
    }
}

/// The outcome of handing a link over, for every answer the environment
/// gives: `sent` is whether the first send was acknowledged, `bound` whether
/// the pipe could be created, `resent` whether the second send was. The link
/// ends with the resident instance exactly when a send was acknowledged;
/// otherwise the picker is shown, as the resident exactly when the pipe was
/// created.
pub open spec fn open_url_outcome(sent: bool, bound: bool, resent: bool) -> OpenAction {
    let (s1, a1) = open_url_spec(OpenState::Start, OpenEvent::Begin);
    let (s2, a2) = open_url_spec(s1, OpenEvent::Forwarded(sent));
    if sent {
        a2
    } else {
        let (s3, a3) = open_url_spec(s2, OpenEvent::Bound(bound));
        if bound {
            a3
        } else {
            open_url_spec(s3, OpenEvent::Forwarded(resent)).1
        }
    }
}

/// Handing a link over always ends in one decision: the link goes to the
/// resident instance when it acknowledges, and otherwise the picker shows it.
pub proof fn law_open_url_ends(sent: bool, bound: bool, resent: bool)
    ensures
        sent ==> open_url_outcome(sent, bound, resent) == OpenAction::Exit,
        !sent && bound ==> open_url_outcome(sent, bound, resent) == (OpenAction::ShowPicker { resident: true }),
        !sent && !bound && resent ==> open_url_outcome(sent, bound, resent) == OpenAction::Exit,
        !sent && !bound && !resent ==> open_url_outcome(sent, bound, resent) == (OpenAction::ShowPicker { resident: false }),
{
}

/// Started from the logon entry: become the resident instance (with the
/// picker hidden) when the pipe could be created; otherwise another instance
/// is resident already and there is nothing to do.
pub fn run_resident(bound: bool) -> (r: OpenAction)
    ensures
        bound ==> r == (OpenAction::ShowPicker { resident: true }),
        !bound ==> r == OpenAction::Exit,
{
    if bound {
        OpenAction::ShowPicker { resident: true }
    } else {
        OpenAction::Exit
    }
}

/// The groups the picker starts with: the cached list from the settings,
/// in the user's order; `None` when nothing is cached yet (the browsers must
/// be detected first).
pub fn start_groups(config: &Config) -> (r: Option<Vec<BrowserGroup>>)
    ensures
        config.cached_groups.len() == 0 <==> r is None,
        r matches Some(g) ==> stable_sorted_by_order(
            group_views(g@),
            group_views(config.cached_groups@),
            string_views(config.browser_order@),
        ),
{
    if config.cached_groups.len() == 0 {
        return None;
    }
    let mut g = copy_groups(&config.cached_groups);
    config.sort_groups(&mut g);
    Some(g)
}

/// A copy of the groups.
pub fn copy_groups(v: &Vec<BrowserGroup>) -> (r: Vec<BrowserGroup>)
    ensures
        group_views(r@) == group_views(v@),
{
    let mut r: Vec<BrowserGroup> = Vec::new();
    let mut i: usize = 0;
    while i < v.len()
        invariant
            i <= v.len(),
            group_views(r@) == group_views(v@).take(i as int),
        decreases v.len() - i,
    {
        let g = v[i].clone();
        let ghost before = r@;
        r.push(g);
        proof {
            assert(group_views(r@) =~= group_views(before).push(g@));
            assert(group_views(v@).take(i + 1) =~= group_views(v@).take(i as int).push(v@[i as int]@));
        }
        i += 1;
    }
    assert(group_views(v@).take(v.len() as int) =~= group_views(v@));
    r
}

/// The picker shows a new list when the number of groups or the
/// executable of some row changed.
pub open spec fn groups_differ_spec(a: Seq<GroupView>, b: Seq<GroupView>) -> bool {
    a.len() != b.len() || exists|i: int| 0 <= i < a.len() && #[trigger] a[i].exe_path != b[i].exe_path
}

/// Does a freshly detected list differ from the one shown?
pub fn groups_differ(a: &Vec<BrowserGroup>, b: &Vec<BrowserGroup>) -> (r: bool)
    ensures
        r == groups_differ_spec(group_views(a@), group_views(b@)),
{
    if a.len() != b.len() {
        return true;
    }
    let mut i: usize = 0;
    while i < a.len()
        invariant
            i <= a.len() == b.len(),
            forall|k: int| 0 <= k < i ==> #[trigger] a@[k].exe_path@ == b@[k].exe_path@,
        decreases a.len() - i,
    {
        if a[i].exe_path != b[i].exe_path {
            assert(group_views(a@)[i as int].exe_path != group_views(b@)[i as int].exe_path);
            return true;
        }
        i += 1;
    }
    proof {
        assert forall|k: int| 0 <= k < a.len() implies #[trigger] group_views(a@)[k].exe_path == group_views(b@)[k].exe_path by {
            assert(group_views(a@)[k] == a@[k]@);
            assert(group_views(b@)[k] == b@[k]@);
        }
    }
    false
}

/// Takes a freshly detected list: sorted in the user's order, it replaces
/// the shown one (`Some`) when it differs from it.
pub fn refresh_groups(config: &Config, shown: &Vec<BrowserGroup>, fresh: Vec<BrowserGroup>) -> (r: Option<Vec<BrowserGroup>>)
    ensures
        r matches Some(g) ==> stable_sorted_by_order(group_views(g@), group_views(fresh@), string_views(config.browser_order@))
            && groups_differ_spec(group_views(g@), group_views(shown@)),
        r is None ==> exists|g: Seq<GroupView>| stable_sorted_by_order(g, group_views(fresh@), string_views(config.browser_order@))
            && !groups_differ_spec(g, group_views(shown@)),
{
    let mut fresh = fresh;
    config.sort_groups(&mut fresh);
    if groups_differ(&fresh, shown) {
        Some(fresh)
    } else {
        None
    }
}

/// Where a dragged row lands: `slot` is the gap the pointer is over (0 is
/// above the first row, the number of rows is below the last); dropping a
/// row just above or below itself leaves it where it is.
pub open spec fn drop_target_spec(src: int, slot: int) -> int {
    if slot == src || slot == src + 1 {
        src
    } else {
        slot
    }
}

/// Where a dragged row lands.
pub fn drop_target(src: usize, slot: usize) -> (r: usize)
    ensures
        r == drop_target_spec(src as int, slot as int),
{
    if slot == src || (src < usize::MAX && slot == src + 1) {
        src
    } else {
        slot
    }
}

/// The position a row taken out at `src` is put back at, for the gap `tgt`.
pub open spec fn insert_at(src: int, tgt: int) -> int {
    if tgt > src {
        tgt - 1
    } else {
        tgt
    }
}

/// The drop into gap `tgt` moves the row at `src` (it does unless `tgt` is
/// the gap just above or below it).
pub open spec fn moves(src: int, tgt: int) -> bool {
    tgt != src && tgt != src + 1
}

/// Moves the row at `src` into the gap `tgt`; `true` when something moved.
pub fn move_row<T>(v: &mut Vec<T>, src: usize, tgt: usize) -> (moved: bool)
    requires
        src < old(v).len(),
        tgt <= old(v).len(),
    ensures
        moved == moves(src as int, tgt as int),
        moved ==> final(v)@ == old(v)@.remove(src as int).insert(insert_at(src as int, tgt as int), old(v)@[src as int]),
        !moved ==> final(v)@ == old(v)@,
{
    if tgt != src && tgt != src + 1 {
        let insert = if tgt > src { tgt - 1 } else { tgt };
        let item = v.remove(src);
        v.insert(insert, item);
        true
    } else {
        false
    }
}

/// Dropping a row keeps every row: the list after is a rearrangement of the
/// list before.
pub proof fn law_move_keeps_rows<T>(s: Seq<T>, src: int, tgt: int)
    requires
        0 <= src < s.len(),
        0 <= tgt <= s.len(),
    ensures
        s.remove(src).insert(insert_at(src, tgt), s[src]).to_multiset() == s.to_multiset(),
        s.remove(src).insert(insert_at(src, tgt), s[src])[insert_at(src, tgt)] == s[src],
{
    broadcast use vstd::seq_lib::to_multiset_remove, vstd::seq_lib::to_multiset_insert;

    vstd::seq_lib::to_multiset_remove(s, src);
    vstd::seq_lib::to_multiset_insert(s.remove(src), insert_at(src, tgt), s[src]);
    assert(s.to_multiset().remove(s[src]).insert(s[src]) =~= s.to_multiset()) by {
        broadcast use vstd::multiset::group_multiset_axioms;

        assert(s.to_multiset().count(s[src]) > 0) by {
            vstd::seq_lib::to_multiset_contains(s, s[src]);
        }
    }
}

/// Moving the rows and their icons by the same drop keeps each icon with its row.
pub proof fn law_move_keeps_pairs<A, B>(a: Seq<A>, b: Seq<B>, src: int, tgt: int)
    requires
        a.len() == b.len(),
        0 <= src < a.len(),
        0 <= tgt <= a.len(),
    ensures
        ({
            let a2 = a.remove(src).insert(insert_at(src, tgt), a[src]);
            let b2 = b.remove(src).insert(insert_at(src, tgt), b[src]);
            a2.len() == b2.len() && forall|i: int| 0 <= i < a2.len() ==> exists|j: int|
                0 <= j < a.len() && #[trigger] a2[i] == a[j] && b2[i] == b[j]
        }),
{
    let a2 = a.remove(src).insert(insert_at(src, tgt), a[src]);
    let b2 = b.remove(src).insert(insert_at(src, tgt), b[src]);
    let p = insert_at(src, tgt);
    assert forall|i: int| 0 <= i < a2.len() implies exists|j: int|
        0 <= j < a.len() && #[trigger] a2[i] == a[j] && b2[i] == b[j] by {
        if i == p {
            assert(a2[i] == a[src] && b2[i] == b[src]);
        } else {
            let k = if i < p { i } else { i - 1 };
            let j = if k < src { k } else { k + 1 };
            assert(a2[i] == a[j] && b2[i] == b[j]);
        }
    }
}

/// The executables in the order the picker shows them (saved as the user's order).
pub fn browser_order_of(groups: &Vec<BrowserGroup>) -> (r: Vec<String>)
    ensures
        string_views(r@) == group_views(groups@).map_values(|g: GroupView| g.exe_path),
{
    let mut r: Vec<String> = Vec::new();
    let mut i: usize = 0;
    while i < groups.len()
        invariant
            i <= groups.len(),
            string_views(r@) == group_views(groups@).map_values(|g: GroupView| g.exe_path).take(i as int),
        decreases groups.len() - i,
    {
        let e = groups[i].exe_path.clone();
        let ghost before = r@;
        r.push(e);
        proof {
            let m = group_views(groups@).map_values(|g: GroupView| g.exe_path);
            assert(string_views(r@) =~= string_views(before).push(e@));
            assert(m.take(i + 1) =~= m.take(i as int).push(groups@[i as int].exe_path@));
        }
        i += 1;
    }
    assert(group_views(groups@).map_values(|g: GroupView| g.exe_path).take(groups.len() as int)
        =~= group_views(groups@).map_values(|g: GroupView| g.exe_path));
    r
}

/// The order saved from a list, applied to the same list, keeps it as it
/// was: after the user drags rows into place, the picker shows them in that
/// order the next time too. (The rows must have distinct executables, as
/// detected browsers do.)
pub proof fn law_saved_order_sorts_back(gs: Seq<GroupView>, r: Seq<GroupView>)
    requires
        forall|i: int, j: int| 0 <= i < j < gs.len() ==> gs[i].exe_path != gs[j].exe_path,
        gs.len() < usize::MAX,
        stable_sorted_by_order(r, gs, gs.map_values(|g: GroupView| g.exe_path)),
    ensures
        r == gs,
{
    broadcast use vstd::seq_lib::to_multiset_len, vstd::seq_lib::to_multiset_contains;

    let order = gs.map_values(|g: GroupView| g.exe_path);
    let n: int = gs.len() as int;
    assert forall|i: int| 0 <= i < n implies crate::config::order_key(order, #[trigger] gs[i].exe_path) == i by {
        lemma_index_of_distinct(order, i, 0);
    }
    // Both lists hold the same groups, each as often.
    assert forall|x: GroupView| #[trigger] r.to_multiset().count(x) == gs.to_multiset().count(x) by {
        let k = crate::config::order_key(order, x.exe_path);
        lemma_filter_count(r, crate::config::has_key(order, k), x);
        lemma_filter_count(gs, crate::config::has_key(order, k), x);
    }
    assert(r.to_multiset() =~= gs.to_multiset());
    vstd::seq_lib::to_multiset_len(r);
    vstd::seq_lib::to_multiset_len(gs);
    assert(r.len() == n);
    assert forall|j: int| 0 <= j < n implies #[trigger] gs.to_multiset().count(gs[j]) == 1 by {
        lemma_count_distinct(gs, j);
    }
    // Each row of `r` is some row of `gs`, found by its key.
    assert forall|a: int| 0 <= a < n implies 0 <= crate::config::order_key(order, #[trigger] r[a].exe_path) < n
        && r[a] == gs[crate::config::order_key(order, r[a].exe_path)] by {
        assert(r.to_multiset().count(r[a]) > 0);
        assert(gs.to_multiset().contains(r[a]));
        let j = choose|j: int| 0 <= j < gs.len() && gs[j] == r[a];
        assert(crate::config::order_key(order, gs[j].exe_path) == j);
    }
    // The keys of `r` strictly increase.
    assert forall|a: int, b: int| 0 <= a < b < n implies crate::config::order_key(order, #[trigger] r[a].exe_path)
        < crate::config::order_key(order, #[trigger] r[b].exe_path) by {
        let ka = crate::config::order_key(order, r[a].exe_path);
        let kb = crate::config::order_key(order, r[b].exe_path);
        assert(ka <= kb);
        if ka == kb {
            lemma_count_repeat(r, a, b);
            assert(r.to_multiset().count(r[a]) == gs.to_multiset().count(gs[ka]));
        }
    }
    let key = |a: int| crate::config::order_key(order, r[a].exe_path);
    assert forall|a: int| 0 <= a < n implies #[trigger] key(a) == a by {
        lemma_increasing_identity(key, n, a);
    }
    assert forall|a: int| 0 <= a < n implies #[trigger] r[a] == gs[a] by {
        assert(key(a) == a);
    }
    assert(r =~= gs);
}

/// A strictly increasing map from `0..n` into `0..n` is the identity.
proof fn lemma_increasing_identity(key: spec_fn(int) -> int, n: int, a: int)
    requires
        0 <= a < n,
        forall|i: int| 0 <= i < n ==> 0 <= #[trigger] key(i) < n,
        forall|i: int, j: int| 0 <= i < j < n ==> #[trigger] key(i) < #[trigger] key(j),
    ensures
        key(a) == a,
{
    lemma_increasing_lower(key, n, a);
    lemma_increasing_upper(key, n, a);
}

/// A strictly increasing map of `0..n` into itself does not go below the identity.
proof fn lemma_increasing_lower(key: spec_fn(int) -> int, n: int, a: int)
    requires
        0 <= a < n,
        forall|i: int| 0 <= i < n ==> 0 <= #[trigger] key(i) < n,
        forall|i: int, j: int| 0 <= i < j < n ==> #[trigger] key(i) < #[trigger] key(j),
    ensures
        key(a) >= a,
    decreases a,
{
    if a > 0 {
        lemma_increasing_lower(key, n, a - 1);
        assert(key(a - 1) < key(a));
    }
}

/// A strictly increasing map of `0..n` into itself does not go above the identity.
proof fn lemma_increasing_upper(key: spec_fn(int) -> int, n: int, a: int)
    requires
        0 <= a < n,
        forall|i: int| 0 <= i < n ==> 0 <= #[trigger] key(i) < n,
        forall|i: int, j: int| 0 <= i < j < n ==> #[trigger] key(i) < #[trigger] key(j),
    ensures
        key(a) <= a,
    decreases n - a,
{
    if a < n - 1 {
        lemma_increasing_upper(key, n, a + 1);
        assert(key(a) < key(a + 1));
    }
}

/// In a list of distinct entries, each entry's first position is its position.
proof fn lemma_index_of_distinct(order: Seq<Seq<char>>, i: int, k: int)
    requires
        0 <= k <= i < order.len(),
        forall|a: int, b: int| 0 <= a < b < order.len() ==> order[a] != order[b],
    ensures
        crate::config::index_from(order, order[i], k) == Some(i),
    decreases i - k,
{
    if k < i {
        assert(order[k] != order[i]);
        lemma_index_of_distinct(order, i, k + 1);
    }
}

/// Filtering keeps every copy of an element that passes.
proof fn lemma_filter_count<A>(s: Seq<A>, p: spec_fn(A) -> bool, x: A)
    requires
        p(x),
    ensures
        s.filter(p).to_multiset().count(x) == s.to_multiset().count(x),
    decreases s.len(),
{
    broadcast use vstd::seq_lib::to_multiset_build, vstd::multiset::group_multiset_axioms;

    reveal(Seq::filter);
    if s.len() > 0 {
        let t = s.drop_last();
        let y = s.last();
        lemma_filter_count(t, p, x);
        assert(t.push(y) =~= s);
        vstd::seq_lib::to_multiset_build(t, y);
        if p(y) {
            vstd::seq_lib::to_multiset_build(t.filter(p), y);
        }
    } else {
        assert(s.filter(p).len() == 0);
        assert(s.filter(p) =~= Seq::<A>::empty());
        assert(s =~= Seq::<A>::empty());
    }
}

/// An element standing once in a list of distinct rows is counted once.
proof fn lemma_count_distinct(gs: Seq<GroupView>, j: int)
    requires
        0 <= j < gs.len(),
        forall|a: int, b: int| 0 <= a < b < gs.len() ==> gs[a].exe_path != gs[b].exe_path,
    ensures
        gs.to_multiset().count(gs[j]) == 1,
{
    broadcast use vstd::seq_lib::to_multiset_remove, vstd::seq_lib::to_multiset_contains,
        vstd::multiset::group_multiset_axioms;

    let rest = gs.remove(j);
    vstd::seq_lib::to_multiset_remove(gs, j);
    assert(!rest.contains(gs[j])) by {
        if rest.contains(gs[j]) {
            let k = choose|k: int| 0 <= k < rest.len() && rest[k] == gs[j];
            if k < j {
                assert(rest[k] == gs[k]);
            } else {
                assert(rest[k] == gs[k + 1]);
            }
        }
    }
    assert(rest.to_multiset().count(gs[j]) == 0);
    assert(gs.to_multiset().count(gs[j]) > 0);
}

/// An element standing at two positions is counted at least twice.
proof fn lemma_count_repeat<A>(s: Seq<A>, a: int, b: int)
    requires
        0 <= a < b < s.len(),
        s[a] == s[b],
    ensures
        s.to_multiset().count(s[a]) >= 2,
{
    broadcast use vstd::seq_lib::to_multiset_remove, vstd::seq_lib::to_multiset_contains,
        vstd::multiset::group_multiset_axioms;

    let rest = s.remove(a);
    vstd::seq_lib::to_multiset_remove(s, a);
    assert(rest[b - 1] == s[b]);
    assert(rest.contains(s[a]));
    assert(rest.to_multiset().count(s[a]) > 0);
    assert(s.to_multiset().count(s[a]) > 0);
}

/// The URL as the picker shows it: at most 50 characters, followed by `...`
/// when it is longer.
pub open spec fn display_url_spec(url: Seq<char>) -> Seq<char> {
    if url.len() > 50 {
        url.take(50) + "..."@
    } else {
        url
    }
}

/// The URL as the picker shows it.
pub fn display_url(url: &str) -> (r: String)
    ensures
        r@ == display_url_spec(url@),
{
    let v = crate::text::chars_of(url);
    if v.len() > 50 {
        let mut r = crate::text::string_from(&v, 0, 50);
        push_str(&mut r, "...");
        r
    } else {
        crate::text::string_from(&v, 0, v.len())
    }
}

/// How many frames the picker waits before hiding itself when started
/// without a URL (the window system shows it once after the first frame).
pub open spec fn initial_hide_countdown_spec(url_empty: bool) -> u8 {
    if url_empty {
        2
    } else {
        0
    }
}

/// The countdown the picker starts with.
pub fn initial_hide_countdown(url: &str) -> (r: u8)
    ensures
        r == initial_hide_countdown_spec(url@.len() == 0),
{
    if url.unicode_len() == 0 {
        2
    } else {
        0
    }
}

/// What one frame does about hiding a picker started without a URL.
pub enum HideStep {
    /// Nothing to do.
    Idle,
    /// Draw another frame.
    Repaint,
    /// Hide the window now.
    Hide,
}

/// One frame of the countdown: while it runs and no URL arrived, it counts
/// down; the window is hidden when it reaches zero, and another frame is
/// asked for before that.
pub open spec fn hide_tick_spec(countdown: u8, url_empty: bool) -> (u8, HideStep) {
    if countdown > 0 && url_empty {
        if countdown - 1 == 0 {
            (0u8, HideStep::Hide)
        } else {
            ((countdown - 1) as u8, HideStep::Repaint)
        }
    } else {
        (countdown, HideStep::Idle)
    }
}

/// One frame of the hiding countdown.
pub fn hide_tick(countdown: u8, url_empty: bool) -> (r: (u8, HideStep))
    ensures
        r == hide_tick_spec(countdown, url_empty),
{
    if countdown > 0 && url_empty {
        let c = countdown - 1;
        if c == 0 {
            (0, HideStep::Hide)
        } else {
            (c, HideStep::Repaint)
        }
    } else {
        (countdown, HideStep::Idle)
    }
}

/// The browser chosen in the picker: profile `pi` of row `gi`, when both exist.
pub fn selected_browser(groups: &Vec<BrowserGroup>, gi: usize, pi: usize) -> (r: Option<Browser>)
    ensures
        gi < groups.len() && pi < groups@[gi as int].browsers.len() ==> (r matches Some(b) && b@
            == groups@[gi as int].browsers@[pi as int]@),
        !(gi < groups.len() && pi < groups@[gi as int].browsers.len()) ==> r is None,
{
    if gi < groups.len() && pi < groups[gi].browsers.len() {
        Some(groups[gi].browsers[pi].clone())
    } else {
        None
    }
}

/// What closing the picker after a choice does.
pub enum Dismiss {
    /// Hide the window and stay resident.
    Hide,
    /// Close the window, ending the process.
    Close,
}

/// A resident picker with a window handle hides itself; any other closes.
pub fn dismiss(resident: bool, has_window: bool) -> (r: Dismiss)
    ensures
        resident && has_window ==> r == Dismiss::Hide,
        !(resident && has_window) ==> r == Dismiss::Close,
{
    if resident && has_window {
        Dismiss::Hide
    } else {
        Dismiss::Close
    }
}

/// The version line at the bottom of the picker: a newer release in
/// green (`⬆ <tag> <suffix>`), otherwise the running version (`v<current>`).
pub open spec fn version_label_spec(
    update_available: Option<Seq<char>>,
    current: Seq<char>,
    suffix: Seq<char>,
) -> (Seq<char>, bool) {
    match update_available {
        Some(tag) if newer_spec(tag, current) => ("⬆ "@ + tag + " "@ + suffix, true),
        _ => ("v"@ + current, false),
    }
}

/// The version line at the bottom of the picker, and whether it announces an update.
pub fn version_label(update_available: &Option<String>, current: &str, suffix: &str) -> (r: (String, bool))
    ensures
        (r.0@, r.1) == version_label_spec(crate::browser::opt_view(*update_available), current@, suffix@),
{
    if let Some(tag) = update_available {
        if crate::updater::is_newer(tag.as_str(), current) {
            let mut t = String::new();
            push_str(&mut t, "⬆ ");
            push_str(&mut t, tag.as_str());
            push_str(&mut t, " ");
            push_str(&mut t, suffix);
            return (t, true);
        }
    }
    let mut t = String::new();
    push_str(&mut t, "v");
    push_str(&mut t, current);
    (t, false)
}

/// What the resident instance does with a request it received.
pub enum ServerAction {
    /// Open the URL in this browser without showing the picker.
    Launch(Browser, String),
    /// Show the picker for the URL.
    Show(String),
    /// End the process.
    Quit,
}

/// The resident instance's answer to a request: a URL that a rule or the
/// default browser settles is opened directly (using the settings as they
/// are now, `None` when they could not be read), any other is shown in the
/// picker; an exit request ends the process.
pub fn on_request(req: Request, config: &Option<Config>) -> (r: ServerAction)
    ensures
        req@ == RequestView::Exit ==> r is Quit,
        req@ matches RequestView::Open(url) ==> match config {
            Some(c) => match auto_browser_spec(
                group_views(c.cached_groups@),
                c.rules@,
                crate::browser::opt_view(c.default_browser),
                url,
            ) {
                Some(b) => r matches ServerAction::Launch(x, u) && x@ == b && u@ == url,
                None => r matches ServerAction::Show(u) && u@ == url,
            },
            None => r matches ServerAction::Show(u) && u@ == url,
        },
{
    match req {
        Request::Exit => ServerAction::Quit,
        Request::Open(url) => {
            match config {
                Some(c) => match find_auto_browser(&c.cached_groups, c, url.as_str()) {
                    Some(b) => ServerAction::Launch(b, url),
                    None => ServerAction::Show(url),
                },
                None => ServerAction::Show(url),
            }
        },
    }
}

/// Dropping a dragged row into a gap: the two gaps next to the row leave it
/// where it is; any other gap is where it goes. The row then ends at that
/// gap's position, counted without the row itself (one less below it).
pub proof fn law_drop_target(src: int, slot: int)
    requires
        0 <= src,
        0 <= slot,
    ensures
        slot != src && slot != src + 1 ==> drop_target_spec(src, slot) == slot,
        slot == src || slot == src + 1 ==> drop_target_spec(src, slot) == src,
        moves(src, drop_target_spec(src, slot)) <==> (slot != src && slot != src + 1),
        slot < src ==> insert_at(src, drop_target_spec(src, slot)) == slot,
        slot > src + 1 ==> insert_at(src, drop_target_spec(src, slot)) == slot - 1,
{
}

} // verus!
