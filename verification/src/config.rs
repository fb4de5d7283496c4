//! The user's settings: URL rules, the default browser, the order of the
//! picker's rows, the update-check record, and the cached browser list.

use vstd::prelude::*;
use crate::browser::{group_views, BrowserGroup, GroupView};
use crate::text::{find, find_chars, chars_of};

verus! {

/// Opens links whose URL contains `pattern` with the browser named `browser`.
#[derive(Debug)]
pub struct Rule {
    /// Text that the URL must contain.
    pub pattern: String,
    /// Name of the browser (or profile) to open the URL with.
    pub browser: String,
}

impl Clone for Rule {
    fn clone(&self) -> (r: Self)
        ensures
            r == *self,
    {
        Rule { pattern: self.pattern.clone(), browser: self.browser.clone() }
    }
}

/// The settings, as stored in `config.toml`.
#[derive(Debug)]
pub struct Config {
    pub default_browser: Option<String>,
    pub rules: Vec<Rule>,
    /// Executable paths in the order the picker shows them.
    pub browser_order: Vec<String>,
    /// Unix time of the last update check.
    pub last_update_check: Option<u64>,
    /// The newest release tag seen by the last successful check.
    pub update_available: Option<String>,
    /// The browser list found by the last detection.
    pub cached_groups: Vec<BrowserGroup>,
}

/// The values of a sequence of strings.
pub open spec fn string_views(v: Seq<String>) -> Seq<Seq<char>> {
    v.map_values(|s: String| s@)
}

/// The first position at or after `i` where `x` stands in `order`.
pub open spec fn index_from(order: Seq<Seq<char>>, x: Seq<char>, i: int) -> Option<int>
    decreases order.len() - i,
{
    if i < 0 || i >= order.len() {
        None
    } else if order[i] == x {
        Some(i)
    } else {
        index_from(order, x, i + 1)
    }
}

/// The sort key of an executable: its first position in `order`, or `usize::MAX` when absent.
pub open spec fn order_key(order: Seq<Seq<char>>, exe: Seq<char>) -> int {
    match index_from(order, exe, 0) {
        Some(i) => i,
        None => usize::MAX as int,
    }
}

/// The groups stand in non-decreasing order of their keys.
pub open spec fn sorted_by_order(gs: Seq<GroupView>, order: Seq<Seq<char>>) -> bool {
    forall|i: int, j: int|
        0 <= i < j < gs.len() ==> order_key(order, #[trigger] gs[i].exe_path) <= order_key(
            order,
            #[trigger] gs[j].exe_path,
        )
}

/// Selects the groups whose key is `k`.
pub open spec fn has_key(order: Seq<Seq<char>>, k: int) -> spec_fn(GroupView) -> bool {
    |g: GroupView| order_key(order, g.exe_path) == k
}

/// `r` is `s` sorted stably by key: sorted, and for every key the groups
/// with that key stand in `r` in the same order as in `s`.
pub open spec fn stable_sorted_by_order(
    r: Seq<GroupView>,
    s: Seq<GroupView>,
    order: Seq<Seq<char>>,
) -> bool {
    &&& sorted_by_order(r, order)
    &&& forall|k: int| #[trigger] r.filter(has_key(order, k)) == s.filter(has_key(order, k))
}

/// The position of the first rule whose pattern the URL contains, from rule `i` on.
pub open spec fn rule_from(rules: Seq<Rule>, url: Seq<char>, i: int) -> Option<int>
    decreases rules.len() - i,
{
    if i < 0 || i >= rules.len() {
        None
    } else if find(url, rules[i].pattern@) is Some {
        Some(i)
    } else {
        rule_from(rules, url, i + 1)
    }
}

/// The browser name of the first rule whose pattern the URL contains.
pub open spec fn match_rule_spec(rules: Seq<Rule>, url: Seq<char>) -> Option<Seq<char>> {
    match rule_from(rules, url, 0) {
        Some(i) => Some(rules[i].browser@),
        None => None,
    }
}

/// A found position lies in the searched range and holds the value.
pub proof fn lemma_index_from_range(order: Seq<Seq<char>>, x: Seq<char>, i: int)
    ensures
        index_from(order, x, i) matches Some(j) ==> 0 <= i <= j < order.len() && order[j] == x,
    decreases order.len() - i,
{
    if i >= 0 && i < order.len() && order[i] != x {
        lemma_index_from_range(order, x, i + 1);
    }
}

/// A sort key is a position in the order, or the largest key.
pub proof fn lemma_order_key_range(order: Seq<Seq<char>>, exe: Seq<char>)
    requires
        order.len() <= usize::MAX,
    ensures
        0 <= order_key(order, exe) < order.len() || order_key(order, exe) == usize::MAX,
{
    lemma_index_from_range(order, exe, 0);
}

/// The sort key of `exe` in `order`.
pub fn order_key_of(order: &Vec<String>, exe: &String) -> (k: usize)
    ensures
        k == order_key(string_views(order@), exe@),
{
    let ghost o = string_views(order@);
    let mut i: usize = 0;
    while i < order.len()
        invariant
            i <= order.len(),
            o == string_views(order@),
            index_from(o, exe@, 0) == index_from(o, exe@, i as int),
        decreases order.len() - i,
    {
        if order[i] == *exe {
            return i;
        }
        i += 1;
    }
    usize::MAX
}

/// Sorted groups list every executable named in the order before every
/// executable that is not (the unlisted ones go last).
pub proof fn law_unlisted_last(r: Seq<GroupView>, order: Seq<Seq<char>>, i: int, j: int)
    requires
        sorted_by_order(r, order),
        0 <= i < j < r.len(),
        order.len() <= usize::MAX,
        index_from(order, r[i].exe_path, 0) is None,
    ensures
        index_from(order, r[j].exe_path, 0) is None,
{
    lemma_order_key_range(order, r[j].exe_path);
    lemma_index_from_range(order, r[j].exe_path, 0);
    assert(order_key(order, r[i].exe_path) <= order_key(order, r[j].exe_path));
}

/// Filtering by `p` what passed `q`, where `q` implies `p`, keeps everything.
pub proof fn lemma_filter_within<A>(s: Seq<A>, q: spec_fn(A) -> bool, p: spec_fn(A) -> bool)
    requires
        forall|x: A| #[trigger] q(x) ==> p(x),
    ensures
        s.filter(q).filter(p) == s.filter(q),
    decreases s.len(),
{
    reveal(Seq::filter);
    if s.len() > 0 {
        lemma_filter_within(s.drop_last(), q, p);
        let f = s.drop_last().filter(q);
        if q(s.last()) {
            assert(f.push(s.last()).drop_last() =~= f);
        }
    }
}

/// Filtering by `p` what passed `q`, where `q` excludes `p`, keeps nothing.
pub proof fn lemma_filter_outside<A>(s: Seq<A>, q: spec_fn(A) -> bool, p: spec_fn(A) -> bool)
    requires
        forall|x: A| #[trigger] q(x) ==> !p(x),
    ensures
        s.filter(q).filter(p) == Seq::<A>::empty(),
    decreases s.len(),
{
    reveal(Seq::filter);
    if s.len() > 0 {
        lemma_filter_outside(s.drop_last(), q, p);
        let f = s.drop_last().filter(q);
        if q(s.last()) {
            assert(f.push(s.last()).drop_last() =~= f);
        }
    }
}

/// A filter that no element passes gives the empty sequence.
pub proof fn lemma_filter_none<A>(s: Seq<A>, p: spec_fn(A) -> bool)
    requires
        forall|i: int| 0 <= i < s.len() ==> !p(#[trigger] s[i]),
    ensures
        s.filter(p) == Seq::<A>::empty(),
    decreases s.len(),
{
    reveal(Seq::filter);
    if s.len() > 0 {
        assert forall|i: int| 0 <= i < s.drop_last().len() implies !p(#[trigger] s.drop_last()[i]) by {
            assert(s.drop_last()[i] == s[i]);
        }
        lemma_filter_none(s.drop_last(), p);
    }
}

/// Filtering a prefix one element longer.
pub proof fn lemma_filter_take_step<A>(s: Seq<A>, p: spec_fn(A) -> bool, i: int)
    requires
        0 <= i < s.len(),
    ensures
        s.take(i + 1).filter(p) == (if p(s[i]) {
            s.take(i).filter(p).push(s[i])
        } else {
            s.take(i).filter(p)
        }),
{
    reveal(Seq::filter);
    assert(s.take(i + 1).drop_last() =~= s.take(i));
    assert(s.take(i + 1).last() == s[i]);
}

impl Config {
    /// Sorts the groups by their executable's position in `browser_order`;
    /// executables that are not listed go last. The sort is stable.
    pub fn sort_groups(&self, groups: &mut Vec<BrowserGroup>)
        ensures
            stable_sorted_by_order(
                group_views(final(groups)@),
                group_views(old(groups)@),
                string_views(self.browser_order@),
            ),
    {
        let ghost order = string_views(self.browser_order@);
        let ghost v = group_views(groups@);
        if self.browser_order.len() == 0 {
            proof {
                assert forall|i: int, j: int| 0 <= i < j < v.len() implies order_key(
                    order,
                    #[trigger] v[i].exe_path,
                ) <= order_key(order, #[trigger] v[j].exe_path) by {}
            }
            return;
        }
        let sorted = self.sorted_groups(groups);
        *groups = sorted;
    }

    /// The groups sorted stably by their position in `browser_order`.
    fn sorted_groups(&self, groups: &Vec<BrowserGroup>) -> (out: Vec<BrowserGroup>)
        requires
            self.browser_order.len() > 0,
        ensures
            stable_sorted_by_order(
                group_views(out@),
                group_views(groups@),
                string_views(self.browser_order@),
            ),
    {
        let ghost order = string_views(self.browser_order@);
        let ghost v = group_views(groups@);
        let n = groups.len();
        let m = self.browser_order.len();
        let mut keys: Vec<usize> = Vec::new();
        let mut i: usize = 0;
        while i < n
            invariant
                i <= n == groups.len(),
                v == group_views(groups@),
                order == string_views(self.browser_order@),
                keys.len() == i,
                forall|j: int| 0 <= j < i ==> keys@[j] == order_key(order, #[trigger] v[j].exe_path),
            decreases n - i,
        {
            keys.push(order_key_of(&self.browser_order, &groups[i].exe_path));
            i += 1;
        }
        proof {
            assert forall|j: int| 0 <= j < n implies 0 <= order_key(order, #[trigger] v[j].exe_path) < m
                || order_key(order, v[j].exe_path) == usize::MAX by {
                lemma_order_key_range(order, v[j].exe_path);
            }
        }
        let mut out: Vec<BrowserGroup> = Vec::new();
        let mut k: usize = 0;
        // One pass per listed position, then one for the unlisted executables.
        loop
            invariant
                n == groups.len(),
                m == self.browser_order.len(),
                v == group_views(groups@),
                order == string_views(self.browser_order@),
                keys.len() == n,
                forall|j: int| 0 <= j < n ==> keys@[j] == order_key(order, #[trigger] v[j].exe_path),
                forall|j: int| 0 <= j < n ==> 0 <= order_key(order, #[trigger] v[j].exe_path) < m
                    || order_key(order, v[j].exe_path) == usize::MAX,
                k <= m,
                sorted_by_order(group_views(out@), order),
                forall|j: int| 0 <= j < out.len() ==> order_key(order, #[trigger] group_views(out@)[j].exe_path) < k,
                forall|kk: int| 0 <= kk < k ==> #[trigger] group_views(out@).filter(has_key(order, kk)) == v.filter(has_key(order, kk)),
                forall|kk: int| !(0 <= kk < k) ==> #[trigger] group_views(out@).filter(has_key(order, kk)) == Seq::<GroupView>::empty(),
            decreases m + 1 - k,
        {
            let key: usize = if k < m { k } else { usize::MAX };
            let ghost start = group_views(out@);
            let mut i: usize = 0;
            while i < n
                invariant
                    n == groups.len(),
                    v == group_views(groups@),
                    keys.len() == n,
                    forall|j: int| 0 <= j < n ==> keys@[j] == order_key(order, #[trigger] v[j].exe_path),
                    i <= n,
                    group_views(out@) == start + v.take(i as int).filter(has_key(order, key as int)),
                decreases n - i,
            {
                proof { lemma_filter_take_step(v, has_key(order, key as int), i as int); }
                if keys[i] == key {
                    let g = groups[i].clone();
                    let ghost before = group_views(out@);
                    out.push(g);
                    proof {
                        assert(g@ == v[i as int]);
                        assert(group_views(out@) =~= before.push(v[i as int]));
                    }
                    proof {
                        assert(group_views(out@) =~= start + v.take(i + 1).filter(has_key(order, key as int)));
                    }
                } else {
                    proof {
                        assert(group_views(out@) =~= start + v.take(i + 1).filter(has_key(order, key as int)));
                    }
                }
                i += 1;
            }
            proof {
                assert(v.take(n as int) =~= v);
                let b = v.filter(has_key(order, key as int));
                let o = group_views(out@);
                assert(o == start + b);
                assert forall|j: int| 0 <= j < b.len() implies order_key(order, #[trigger] b[j].exe_path) == key by {
                    v.lemma_filter_pred(has_key(order, key as int), j);
                }
                assert forall|kk: int| #[trigger] o.filter(has_key(order, kk)) == (if kk == key {
                    start.filter(has_key(order, kk)) + b
                } else {
                    start.filter(has_key(order, kk))
                }) by {
                    Seq::filter_distributes_over_add(start, b, has_key(order, kk));
                    if kk == key {
                        lemma_filter_within(v, has_key(order, key as int), has_key(order, kk));
                    } else {
                        lemma_filter_outside(v, has_key(order, key as int), has_key(order, kk));
                    }
                }
                assert forall|a: int, c: int| 0 <= a < c < o.len() implies order_key(
                    order,
                    #[trigger] o[a].exe_path,
                ) <= order_key(order, #[trigger] o[c].exe_path) by {
                    if c >= start.len() {
                        assert(o[c] == b[c - start.len()]);
                        if a >= start.len() {
                            assert(o[a] == b[a - start.len()]);
                        } else {
                            assert(o[a] == start[a]);
                        }
                    } else {
                        assert(o[a] == start[a]);
                        assert(o[c] == start[c]);
                    }
                }
            }
            if k == m {
                proof {
                    let o = group_views(out@);
                    let b = v.filter(has_key(order, key as int));
                    assert forall|kk: int| #[trigger] o.filter(has_key(order, kk)) == v.filter(has_key(order, kk)) by {
                        let of = o.filter(has_key(order, kk));
                        let sf = start.filter(has_key(order, kk));
                        if 0 <= kk < m {
                            assert(sf == v.filter(has_key(order, kk)));
                            assert(of == sf);
                        } else if kk == usize::MAX {
                            assert(sf == Seq::<GroupView>::empty());
                            assert(of == sf + b);
                            assert(of =~= b);
                        } else {
                            assert(sf == Seq::<GroupView>::empty());
                            assert(of == sf);
                            assert forall|j: int| 0 <= j < v.len() implies !has_key(order, kk)(#[trigger] v[j]) by {}
                            lemma_filter_none(v, has_key(order, kk));
                        }
                    }
                }
                return out;
            }
            proof {
                let o = group_views(out@);
                assert forall|j: int| 0 <= j < o.len() implies order_key(order, #[trigger] o[j].exe_path) < k + 1 by {
                    if j >= start.len() {
                        let b = v.filter(has_key(order, key as int));
                        assert(o[j] == b[j - start.len()]);
                    }
                }
            }
            k += 1;
        }
    }

    /// The browser named by the first rule whose pattern the URL contains.
    pub fn match_rule(&self, url: &str) -> (r: Option<&str>)
        ensures
            r matches Some(b) ==> match_rule_spec(self.rules@, url@) == Some(b@),
            r is None ==> match_rule_spec(self.rules@, url@) is None,
    {
        let u = chars_of(url);
        let mut i: usize = 0;
        while i < self.rules.len()
            invariant
                i <= self.rules.len(),
                u@ == url@,
                rule_from(self.rules@, url@, 0) == rule_from(self.rules@, url@, i as int),
            decreases self.rules.len() - i,
        {
            let p = chars_of(self.rules[i].pattern.as_str());
            if find_chars(&u, &p).is_some() {
                return Some(self.rules[i].browser.as_str());
            }
            i += 1;
        }
        None
    }
}

} // verus!
