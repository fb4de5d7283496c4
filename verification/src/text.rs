//! Character-level text primitives shared by the parsers of this crate.
//!
//! A `str` is viewed as the sequence of its characters; every position in
//! this module is a character index into that sequence.

use vstd::prelude::*;

verus! {

/// `String::push` appends one character.
pub assume_specification[ String::push ](s: &mut String, ch: char)
    ensures
        final(s)@ == old(s)@.push(ch),
;

/// Unicode lowercasing, as `str::to_lowercase` does it (locale-independent).
pub uninterp spec fn lowercase(s: Seq<char>) -> Seq<char>;

/// `str::to_lowercase`. Its result is named by [`lowercase`]; the Unicode
/// case mapping itself is not restated here.
#[verifier::external_body]
pub(crate) fn to_lowercase(s: &str) -> (r: String)
    ensures
        r@ == lowercase(s@),
{
    s.to_lowercase()
}

/// Copies the characters of a string slice into a vector.
pub fn chars_of(s: &str) -> (v: Vec<char>)
    ensures
        v@ == s@,
{
    let mut v: Vec<char> = Vec::new();
    for c in it: s.chars()
        invariant
            v@ == it.seq().take(it.index() as int),
            it.seq() == s@,
    {
        v.push(c);
    }
    v
}

/// Builds a string from the characters `v[lo..hi]`.
pub fn string_from(v: &Vec<char>, lo: usize, hi: usize) -> (s: String)
    requires
        lo <= hi <= v.len(),
    ensures
        s@ == v@.subrange(lo as int, hi as int),
{
    let mut s = String::new();
    let mut i = lo;
    while i < hi
        invariant
            lo <= i <= hi <= v.len(),
            s@ == v@.subrange(lo as int, i as int),
        decreases hi - i,
    {
        s.push(v[i]);
        assert(v@.subrange(lo as int, i + 1) == v@.subrange(lo as int, i as int).push(v@[i as int]));
        i += 1;
    }
    s
}

/// `p` occurs in `h` at position `i`.
pub open spec fn occurs_at(h: Seq<char>, p: Seq<char>, i: int) -> bool {
    0 <= i && i + p.len() <= h.len() && h.subrange(i, i + p.len()) == p
}

/// The first position at or after `i` where `p` occurs in `h`.
pub open spec fn find_from(h: Seq<char>, p: Seq<char>, i: int) -> Option<int>
    decreases h.len() + 1 - i,
{
    if i < 0 || i + p.len() > h.len() {
        None
    } else if occurs_at(h, p, i) {
        Some(i)
    } else {
        find_from(h, p, i + 1)
    }
}

/// The first position where `p` occurs in `h` (what `str::find` gives, counted in characters).
pub open spec fn find(h: Seq<char>, p: Seq<char>) -> Option<int> {
    find_from(h, p, 0)
}

/// `h` begins with `p`.
pub open spec fn starts_with(h: Seq<char>, p: Seq<char>) -> bool {
    p.len() <= h.len() && h.subrange(0, p.len() as int) == p
}

/// `h` ends with `p`.
pub open spec fn ends_with(h: Seq<char>, p: Seq<char>) -> bool {
    p.len() <= h.len() && h.subrange(h.len() - p.len(), h.len() as int) == p
}

/// What a search from position `i` finds: an occurrence at or after `i`, the first one.
pub proof fn lemma_find_from_props(h: Seq<char>, p: Seq<char>, i: int)
    requires
        0 <= i,
    ensures
        find_from(h, p, i) matches Some(k) ==> i <= k && occurs_at(h, p, k) && forall|j: int|
            i <= j < k ==> !occurs_at(h, p, j),
        find_from(h, p, i) is None ==> forall|j: int| i <= j ==> !occurs_at(h, p, j),
    decreases h.len() + 1 - i,
{
    if i + p.len() > h.len() {
    } else if occurs_at(h, p, i) {
    } else {
        lemma_find_from_props(h, p, i + 1);
    }
}

/// The first occurrence of `p` in `h`: characterised without recursion.
pub proof fn lemma_find(h: Seq<char>, p: Seq<char>)
    ensures
        find(h, p) matches Some(k) ==> occurs_at(h, p, k) && forall|j: int|
            0 <= j < k ==> !occurs_at(h, p, j),
        find(h, p) is None ==> forall|j: int| !occurs_at(h, p, j),
{
    lemma_find_from_props(h, p, 0);
}

/// Does `p` occur in `h` at position `i`?
pub fn matches_at(h: &Vec<char>, p: &Vec<char>, i: usize) -> (r: bool)
    ensures
        r == occurs_at(h@, p@, i as int),
{
    if i > h.len() || p.len() > h.len() - i {
        return false;
    }
    let mut k: usize = 0;
    while k < p.len()
        invariant
            i + p.len() <= h.len(),
            k <= p.len(),
            forall|j: int| 0 <= j < k ==> h@[i + j] == p@[j],
        decreases p.len() - k,
    {
        if h[i + k] != p[k] {
            assert(h@.subrange(i as int, i + p.len())[k as int] != p@[k as int]);
            return false;
        }
        k += 1;
    }
    assert(h@.subrange(i as int, i + p.len()) =~= p@);
    true
}

/// The first position at or after `start` where `p` occurs in `h`.
pub fn find_chars_from(h: &Vec<char>, p: &Vec<char>, start: usize) -> (r: Option<usize>)
    ensures
        r matches Some(k) ==> find_from(h@, p@, start as int) == Some(k as int),
        r is None ==> find_from(h@, p@, start as int) is None,
{
    let mut i = start;
    if i > h.len() || p.len() > h.len() - i {
        return None;
    }
    let last = h.len() - p.len();
    loop
        invariant
            start <= i <= last,
            last == h.len() - p.len(),
            find_from(h@, p@, start as int) == find_from(h@, p@, i as int),
        decreases last - i,
    {
        if matches_at(h, p, i) {
            return Some(i);
        }
        if i == last {
            assert(find_from(h@, p@, i + 1) is None);
            return None;
        }
        i += 1;
    }
}

/// The first position where `p` occurs in `h`.
pub fn find_chars(h: &Vec<char>, p: &Vec<char>) -> (r: Option<usize>)
    ensures
        r matches Some(k) ==> find(h@, p@) == Some(k as int),
        r is None ==> find(h@, p@) is None,
{
    find_chars_from(h, p, 0)
}

/// Does `h` begin with `p`?
pub fn starts_with_chars(h: &Vec<char>, p: &Vec<char>) -> (r: bool)
    ensures
        r == starts_with(h@, p@),
{
    matches_at(h, p, 0)
}

/// Does `h` end with `p`?
pub fn ends_with_chars(h: &Vec<char>, p: &Vec<char>) -> (r: bool)
    ensures
        r == ends_with(h@, p@),
{
    if p.len() > h.len() {
        false
    } else {
        matches_at(h, p, h.len() - p.len())
    }
}

/// The characters that `char::is_whitespace` accepts: Unicode's `White_Space` property.
pub open spec fn is_space(c: char) -> bool {
    ||| '\u{9}' <= c <= '\u{d}'
    ||| c == ' '
    ||| c == '\u{85}'
    ||| c == '\u{a0}'
    ||| c == '\u{1680}'
    ||| '\u{2000}' <= c <= '\u{200a}'
    ||| c == '\u{2028}'
    ||| c == '\u{2029}'
    ||| c == '\u{202f}'
    ||| c == '\u{205f}'
    ||| c == '\u{3000}'
}

/// Unicode white space, as `char::is_whitespace` decides it.
pub fn is_space_char(c: char) -> (r: bool)
    ensures
        r == is_space(c),
{
    ('\u{9}' <= c && c <= '\u{d}') || c == ' ' || c == '\u{85}' || c == '\u{a0}' || c
        == '\u{1680}' || ('\u{2000}' <= c && c <= '\u{200a}') || c == '\u{2028}' || c
        == '\u{2029}' || c == '\u{202f}' || c == '\u{205f}' || c == '\u{3000}'
}

/// The number of white-space characters at the start of `s`.
pub open spec fn lead_space(s: Seq<char>) -> nat
    decreases s.len(),
{
    if s.len() > 0 && is_space(s[0]) {
        1 + lead_space(s.drop_first())
    } else {
        0
    }
}

/// The number of white-space characters at the end of `s`.
pub open spec fn trail_space(s: Seq<char>) -> nat
    decreases s.len(),
{
    if s.len() > 0 && is_space(s.last()) {
        1 + trail_space(s.drop_last())
    } else {
        0
    }
}

/// `str::trim_start`.
pub open spec fn trim_start(s: Seq<char>) -> Seq<char> {
    s.skip(lead_space(s) as int)
}

/// `str::trim_end`.
pub open spec fn trim_end(s: Seq<char>) -> Seq<char> {
    s.take(s.len() - trail_space(s))
}

/// `str::trim`.
pub open spec fn trim(s: Seq<char>) -> Seq<char> {
    trim_end(trim_start(s))
}

/// Skipping `i` leading white-space characters leaves the rest of the leading white space.
pub proof fn lemma_lead_space(s: Seq<char>, i: int)
    requires
        0 <= i <= s.len(),
        forall|j: int| 0 <= j < i ==> is_space(s[j]),
    ensures
        lead_space(s) == i + lead_space(s.skip(i)),
        lead_space(s) <= s.len(),
    decreases i,
{
    lemma_lead_space_bound(s);
    assert(s.skip(0) =~= s);
    if i > 0 {
        assert(s.drop_first().skip(i - 1) =~= s.skip(i));
        assert forall|j: int| 0 <= j < i - 1 implies is_space(s.drop_first()[j]) by {
            assert(s.drop_first()[j] == s[j + 1]);
        }
        assert(is_space(s[0]));
        lemma_lead_space(s.drop_first(), i - 1);
    }
}

/// The leading white space is white space, and what follows it is not.
pub proof fn lemma_lead_space_bound(s: Seq<char>)
    ensures
        lead_space(s) <= s.len(),
        lead_space(s) < s.len() ==> !is_space(s[lead_space(s) as int]),
        forall|j: int| 0 <= j < lead_space(s) ==> is_space(#[trigger] s[j]),
    decreases s.len(),
{
    if s.len() > 0 && is_space(s[0]) {
        lemma_lead_space_bound(s.drop_first());
        assert forall|j: int| 0 <= j < lead_space(s) implies is_space(#[trigger] s[j]) by {
            if j > 0 {
                assert(s[j] == s.drop_first()[j - 1]);
            }
        }
    }
}

/// Dropping `i` trailing white-space characters leaves the rest of the trailing white space.
pub proof fn lemma_trail_space(s: Seq<char>, i: int)
    requires
        0 <= i <= s.len(),
        forall|j: int| s.len() - i <= j < s.len() ==> is_space(s[j]),
    ensures
        trail_space(s) == i + trail_space(s.take(s.len() - i)),
    decreases i,
{
    assert(s.take(s.len() as int) =~= s);
    if i > 0 {
        assert(s.drop_last().take(s.drop_last().len() - (i - 1)) =~= s.take(s.len() - i));
        assert forall|j: int| s.drop_last().len() - (i - 1) <= j < s.drop_last().len() implies is_space(s.drop_last()[j]) by {
            assert(s.drop_last()[j] == s[j]);
        }
        assert(is_space(s[s.len() - 1]));
        lemma_trail_space(s.drop_last(), i - 1);
    }
}

/// Trimming text padded with white space gives back the text, when it
/// neither starts nor ends with white space.
pub proof fn lemma_trim_padded(w1: Seq<char>, core: Seq<char>, w2: Seq<char>)
    requires
        core.len() > 0,
        !is_space(core[0]),
        !is_space(core.last()),
        forall|i: int| 0 <= i < w1.len() ==> is_space(#[trigger] w1[i]),
        forall|i: int| 0 <= i < w2.len() ==> is_space(#[trigger] w2[i]),
    ensures
        trim(w1 + core + w2) == core,
{
    let s = w1 + core + w2;
    assert forall|j: int| 0 <= j < w1.len() implies is_space(s[j]) by {
        assert(s[j] == w1[j]);
    }
    lemma_lead_space(s, w1.len() as int);
    let t = core + w2;
    assert(s.skip(w1.len() as int) =~= t);
    assert(t[0] == core[0]);
    assert(lead_space(t) == 0);
    assert(trim_start(s) =~= t);
    assert forall|j: int| t.len() - w2.len() <= j < t.len() implies is_space(t[j]) by {
        assert(t[j] == w2[j - core.len()]);
    }
    lemma_trail_space(t, w2.len() as int);
    assert(t.take(t.len() - w2.len()) =~= core);
    assert(trail_space(core) == 0);
    assert(trim_end(t) =~= core);
}

/// The number of leading white-space characters of `v[lo..]`.
pub fn lead_space_from(v: &Vec<char>, lo: usize) -> (n: usize)
    requires
        lo <= v.len(),
    ensures
        lo + n <= v.len(),
        n == lead_space(v@.skip(lo as int)),
{
    let mut i = lo;
    while i < v.len() && is_space_char(v[i])
        invariant
            lo <= i <= v.len(),
            forall|j: int| lo <= j < i ==> is_space(v@[j]),
        decreases v.len() - i,
    {
        i += 1;
    }
    proof {
        let s = v@.skip(lo as int);
        assert(s.skip(i - lo) =~= v@.skip(i as int));
        lemma_lead_space(s, i - lo);
        if i < v.len() {
            assert(v@.skip(i as int)[0] == v@[i as int]);
        } else {
            assert(v@.skip(i as int).len() == 0);
        }
    }
    i - lo
}

/// The number of trailing white-space characters of `v[..hi]`.
pub fn trail_space_to(v: &Vec<char>, hi: usize) -> (n: usize)
    requires
        hi <= v.len(),
    ensures
        n <= hi,
        n == trail_space(v@.take(hi as int)),
{
    let mut i = hi;
    while i > 0 && is_space_char(v[i - 1])
        invariant
            i <= hi <= v.len(),
            forall|j: int| i <= j < hi ==> is_space(v@[j]),
        decreases i,
    {
        i -= 1;
    }
    proof {
        let s = v@.take(hi as int);
        assert(s.take(s.len() - (hi - i)) =~= v@.take(i as int));
        lemma_trail_space(s, hi - i);
        if i > 0 {
            assert(v@.take(i as int).last() == v@[i - 1]);
        }
    }
    hi - i
}

/// The number of bytes `c` takes in UTF-8.
pub open spec fn char_width(c: char) -> nat {
    if (c as u32) < 0x80 {
        1
    } else if (c as u32) < 0x800 {
        2
    } else if (c as u32) < 0x10000 {
        3
    } else {
        4
    }
}

/// The number of leading characters of `s` that fit in `n` bytes of UTF-8:
/// the longest prefix of at most `n` bytes (a cut that would fall inside a
/// character goes back to that character's start).
pub open spec fn bytes_window(s: Seq<char>, n: int) -> nat
    decreases s.len(),
{
    if s.len() == 0 || char_width(s[0]) > n {
        0
    } else {
        1 + bytes_window(s.drop_first(), n - char_width(s[0]))
    }
}

/// The UTF-8 width of `c`.
pub fn char_width_of(c: char) -> (w: usize)
    ensures
        w == char_width(c),
{
    let u = c as u32;
    if u < 0x80 {
        1
    } else if u < 0x800 {
        2
    } else if u < 0x10000 {
        3
    } else {
        4
    }
}

/// The number of characters of `v[lo..]` that fit in `n` bytes of UTF-8.
pub fn bytes_window_from(v: &Vec<char>, lo: usize, n: usize) -> (k: usize)
    requires
        lo <= v.len(),
    ensures
        k == bytes_window(v@.skip(lo as int), n as int),
        lo + k <= v.len(),
{
    let ghost s = v@.skip(lo as int);
    let mut k: usize = 0;
    let mut room: usize = n;
    assert(s.skip(0) =~= s);
    while lo + k < v.len() && char_width_of(v[lo + k]) <= room
        invariant
            lo + k <= v.len(),
            s == v@.skip(lo as int),
            room <= n,
            bytes_window(s, n as int) == k + bytes_window(s.skip(k as int), room as int),
        decreases v.len() - lo - k,
    {
        proof {
            assert(s.skip(k as int)[0] == v@[lo + k]);
            assert(s.skip(k as int).drop_first() =~= s.skip(k + 1));
        }
        room = room - char_width_of(v[lo + k]);
        k += 1;
    }
    proof {
        if lo + k < v.len() {
            assert(s.skip(k as int)[0] == v@[lo + k]);
        } else {
            assert(s.skip(k as int).len() == 0);
        }
    }
    k
}

/// The bounds of `trim(v)` within `v`.
pub fn trim_bounds(v: &Vec<char>) -> (r: (usize, usize))
    ensures
        r.0 <= r.1 <= v.len(),
        v@.subrange(r.0 as int, r.1 as int) == trim(v@),
{
    let a = lead_space_from(v, 0);
    proof {
        assert(v@.skip(0) =~= v@);
    }
    let mut j = v.len();
    while j > a && is_space_char(v[j - 1])
        invariant
            a <= j <= v.len(),
            forall|k: int| j <= k < v.len() ==> is_space(v@[k]),
        decreases j,
    {
        j -= 1;
    }
    proof {
        let u = v@.skip(a as int);
        assert forall|k: int| u.len() - (v.len() - j) <= k < u.len() implies is_space(u[k]) by {
            assert(u[k] == v@[a + k]);
        }
        lemma_trail_space(u, v.len() - j);
        let w = u.take(u.len() - (v.len() - j));
        if w.len() > 0 {
            assert(w.last() == v@[j - 1]);
        }
        assert(trail_space(w) == 0);
        assert(v@.subrange(a as int, j as int) =~= trim(v@));
    }
    (a, j)
}

} // verus!
