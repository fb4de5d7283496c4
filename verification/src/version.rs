//! Release tags such as `v1.4.2`, read as sequences of numbers and ordered
//! the way `Vec<u32>` orders them.

use vstd::prelude::*;
use crate::text::chars_of;

verus! {

/// `c` is an ASCII digit.
pub open spec fn is_digit(c: char) -> bool {
    '0' <= c <= '9'
}

/// The number written by the decimal digits `d`.
pub open spec fn digits_value(d: Seq<char>) -> int
    decreases d.len(),
{
    if d.len() == 0 {
        0
    } else {
        digits_value(d.drop_last()) * 10 + (d.last() as int - '0' as int)
    }
}

/// What `u32::from_str` gives: an optional `+`, then at least one digit,
/// and a value that fits in a `u32`.
pub open spec fn parse_u32(p: Seq<char>) -> Option<u32> {
    let body = unsigned_body(p);
    if body.len() > 0 && all_digits(body) && digits_value(body) <= u32::MAX {
        Some(digits_value(body) as u32)
    } else {
        None
    }
}

/// The digits of a number text: a leading `+` is allowed.
pub open spec fn unsigned_body(p: Seq<char>) -> Seq<char> {
    if p.len() > 0 && p[0] == '+' {
        p.drop_first()
    } else {
        p
    }
}

/// Every character is an ASCII digit.
pub open spec fn all_digits(d: Seq<char>) -> bool {
    forall|i: int| 0 <= i < d.len() ==> is_digit(#[trigger] d[i])
}

/// The numbers of a version text: the text split at every `.`, keeping the
/// parts that read as `u32`.
pub open spec fn numbers(s: Seq<char>) -> Seq<u32>
    decreases s.len(),
{
    let dot = first_dot(s, 0);
    proof {
        lemma_first_dot(s, 0);
    }
    if dot < s.len() {
        parsed(s.take(dot)) + numbers(s.skip(dot + 1))
    } else {
        parsed(s)
    }
}

/// The position of the first `.` at or after `i`, or the length when there is none.
pub open spec fn first_dot(s: Seq<char>, i: int) -> int
    decreases s.len() - i,
{
    if i < 0 || i >= s.len() {
        s.len() as int
    } else if s[i] == '.' {
        i
    } else {
        first_dot(s, i + 1)
    }
}

/// A part that reads as a number, as a sequence of one; otherwise nothing.
pub open spec fn parsed(p: Seq<char>) -> Seq<u32> {
    match parse_u32(p) {
        Some(n) => seq![n],
        None => Seq::empty(),
    }
}

/// The number of `v` characters at the start of `s`.
pub open spec fn lead_v(s: Seq<char>) -> nat
    decreases s.len(),
{
    if s.len() > 0 && s[0] == 'v' {
        1 + lead_v(s.drop_first())
    } else {
        0
    }
}

/// The numbers of a release tag: leading `v`s are dropped first.
pub open spec fn tag_numbers(s: Seq<char>) -> Seq<u32> {
    numbers(s.skip(lead_v(s) as int))
}

/// `a < b` as `Vec<u32>` compares: the first difference decides, and a
/// proper prefix is smaller.
pub open spec fn lex_less(a: Seq<u32>, b: Seq<u32>) -> bool
    decreases a.len(),
{
    if a.len() == 0 {
        b.len() > 0
    } else if b.len() == 0 {
        false
    } else if a[0] != b[0] {
        a[0] < b[0]
    } else {
        lex_less(a.drop_first(), b.drop_first())
    }
}

/// `tag` names a later release than `current`.
pub open spec fn newer_spec(tag: Seq<char>, current: Seq<char>) -> bool {
    lex_less(tag_numbers(current), tag_numbers(tag))
}

/// The first `.` at or after `i`: where it stands, and that none comes before.
pub proof fn lemma_first_dot(s: Seq<char>, i: int)
    requires
        0 <= i <= s.len(),
    ensures
        i <= first_dot(s, i) <= s.len(),
        first_dot(s, i) < s.len() ==> s[first_dot(s, i)] == '.',
        forall|j: int| i <= j < first_dot(s, i) ==> s[j] != '.',
    decreases s.len() - i,
{
    if i < s.len() && s[i] != '.' {
        lemma_first_dot(s, i + 1);
    }
}

/// Reads one part of a version text as `u32::from_str` would.
pub fn parse_part(v: &Vec<char>, lo: usize, hi: usize) -> (r: Option<u32>)
    requires
        lo <= hi <= v.len(),
    ensures
        r == parse_u32(v@.subrange(lo as int, hi as int)),
{
    let ghost p = v@.subrange(lo as int, hi as int);
    let mut i = lo;
    if i < hi && v[i] == '+' {
        i += 1;
    }
    let ghost body = unsigned_body(p);
    proof {
        assert(body =~= v@.subrange(i as int, hi as int));
    }
    if i == hi {
        return None;
    }
    let start = i;
    let mut value: u64 = 0;
    while i < hi
        invariant
            lo <= start < hi <= v.len(),
            start <= i <= hi,
            p == v@.subrange(lo as int, hi as int),
            body == unsigned_body(p),
            body == v@.subrange(start as int, hi as int),
            forall|j: int| start <= j < i ==> is_digit(v@[j]),
            value == digits_value(v@.subrange(start as int, i as int)),
            value <= u32::MAX,
        decreases hi - i,
    {
        let c = v[i];
        if !('0' <= c && c <= '9') {
            proof {
                assert(body[i - start] == c);
                assert(!is_digit(body[i - start]));
            }
            return None;
        }
        proof {
            assert(v@.subrange(start as int, i + 1).drop_last() =~= v@.subrange(start as int, i as int));
        }
        let d = (c as u32 - '0' as u32) as u64;
        value = value * 10 + d;
        if value > 4294967295u64 {
            proof {
                assert(body.take(i + 1 - start) =~= v@.subrange(start as int, i + 1));
                if all_digits(body) {
                    lemma_digits_grow(body, i + 1 - start);
                }
            }
            return None;
        }
        i += 1;
    }
    proof {
        assert(v@.subrange(start as int, hi as int) =~= body);
        assert forall|j: int| 0 <= j < body.len() implies is_digit(#[trigger] body[j]) by {
            assert(body[j] == v@[start + j]);
        }
    }
    Some(value as u32)
}

/// Extending a digit string never makes its value smaller.
proof fn lemma_digits_grow(d: Seq<char>, k: int)
    requires
        0 <= k <= d.len(),
        forall|i: int| 0 <= i < d.len() ==> is_digit(#[trigger] d[i]),
    ensures
        digits_value(d.take(k)) <= digits_value(d),
        0 <= digits_value(d.take(k)),
    decreases d.len(),
{
    lemma_digits_nonneg(d.take(k));
    if k < d.len() {
        let e = d.drop_last();
        assert(e.take(k) =~= d.take(k));
        assert forall|i: int| 0 <= i < e.len() implies is_digit(#[trigger] e[i]) by {
            assert(e[i] == d[i]);
        }
        lemma_digits_grow(e, k);
        lemma_digits_nonneg(e);
        assert(is_digit(d[d.len() - 1]));
    } else {
        assert(d.take(k) =~= d);
    }
}

/// A number written in digits is not negative.
proof fn lemma_digits_nonneg(d: Seq<char>)
    requires
        forall|i: int| 0 <= i < d.len() ==> is_digit(#[trigger] d[i]),
    ensures
        0 <= digits_value(d),
    decreases d.len(),
{
    if d.len() > 0 {
        let e = d.drop_last();
        assert forall|i: int| 0 <= i < e.len() implies is_digit(#[trigger] e[i]) by {
            assert(e[i] == d[i]);
        }
        lemma_digits_nonneg(e);
        assert(is_digit(d[d.len() - 1]));
    }
}

/// The numbers of the version text `v[lo..]`.
pub fn numbers_of(v: &Vec<char>, lo: usize) -> (r: Vec<u32>)
    requires
        lo <= v.len(),
    ensures
        r@ == numbers(v@.skip(lo as int)),
{
    let mut out: Vec<u32> = Vec::new();
    let mut start = lo;
    let mut i = lo;
    while i < v.len()
        invariant
            lo <= start <= i <= v.len(),
            numbers(v@.skip(lo as int)) == out@ + numbers(v@.skip(start as int)),
            forall|j: int| start <= j < i ==> v@[j] != '.',
        decreases v.len() - i,
    {
        if v[i] == '.' {
            let part = parse_part(v, start, i);
            proof {
                let s = v@.skip(start as int);
                lemma_first_dot_at(s, i - start);
                assert(s.take(i - start) =~= v@.subrange(start as int, i as int));
                assert(s.skip(i - start + 1) =~= v@.skip(i + 1));
            }
            match part {
                Some(n) => {
                    out.push(n);
                },
                None => {},
            }
            proof {
                let s = v@.skip(start as int);
                assert(numbers(s) == parsed(v@.subrange(start as int, i as int)) + numbers(v@.skip(i + 1)));
            }
            start = i + 1;
            proof {
                assert(numbers(v@.skip(lo as int)) =~= out@ + numbers(v@.skip(start as int)));
            }
        }
        i += 1;
    }
    let part = parse_part(v, start, v.len());
    proof {
        let s = v@.skip(start as int);
        lemma_first_dot_none(s);
        assert(s =~= v@.subrange(start as int, v.len() as int));
    }
    match part {
        Some(n) => {
            out.push(n);
        },
        None => {},
    }
    proof {
        assert(numbers(v@.skip(lo as int)) =~= out@);
    }
    out
}

/// A `.` with none before it is the first one.
proof fn lemma_first_dot_at(s: Seq<char>, k: int)
    requires
        0 <= k < s.len(),
        s[k] == '.',
        forall|j: int| 0 <= j < k ==> s[j] != '.',
    ensures
        first_dot(s, 0) == k,
{
    lemma_first_dot_from(s, 0, k);
}

/// A `.` at `k` with none between `i` and `k` is the first one from `i`.
proof fn lemma_first_dot_from(s: Seq<char>, i: int, k: int)
    requires
        0 <= i <= k < s.len(),
        s[k] == '.',
        forall|j: int| i <= j < k ==> s[j] != '.',
    ensures
        first_dot(s, i) == k,
    decreases k - i,
{
    if i < k {
        lemma_first_dot_from(s, i + 1, k);
    }
}

/// Without any `.`, the first one is at the end.
proof fn lemma_first_dot_none(s: Seq<char>)
    requires
        forall|j: int| 0 <= j < s.len() ==> s[j] != '.',
    ensures
        first_dot(s, 0) == s.len(),
{
    lemma_first_dot(s, 0);
}

/// The numbers of a release tag.
pub fn tag_numbers_of(tag: &str) -> (r: Vec<u32>)
    ensures
        r@ == tag_numbers(tag@),
{
    let v = chars_of(tag);
    let mut i: usize = 0;
    assert(v@.skip(0) =~= v@);
    while i < v.len() && v[i] == 'v'
        invariant
            i <= v.len(),
            v@ == tag@,
            lead_v(v@) == i + lead_v(v@.skip(i as int)),
        decreases v.len() - i,
    {
        proof {
            assert(v@.skip(i as int).drop_first() =~= v@.skip(i + 1));
        }
        i += 1;
    }
    proof {
        if i < v.len() {
            assert(v@.skip(i as int)[0] == v@[i as int]);
        }
        assert(lead_v(v@.skip(i as int)) == 0);
    }
    numbers_of(&v, i)
}

/// `a < b` in the order of `Vec<u32>`.
pub fn lex_less_exec(a: &Vec<u32>, b: &Vec<u32>) -> (r: bool)
    ensures
        r == lex_less(a@, b@),
{
    let mut i: usize = 0;
    assert(a@.skip(0) =~= a@);
    assert(b@.skip(0) =~= b@);
    while i < a.len() && i < b.len()
        invariant
            i <= a.len(),
            i <= b.len(),
            forall|j: int| 0 <= j < i ==> a@[j] == b@[j],
            lex_less(a@, b@) == lex_less(a@.skip(i as int), b@.skip(i as int)),
        decreases a.len() - i,
    {
        proof {
            assert(a@.skip(i as int).drop_first() =~= a@.skip(i + 1));
            assert(b@.skip(i as int).drop_first() =~= b@.skip(i + 1));
        }
        if a[i] != b[i] {
            return a[i] < b[i];
        }
        i += 1;
    }
    i == a.len() && i < b.len()
}

/// No release is newer than itself.
pub proof fn law_not_newer_than_itself(tag: Seq<char>)
    ensures
        !newer_spec(tag, tag),
{
    lemma_lex_irreflexive(tag_numbers(tag));
}

/// Of two releases, at most one is newer than the other.
pub proof fn law_newer_asymmetric(a: Seq<char>, b: Seq<char>)
    ensures
        !(newer_spec(a, b) && newer_spec(b, a)),
{
    lemma_lex_asymmetric(tag_numbers(a), tag_numbers(b));
}

/// Newer-than is transitive.
pub proof fn law_newer_transitive(a: Seq<char>, b: Seq<char>, c: Seq<char>)
    requires
        newer_spec(a, b),
        newer_spec(b, c),
    ensures
        newer_spec(a, c),
{
    lemma_lex_transitive(tag_numbers(c), tag_numbers(b), tag_numbers(a));
}

/// No number list is smaller than itself.
proof fn lemma_lex_irreflexive(a: Seq<u32>)
    ensures
        !lex_less(a, a),
    decreases a.len(),
{
    if a.len() > 0 {
        lemma_lex_irreflexive(a.drop_first());
    }
}

/// Of two number lists, at most one is smaller than the other.
proof fn lemma_lex_asymmetric(a: Seq<u32>, b: Seq<u32>)
    ensures
        !(lex_less(a, b) && lex_less(b, a)),
    decreases a.len(),
{
    if a.len() > 0 && b.len() > 0 && a[0] == b[0] {
        lemma_lex_asymmetric(a.drop_first(), b.drop_first());
    }
}

/// Number-list order is transitive.
proof fn lemma_lex_transitive(a: Seq<u32>, b: Seq<u32>, c: Seq<u32>)
    requires
        lex_less(a, b),
        lex_less(b, c),
    ensures
        lex_less(a, c),
    decreases a.len(),
{
    if a.len() > 0 && b.len() > 0 && c.len() > 0 && a[0] == b[0] && b[0] == c[0] {
        lemma_lex_transitive(a.drop_first(), b.drop_first(), c.drop_first());
    }
}

} // verus!
