//! Small helpers shared by several parts of the program.

use vstd::prelude::*;
use crate::text::{
    chars_of, find, find_chars_from, find_from, lead_space_from, lemma_find_from_props, occurs_at,
    string_from, trim_start,
};

verus! {

/// Process creation flag: start the child without a console window.
pub const CREATE_NO_WINDOW: u32 = 0x0800_0000;

/// Process creation flag: detach the child from the parent's console.
pub const DETACHED_PROCESS: u32 = 0x0000_0008;

/// The text `"key":` that introduces `key` in a JSON object.
pub open spec fn json_key(key: Seq<char>) -> Seq<char> {
    seq!['"'] + key + seq!['"', ':']
}

/// The string value of `key` in a flat JSON text: the first `"key":` is
/// located, white space after it is skipped, and the value is everything
/// between the following pair of quotes. Escapes and nesting are not
/// interpreted.
pub open spec fn json_str_spec(text: Seq<char>, key: Seq<char>) -> Option<Seq<char>> {
    let search = json_key(key);
    match find(text, search) {
        None => None,
        Some(pos) => {
            let after = trim_start(text.skip(pos + search.len()));
            if after.len() > 0 && after[0] == '"' {
                let value = after.drop_first();
                match find(value, seq!['"']) {
                    Some(end) => Some(value.take(end)),
                    None => None,
                }
            } else {
                None
            }
        },
    }
}

/// Builds the characters of `"key":`.
pub fn json_key_chars(key: &str) -> (v: Vec<char>)
    ensures
        v@ == json_key(key@),
{
    let k = chars_of(key);
    let mut v: Vec<char> = Vec::new();
    v.push('"');
    let mut i: usize = 0;
    while i < k.len()
        invariant
            i <= k.len(),
            v@ == seq!['"'] + k@.take(i as int),
        decreases k.len() - i,
    {
        v.push(k[i]);
        assert(k@.take(i + 1) == k@.take(i as int).push(k@[i as int]));
        i += 1;
    }
    assert(k@.take(k.len() as int) == k@);
    v.push('"');
    v.push(':');
    assert(v@ =~= json_key(key@));
    v
}

/// The string value of `key` in the chars `t[lo..]`, as [`json_str_spec`] describes it.
pub fn json_str_in(t: &Vec<char>, lo: usize, key: &str) -> (r: Option<String>)
    requires
        lo <= t.len(),
    ensures
        r matches Some(s) ==> json_str_spec(t@.skip(lo as int), key@) == Some(s@),
        r is None ==> json_str_spec(t@.skip(lo as int), key@) is None,
{
    let ghost text = t@.skip(lo as int);
    let search = json_key_chars(key);
    let pos = match find_chars_from(t, &search, lo) {
        None => {
            proof { lemma_find_shift(t@, search@, lo as int); }
            return None;
        },
        Some(p) => p,
    };
    proof {
        lemma_find_shift(t@, search@, lo as int);
        lemma_find_from_props(t@, search@, lo as int);
    }
    let start = pos + search.len();
    let n = lead_space_from(t, start);
    let q = start + n;
    proof {
        assert(text.skip(pos - lo + search.len()) =~= t@.skip(start as int));
    }
    if q >= t.len() || t[q] != '"' {
        proof {
            assert(t@.skip(start as int).skip(n as int) =~= t@.skip(q as int));
        }
        return None;
    }
    let mut quote: Vec<char> = Vec::new();
    quote.push('"');
    proof {
        assert(t@.skip(start as int).skip(n as int) =~= t@.skip(q as int));
        assert(t@.skip(q as int).drop_first() =~= t@.skip(q + 1));
        lemma_find_shift(t@, quote@, q + 1);
        assert(quote@ =~= seq!['"']);
    }
    match find_chars_from(t, &quote, q + 1) {
        None => None,
        Some(e) => {
            proof {
                lemma_find_from_props(t@, quote@, q + 1);
                assert(t@.skip(q + 1).take(e - (q + 1)) =~= t@.subrange(q + 1, e as int));
            }
            Some(string_from(t, q + 1, e))
        },
    }
}

/// Relates searching a suffix of `h` to searching `h` from a later start.
pub proof fn lemma_find_shift(h: Seq<char>, p: Seq<char>, lo: int)
    requires
        0 <= lo <= h.len(),
    ensures
        find(h.skip(lo), p) matches Some(k) ==> find_from(h, p, lo) == Some(k + lo),
        find(h.skip(lo), p) is None ==> find_from(h, p, lo) is None,
{
    lemma_find_shift_from(h, p, lo, 0);
}

/// Searching a suffix is searching the whole text from the suffix on.
proof fn lemma_find_shift_from(h: Seq<char>, p: Seq<char>, lo: int, i: int)
    requires
        0 <= lo <= h.len(),
        0 <= i,
    ensures
        find_from(h.skip(lo), p, i) matches Some(k) ==> find_from(h, p, lo + i) == Some(k + lo),
        find_from(h.skip(lo), p, i) is None ==> find_from(h, p, lo + i) is None,
    decreases h.len() + 1 - lo - i,
{
    let s = h.skip(lo);
    if i + p.len() > s.len() {
    } else {
        assert(s.subrange(i, i + p.len()) =~= h.subrange(lo + i, lo + i + p.len()));
        if !occurs_at(s, p, i) {
            lemma_find_shift_from(h, p, lo, i + 1);
        }
    }
}

/// `util::json_str`: the string value of `key` in a flat JSON text
/// (`"key": "value"`, without nesting or escapes).
pub fn json_str(text: &str, key: &str) -> (r: Option<String>)
    ensures
        r matches Some(s) ==> json_str_spec(text@, key@) == Some(s@),
        r is None ==> json_str_spec(text@, key@) is None,
{
    let t = chars_of(text);
    assert(t@.skip(0) =~= t@);
    json_str_in(&t, 0, key)
}

} // verus!
