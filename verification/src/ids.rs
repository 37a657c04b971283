//! Instrument-id normalization.
//!
//! Upstream feeds identify an instrument by a bare code (`au2512`, `600000`),
//! while clients may send codes carrying an exchange prefix (`SHFE.au2512`).
//! Before a code reaches a native feed call the optional prefix up to the
//! first `.` is stripped; the equity feeds additionally zero-pad purely
//! numeric codes of at most six digits to exactly six characters. The futures
//! feed performs no padding.

use vstd::prelude::*;

verus! {

/// Index of the first `.` at or after position `i`, or `s.len()` if none.
pub open spec fn find_dot_from(s: Seq<char>, i: int) -> int
    decreases s.len() - i,
{
    if i < 0 || i >= s.len() {
        s.len() as int
    } else if s[i] == '.' {
        i
    } else {
        find_dot_from(s, i + 1)
    }
}

/// The code with an optional exchange prefix up to the first `.` removed.
pub open spec fn spec_strip_prefix(s: Seq<char>) -> Seq<char> {
    let d = find_dot_from(s, 0);
    if d < s.len() {
        s.subrange(d + 1, s.len() as int)
    } else {
        s
    }
}

pub open spec fn is_digit_char(c: char) -> bool {
    '0' <= c && c <= '9'
}

pub open spec fn all_digits(s: Seq<char>) -> bool {
    forall|i: int| 0 <= i < s.len() ==> is_digit_char(s[i])
}

/// A run of `n` zero characters.
pub open spec fn zero_run(n: int) -> Seq<char> {
    Seq::new(n as nat, |i: int| '0')
}

/// Equity-feed padding: purely numeric codes of at most six digits are
/// left-padded with zeros to exactly six characters; everything else is kept.
pub open spec fn spec_pad_equity(s: Seq<char>) -> Seq<char> {
    if all_digits(s) && s.len() <= 6 {
        zero_run(6 - s.len()) + s
    } else {
        s
    }
}

/// Normalization applied by the futures feed: strip the prefix only.
pub open spec fn spec_normalize_futures(s: Seq<char>) -> Seq<char> {
    spec_strip_prefix(s)
}

/// Normalization applied by the equity feeds: strip, then zero-pad.
pub open spec fn spec_normalize_equity(s: Seq<char>) -> Seq<char> {
    spec_pad_equity(spec_strip_prefix(s))
}

/// Position of the first `.` in `s`, or its length if `s` has none.
fn find_dot(s: &str) -> (r: usize)
    ensures
        r == find_dot_from(s@, 0),
        r <= s@.len(),
{
    let n: usize = s.unicode_len();
    let mut i: usize = 0;
    while i < n
        invariant
            0 <= i <= n,
            n == s@.len(),
            find_dot_from(s@, 0) == find_dot_from(s@, i as int),
        decreases n - i,
    {
        let c = s.get_char(i);
        if c == '.' {
            return i;
        }
        i = i + 1;
    }
    i
}

/// Strips an optional exchange prefix up to the first `.`.
pub fn strip_prefix(s: &str) -> (r: String)
    ensures
        r@ == spec_strip_prefix(s@),
{
    let n: usize = s.unicode_len();
    let d = find_dot(s);
    if d < n {
        let tail = s.substring_char(d + 1, n);
        tail.to_owned()
    } else {
        s.to_owned()
    }
}

/// True when every character of `s` is an ASCII digit.
fn is_all_digits(s: &str) -> (r: bool)
    ensures
        r == all_digits(s@),
{
    let n: usize = s.unicode_len();
    let mut i: usize = 0;
    while i < n
        invariant
            0 <= i <= n,
            n == s@.len(),
            forall|j: int| 0 <= j < i ==> is_digit_char(s@[j]),
        decreases n - i,
    {
        let c = s.get_char(i);
        if !('0' <= c && c <= '9') {
            return false;
        }
        i = i + 1;
    }
    true
}

/// Left-pads a purely numeric code of at most six digits with zeros.
fn pad_equity(s: &str) -> (r: String)
    ensures
        r@ == spec_pad_equity(s@),
{
    let n: usize = s.unicode_len();
    if is_all_digits(s) && n <= 6 {
        let mut r = String::new();
        let mut k: usize = 0;
        let pad: usize = 6 - n;
        proof {
            reveal_strlit("0");
        }
        while k < pad
            invariant
                0 <= k <= pad,
                "0"@ =~= seq!['0'],
                r@ =~= zero_run(k as int),
            decreases pad - k,
        {
            r.append("0");
            proof {
                assert(zero_run(k as int) + seq!['0'] =~= zero_run(k + 1 as int));
            }
            k = k + 1;
        }
        r.append(s);
        r
    } else {
        s.to_owned()
    }
}

/// Normalizes an instrument code for the futures feed.
pub fn normalize_futures(s: &str) -> (r: String)
    ensures
        r@ == spec_normalize_futures(s@),
{
    strip_prefix(s)
}

/// Normalizes an instrument code for an equity feed.
pub fn normalize_equity(s: &str) -> (r: String)
    ensures
        r@ == spec_normalize_equity(s@),
{
    let stripped = strip_prefix(s);
    pad_equity(stripped.as_str())
}

/// A code with an exchange prefix and the bare code normalize to the same id:
/// for a prefix without a dot, `X.Y` and plain `Y` (itself dot-free) fall into
/// one equivalence class under equity normalization.
pub proof fn lemma_prefix_equivalence(pre: Seq<char>, rest: Seq<char>)
    requires
        !pre.contains('.'),
        !rest.contains('.'),
    ensures
        spec_normalize_equity(pre + seq!['.'] + rest) == spec_normalize_equity(rest),
        spec_normalize_futures(pre + seq!['.'] + rest) == spec_normalize_futures(rest),
{
    let s = pre + seq!['.'] + rest;
    lemma_find_dot_skips(s, 0, pre.len() as int);
    assert(find_dot_from(s, pre.len() as int) == pre.len()) by {
        assert(s[pre.len() as int] == '.');
    }
    assert(spec_strip_prefix(s) =~= rest);
    lemma_no_dot_strips_nothing(rest);
}

/// `find_dot_from` passes over every dot-free position.
proof fn lemma_find_dot_skips(s: Seq<char>, i: int, j: int)
    requires
        0 <= i <= j <= s.len(),
        forall|k: int| i <= k < j ==> s[k] != '.',
    ensures
        find_dot_from(s, i) == find_dot_from(s, j),
    decreases j - i,
{
    if i < j {
        lemma_find_dot_skips(s, i + 1, j);
    }
}

/// Stripping is the identity on a dot-free code.
proof fn lemma_no_dot_strips_nothing(s: Seq<char>)
    requires
        !s.contains('.'),
    ensures
        spec_strip_prefix(s) == s,
{
    lemma_find_dot_skips(s, 0, s.len() as int);
}

} // verus!
