//! Verified utilities over character sequences: whitespace handling,
//! case-insensitive keyword matching, substring search and decimal parsing.
//!
//! Command text is handled as `Vec<char>` / `&[char]` so that every step of
//! tokenisation is ordinary verified code over `Seq<char>`.

use vstd::prelude::*;

verus! {

/// The whitespace characters that delimit tokens in a filter expression.
pub open spec fn is_ws(c: char) -> bool {
    c == ' ' || c == '\t' || c == '\n' || c == '\r'
}

/// Decimal digit.
pub open spec fn is_digit(c: char) -> bool {
    '0' <= c && c <= '9'
}

pub open spec fn digit_val(c: char) -> int {
    c as u32 - '0' as u32
}

/// `c` matches the (lowercase ASCII) pattern character `pat`, ignoring case.
pub open spec fn eq_ci(pat: char, c: char) -> bool {
    c == pat || ('a' <= pat && pat <= 'z' && c as u32 == pat as u32 - 32)
}

/// `kw` is a prefix of `s` under ASCII case folding of `s`.
pub open spec fn is_prefix_ci(kw: Seq<char>, s: Seq<char>) -> bool {
    kw.len() <= s.len() && (forall|i: int| 0 <= i < kw.len() ==> eq_ci(kw[i], s[i]))
}

/// `p` is a prefix of `s`.
pub open spec fn is_prefix(p: Seq<char>, s: Seq<char>) -> bool {
    p.len() <= s.len() && s.subrange(0, p.len() as int) == p
}

/// `p` is a suffix of `s`.
pub open spec fn is_suffix(p: Seq<char>, s: Seq<char>) -> bool {
    p.len() <= s.len() && s.subrange(s.len() - p.len(), s.len() as int) == p
}

/// `n` occurs in `h` as a contiguous subsequence.
pub open spec fn contains_seq(h: Seq<char>, n: Seq<char>) -> bool {
    exists|i: int| 0 <= i && i + n.len() <= h.len() && #[trigger] h.subrange(i, i + n.len()) == n
}

/// `s` without its leading whitespace.
pub open spec fn trim_start(s: Seq<char>) -> Seq<char>
    decreases s.len(),
{
    if s.len() > 0 && is_ws(s[0]) {
        trim_start(s.drop_first())
    } else {
        s
    }
}

/// Length of the leading run of non-whitespace characters of `s`.
pub open spec fn token_end(s: Seq<char>) -> int
    decreases s.len(),
{
    if s.len() == 0 {
        0
    } else if is_ws(s[0]) {
        0
    } else {
        1 + token_end(s.drop_first())
    }
}

pub proof fn lemma_trim_start_len(s: Seq<char>)
    ensures
        trim_start(s).len() <= s.len(),
        s.len() > 0 && is_ws(s[0]) ==> trim_start(s).len() < s.len(),
    decreases s.len(),
{
    if s.len() > 0 && is_ws(s[0]) {
        lemma_trim_start_len(s.drop_first());
    }
}

pub proof fn lemma_token_end(s: Seq<char>)
    ensures
        0 <= token_end(s) <= s.len(),
        s.len() > 0 && !is_ws(s[0]) ==> token_end(s) >= 1,
    decreases s.len(),
{
    if s.len() > 0 && !is_ws(s[0]) {
        lemma_token_end(s.drop_first());
    }
}

/// Exec check for `is_ws`.
pub fn is_ws_c(c: char) -> (b: bool)
    ensures
        b == is_ws(c),
{
    c == ' ' || c == '\t' || c == '\n' || c == '\r'
}

/// Exec check for `is_digit`.
pub fn is_digit_c(c: char) -> (b: bool)
    ensures
        b == is_digit(c),
{
    '0' <= c && c <= '9'
}

/// First index at or after `from` holding a non-whitespace character.
pub fn trim_start_idx(s: &[char], from: usize) -> (res: usize)
    requires
        from <= s@.len(),
    ensures
        from <= res <= s@.len(),
        s@.skip(res as int) == trim_start(s@.skip(from as int)),
        res < s@.len() ==> !is_ws(s@[res as int]),
{
    let mut i = from;
    while i < s.len() && is_ws_c(s[i])
        invariant
            from <= i <= s@.len(),
            trim_start(s@.skip(from as int)) == trim_start(s@.skip(i as int)),
        decreases s@.len() - i,
    {
        proof {
            assert(s@.skip(i as int).drop_first() =~= s@.skip(i + 1));
        }
        i = i + 1;
    }
    proof {
        assert(trim_start(s@.skip(i as int)) == s@.skip(i as int));
    }
    i
}

/// End (exclusive) of the token that starts at `from`.
pub fn token_end_idx(s: &[char], from: usize) -> (res: usize)
    requires
        from <= s@.len(),
    ensures
        from <= res <= s@.len(),
        res - from == token_end(s@.skip(from as int)),
{
    let mut i = from;
    while i < s.len() && !is_ws_c(s[i])
        invariant
            from <= i <= s@.len(),
            token_end(s@.skip(from as int)) == i - from + token_end(s@.skip(i as int)),
        decreases s@.len() - i,
    {
        proof {
            assert(s@.skip(i as int).drop_first() =~= s@.skip(i + 1));
        }
        i = i + 1;
    }
    i
}

/// Case-insensitive match of `kw` against `s` starting at `from`.
pub fn starts_with_ci_at(s: &[char], from: usize, kw: &[char]) -> (res: bool)
    requires
        from <= s@.len(),
    ensures
        res == is_prefix_ci(kw@, s@.skip(from as int)),
{
    let slen = s.len();
    if slen - from < kw.len() {
        return false;
    }
    let mut j: usize = 0;
    while j < kw.len()
        invariant
            0 <= j <= kw@.len(),
            slen == s@.len(),
            from + kw@.len() <= slen,
            forall|t: int| 0 <= t < j ==> eq_ci(kw@[t], s@[from + t]),
        decreases kw@.len() - j,
    {
        let pc = kw[j];
        let c = s[from + j];
        let ok = c == pc || ('a' <= pc && pc <= 'z' && c as u32 == pc as u32 - 32);
        if !ok {
            proof {
                assert(!eq_ci(kw@[j as int], s@.skip(from as int)[j as int]));
            }
            return false;
        }
        j = j + 1;
    }
    true
}

/// The characters of `h` starting at `at` equal `n`.
fn match_at(h: &[char], at: usize, n: &[char]) -> (res: bool)
    requires
        at + n@.len() <= h@.len(),
    ensures
        res == (h@.subrange(at as int, at + n@.len()) == n@),
{
    let hlen = h.len();
    let mut j: usize = 0;
    while j < n.len()
        invariant
            0 <= j <= n@.len(),
            hlen == h@.len(),
            at + n@.len() <= hlen,
            forall|t: int| 0 <= t < j ==> h@[at + t] == n@[t],
        decreases n@.len() - j,
    {
        if h[at + j] != n[j] {
            proof {
                assert(h@.subrange(at as int, at + n@.len())[j as int] == h@[at + j]);
            }
            return false;
        }
        j = j + 1;
    }
    proof {
        assert(h@.subrange(at as int, at + n@.len()) =~= n@);
    }
    true
}

/// Exec check for `is_prefix`.
pub fn has_prefix(h: &[char], n: &[char]) -> (res: bool)
    ensures
        res == is_prefix(n@, h@),
{
    if n.len() > h.len() {
        return false;
    }
    match_at(h, 0, n)
}

/// Exec check for `is_suffix`.
pub fn has_suffix(h: &[char], n: &[char]) -> (res: bool)
    ensures
        res == is_suffix(n@, h@),
{
    if n.len() > h.len() {
        return false;
    }
    match_at(h, h.len() - n.len(), n)
}

/// Exec equality of two character slices.
pub fn chars_eq(a: &[char], b: &[char]) -> (res: bool)
    ensures
        res == (a@ == b@),
{
    if a.len() != b.len() {
        proof {
            assert(a@ != b@);
        }
        return false;
    }
    let r = match_at(a, 0, b);
    proof {
        assert(a@.subrange(0, a@.len() as int) =~= a@);
    }
    r
}

/// Exec check for `contains_seq`.
pub fn contains_sub(h: &[char], n: &[char]) -> (res: bool)
    ensures
        res == contains_seq(h@, n@),
{
    if n.len() > h.len() {
        return false;
    }
    if n.len() == 0 {
        proof {
            assert(contains_seq(h@, n@)) by {
                assert(h@.subrange(0, 0 + n@.len() as int) =~= n@);
            }
        }
        return true;
    }
    let hlen = h.len();
    let bound = hlen - n.len();
    let mut i: usize = 0;
    while i <= bound
        invariant
            1 <= n@.len() <= h@.len(),
            hlen == h@.len(),
            bound == h@.len() - n@.len(),
            0 <= i <= bound + 1,
            forall|t: int| 0 <= t < i ==> #[trigger] h@.subrange(t, t + n@.len()) != n@,
        decreases bound + 1 - i,
    {
        if match_at(h, i, n) {
            return true;
        }
        i = i + 1;
    }
    false
}

/// All characters of `s` are decimal digits.
pub open spec fn all_digits(s: Seq<char>) -> bool {
    forall|i: int| 0 <= i < s.len() ==> is_digit(s[i])
}

/// The value of `s` read as a decimal numeral.
pub open spec fn dec_value(s: Seq<char>) -> int
    decreases s.len(),
{
    if s.len() == 0 {
        0
    } else {
        dec_value(s.drop_last()) * 10 + digit_val(s.last())
    }
}

proof fn lemma_dec_value_nonneg(s: Seq<char>)
    requires
        all_digits(s),
    ensures
        dec_value(s) >= 0,
    decreases s.len(),
{
    if s.len() > 0 {
        assert(all_digits(s.drop_last()));
        lemma_dec_value_nonneg(s.drop_last());
    }
}

/// A decimal numeral is at least as large as any of its prefixes.
proof fn lemma_dec_value_prefix(s: Seq<char>, k: int)
    requires
        all_digits(s),
        0 <= k <= s.len(),
    ensures
        dec_value(s) >= dec_value(s.subrange(0, k)),
    decreases s.len(),
{
    if k == s.len() {
        assert(s.subrange(0, k) =~= s);
    } else {
        let d = s.drop_last();
        assert(all_digits(d));
        assert(d.subrange(0, k) =~= s.subrange(0, k));
        lemma_dec_value_prefix(d, k);
        lemma_dec_value_nonneg(d);
    }
}

/// Parse a non-empty run of decimal digits as a `u64`; `None` when `s` is
/// empty, holds a non-digit, or does not fit.
pub fn parse_u64(s: &[char]) -> (res: Option<u64>)
    ensures
        match res {
            Some(v) => s@.len() > 0 && all_digits(s@) && v == dec_value(s@),
            None => s@.len() == 0 || !all_digits(s@) || dec_value(s@) > u64::MAX,
        },
{
    if s.len() == 0 {
        return None;
    }
    let mut acc: u64 = 0;
    let mut i: usize = 0;
    while i < s.len()
        invariant
            0 <= i <= s@.len(),
            all_digits(s@.subrange(0, i as int)),
            acc == dec_value(s@.subrange(0, i as int)),
        decreases s@.len() - i,
    {
        let c = s[i];
        if !is_digit_c(c) {
            return None;
        }
        let d: u64 = (c as u32 - 48) as u64;
        proof {
            assert(s@.subrange(0, i + 1).drop_last() =~= s@.subrange(0, i as int));
            assert(s@.subrange(0, i + 1).last() == s@[i as int]);
            assert(dec_value(s@.subrange(0, i + 1)) == acc * 10 + digit_val(s@[i as int]));
        }
        let shifted = match acc.checked_mul(10) {
            Some(x) => x,
            None => {
                proof {
                    overflow_implies_too_big(s@, i as int, acc as int * 10);
                }
                return None;
            },
        };
        let next = match shifted.checked_add(d) {
            Some(x) => x,
            None => {
                proof {
                    overflow_implies_too_big(s@, i as int, acc as int * 10 + d);
                }
                return None;
            },
        };
        acc = next;
        i = i + 1;
    }
    proof {
        assert(s@.subrange(0, s@.len() as int) =~= s@);
    }
    Some(acc)
}

/// If the numeral is already too large at some position, the whole numeral
/// is too large.
proof fn overflow_implies_too_big(s: Seq<char>, i: int, partial: int)
    requires
        0 <= i < s.len(),
        all_digits(s.subrange(0, i)),
        is_digit(s[i]),
        partial > u64::MAX,
        partial <= dec_value(s.subrange(0, i + 1)),
    ensures
        !all_digits(s) || dec_value(s) > u64::MAX,
{
    if all_digits(s) {
        lemma_dec_value_prefix(s, i + 1);
    }
}

/// Copy of `s[from..to]` as a vector.
pub fn slice_to_vec(s: &[char], from: usize, to: usize) -> (res: Vec<char>)
    requires
        from <= to <= s@.len(),
    ensures
        res@ == s@.subrange(from as int, to as int),
{
    let mut v: Vec<char> = Vec::new();
    let mut i = from;
    while i < to
        invariant
            from <= i <= to <= s@.len(),
            v@ =~= s@.subrange(from as int, i as int),
        decreases to - i,
    {
        v.push(s[i]);
        proof {
            assert(v@ =~= s@.subrange(from as int, i + 1));
        }
        i = i + 1;
    }
    proof {
        assert(v@ =~= s@.subrange(from as int, to as int));
    }
    v
}

/// The characters of `s`, in order.
pub fn chars_of(s: &str) -> (res: Vec<char>)
    ensures
        res@ == s@,
{
    let mut v: Vec<char> = Vec::new();
    for c in it: s.chars()
        invariant
            it.seq() == s@,
            v@ == it.seq().subrange(0, it.index() as int),
    {
        v.push(c);
    }
    proof {
        assert(v@ =~= s@);
    }
    v
}

} // verus!
