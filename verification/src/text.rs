//! Character-level text utilities shared by the parsers and the
//! device-discovery logic.

use vstd::prelude::*;

verus! {

/// Character-for-character string equality.
pub fn eq_str(a: &str, b: &str) -> (r: bool)
    ensures
        r == (a@ == b@),
{
    let n = a.unicode_len();
    if n != b.unicode_len() {
        return false;
    }
    let mut i: usize = 0;
    while i < n
        invariant
            0 <= i <= n,
            n == a@.len() == b@.len(),
            forall|k: int| 0 <= k < i ==> a@[k] == b@[k],
        decreases n - i,
    {
        if a.get_char(i) != b.get_char(i) {
            return false;
        }
        i = i + 1;
    }
    proof {
        assert(a@ =~= b@);
    }
    true
}

/// `p` occurs in `s` as a contiguous run.
pub open spec fn has_substring(s: Seq<char>, p: Seq<char>) -> bool {
    exists|k: int| 0 <= k <= s.len() - p.len() && #[trigger] s.subrange(k, k + p.len() as int) == p
}

/// `p` occurs in `s` as a contiguous run, letters compared without
/// regard to ASCII case.
pub open spec fn has_substring_ci(s: Seq<char>, p: Seq<char>) -> bool {
    exists|k: int|
        0 <= k <= s.len() - p.len() && #[trigger] ci_match_at(s, p, k)
}

/// Whether `p` matches `s` at position `k`, ASCII case folded.
pub open spec fn ci_match_at(s: Seq<char>, p: Seq<char>, k: int) -> bool {
    forall|m: int| 0 <= m < p.len() ==> chars_eq_ci(s[k + m], p[m])
}

/// Two characters are equal up to ASCII letter case.
pub open spec fn chars_eq_ci(a: char, b: char) -> bool {
    ascii_lower_code(a) == ascii_lower_code(b)
}

/// The code of a character with an ASCII capital letter folded to the
/// small one.
pub open spec fn ascii_lower_code(c: char) -> int {
    if 65 <= c as u32 <= 90 {
        c as u32 + 32
    } else {
        c as u32 as int
    }
}

/// Whether `p` starts at position `k` of `s`.
fn matches_at(s: &str, p: &str, k: usize) -> (r: bool)
    requires
        k + p@.len() <= s@.len(),
        s@.len() <= usize::MAX,
    ensures
        r == (s@.subrange(k as int, k + p@.len() as int) == p@),
{
    let pl = p.unicode_len();
    let mut m: usize = 0;
    while m < pl
        invariant
            0 <= m <= pl,
            pl == p@.len(),
            k + pl <= s@.len(),
            s@.len() <= usize::MAX,
            forall|t: int| 0 <= t < m ==> s@[k + t] == p@[t],
        decreases pl - m,
    {
        if s.get_char(k + m) != p.get_char(m) {
            proof {
                assert(s@.subrange(k as int, k + p@.len() as int)[m as int] == s@[k + m]);
            }
            return false;
        }
        m = m + 1;
    }
    proof {
        assert(s@.subrange(k as int, k + p@.len() as int) =~= p@);
    }
    true
}

/// Whether `p` occurs anywhere in `s`.
pub fn contains_sub(s: &str, p: &str) -> (r: bool)
    ensures
        r == has_substring(s@, p@),
{
    let n = s.unicode_len();
    let pl = p.unicode_len();
    if pl > n {
        return false;
    }
    if pl == 0 {
        proof {
            assert(s@.subrange(0, 0 + p@.len() as int) =~= p@);
        }
        return true;
    }
    let mut k: usize = 0;
    while k <= n - pl
        invariant
            0 <= k <= n - pl + 1,
            0 < pl <= n,
            n == s@.len(),
            pl == p@.len(),
            forall|t: int| 0 <= t < k ==> #[trigger] s@.subrange(t, t + p@.len() as int) != p@,
        decreases n - k,
    {
        if matches_at(s, p, k) {
            return true;
        }
        k = k + 1;
    }
    false
}

/// Whether `p` starts at position `k` of `s`, ASCII case folded.
fn matches_at_ci(s: &str, p: &str, k: usize) -> (r: bool)
    requires
        k + p@.len() <= s@.len(),
        s@.len() <= usize::MAX,
    ensures
        r == ci_match_at(s@, p@, k as int),
{
    let pl = p.unicode_len();
    let mut m: usize = 0;
    while m < pl
        invariant
            0 <= m <= pl,
            pl == p@.len(),
            k + pl <= s@.len(),
            s@.len() <= usize::MAX,
            forall|t: int| 0 <= t < m ==> chars_eq_ci(s@[k + t], p@[t]),
        decreases pl - m,
    {
        let a = s.get_char(k + m) as u32;
        let b = p.get_char(m) as u32;
        let af = if 65 <= a && a <= 90 {
            a + 32
        } else {
            a
        };
        let bf = if 65 <= b && b <= 90 {
            b + 32
        } else {
            b
        };
        if af != bf {
            return false;
        }
        m = m + 1;
    }
    true
}

/// Whether `p` occurs anywhere in `s`, ASCII case folded.
pub fn contains_sub_ci(s: &str, p: &str) -> (r: bool)
    ensures
        r == has_substring_ci(s@, p@),
{
    let n = s.unicode_len();
    let pl = p.unicode_len();
    if pl > n {
        return false;
    }
    if pl == 0 {
        proof {
            assert(ci_match_at(s@, p@, 0));
        }
        return true;
    }
    let mut k: usize = 0;
    while k <= n - pl
        invariant
            0 <= k <= n - pl + 1,
            0 < pl <= n,
            n == s@.len(),
            pl == p@.len(),
            forall|t: int| 0 <= t < k ==> !(#[trigger] ci_match_at(s@, p@, t)),
        decreases n - k,
    {
        if matches_at_ci(s, p, k) {
            return true;
        }
        k = k + 1;
    }
    false
}

/// The index of the first occurrence of `c` in `s`, or the length of
/// `s` if it does not occur.
pub open spec fn find_ch(s: Seq<char>, c: char) -> int
    decreases s.len(),
{
    if s.len() == 0 {
        0
    } else if s[0] == c {
        0
    } else {
        1 + find_ch(s.drop_first(), c)
    }
}

/// Where the scan for a character stops.
pub proof fn lemma_find_ch_unique(s: Seq<char>, c: char, i: int)
    requires
        0 <= i <= s.len(),
        forall|k: int| 0 <= k < i ==> s[k] != c,
        i < s.len() ==> s[i] == c,
    ensures
        find_ch(s, c) == i,
    decreases s.len(),
{
    if s.len() == 0 {
    } else if s[0] == c {
        assert(i == 0);
    } else {
        lemma_find_ch_unique(s.drop_first(), c, i - 1);
    }
}

/// The scan's result lies in range, sees no earlier occurrence and, when
/// in bounds, an occurrence.
pub proof fn lemma_find_ch_props(s: Seq<char>, c: char)
    ensures
        0 <= find_ch(s, c) <= s.len(),
        forall|k: int| 0 <= k < find_ch(s, c) ==> s[k] != c,
        find_ch(s, c) < s.len() ==> s[find_ch(s, c)] == c,
    decreases s.len(),
{
    if s.len() > 0 && s[0] != c {
        lemma_find_ch_props(s.drop_first(), c);
        assert forall|k: int| 0 <= k < find_ch(s, c) implies s[k] != c by {
            if k > 0 {
                assert(s.drop_first()[k - 1] == s[k]);
            }
        }
    }
}

/// Finds the first occurrence of `c` at or after position `i`.
pub fn find_ch_from(s: &str, i: usize, c: char) -> (k: usize)
    requires
        i <= s@.len(),
    ensures
        i <= k <= s@.len(),
        find_ch(s@.skip(i as int), c) == k - i,
        forall|t: int| i <= t < k ==> s@[t] != c,
        k < s@.len() ==> s@[k as int] == c,
{
    let n = s.unicode_len();
    let mut k = i;
    while k < n
        invariant
            i <= k <= n,
            n == s@.len(),
            forall|t: int| i <= t < k ==> s@[t] != c,
        decreases n - k,
    {
        if s.get_char(k) == c {
            proof {
                lemma_find_from(s@, i as int, k as int, c);
            }
            return k;
        }
        k = k + 1;
    }
    proof {
        lemma_find_from(s@, i as int, n as int, c);
    }
    k
}

/// Transfers a first-occurrence fact onto the suffix starting at `i`.
pub proof fn lemma_find_from(s: Seq<char>, i: int, k: int, c: char)
    requires
        0 <= i <= k <= s.len(),
        forall|t: int| i <= t < k ==> s[t] != c,
        k < s.len() ==> s[k] == c,
    ensures
        find_ch(s.skip(i), c) == k - i,
{
    let u = s.skip(i);
    assert(forall|t: int| 0 <= t < k - i ==> u[t] == s[t + i] && u[t] != c);
    lemma_find_ch_unique(u, c, k - i);
}

/// Blanks dropped from the end.
pub open spec fn trim_end_ws(s: Seq<char>) -> Seq<char>
    decreases s.len(),
{
    if s.len() > 0 && crate::codec::is_ws(s.last()) {
        trim_end_ws(s.drop_last())
    } else {
        s
    }
}

/// Blanks dropped from both ends.
pub open spec fn spec_trim(s: Seq<char>) -> Seq<char> {
    trim_end_ws(crate::codec::skip_ws(s))
}

/// The position after the leading blanks.
fn scan_ws_start(s: &str, n: usize) -> (lo: usize)
    requires
        n == s@.len(),
    ensures
        0 <= lo <= n,
        crate::codec::skip_ws(s@) == s@.skip(lo as int),
{
    proof {
        assert(s@.skip(0) =~= s@);
    }
    let mut lo: usize = 0;
    while lo < n
        invariant
            0 <= lo <= n,
            n == s@.len(),
            crate::codec::skip_ws(s@) == crate::codec::skip_ws(s@.skip(lo as int)),
        decreases n - lo,
    {
        let c = s.get_char(lo);
        proof {
            assert(s@.skip(lo as int)[0] == s@[lo as int]);
        }
        if c == ' ' || c == '\n' || c == '\t' || c == '\r' {
            proof {
                assert(s@.skip(lo as int).drop_first() =~= s@.skip(lo + 1));
            }
            lo = lo + 1;
        } else {
            return lo;
        }
    }
    proof {
        assert(s@.skip(lo as int).len() == 0);
    }
    lo
}

/// The position before the trailing blanks of `s[lo..n]`.
fn scan_ws_end(s: &str, lo: usize, n: usize) -> (hi: usize)
    requires
        lo <= n == s@.len(),
    ensures
        lo <= hi <= n,
        trim_end_ws(s@.subrange(lo as int, n as int)) == s@.subrange(lo as int, hi as int),
{
    let mut hi: usize = n;
    while hi > lo
        invariant
            lo <= hi <= n,
            n == s@.len(),
            trim_end_ws(s@.subrange(lo as int, n as int)) == trim_end_ws(
                s@.subrange(lo as int, hi as int),
            ),
        decreases hi,
    {
        let c = s.get_char(hi - 1);
        proof {
            assert(s@.subrange(lo as int, hi as int).last() == s@[hi - 1]);
        }
        if c == ' ' || c == '\n' || c == '\t' || c == '\r' {
            proof {
                assert(s@.subrange(lo as int, hi as int).drop_last() =~= s@.subrange(
                    lo as int,
                    hi - 1,
                ));
            }
            hi = hi - 1;
        } else {
            return hi;
        }
    }
    proof {
        assert(s@.subrange(lo as int, hi as int).len() == 0);
    }
    hi
}

/// Drops blanks from both ends.
pub fn trim_str<'a>(s: &'a str) -> (r: &'a str)
    ensures
        r@ == spec_trim(s@),
{
    let n = s.unicode_len();
    let lo = scan_ws_start(s, n);
    let hi = scan_ws_end(s, lo, n);
    proof {
        assert(s@.skip(lo as int) =~= s@.subrange(lo as int, n as int));
    }
    s.substring_char(lo, hi)
}

/// Whether `s` starts with `p`.
pub fn str_starts_with(s: &str, p: &str) -> (r: bool)
    ensures
        r == (p@.len() <= s@.len() && s@.take(p@.len() as int) == p@),
{
    let n = s.unicode_len();
    let pl = p.unicode_len();
    if pl > n {
        return false;
    }
    let r = matches_at(s, p, 0);
    proof {
        assert(s@.subrange(0, p@.len() as int) == s@.take(p@.len() as int));
    }
    r
}

/// Whether `s` ends with `p`.
pub fn str_ends_with(s: &str, p: &str) -> (r: bool)
    ensures
        r == (p@.len() <= s@.len() && s@.skip(s@.len() - p@.len()) == p@),
{
    let n = s.unicode_len();
    let pl = p.unicode_len();
    if pl > n {
        return false;
    }
    let r = matches_at(s, p, n - pl);
    proof {
        assert(s@.subrange(n - pl, n - pl + p@.len() as int) =~= s@.skip(s@.len() - p@.len()));
        if s@.subrange(n - pl, n - pl + p@.len() as int) == p@ {
            assert(s@.skip(s@.len() - p@.len()) == p@);
        }
        if s@.skip(s@.len() - p@.len()) == p@ {
            assert(s@.subrange(n - pl, n - pl + p@.len() as int) == p@);
        }
    }
    r
}

} // verus!
