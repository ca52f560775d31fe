//! Byte-sequence utilities shared by the matcher, the parser and the
//! retrieval workflow: first-occurrence search, whitespace trimming,
//! prefix and substring tests, and subrange extraction.

use vstd::prelude::*;

verus! {

/// The `#` byte, which separates a canonical name from session noise.
pub const HASH: u8 = 35;

/// The `0` byte, used as sequence-number padding.
pub const ZERO: u8 = 48;

/// The line feed byte.
pub const NEWLINE: u8 = 10;

/// The `=` byte, which separates a property key from its value.
pub const EQUALS: u8 = 61;

/// First index of `b` in `s`, or `s.len()` if `b` does not occur.
pub open spec fn find_byte(s: Seq<u8>, b: u8) -> int
    decreases s.len(),
{
    if s.len() == 0 {
        0
    } else if s[0] == b {
        0
    } else {
        1 + find_byte(s.subrange(1, s.len() as int), b)
    }
}

pub proof fn lemma_find_byte(s: Seq<u8>, b: u8)
    ensures
        0 <= find_byte(s, b) <= s.len(),
        forall|j: int| 0 <= j < find_byte(s, b) ==> s[j] != b,
        find_byte(s, b) < s.len() ==> s[find_byte(s, b)] == b,
    decreases s.len(),
{
    if s.len() == 0 {
    } else if s[0] == b {
    } else {
        let t = s.subrange(1, s.len() as int);
        lemma_find_byte(t, b);
        assert forall|j: int| 0 <= j < find_byte(s, b) implies s[j] != b by {
            if j > 0 {
                assert(t[j - 1] == s[j]);
            }
        }
        if find_byte(s, b) < s.len() {
            assert(t[find_byte(t, b)] == s[1 + find_byte(t, b)]);
        }
    }
}

/// An index with no occurrence of `b` before it, and `b` at it unless at
/// the end, is the first occurrence.
pub proof fn lemma_find_byte_is(s: Seq<u8>, b: u8, k: int)
    requires
        0 <= k <= s.len(),
        forall|j: int| 0 <= j < k ==> s[j] != b,
        k < s.len() ==> s[k] == b,
    ensures
        find_byte(s, b) == k,
{
    lemma_find_byte(s, b);
    let f = find_byte(s, b);
    if f < k {
        assert(s[f] != b);
        assert(false);
    } else if f > k {
        assert(s[k] != b);
        assert(false);
    }
}

/// First index of `s` whose byte is not `b`, or `s.len()` if all bytes are `b`.
pub open spec fn skip_byte(s: Seq<u8>, b: u8) -> int
    decreases s.len(),
{
    if s.len() == 0 {
        0
    } else if s[0] != b {
        0
    } else {
        1 + skip_byte(s.subrange(1, s.len() as int), b)
    }
}

pub proof fn lemma_skip_byte(s: Seq<u8>, b: u8)
    ensures
        0 <= skip_byte(s, b) <= s.len(),
        forall|j: int| 0 <= j < skip_byte(s, b) ==> s[j] == b,
        skip_byte(s, b) < s.len() ==> s[skip_byte(s, b)] != b,
    decreases s.len(),
{
    if s.len() == 0 {
    } else if s[0] != b {
    } else {
        let t = s.subrange(1, s.len() as int);
        lemma_skip_byte(t, b);
        assert forall|j: int| 0 <= j < skip_byte(s, b) implies s[j] == b by {
            if j > 0 {
                assert(t[j - 1] == s[j]);
            }
        }
        if skip_byte(s, b) < s.len() {
            assert(t[skip_byte(t, b)] == s[1 + skip_byte(t, b)]);
        }
    }
}

/// An index with only `b` before it, and another byte at it unless at the
/// end, is the first departure from `b`.
pub proof fn lemma_skip_byte_is(s: Seq<u8>, b: u8, k: int)
    requires
        0 <= k <= s.len(),
        forall|j: int| 0 <= j < k ==> s[j] == b,
        k < s.len() ==> s[k] != b,
    ensures
        skip_byte(s, b) == k,
{
    lemma_skip_byte(s, b);
    let f = skip_byte(s, b);
    if f < k {
        assert(s[f] == b);
        assert(false);
    } else if f > k {
        assert(s[k] == b);
        assert(false);
    }
}

/// ASCII whitespace: space, tab, line feed, vertical tab, form feed,
/// carriage return.
pub open spec fn is_space(b: u8) -> bool {
    b == 32 || (9 <= b && b <= 13)
}

/// `s` without its leading whitespace.
pub open spec fn ltrim(s: Seq<u8>) -> Seq<u8>
    decreases s.len(),
{
    if s.len() > 0 && is_space(s[0]) {
        ltrim(s.subrange(1, s.len() as int))
    } else {
        s
    }
}

/// `s` without its trailing whitespace.
pub open spec fn rtrim(s: Seq<u8>) -> Seq<u8>
    decreases s.len(),
{
    if s.len() > 0 && is_space(s[s.len() - 1]) {
        rtrim(s.subrange(0, s.len() - 1))
    } else {
        s
    }
}

/// `s` without leading and trailing whitespace.
pub open spec fn trim(s: Seq<u8>) -> Seq<u8> {
    rtrim(ltrim(s))
}

/// `ltrim` keeps exactly the suffix that starts at the first
/// non-whitespace byte.
pub proof fn lemma_ltrim_at(s: Seq<u8>, k: int)
    requires
        0 <= k <= s.len(),
        forall|j: int| 0 <= j < k ==> is_space(s[j]),
        k < s.len() ==> !is_space(s[k]),
    ensures
        ltrim(s) == s.subrange(k, s.len() as int),
    decreases s.len(),
{
    if s.len() > 0 && is_space(s[0]) {
        let t = s.subrange(1, s.len() as int);
        assert(k >= 1);
        assert forall|j: int| 0 <= j < k - 1 implies is_space(t[j]) by {
            assert(t[j] == s[j + 1]);
        }
        lemma_ltrim_at(t, k - 1);
        assert(t.subrange(k - 1, t.len() as int) =~= s.subrange(k, s.len() as int));
    } else {
        assert(k == 0);
        assert(s.subrange(0, s.len() as int) =~= s);
    }
}

/// `rtrim` keeps exactly the prefix that ends at the last
/// non-whitespace byte.
pub proof fn lemma_rtrim_at(s: Seq<u8>, k: int)
    requires
        0 <= k <= s.len(),
        forall|j: int| k <= j < s.len() ==> is_space(s[j]),
        k > 0 ==> !is_space(s[k - 1]),
    ensures
        rtrim(s) == s.subrange(0, k),
    decreases s.len(),
{
    if s.len() > 0 && is_space(s[s.len() - 1]) {
        let t = s.subrange(0, s.len() - 1);
        assert(k <= s.len() - 1);
        assert forall|j: int| k <= j < t.len() implies is_space(t[j]) by {
            assert(t[j] == s[j]);
        }
        lemma_rtrim_at(t, k);
        assert(t.subrange(0, k) =~= s.subrange(0, k));
    } else {
        assert(k == s.len());
        assert(s.subrange(0, s.len() as int) =~= s);
    }
}

/// `p` is a prefix of `s`.
pub open spec fn has_prefix(s: Seq<u8>, p: Seq<u8>) -> bool {
    p.len() <= s.len() && forall|i: int| 0 <= i < p.len() ==> s[i] == p[i]
}

/// `n` occurs in `s` as a contiguous subsequence.
pub open spec fn has_substring(s: Seq<u8>, n: Seq<u8>) -> bool {
    exists|i: int| 0 <= i && i + n.len() <= s.len() && #[trigger] s.subrange(i, i + n.len()) == n
}

/// Copy of `s[from..to]`.
pub fn subvec(s: &[u8], from: usize, to: usize) -> (r: Vec<u8>)
    requires
        from <= to <= s@.len(),
    ensures
        r@ == s@.subrange(from as int, to as int),
{
    let mut r: Vec<u8> = Vec::new();
    let mut i: usize = from;
    while i < to
        invariant
            from <= i <= to <= s@.len(),
            r@ == s@.subrange(from as int, i as int),
        decreases to - i,
    {
        let b = s[i];
        r.push(b);
        assert(r@ =~= s@.subrange(from as int, i + 1));
        i += 1;
    }
    r
}

/// First index of `b` in `s` at or after `from`, or `s.len()` if `b` does
/// not occur there; the result is stated through `find_byte` on the
/// remaining suffix.
pub fn find_byte_from(s: &[u8], from: usize, b: u8) -> (r: usize)
    requires
        from <= s@.len(),
    ensures
        r == from + find_byte(s@.subrange(from as int, s@.len() as int), b),
        from <= r <= s@.len(),
        forall|j: int| from <= j < r ==> s@[j] != b,
        r < s@.len() ==> s@[r as int] == b,
{
    let ghost tail = s@.subrange(from as int, s@.len() as int);
    let mut i: usize = from;
    while i < s.len()
        invariant
            from <= i <= s@.len(),
            tail == s@.subrange(from as int, s@.len() as int),
            forall|j: int| from <= j < i ==> s@[j] != b,
        decreases s@.len() - i,
    {
        if s[i] == b {
            proof {
                lemma_find_byte(tail, b);
                assert(tail[i - from] == s@[i as int]);
                assert forall|j: int| 0 <= j < i - from implies tail[j] != b by {
                    assert(tail[j] == s@[from + j]);
                }
                let f = find_byte(tail, b);
                if f < i - from {
                    assert(tail[f] != b);
                    assert(false);
                } else if f > i - from {
                    assert(tail[i - from] != b);
                    assert(false);
                }
            }
            return i;
        }
        i += 1;
    }
    proof {
        lemma_find_byte(tail, b);
        assert forall|j: int| 0 <= j < tail.len() implies tail[j] != b by {
            assert(tail[j] == s@[from + j]);
        }
        let f = find_byte(tail, b);
        if f < tail.len() {
            assert(false);
        }
    }
    s.len()
}

/// Bounds of `s` with surrounding whitespace removed: the trimmed text is
/// `s[lo..hi]`.
pub fn trim_bounds(s: &[u8]) -> (r: (usize, usize))
    ensures
        r.0 <= r.1 <= s@.len(),
        s@.subrange(r.0 as int, r.1 as int) == trim(s@),
{
    let mut lo: usize = 0;
    while lo < s.len() && (s[lo] == 32 || (9 <= s[lo] && s[lo] <= 13))
        invariant
            0 <= lo <= s@.len(),
            forall|j: int| 0 <= j < lo ==> is_space(s@[j]),
        decreases s@.len() - lo,
    {
        lo += 1;
    }
    proof {
        lemma_ltrim_at(s@, lo as int);
    }
    let ghost lt = s@.subrange(lo as int, s@.len() as int);
    let mut hi: usize = s.len();
    while hi > lo && (s[hi - 1] == 32 || (9 <= s[hi - 1] && s[hi - 1] <= 13))
        invariant
            lo <= hi <= s@.len(),
            forall|j: int| hi <= j < s@.len() ==> is_space(s@[j]),
        decreases hi,
    {
        hi -= 1;
    }
    proof {
        assert forall|j: int| (hi - lo) <= j < lt.len() implies is_space(lt[j]) by {
            assert(lt[j] == s@[lo + j]);
        }
        if hi > lo {
            assert(lt[hi - lo - 1] == s@[hi - 1]);
        }
        lemma_rtrim_at(lt, hi - lo);
        assert(lt.subrange(0, hi - lo) =~= s@.subrange(lo as int, hi as int));
    }
    (lo, hi)
}

/// Bound of `s` with trailing whitespace removed: the trimmed text is
/// `s[0..hi]`.
pub fn rtrim_bound(s: &[u8]) -> (hi: usize)
    ensures
        hi <= s@.len(),
        s@.subrange(0, hi as int) == rtrim(s@),
{
    let mut hi: usize = s.len();
    while hi > 0 && (s[hi - 1] == 32 || (9 <= s[hi - 1] && s[hi - 1] <= 13))
        invariant
            0 <= hi <= s@.len(),
            forall|j: int| hi <= j < s@.len() ==> is_space(s@[j]),
        decreases hi,
    {
        hi -= 1;
    }
    proof {
        lemma_rtrim_at(s@, hi as int);
    }
    hi
}

/// Whether `p` is a prefix of `s`.
pub fn starts_with_bytes(s: &[u8], p: &[u8]) -> (r: bool)
    ensures
        r == has_prefix(s@, p@),
{
    if p.len() > s.len() {
        return false;
    }
    let mut i: usize = 0;
    while i < p.len()
        invariant
            0 <= i <= p@.len() <= s@.len(),
            forall|j: int| 0 <= j < i ==> s@[j] == p@[j],
        decreases p@.len() - i,
    {
        if s[i] != p[i] {
            return false;
        }
        i += 1;
    }
    true
}

/// Whether `s` and `n` agree on a window of `n`'s length starting at `at`.
fn matches_at(s: &[u8], n: &[u8], at: usize) -> (r: bool)
    requires
        at + n@.len() <= s@.len(),
    ensures
        r == (s@.subrange(at as int, at + n@.len()) == n@),
{
    let slen = s.len();
    let mut i: usize = 0;
    while i < n.len()
        invariant
            0 <= i <= n@.len(),
            at + n@.len() <= s@.len(),
            s@.len() == slen,
            forall|j: int| 0 <= j < i ==> s@[at + j] == n@[j],
        decreases n@.len() - i,
    {
        if s[at + i] != n[i] {
            proof {
                assert(s@.subrange(at as int, at + n@.len())[i as int] == s@[at + i]);
            }
            return false;
        }
        i += 1;
    }
    proof {
        assert(s@.subrange(at as int, at + n@.len()) =~= n@);
    }
    true
}

/// Whether `a` and `b` hold the same bytes.
pub fn bytes_eq(a: &[u8], b: &[u8]) -> (r: bool)
    ensures
        r == (a@ == b@),
{
    if a.len() != b.len() {
        return false;
    }
    let mut i: usize = 0;
    while i < a.len()
        invariant
            0 <= i <= a@.len(),
            a@.len() == b@.len(),
            forall|j: int| 0 <= j < i ==> a@[j] == b@[j],
        decreases a@.len() - i,
    {
        if a[i] != b[i] {
            return false;
        }
        i += 1;
    }
    proof {
        assert(a@ =~= b@);
    }
    true
}

/// Whether `n` occurs in `s` as a contiguous subsequence.
pub fn contains_bytes(s: &[u8], n: &[u8]) -> (r: bool)
    ensures
        r == has_substring(s@, n@),
{
    if n.len() > s.len() {
        return false;
    }
    if n.len() == 0 {
        proof {
            assert(s@.subrange(0, 0 + n@.len() as int) =~= n@);
        }
        return true;
    }
    let slen: usize = s.len();
    let limit: usize = s.len() - n.len();
    let mut i: usize = 0;
    while i <= limit
        invariant
            limit == s@.len() - n@.len(),
            1 <= n@.len() <= s@.len(),
            s@.len() == slen,
            0 <= i <= limit + 1,
            forall|j: int| 0 <= j < i && j + n@.len() <= s@.len() ==> #[trigger] s@.subrange(
                j,
                j + n@.len(),
            ) != n@,
        decreases limit + 1 - i,
    {
        if matches_at(s, n, i) {
            return true;
        }
        i += 1;
    }
    false
}

} // verus!
