//! The retrieval workflow's decisions: which directory entries to
//! consider, which candidate holds the requested document, what name to
//! publish it under, and how to strip its two-line header.
//!
//! The caller lists the historical directory and hands each entry's
//! recency timestamp over; the selection keeps only the most recent
//! entries, within a fixed window, so that an arbitrarily large
//! directory never widens the search.

use vstd::prelude::*;
use crate::text::{
    find_byte, rtrim, has_substring, subvec, find_byte_from, rtrim_bound, contains_bytes, HASH,
    NEWLINE,
};

verus! {

/// A directory entry under consideration: its position in the caller's
/// listing and its recency timestamp (creation time, or modification
/// time when creation time is unavailable).
#[derive(Clone, Copy, Debug, PartialEq, Eq, Structural)]
pub struct Candidate {
    pub id: usize,
    pub stamp: u64,
}

/// How many most-recent entries one retrieval pass examines at most.
pub const CANDIDATE_WINDOW: usize = 250;

/// Timestamps never increase along the sequence.
pub open spec fn sorted_desc(s: Seq<Candidate>) -> bool {
    forall|i: int, j: int| 0 <= i < j < s.len() ==> s[i].stamp >= s[j].stamp
}

/// Sort candidates by decreasing timestamp.
pub fn sort_desc(v: &mut Vec<Candidate>)
    ensures
        final(v)@.len() == old(v)@.len(),
        final(v)@.to_multiset() == old(v)@.to_multiset(),
        sorted_desc(final(v)@),
{
    let n = v.len();
    if n == 0 {
        return ;
    }
    let mut i: usize = 1;
    while i < n
        invariant
            1 <= i <= n == v@.len(),
            v@.to_multiset() == old(v)@.to_multiset(),
            forall|a: int, b: int| 0 <= a < b < i ==> v@[a].stamp >= v@[b].stamp,
        decreases n - i,
    {
        let mut j: usize = i;
        while j > 0 && v[j - 1].stamp < v[j].stamp
            invariant
                0 <= j <= i < n == v@.len(),
                v@.to_multiset() == old(v)@.to_multiset(),
                forall|a: int, b: int|
                    0 <= a < b <= i && a != j && b != j ==> v@[a].stamp >= v@[b].stamp,
                forall|b: int| j < b <= i ==> v@[j as int].stamp >= v@[b].stamp,
            decreases j,
        {
            let ghost prev = v@;
            let x = v[j - 1];
            let y = v[j];
            v[j - 1] = y;
            v[j] = x;
            proof {
                broadcast use vstd::seq_lib::group_to_multiset_ensures;
                broadcast use vstd::multiset::group_multiset_axioms;

                let s1 = prev.update(j - 1, y);
                assert(v@ == s1.update(j as int, x));
                assert(prev.contains(x)) by {
                    assert(prev[j - 1] == x);
                }
                assert(s1.contains(y)) by {
                    assert(s1[j as int] == y);
                }
                vstd::seq_lib::to_multiset_update(prev, j - 1, y);
                vstd::seq_lib::to_multiset_update(s1, j as int, x);
                assert(s1[j as int] == prev[j as int]);
                assert(v@.to_multiset() =~= prev.to_multiset());
            }
            j -= 1;
        }
        proof {
            assert forall|a: int, b: int| 0 <= a < b <= i implies v@[a].stamp >= v@[b].stamp by {
                if a == j {
                    assert(v@[a].stamp >= v@[b].stamp);
                } else if b == j {
                    assert(j > 0 ==> v@[j - 1].stamp >= v@[j as int].stamp);
                    if a < j - 1 {
                        assert(v@[a].stamp >= v@[j - 1].stamp);
                    }
                }
            }
        }
        i += 1;
    }
}

/// Keep the most recent entries, at most `CANDIDATE_WINDOW` of them,
/// newest first: no entry outside the window is newer than any kept one.
pub fn select_recent(entries: Vec<Candidate>) -> (r: Vec<Candidate>)
    ensures
        r@.len() == (if entries@.len() <= CANDIDATE_WINDOW as int {
            entries@.len() as int
        } else {
            CANDIDATE_WINDOW as int
        }),
        sorted_desc(r@),
        r@.to_multiset().subset_of(entries@.to_multiset()),
        forall|c: Candidate|
            entries@.to_multiset().count(c) > r@.to_multiset().count(c) && r@.len() > 0
                ==> c.stamp <= r@[r@.len() - 1].stamp,
{
    let mut s = entries;
    sort_desc(&mut s);
    let ghost sorted = s@;
    if s.len() > CANDIDATE_WINDOW {
        s.truncate(CANDIDATE_WINDOW);
    }
    proof {
        broadcast use vstd::seq_lib::group_to_multiset_ensures;
        broadcast use vstd::multiset::group_multiset_axioms;

        let w = s@.len() as int;
        let dropped = sorted.subrange(w, sorted.len() as int);
        assert(s@ =~= sorted.subrange(0, w));
        assert(sorted =~= s@ + dropped);
        vstd::seq_lib::lemma_multiset_commutative(s@, dropped);
        assert forall|c: Candidate|
            entries@.to_multiset().count(c) > s@.to_multiset().count(c) && s@.len() > 0 implies c.stamp
            <= s@[s@.len() - 1].stamp by {
            assert(dropped.to_multiset().count(c) > 0);
            assert(dropped.contains(c));
            let k = choose|k: int| 0 <= k < dropped.len() && dropped[k] == c;
            assert(sorted[w + k] == c);
            assert(sorted[w - 1] == s@[w - 1]);
            assert(sorted[w - 1].stamp >= sorted[w + k].stamp);
        }
    }
    s
}

/// The canonical filename on a stored file's second line: the line
/// without trailing whitespace, truncated at the first `#`.
pub open spec fn canonical_of(line: Seq<u8>) -> Seq<u8> {
    let t = rtrim(line);
    t.subrange(0, find_byte(t, HASH))
}

/// The name under which a matched document is published.
pub fn canonical_name(line: &[u8]) -> (r: Vec<u8>)
    ensures
        r@ == canonical_of(line@),
{
    let hi = rtrim_bound(line);
    let t = subvec(line, 0, hi);
    let h = find_byte_from(t.as_slice(), 0, HASH);
    proof {
        assert(t@.subrange(0, t@.len() as int) =~= t@);
    }
    subvec(t.as_slice(), 0, h)
}

/// Whether a stored file's second line names the requested document:
/// its canonical name contains the fragment.
pub fn candidate_matches(line: &[u8], frag: &[u8]) -> (r: bool)
    ensures
        r == has_substring(canonical_of(line@), frag@),
{
    let name = canonical_name(line);
    contains_bytes(name.as_slice(), frag)
}

/// The byte offset just after the second line feed, or 0 when the text
/// holds fewer than two line feeds.
pub open spec fn strip_offset(s: Seq<u8>) -> int {
    let n1 = find_byte(s, NEWLINE);
    if n1 == s.len() {
        0
    } else {
        let rest = s.subrange(n1 + 1, s.len() as int);
        let n2 = find_byte(rest, NEWLINE);
        if n2 == rest.len() {
            0
        } else {
            n1 + 1 + n2 + 1
        }
    }
}

/// The published copy's payload: everything from the strip offset on. A
/// file with fewer than two line feeds is left unchanged.
pub fn strip_header(contents: &[u8]) -> (r: Vec<u8>)
    ensures
        r@ == contents@.subrange(strip_offset(contents@), contents@.len() as int),
{
    let n1 = find_byte_from(contents, 0, NEWLINE);
    proof {
        assert(contents@.subrange(0, contents@.len() as int) =~= contents@);
    }
    if n1 == contents.len() {
        return subvec(contents, 0, contents.len());
    }
    let n2 = find_byte_from(contents, n1 + 1, NEWLINE);
    if n2 == contents.len() {
        subvec(contents, 0, contents.len())
    } else {
        subvec(contents, n2 + 1, contents.len())
    }
}

/// Two line feeds occur in `s`.
pub open spec fn has_two_newlines(s: Seq<u8>) -> bool {
    exists|i: int, j: int| 0 <= i < j < s.len() && s[i] == NEWLINE && s[j] == NEWLINE
}

/// `k` is the second line feed of `s`: a line feed with exactly one line
/// feed before it.
pub open spec fn is_second_newline(s: Seq<u8>, k: int) -> bool {
    0 <= k < s.len() && s[k] == NEWLINE && exists|i: int|
        0 <= i < k && s[i] == NEWLINE && (forall|j: int| 0 <= j < k && s[j] == NEWLINE ==> j == i)
}

/// Law: the strip offset points just past the second line feed whenever
/// one exists, so stripping removes exactly the bytes up to and
/// including it; with fewer than two line feeds the offset is 0 and the
/// text is kept whole.
pub proof fn lemma_strip_offset(s: Seq<u8>)
    ensures
        has_two_newlines(s) ==> 0 < strip_offset(s) <= s.len() && s[strip_offset(s) - 1] == NEWLINE
            && is_second_newline(s, strip_offset(s) - 1),
        !has_two_newlines(s) ==> strip_offset(s) == 0 && s.subrange(
            strip_offset(s),
            s.len() as int,
        ) == s,
{
    let n1 = find_byte(s, NEWLINE);
    crate::text::lemma_find_byte(s, NEWLINE);
    assert(s.subrange(0, s.len() as int) =~= s);
    if n1 == s.len() {
        assert(!has_two_newlines(s)) by {
            if has_two_newlines(s) {
                let (i, j) = choose|i: int, j: int|
                    0 <= i < j < s.len() && s[i] == NEWLINE && s[j] == NEWLINE;
                assert(s[i] != NEWLINE);
            }
        }
    } else {
        let rest = s.subrange(n1 + 1, s.len() as int);
        let n2 = find_byte(rest, NEWLINE);
        crate::text::lemma_find_byte(rest, NEWLINE);
        if n2 == rest.len() {
            assert(!has_two_newlines(s)) by {
                if has_two_newlines(s) {
                    let (i, j) = choose|i: int, j: int|
                        0 <= i < j < s.len() && s[i] == NEWLINE && s[j] == NEWLINE;
                    assert(i >= n1);
                    assert(j > n1);
                    assert(rest[j - n1 - 1] == s[j]);
                    assert(rest[j - n1 - 1] != NEWLINE);
                }
            }
        } else {
            let off = n1 + 1 + n2 + 1;
            assert(s[off - 1] == rest[n2]);
            assert(s[n1] == NEWLINE);
            assert forall|j: int| 0 <= j < off - 1 && s[j] == NEWLINE implies j == n1 by {
                if j < n1 {
                    assert(s[j] != NEWLINE);
                } else if j > n1 {
                    assert(rest[j - n1 - 1] == s[j]);
                    assert(rest[j - n1 - 1] != NEWLINE);
                }
            }
            assert(is_second_newline(s, off - 1));
            assert(has_two_newlines(s)) by {
                assert(0 <= n1 < off - 1 < s.len() && s[n1] == NEWLINE && s[off - 1] == NEWLINE);
            }
        }
    }
}

} // verus!
