//! Property records: the line-oriented `key=value` format that response
//! files carry.
//!
//! A file's bytes are decoded leniently (invalid UTF-8 is substituted,
//! never an error) and split into lines. A line is skipped when, after
//! trimming surrounding whitespace, it is empty or starts with `#`; any
//! other line yields a key and a value, split at the first `=` (a line
//! without `=` is a key with an empty value). Later duplicate keys
//! overwrite earlier ones.

use vstd::prelude::*;
use crate::text::{
    find_byte, trim, subvec, find_byte_from, trim_bounds, bytes_eq, HASH, NEWLINE, EQUALS,
};

verus! {

/// The views of a sequence of byte vectors.
pub open spec fn seq_views(vs: Seq<Vec<u8>>) -> Seq<Seq<u8>> {
    vs.map_values(|v: Vec<u8>| v@)
}

/// The views of a sequence of key/value byte-vector pairs.
pub open spec fn pair_views(ps: Seq<(Vec<u8>, Vec<u8>)>) -> Seq<(Seq<u8>, Seq<u8>)> {
    ps.map_values(|p: (Vec<u8>, Vec<u8>)| (p.0@, p.1@))
}

/// The lines of `s`, split at each line feed. A text without a line feed
/// is one line; a trailing line feed yields a final empty line.
pub open spec fn lines_of(s: Seq<u8>) -> Seq<Seq<u8>>
    decreases s.len(),
    via lines_of_decreases
{
    if find_byte(s, NEWLINE) == s.len() {
        seq![s]
    } else {
        seq![s.subrange(0, find_byte(s, NEWLINE))] + lines_of(
            s.subrange(find_byte(s, NEWLINE) + 1, s.len() as int),
        )
    }
}

#[via_fn]
proof fn lines_of_decreases(s: Seq<u8>) {
    crate::text::lemma_find_byte(s, NEWLINE);
}

/// The key/value pair a line contributes, or nothing for a line that is
/// blank or a comment after trimming.
pub open spec fn line_entry(line: Seq<u8>) -> Option<(Seq<u8>, Seq<u8>)> {
    let t = trim(line);
    if t.len() == 0 || t[0] == HASH {
        Option::None
    } else {
        let e = find_byte(t, EQUALS);
        if e == t.len() {
            Option::Some((t, Seq::empty()))
        } else {
            Option::Some((t.subrange(0, e), t.subrange(e + 1, t.len() as int)))
        }
    }
}

/// The record the given lines build, processed in order, later keys
/// overwriting earlier ones.
pub open spec fn record_of_lines(ls: Seq<Seq<u8>>) -> Map<Seq<u8>, Seq<u8>>
    decreases ls.len(),
{
    if ls.len() == 0 {
        Map::empty()
    } else {
        match line_entry(ls.last()) {
            Option::None => record_of_lines(ls.drop_last()),
            Option::Some(kv) => record_of_lines(ls.drop_last()).insert(kv.0, kv.1),
        }
    }
}

/// The record a decoded text builds.
pub open spec fn record_of(s: Seq<u8>) -> Map<Seq<u8>, Seq<u8>> {
    record_of_lines(lines_of(s))
}

/// Law: a line that is blank or a comment after trimming never
/// contributes a key — every key of the record is the key of some
/// non-skipped line.
pub proof fn lemma_keys_from_entries(ls: Seq<Seq<u8>>, k: Seq<u8>)
    requires
        record_of_lines(ls).contains_key(k),
    ensures
        exists|i: int|
            0 <= i < ls.len() && (#[trigger] line_entry(ls[i]) matches Option::Some(kv)
                && kv.0 == k),
    decreases ls.len(),
{
    match line_entry(ls.last()) {
        Option::None => {
            lemma_keys_from_entries(ls.drop_last(), k);
            let i = choose|i: int|
                0 <= i < ls.drop_last().len() && (#[trigger] line_entry(ls.drop_last()[i])
                    matches Option::Some(kv) && kv.0 == k);
            assert(ls.drop_last()[i] == ls[i]);
        },
        Option::Some(kv) => {
            if kv.0 == k {
                assert(ls[ls.len() - 1] == ls.last());
            } else {
                lemma_keys_from_entries(ls.drop_last(), k);
                let i = choose|i: int|
                    0 <= i < ls.drop_last().len() && (#[trigger] line_entry(ls.drop_last()[i])
                        matches Option::Some(kv) && kv.0 == k);
                assert(ls.drop_last()[i] == ls[i]);
            }
        },
    }
}

/// Law: a duplicated key resolves to its last occurrence — the record's
/// value for `k` is the value of the last line that yields `k`.
pub proof fn lemma_last_occurrence_wins(ls: Seq<Seq<u8>>, i: int, k: Seq<u8>, v: Seq<u8>)
    requires
        0 <= i < ls.len(),
        line_entry(ls[i]) == Option::Some((k, v)),
        forall|j: int|
            i < j < ls.len() ==> !(#[trigger] line_entry(ls[j]) matches Option::Some(kv)
                && kv.0 == k),
    ensures
        record_of_lines(ls).contains_key(k),
        record_of_lines(ls)[k] == v,
    decreases ls.len(),
{
    if i == ls.len() - 1 {
        assert(ls.last() == ls[i]);
    } else {
        assert(line_entry(ls[ls.len() - 1]) matches Option::Some(kv) ==> kv.0 != k);
        assert(ls.drop_last()[i] == ls[i]);
        assert forall|j: int|
            i < j < ls.drop_last().len() implies !(#[trigger] line_entry(ls.drop_last()[j])
            matches Option::Some(kv) && kv.0 == k) by {
            assert(ls.drop_last()[j] == ls[j]);
        }
        lemma_last_occurrence_wins(ls.drop_last(), i, k, v);
    }
}

/// The map a pair list denotes, later pairs overwriting earlier ones.
pub open spec fn map_of_pairs(ps: Seq<(Vec<u8>, Vec<u8>)>) -> Map<Seq<u8>, Seq<u8>>
    decreases ps.len(),
{
    if ps.len() == 0 {
        Map::empty()
    } else {
        map_of_pairs(ps.drop_last()).insert(ps.last().0@, ps.last().1@)
    }
}

/// The keys of `map_of_pairs` are exactly the keys of the pairs.
pub proof fn lemma_map_of_pairs_keys(ps: Seq<(Vec<u8>, Vec<u8>)>)
    ensures
        forall|k: Seq<u8>|
            map_of_pairs(ps).contains_key(k) <==> exists|i: int|
                0 <= i < ps.len() && (#[trigger] ps[i]).0@ == k,
    decreases ps.len(),
{
    if ps.len() > 0 {
        lemma_map_of_pairs_keys(ps.drop_last());
        assert forall|k: Seq<u8>| map_of_pairs(ps).contains_key(k) implies exists|i: int|
            0 <= i < ps.len() && (#[trigger] ps[i]).0@ == k by {
            if k == ps.last().0@ {
                assert((ps[ps.len() - 1]).0@ == k);
            } else {
                assert(map_of_pairs(ps.drop_last()).contains_key(k));
                let i = choose|i: int| 0 <= i < ps.drop_last().len() && (#[trigger] ps.drop_last()[i]).0@ == k;
                assert(ps.drop_last()[i] == ps[i]);
                assert((ps[i]).0@ == k);
            }
        }
        assert forall|k: Seq<u8>|
            (exists|i: int| 0 <= i < ps.len() && (#[trigger] ps[i]).0@ == k) implies map_of_pairs(
            ps,
        ).contains_key(k) by {
            let i = choose|i: int| 0 <= i < ps.len() && (#[trigger] ps[i]).0@ == k;
            if i < ps.len() - 1 {
                assert((ps.drop_last()[i]).0@ == k);
                assert(map_of_pairs(ps.drop_last()).contains_key(k));
            } else {
                assert(ps.last().0@ == k);
            }
        }
    }
}

/// With pairwise-distinct keys, each pair's value is the map's value for
/// its key.
pub proof fn lemma_map_of_pairs_at(ps: Seq<(Vec<u8>, Vec<u8>)>, i: int)
    requires
        0 <= i < ps.len(),
        forall|a: int, b: int|
            0 <= a < b < ps.len() ==> (#[trigger] ps[a]).0@ != (#[trigger] ps[b]).0@,
    ensures
        map_of_pairs(ps).contains_key(ps[i].0@),
        map_of_pairs(ps)[ps[i].0@] == ps[i].1@,
    decreases ps.len(),
{
    if i == ps.len() - 1 {
        assert(ps.last() == ps[i]);
    } else {
        assert(ps.drop_last()[i] == ps[i]);
        lemma_map_of_pairs_at(ps.drop_last(), i);
        assert(ps.last().0@ != ps[i].0@);
    }
}

/// Removing the pair at `i` removes exactly its key from the map.
pub proof fn lemma_map_of_pairs_remove(ps: Seq<(Vec<u8>, Vec<u8>)>, i: int)
    requires
        0 <= i < ps.len(),
        forall|a: int, b: int|
            0 <= a < b < ps.len() ==> (#[trigger] ps[a]).0@ != (#[trigger] ps[b]).0@,
    ensures
        map_of_pairs(ps.remove(i)) == map_of_pairs(ps).remove(ps[i].0@),
    decreases ps.len(),
{
    let k = ps[i].0@;
    if i == ps.len() - 1 {
        assert(ps.remove(i) =~= ps.drop_last());
        lemma_map_of_pairs_keys(ps.drop_last());
        assert forall|a: int| 0 <= a < ps.drop_last().len() implies (#[trigger] ps.drop_last()[a]).0@
            != k by {
            assert(ps.drop_last()[a] == ps[a]);
        }
        assert(!map_of_pairs(ps.drop_last()).contains_key(k));
        assert(map_of_pairs(ps.drop_last()).insert(k, ps.last().1@).remove(k) =~= map_of_pairs(
            ps.drop_last(),
        ));
    } else {
        let q = ps.remove(i);
        assert(q.drop_last() =~= ps.drop_last().remove(i));
        assert(q.last() == ps.last());
        assert forall|a: int, b: int|
            0 <= a < b < ps.drop_last().len() implies (#[trigger] ps.drop_last()[a]).0@
            != (#[trigger] ps.drop_last()[b]).0@ by {
            assert(ps.drop_last()[a] == ps[a]);
            assert(ps.drop_last()[b] == ps[b]);
        }
        assert(ps.drop_last()[i] == ps[i]);
        lemma_map_of_pairs_remove(ps.drop_last(), i);
        assert(ps.last().0@ != k);
        assert(map_of_pairs(ps.drop_last()).remove(k).insert(ps.last().0@, ps.last().1@)
            =~= map_of_pairs(ps.drop_last()).insert(ps.last().0@, ps.last().1@).remove(k));
    }
}

/// An ordered key/value record read from one response file.
pub struct PropertyRecord {
    pub pairs: Vec<(Vec<u8>, Vec<u8>)>,
}

impl View for PropertyRecord {
    type V = Map<Seq<u8>, Seq<u8>>;

    open spec fn view(&self) -> Map<Seq<u8>, Seq<u8>> {
        map_of_pairs(self.pairs@)
    }
}

impl PropertyRecord {
    /// Keys are pairwise distinct.
    pub open spec fn wf(&self) -> bool {
        forall|a: int, b: int|
            0 <= a < b < self.pairs@.len() ==> (#[trigger] self.pairs@[a]).0@
                != (#[trigger] self.pairs@[b]).0@
    }

    /// An empty record.
    pub fn new() -> (r: PropertyRecord)
        ensures
            r.wf(),
            r@ == Map::<Seq<u8>, Seq<u8>>::empty(),
    {
        PropertyRecord { pairs: Vec::new() }
    }

    /// The index of the pair holding `k`, if any.
    fn find_key(&self, k: &[u8]) -> (r: Option<usize>)
        requires
            self.wf(),
        ensures
            match r {
                Option::Some(i) => i < self.pairs@.len() && self.pairs@[i as int].0@ == k@,
                Option::None => forall|j: int|
                    0 <= j < self.pairs@.len() ==> (#[trigger] self.pairs@[j]).0@ != k@,
            },
    {
        let mut i: usize = 0;
        let n = self.pairs.len();
        while i < n
            invariant
                0 <= i <= n == self.pairs@.len(),
                forall|j: int| 0 <= j < i ==> (#[trigger] self.pairs@[j]).0@ != k@,
            decreases n - i,
        {
            if bytes_eq(self.pairs[i].0.as_slice(), k) {
                return Option::Some(i);
            }
            i += 1;
        }
        Option::None
    }

    /// Insert `k = v`, overwriting the value of an existing key.
    pub fn insert(&mut self, k: Vec<u8>, v: Vec<u8>)
        requires
            old(self).wf(),
        ensures
            final(self).wf(),
            final(self)@ == old(self)@.insert(k@, v@),
    {
        let ghost before = self.pairs@;
        match self.find_key(k.as_slice()) {
            Option::Some(i) => {
                proof {
                    lemma_map_of_pairs_remove(before, i as int);
                }
                self.pairs.remove(i);
                let ghost mid = self.pairs@;
                proof {
                    assert(mid =~= before.remove(i as int));
                    assert forall|j: int| 0 <= j < mid.len() implies (#[trigger] mid[j]).0@ != k@
                        by {
                        if j < i {
                            assert(mid[j] == before[j]);
                            assert(before[j].0@ != before[i as int].0@);
                        } else {
                            assert(mid[j] == before[j + 1]);
                            assert(before[i as int].0@ != before[j + 1].0@);
                        }
                    }
                    assert forall|a: int, b: int|
                        0 <= a < b < mid.len() implies (#[trigger] mid[a]).0@
                        != (#[trigger] mid[b]).0@ by {
                        if b < i {
                            assert(mid[a] == before[a]);
                            assert(mid[b] == before[b]);
                            assert(before[a].0@ != before[b].0@);
                        } else if a < i {
                            assert(mid[a] == before[a]);
                            assert(mid[b] == before[b + 1]);
                            assert(before[a].0@ != before[b + 1].0@);
                        } else {
                            assert(mid[a] == before[a + 1]);
                            assert(mid[b] == before[b + 1]);
                            assert(before[a + 1].0@ != before[b + 1].0@);
                        }
                    }
                }
                self.pairs.push((k, v));
                proof {
                    assert(self.pairs@.drop_last() =~= mid);
                    assert(self.pairs@.last().0@ == k@);
                    assert(map_of_pairs(self.pairs@) == map_of_pairs(mid).insert(k@, v@));
                    assert(map_of_pairs(before).remove(before[i as int].0@).insert(k@, v@)
                        =~= map_of_pairs(before).insert(k@, v@));
                    assert forall|a: int, b: int|
                        0 <= a < b < self.pairs@.len() implies (#[trigger] self.pairs@[a]).0@
                        != (#[trigger] self.pairs@[b]).0@ by {
                        assert(self.pairs@[a] == mid[a]);
                        if b < self.pairs@.len() - 1 {
                            assert(self.pairs@[b] == mid[b]);
                        } else {
                            assert(self.pairs@[b].0@ == k@);
                            assert(mid[a].0@ != k@);
                        }
                    }
                }
            },
            Option::None => {
                self.pairs.push((k, v));
                proof {
                    assert(self.pairs@.drop_last() =~= before);
                    assert(map_of_pairs(self.pairs@) == map_of_pairs(before).insert(k@, v@));
                    assert forall|a: int, b: int|
                        0 <= a < b < self.pairs@.len() implies (#[trigger] self.pairs@[a]).0@
                        != (#[trigger] self.pairs@[b]).0@ by {
                        assert(self.pairs@[a] == before[a]);
                        if b < self.pairs@.len() - 1 {
                            assert(self.pairs@[b] == before[b]);
                            assert(before[a].0@ != before[b].0@);
                        } else {
                            assert(self.pairs@[b].0@ == k@);
                            assert(before[a].0@ != k@);
                        }
                    }
                }
            },
        }
    }

    /// The value stored for `key`, if any.
    pub fn get(&self, key: &[u8]) -> (r: Option<Vec<u8>>)
        requires
            self.wf(),
        ensures
            match r {
                Option::Some(v) => self@.contains_key(key@) && v@ == self@[key@],
                Option::None => !self@.contains_key(key@),
            },
    {
        let mut i: usize = 0;
        let n = self.pairs.len();
        while i < n
            invariant
                0 <= i <= n == self.pairs@.len(),
                self.wf(),
                forall|j: int| 0 <= j < i ==> (#[trigger] self.pairs@[j]).0@ != key@,
            decreases n - i,
        {
            if bytes_eq(self.pairs[i].0.as_slice(), key) {
                proof {
                    lemma_map_of_pairs_at(self.pairs@, i as int);
                }
                let v = subvec(self.pairs[i].1.as_slice(), 0, self.pairs[i].1.len());
                proof {
                    assert(v@ =~= self.pairs@[i as int].1@);
                }
                return Option::Some(v);
            }
            i += 1;
        }
        proof {
            lemma_map_of_pairs_keys(self.pairs@);
        }
        Option::None
    }
}

/// The lines of `s`, split at each line feed.
pub fn split_lines(s: &[u8]) -> (r: Vec<Vec<u8>>)
    ensures
        seq_views(r@) == lines_of(s@),
{
    let mut acc: Vec<Vec<u8>> = Vec::new();
    let mut pos: usize = 0;
    let mut done = false;
    proof {
        assert(seq_views(acc@) =~= Seq::<Seq<u8>>::empty());
        assert(s@.subrange(0, s@.len() as int) =~= s@);
        assert(seq_views(acc@) + lines_of(s@) =~= lines_of(s@));
    }
    while !done
        invariant
            0 <= pos <= s@.len(),
            !done ==> seq_views(acc@) + lines_of(s@.subrange(pos as int, s@.len() as int))
                == lines_of(s@),
            done ==> seq_views(acc@) == lines_of(s@),
        decreases s@.len() - pos + (if done { 0int } else { 1int }),
    {
        let ghost rest = s@.subrange(pos as int, s@.len() as int);
        let k = find_byte_from(s, pos, NEWLINE);
        if k == s.len() {
            let line = subvec(s, pos, s.len());
            proof {
                assert(find_byte(rest, NEWLINE) == rest.len());
                assert(lines_of(rest) == seq![rest]);
                assert(line@ == rest);
                assert(seq_views(acc@.push(line)) =~= seq_views(acc@) + seq![rest]);
                assert(seq_views(acc@) + seq![rest] =~= lines_of(s@));
            }
            acc.push(line);
            done = true;
        } else {
            let line = subvec(s, pos, k);
            proof {
                let f = find_byte(rest, NEWLINE);
                assert(f == k - pos);
                assert(f < rest.len());
                assert(rest.subrange(0, f) =~= s@.subrange(pos as int, k as int));
                assert(rest.subrange(f + 1, rest.len() as int) =~= s@.subrange(
                    k + 1,
                    s@.len() as int,
                ));
                assert(lines_of(rest) == seq![line@] + lines_of(
                    s@.subrange(k + 1, s@.len() as int),
                ));
                assert(seq_views(acc@.push(line)) =~= seq_views(acc@) + seq![line@]);
                assert((seq_views(acc@) + seq![line@]) + lines_of(s@.subrange(k + 1, s@.len() as int))
                    =~= seq_views(acc@) + lines_of(rest));
            }
            acc.push(line);
            pos = k + 1;
        }
    }
    acc
}

/// Parse one already-decoded text into a record.
pub fn parse_text(text: &[u8]) -> (r: PropertyRecord)
    ensures
        r.wf(),
        r@ == record_of(text@),
{
    let lines = split_lines(text);
    let mut rec = PropertyRecord::new();
    let mut i: usize = 0;
    let n = lines.len();
    while i < n
        invariant
            0 <= i <= n == lines@.len(),
            seq_views(lines@) == lines_of(text@),
            rec.wf(),
            rec@ == record_of_lines(seq_views(lines@).subrange(0, i as int)),
        decreases n - i,
    {
        let ghost prefix = seq_views(lines@).subrange(0, i as int);
        let ghost prefix1 = seq_views(lines@).subrange(0, i + 1);
        proof {
            assert(prefix1.drop_last() =~= prefix);
            assert(prefix1.last() == lines@[i as int]@);
        }
        let line = &lines[i];
        let (lo, hi) = trim_bounds(line.as_slice());
        let ghost t = trim(line@);
        if lo == hi {
            proof {
                assert(t.len() == 0);
            }
        } else if line[lo] == HASH {
            proof {
                assert(t[0] == line@.subrange(lo as int, hi as int)[0]);
            }
        } else {
            let core = subvec(line.as_slice(), lo, hi);
            proof {
                assert(core@ == t);
                assert(t[0] == line@.subrange(lo as int, hi as int)[0]);
            }
            let e = find_byte_from(core.as_slice(), 0, EQUALS);
            proof {
                assert(core@.subrange(0, core@.len() as int) =~= core@);
            }
            if e == core.len() {
                let key = subvec(core.as_slice(), 0, core.len());
                let val: Vec<u8> = Vec::new();
                proof {
                    assert(key@ =~= t);
                    assert(val@ =~= Seq::<u8>::empty());
                    assert(line_entry(prefix1.last()) == Option::Some((key@, val@)));
                }
                rec.insert(key, val);
            } else {
                let key = subvec(core.as_slice(), 0, e);
                let val = subvec(core.as_slice(), e + 1, core.len());
                proof {
                    assert(line_entry(prefix1.last()) == Option::Some((key@, val@)));
                }
                rec.insert(key, val);
            }
        }
        i += 1;
    }
    proof {
        assert(seq_views(lines@).subrange(0, n as int) =~= seq_views(lines@));
    }
    rec
}

/// What `String::from_utf8_lossy` yields for the given bytes, re-encoded
/// as UTF-8.
pub uninterp spec fn lossy_of(s: Seq<u8>) -> Seq<u8>;

/// Relies on `String::from_utf8_lossy`: invalid UTF-8 sequences are
/// replaced with the replacement character, valid UTF-8 input — ASCII in
/// particular — comes back unchanged, and the result depends on the
/// bytes alone.
#[verifier::external_body]
fn lossy_decode(bytes: &[u8]) -> (r: Vec<u8>)
    ensures
        r@ == lossy_of(bytes@),
        (forall|i: int| 0 <= i < bytes@.len() ==> bytes@[i] < 128) ==> r@ == bytes@,
{
    String::from_utf8_lossy(bytes).into_owned().into_bytes()
}

/// Parse a file's raw bytes into a record. Decoding is lenient: invalid
/// UTF-8 never fails, it is substituted before the lines are read.
pub fn parse_record(bytes: &[u8]) -> (r: PropertyRecord)
    ensures
        r.wf(),
        r@ == record_of(lossy_of(bytes@)),
        (forall|i: int| 0 <= i < bytes@.len() ==> bytes@[i] < 128) ==> r@ == record_of(bytes@),
{
    let decoded = lossy_decode(bytes);
    parse_text(decoded.as_slice())
}

} // verus!
