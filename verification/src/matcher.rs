//! Filename classification for response files.
//!
//! A response filename belongs to one of three families, each introduced
//! by a fixed prefix. After the prefix comes a zero-padded sequence
//! number and, optionally, a `#` followed by session noise. A filename
//! matches a requested tag fragment when, for some known prefix, the
//! remainder after the prefix — leading zeros stripped, truncated at the
//! first `#` — starts with the fragment.

use vstd::prelude::*;
use crate::text::{
    find_byte, skip_byte, has_prefix, lemma_find_byte_is, lemma_skip_byte_is, subvec,
    find_byte_from, starts_with_bytes, HASH, ZERO,
};

verus! {

/// The response family prefixes.
pub open spec fn prefix_nota() -> Seq<u8> {
    seq![114u8, 101u8, 115u8, 112u8, 45u8, 110u8, 111u8, 116u8, 97u8]
}

pub open spec fn prefix_cancel() -> Seq<u8> {
    seq![114u8, 101u8, 115u8, 112u8, 45u8, 99u8, 97u8, 110u8, 99u8, 101u8, 108u8]
}

pub open spec fn prefix_mdfe() -> Seq<u8> {
    seq![114u8, 101u8, 115u8, 112u8, 45u8, 109u8, 100u8, 102u8, 101u8]
}

pub open spec fn is_known_prefix(p: Seq<u8>) -> bool {
    p == prefix_nota() || p == prefix_cancel() || p == prefix_mdfe()
}

/// The remainder of `f` after prefix `p`, with leading zeros stripped and
/// truncated at the first `#`.
pub open spec fn tail_core(f: Seq<u8>, p: Seq<u8>) -> Seq<u8> {
    let tail = f.subrange(p.len() as int, f.len() as int);
    let nz = tail.subrange(skip_byte(tail, ZERO), tail.len() as int);
    nz.subrange(0, find_byte(nz, HASH))
}

/// Whether `f` matches fragment `frag` through prefix `p`.
pub open spec fn prefix_matches(f: Seq<u8>, p: Seq<u8>, frag: Seq<u8>) -> bool {
    has_prefix(f, p) && has_prefix(tail_core(f, p), frag)
}

/// Whether `f` matches fragment `frag` through any known prefix.
pub open spec fn filename_matches(f: Seq<u8>, frag: Seq<u8>) -> bool {
    prefix_matches(f, prefix_nota(), frag) || prefix_matches(f, prefix_cancel(), frag)
        || prefix_matches(f, prefix_mdfe(), frag)
}

/// The `resp-nota` prefix as bytes.
pub fn prefix_nota_bytes() -> (r: Vec<u8>)
    ensures
        r@ == prefix_nota(),
{
    let r = vec![114u8, 101u8, 115u8, 112u8, 45u8, 110u8, 111u8, 116u8, 97u8];
    proof {
        assert(r@ =~= prefix_nota());
    }
    r
}

/// The `resp-cancel` prefix as bytes.
pub fn prefix_cancel_bytes() -> (r: Vec<u8>)
    ensures
        r@ == prefix_cancel(),
{
    let r = vec![114u8, 101u8, 115u8, 112u8, 45u8, 99u8, 97u8, 110u8, 99u8, 101u8, 108u8];
    proof {
        assert(r@ =~= prefix_cancel());
    }
    r
}

/// The `resp-mdfe` prefix as bytes.
pub fn prefix_mdfe_bytes() -> (r: Vec<u8>)
    ensures
        r@ == prefix_mdfe(),
{
    let r = vec![114u8, 101u8, 115u8, 112u8, 45u8, 109u8, 100u8, 102u8, 101u8];
    proof {
        assert(r@ =~= prefix_mdfe());
    }
    r
}

/// Whether `f` matches `frag` through the single prefix `p`.
pub fn prefix_match(f: &[u8], p: &[u8], frag: &[u8]) -> (r: bool)
    ensures
        r == prefix_matches(f@, p@, frag@),
{
    if !starts_with_bytes(f, p) {
        return false;
    }
    let tail = subvec(f, p.len(), f.len());
    let mut z: usize = 0;
    while z < tail.len() && tail[z] == ZERO
        invariant
            0 <= z <= tail@.len(),
            forall|j: int| 0 <= j < z ==> tail@[j] == ZERO,
        decreases tail@.len() - z,
    {
        z += 1;
    }
    proof {
        lemma_skip_byte_is(tail@, ZERO, z as int);
    }
    let nz = subvec(&tail, z, tail.len());
    let h = find_byte_from(&nz, 0, HASH);
    proof {
        assert(nz@.subrange(0, nz@.len() as int) =~= nz@);
    }
    let core = subvec(&nz, 0, h);
    proof {
        assert(core@ == tail_core(f@, p@));
    }
    starts_with_bytes(&core, frag)
}

/// Whether filename `f` matches the requested tag fragment `frag`
/// through any of the known response-family prefixes.
pub fn matches_filename(f: &[u8], frag: &[u8]) -> (r: bool)
    ensures
        r == filename_matches(f@, frag@),
{
    let nota = prefix_nota_bytes();
    if prefix_match(f, nota.as_slice(), frag) {
        return true;
    }
    let cancel = prefix_cancel_bytes();
    if prefix_match(f, cancel.as_slice(), frag) {
        return true;
    }
    let mdfe = prefix_mdfe_bytes();
    prefix_match(f, mdfe.as_slice(), frag)
}

/// Law: a filename assembled as `prefix + zeros + tag + '#' + noise`,
/// where the zeros are zero padding, the tag does not start with a zero
/// and carries no `#`, is matched exactly when the tag starts with the
/// requested fragment — for every known prefix and any amount of padding
/// and noise.
pub proof fn lemma_built_filename_matches(
    p: Seq<u8>,
    zeros: Seq<u8>,
    tag: Seq<u8>,
    noise: Seq<u8>,
    frag: Seq<u8>,
)
    requires
        is_known_prefix(p),
        forall|i: int| 0 <= i < zeros.len() ==> zeros[i] == ZERO,
        tag.len() > 0 ==> tag[0] != ZERO,
        forall|i: int| 0 <= i < tag.len() ==> tag[i] != HASH,
    ensures
        filename_matches(p + zeros + tag + seq![HASH] + noise, frag) == has_prefix(tag, frag),
{
    let f = p + zeros + tag + seq![HASH] + noise;
    assert(has_prefix(f, p));
    let tail = f.subrange(p.len() as int, f.len() as int);
    assert(tail =~= zeros + tag + seq![HASH] + noise);
    assert forall|j: int| 0 <= j < zeros.len() implies tail[j] == ZERO by {
        assert(tail[j] == zeros[j]);
    }
    if tag.len() > 0 {
        assert(tail[zeros.len() as int] == tag[0]);
    } else {
        assert(tail[zeros.len() as int] == HASH);
    }
    lemma_skip_byte_is(tail, ZERO, zeros.len() as int);
    let nz = tail.subrange(zeros.len() as int, tail.len() as int);
    assert(nz =~= tag + seq![HASH] + noise);
    assert forall|j: int| 0 <= j < tag.len() implies nz[j] != HASH by {
        assert(nz[j] == tag[j]);
    }
    assert(nz[tag.len() as int] == HASH);
    lemma_find_byte_is(nz, HASH, tag.len() as int);
    assert(nz.subrange(0, tag.len() as int) =~= tag);
    assert(tail_core(f, p) == tag);
    assert(prefix_matches(f, p, frag) == has_prefix(tag, frag));
    assert(prefix_nota()[5] == 110u8);
    assert(prefix_cancel()[5] == 99u8);
    assert(prefix_mdfe()[5] == 109u8);
    assert forall|q: Seq<u8>| is_known_prefix(q) && q != p implies !has_prefix(f, q) by {
        assert(f[5] == p[5]);
        if has_prefix(f, q) {
            assert(f[5] == q[5]);
        }
    }
}

} // verus!
