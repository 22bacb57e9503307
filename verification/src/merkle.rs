//! NEAR-style Merkle root of a list of hashes: in-place pairing where an odd
//! trailing element is promoted unchanged to the next level.

use vstd::prelude::*;

use crate::hash::{combine_hash, combine_hash_spec, hash_list_view, CryptoHash};

verus! {

/// One pairing pass: neighbours are combined, an odd last element promotes.
pub open spec fn merkle_pair_up(s: Seq<Seq<u8>>) -> Seq<Seq<u8>> {
    Seq::new(
        ((s.len() + 1) / 2) as nat,
        |i: int|
            if 2 * i + 1 < s.len() {
                combine_hash_spec(s[2 * i], s[2 * i + 1])
            } else {
                s[2 * i]
            },
    )
}

/// The Merkle root of a non-empty list of hashes.
pub open spec fn spec_merkle_root(s: Seq<Seq<u8>>) -> Seq<u8>
    recommends
        s.len() > 0,
    decreases s.len(),
{
    if s.len() <= 1 {
        s[0]
    } else {
        spec_merkle_root(merkle_pair_up(s))
    }
}

/// The Merkle root of the given leaves; `None` exactly on empty input.
pub fn merklize(leaves: &Vec<CryptoHash>) -> (r: Option<CryptoHash>)
    ensures
        match r {
            Some(root) => leaves@.len() > 0 && root@ == spec_merkle_root(hash_list_view(leaves@)),
            None => leaves@.len() == 0,
        },
{
    if leaves.len() == 0 {
        return None;
    }
    let mut level: Vec<CryptoHash> = Vec::new();
    let mut i: usize = 0;
    while i < leaves.len()
        invariant
            0 <= i <= leaves@.len(),
            level@ == leaves@.subrange(0, i as int),
        decreases leaves@.len() - i,
    {
        level.push(leaves[i]);
        assert(level@ =~= leaves@.subrange(0, i as int + 1));
        i += 1;
    }
    assert(level@ =~= leaves@);
    let ghost orig = hash_list_view(leaves@);
    while level.len() > 1
        invariant
            1 <= level@.len(),
            spec_merkle_root(hash_list_view(level@)) == spec_merkle_root(orig),
        decreases level@.len(),
    {
        let n = level.len();
        let mut next: Vec<CryptoHash> = Vec::new();
        let mut j: usize = 0;
        while j < n / 2
            invariant
                0 <= j <= n / 2,
                n == level@.len(),
                next@.len() == j,
                forall|k: int|
                    0 <= k < j ==> (#[trigger] hash_list_view(next@)[k]) == merkle_pair_up(
                        hash_list_view(level@),
                    )[k],
            decreases n / 2 - j,
        {
            let combined = combine_hash(&level[2 * j], &level[2 * j + 1]);
            let ghost prev = next@;
            next.push(combined);
            proof {
                crate::hash::lemma_hash_list_view_push(prev, combined);
            }
            j += 1;
        }
        if n % 2 == 1 {
            let ghost prev = next@;
            let last = level[n - 1];
            next.push(last);
            proof {
                crate::hash::lemma_hash_list_view_push(prev, last);
                assert(hash_list_view(next@).last() == hash_list_view(level@)[n - 1]);
            }
        }
        proof {
            assert(hash_list_view(next@) =~= merkle_pair_up(hash_list_view(level@)));
        }
        level = next;
    }
    assert(hash_list_view(level@).len() == 1);
    assert(hash_list_view(level@)[0] == level@[0]@);
    Some(level[0])
}

} // verus!
