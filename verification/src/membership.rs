//! Membership and non-membership queries against a commitment root: the
//! root is the canonical encoding of the trusted chunk state roots, and a
//! proof succeeds only if its first node hashes to one of them.

use vstd::prelude::*;

use crate::client_state::ClientState;
use crate::codec::{bytes_list_view, dec_bytes_list, decode_bytes_list};
use crate::error::Error;
use crate::hash::{dec_hash_list, decode_hash_list, hash_list_view, CryptoHash};
use crate::trie::{
    dec_trie_node_ws, nodes_view, nodes_wf, spec_node_hash, spec_verify_not_in_state,
    spec_verify_state_proof, verify_not_in_state, verify_state_proof, RawTrieNodeWithSize,
    SpecTrieNodeWithSize,
};

verus! {

/// The proof items decoded as trie nodes, each item one whole node; `None`
/// as soon as one item fails to decode exactly.
pub open spec fn spec_decode_nodes(proofs: Seq<Seq<u8>>, i: int) -> Option<
    Seq<SpecTrieNodeWithSize>,
>
    decreases proofs.len() - i,
{
    if i < 0 || i >= proofs.len() {
        Some(Seq::empty())
    } else {
        match dec_trie_node_ws(proofs[i], 0) {
            None => None,
            Some((v, end)) => if end == proofs[i].len() {
                match spec_decode_nodes(proofs, i + 1) {
                    None => None,
                    Some(rest) => Some(seq![v] + rest),
                }
            } else {
                None
            },
        }
    }
}

/// The membership query over plain bytes: decode the proof items, decode
/// the commitment root as chunk roots, require the first node's hash among
/// them, and walk the proof for `prefix ++ path` ending at `value`.
pub open spec fn spec_verify_membership(
    prefix: Seq<u8>,
    proof: Seq<u8>,
    root: Seq<u8>,
    path: Seq<u8>,
    value: Seq<u8>,
) -> Result<(), Error> {
    match dec_bytes_list(proof, 0) {
        Some((proofs, proof_end)) => if proof_end != proof.len() {
            Err(Error::InvalidCommitmentProof)
        } else if proofs.len() == 0 {
            Err(Error::MissingProofData)
        } else {
            match dec_hash_list(root, 0) {
                Some((chunk_roots, root_end)) => if root_end != root.len() {
                    Err(Error::InvalidCommitmentRoot)
                } else {
                    match spec_decode_nodes(proofs, 0) {
                        None => Err(Error::InvalidCommitmentProof),
                        Some(nodes) => {
                            let root_hash = spec_node_hash(nodes[0]);
                            if !chunk_roots.contains(root_hash) {
                                Err(Error::InvalidRootHashOfProofData)
                            } else {
                                spec_verify_state_proof(prefix + path, nodes, value, root_hash)
                            }
                        },
                    }
                },
                None => Err(Error::InvalidCommitmentRoot),
            }
        },
        None => Err(Error::InvalidCommitmentProof),
    }
}

/// The non-membership query over plain bytes; the same framing as the
/// membership query, with the absence walk at the end.
pub open spec fn spec_verify_non_membership(
    prefix: Seq<u8>,
    proof: Seq<u8>,
    root: Seq<u8>,
    path: Seq<u8>,
) -> Result<(), Error> {
    match dec_bytes_list(proof, 0) {
        Some((proofs, proof_end)) => if proof_end != proof.len() {
            Err(Error::InvalidCommitmentProof)
        } else if proofs.len() == 0 {
            Err(Error::MissingProofData)
        } else {
            match dec_hash_list(root, 0) {
                Some((chunk_roots, root_end)) => if root_end != root.len() {
                    Err(Error::InvalidCommitmentRoot)
                } else {
                    match spec_decode_nodes(proofs, 0) {
                        None => Err(Error::InvalidCommitmentProof),
                        Some(nodes) => {
                            let root_hash = spec_node_hash(nodes[0]);
                            if !chunk_roots.contains(root_hash) {
                                Err(Error::InvalidRootHashOfProofData)
                            } else {
                                spec_verify_not_in_state(prefix + path, nodes, root_hash)
                            }
                        },
                    }
                },
                None => Err(Error::InvalidCommitmentRoot),
            }
        },
        None => Err(Error::InvalidCommitmentProof),
    }
}

/// Concatenates two byte strings.
fn concat_bytes(a: &[u8], b: &[u8]) -> (r: Vec<u8>)
    ensures
        r@ == a@ + b@,
{
    let mut r: Vec<u8> = Vec::new();
    let mut i: usize = 0;
    while i < a.len()
        invariant
            0 <= i <= a@.len(),
            r@ == a@.subrange(0, i as int),
        decreases a@.len() - i,
    {
        r.push(a[i]);
        assert(r@ =~= a@.subrange(0, i as int + 1));
        i += 1;
    }
    assert(r@ =~= a@);
    let mut j: usize = 0;
    while j < b.len()
        invariant
            0 <= j <= b@.len(),
            r@ == a@ + b@.subrange(0, j as int),
        decreases b@.len() - j,
    {
        r.push(b[j]);
        assert(r@ =~= a@ + b@.subrange(0, j as int + 1));
        j += 1;
    }
    assert(r@ =~= a@ + b@);
    r
}

/// Whether the hash list holds the given hash.
fn hash_list_contains(list: &Vec<CryptoHash>, h: &CryptoHash) -> (r: bool)
    ensures
        r == hash_list_view(list@).contains(h@),
{
    let mut i: usize = 0;
    while i < list.len()
        invariant
            0 <= i <= list@.len(),
            forall|j: int| 0 <= j < i ==> hash_list_view(list@)[j] != h@,
        decreases list@.len() - i,
    {
        assert(hash_list_view(list@)[i as int] == list@[i as int]@);
        if list[i].eq(h) {
            assert(hash_list_view(list@).contains(h@));
            return true;
        }
        i += 1;
    }
    assert(!hash_list_view(list@).contains(h@));
    false
}

/// Decodes every proof item as one whole trie node.
fn decode_proof_nodes(proofs: &Vec<Vec<u8>>) -> (r: Option<Vec<RawTrieNodeWithSize>>)
    ensures
        match r {
            Some(nodes) => spec_decode_nodes(bytes_list_view(proofs@), 0) == Some(
                nodes_view(nodes@),
            ) && nodes@.len() == proofs@.len() && nodes_wf(nodes_view(nodes@)),
            None => spec_decode_nodes(bytes_list_view(proofs@), 0) is None,
        },
{
    let ghost proofs_v = bytes_list_view(proofs@);
    let mut acc: Vec<RawTrieNodeWithSize> = Vec::new();
    let mut i: usize = 0;
    while i < proofs.len()
        invariant
            0 <= i <= proofs@.len(),
            proofs_v == bytes_list_view(proofs@),
            acc@.len() == i,
            nodes_wf(nodes_view(acc@)),
            match spec_decode_nodes(proofs_v, i as int) {
                Some(rest) => spec_decode_nodes(proofs_v, 0) == Some(nodes_view(acc@) + rest),
                None => spec_decode_nodes(proofs_v, 0) is None,
            },
        decreases proofs@.len() - i,
    {
        assert(proofs_v[i as int] == proofs@[i as int]@);
        match RawTrieNodeWithSize::decode(proofs[i].as_slice()) {
            Err(_) => {
                return None;
            },
            Ok(node) => {
                let ghost nn = node;
                proof {
                    crate::trie::lemma_nodes_view_push(acc@, nn);
                    let rest0 = spec_decode_nodes(proofs_v, i as int + 1);
                    if rest0 is Some {
                        let rest = rest0->Some_0;
                        assert(nodes_view(acc@) + (seq![nn@] + rest) =~= nodes_view(acc@.push(nn))
                            + rest);
                    }
                }
                acc.push(node);
                i += 1;
                assert(nodes_wf(nodes_view(acc@)));
            },
        }
    }
    assert(spec_decode_nodes(proofs_v, proofs@.len() as int) == Some(
        Seq::<SpecTrieNodeWithSize>::empty(),
    ));
    assert(nodes_view(acc@) + Seq::<SpecTrieNodeWithSize>::empty() =~= nodes_view(acc@));
    Some(acc)
}

impl ClientState {
    /// Verifies that `value` is stored under `prefix ++ path` in one of the
    /// chunk state tries committed by `root`.
    pub fn verify_membership(
        &self,
        prefix: &[u8],
        proof: &[u8],
        root: &[u8],
        path: &[u8],
        value: &[u8],
    ) -> (r: Result<(), Error>)
        ensures
            r == spec_verify_membership(prefix@, proof@, root@, path@, value@),
    {
        let proofs = match decode_bytes_list(proof, 0) {
            Some((proofs, end)) => {
                if end != proof.len() {
                    return Err(Error::InvalidCommitmentProof);
                }
                proofs
            },
            None => {
                return Err(Error::InvalidCommitmentProof);
            },
        };
        if proofs.len() == 0 {
            return Err(Error::MissingProofData);
        }
        let chunk_roots = match decode_hash_list(root, 0) {
            Some((chunk_roots, end)) => {
                if end != root.len() {
                    return Err(Error::InvalidCommitmentRoot);
                }
                chunk_roots
            },
            None => {
                return Err(Error::InvalidCommitmentRoot);
            },
        };
        let nodes = match decode_proof_nodes(&proofs) {
            None => {
                return Err(Error::InvalidCommitmentProof);
            },
            Some(nodes) => nodes,
        };
        assert(nodes_view(nodes@)[0] == nodes@[0]@);
        let root_hash = nodes[0].hash();
        if !hash_list_contains(&chunk_roots, &root_hash) {
            return Err(Error::InvalidRootHashOfProofData);
        }
        let key = concat_bytes(prefix, path);
        verify_state_proof(key.as_slice(), &nodes, value, &root_hash)
    }

    /// Verifies that nothing is stored under `prefix ++ path` in the chunk
    /// state trie the proof walks, rooted in one of the chunk state roots
    /// committed by `root`.
    pub fn verify_non_membership(
        &self,
        prefix: &[u8],
        proof: &[u8],
        root: &[u8],
        path: &[u8],
    ) -> (r: Result<(), Error>)
        ensures
            r == spec_verify_non_membership(prefix@, proof@, root@, path@),
    {
        let proofs = match decode_bytes_list(proof, 0) {
            Some((proofs, end)) => {
                if end != proof.len() {
                    return Err(Error::InvalidCommitmentProof);
                }
                proofs
            },
            None => {
                return Err(Error::InvalidCommitmentProof);
            },
        };
        if proofs.len() == 0 {
            return Err(Error::MissingProofData);
        }
        let chunk_roots = match decode_hash_list(root, 0) {
            Some((chunk_roots, end)) => {
                if end != root.len() {
                    return Err(Error::InvalidCommitmentRoot);
                }
                chunk_roots
            },
            None => {
                return Err(Error::InvalidCommitmentRoot);
            },
        };
        let nodes = match decode_proof_nodes(&proofs) {
            None => {
                return Err(Error::InvalidCommitmentProof);
            },
            Some(nodes) => nodes,
        };
        assert(nodes_view(nodes@)[0] == nodes@[0]@);
        let root_hash = nodes[0].hash();
        if !hash_list_contains(&chunk_roots, &root_hash) {
            return Err(Error::InvalidRootHashOfProofData);
        }
        let key = concat_bytes(prefix, path);
        verify_not_in_state(key.as_slice(), &nodes, &root_hash)
    }
}

} // verus!
