//! The client's global guarantees, stated and proved over the spec
//! functions that the executable functions are verified against.

use vstd::prelude::*;

use crate::client_state::{
    dec_client_state, enc_client_state, spec_status, SpecClientState,
};
use crate::consensus_state::{
    dec_consensus_state, enc_consensus_state, lemma_dec_enc_consensus_state, SpecConsensusState,
};
use crate::error::Status;
use crate::header::{dec_header, enc_header, lemma_dec_enc_header, SpecHeader};
use crate::height::Height;
use crate::merkle::spec_merkle_root;
use crate::misbehaviour::{
    dec_misbehaviour, enc_misbehaviour, lemma_dec_enc_misbehaviour, SpecMisbehaviour,
};
use crate::store::{
    spec_find, spec_insert_pos, spec_update_state, lemma_insert_pos_bounds,
    lemma_insert_pos_splits, SpecClientStore,
};
use crate::update_client::{
    spec_approval_outcome, spec_chunks_root_ok, spec_verify_header, spec_zip_len,
};
use crate::validator::SpecValidatorStake;

verus! {

/// A successful update never lowers the latest height: it advances it to
/// the header's height or keeps it.
pub proof fn lemma_update_never_lowers_height(
    s: SpecClientStore,
    h: SpecHeader,
    host_timestamp: u64,
    host_height: Height,
)
    ensures
        !spec_update_state(
            s,
            h,
            host_timestamp,
            host_height,
        ).client_state.latest_height.spec_lt(s.client_state.latest_height),
{
}

/// Once a client is frozen it reports `Frozen` whatever the stored
/// consensus state and the clock say, and no update unfreezes it.
pub proof fn lemma_frozen_is_forever(
    s: SpecClientStore,
    h: SpecHeader,
    host_timestamp: u64,
    host_height: Height,
    latest_consensus_state: Option<SpecConsensusState>,
    now: u64,
)
    requires
        s.client_state.is_frozen(),
    ensures
        spec_status(s.client_state, latest_consensus_state, now) == Status::Frozen,
        spec_update_state(s, h, host_timestamp, host_height).client_state.is_frozen(),
{
}

// ---------------------------------------------------------------------------
// Codec round trips
// ---------------------------------------------------------------------------

/// Decoding inverts encoding on every well-formed header.
pub proof fn lemma_header_roundtrip(v: SpecHeader)
    requires
        v.wf(),
    ensures
        dec_header(enc_header(v), 0) == Some((v, enc_header(v).len() as int)),
{
    let b = enc_header(v);
    assert(b.subrange(0, b.len() as int) =~= b);
    lemma_dec_enc_header(v, b, 0);
}

/// Decoding inverts encoding on every well-formed client state.
pub proof fn lemma_client_state_roundtrip(v: SpecClientState)
    requires
        v.wf(),
    ensures
        dec_client_state(enc_client_state(v), 0) == Some((v, enc_client_state(v).len() as int)),
{
    let b = enc_client_state(v);
    assert(b.subrange(0, b.len() as int) =~= b);
    crate::client_state::lemma_dec_enc_client_state(v, b, 0);
}

/// Decoding inverts encoding on every well-formed consensus state.
pub proof fn lemma_consensus_state_roundtrip(v: SpecConsensusState)
    requires
        v.wf(),
    ensures
        dec_consensus_state(enc_consensus_state(v), 0) == Some(
            (v, enc_consensus_state(v).len() as int),
        ),
{
    let b = enc_consensus_state(v);
    assert(b.subrange(0, b.len() as int) =~= b);
    lemma_dec_enc_consensus_state(v, b, 0);
}

/// Decoding inverts encoding on every well-formed misbehaviour message.
pub proof fn lemma_misbehaviour_roundtrip(v: SpecMisbehaviour)
    requires
        v.wf(),
    ensures
        dec_misbehaviour(enc_misbehaviour(v), 0) == Some((v, enc_misbehaviour(v).len() as int)),
{
    let b = enc_misbehaviour(v);
    assert(b.subrange(0, b.len() as int) =~= b);
    lemma_dec_enc_misbehaviour(v, b, 0);
}

// ---------------------------------------------------------------------------
// Idempotence of updates
// ---------------------------------------------------------------------------

/// A key just inserted at its sorted position is found again.
proof fn lemma_find_after_insert(
    s: Seq<(u64, SpecConsensusState)>,
    p: int,
    h: u64,
    cs: SpecConsensusState,
)
    requires
        0 <= p <= s.len(),
        forall|j: int| 0 <= j < p ==> (#[trigger] s[j]).0 != h,
    ensures
        spec_find(s.insert(p, (h, cs)), h) == Some(cs),
    decreases p,
{
    let inserted = s.insert(p, (h, cs));
    if p == 0 {
        assert(inserted[0] == (h, cs));
    } else {
        assert(inserted[0] == s[0]);
        assert(inserted.drop_first() =~= s.drop_first().insert(p - 1, (h, cs)));
        lemma_find_after_insert(s.drop_first(), p - 1, h, cs);
    }
}

/// Submitting the same header twice leaves the store exactly as the first
/// submission left it.
pub proof fn lemma_update_idempotent(
    s: SpecClientStore,
    h: SpecHeader,
    t1: u64,
    hh1: Height,
    t2: u64,
    hh2: Height,
)
    requires
        s.wf(),
    ensures
        spec_update_state(spec_update_state(s, h, t1, hh1), h, t2, hh2) == spec_update_state(
            s,
            h,
            t1,
            hh1,
        ),
{
    let s1 = spec_update_state(s, h, t1, hh1);
    if spec_find(s.consensus_states, h.height()) is Some {
    } else {
        let p = spec_insert_pos(s.consensus_states, h.height());
        lemma_insert_pos_bounds(s.consensus_states, h.height());
        lemma_insert_pos_splits(s.consensus_states, h.height());
        lemma_find_after_insert(
            s.consensus_states,
            p,
            h.height(),
            SpecConsensusState {
                current_bps: match crate::store::spec_prev(s.consensus_states, h.height()) {
                    Some(prev) => prev.spec_get_block_producers_of(h.epoch_id()),
                    None => None,
                },
                header: h,
                commitment_root: crate::hash::enc_hash_list(h.prev_state_root_of_chunks),
            },
        );
        assert(spec_find(s1.consensus_states, h.height()) is Some);
    }
}

/// After an update the store holds a consensus state at the header's
/// height; when the height was new, that state carries the header itself
/// and commits to its chunk state roots.
pub proof fn lemma_update_installs_header(
    s: SpecClientStore,
    h: SpecHeader,
    host_timestamp: u64,
    host_height: Height,
)
    requires
        s.wf(),
    ensures
        spec_find(
            spec_update_state(s, h, host_timestamp, host_height).consensus_states,
            h.height(),
        ) is Some,
        spec_find(s.consensus_states, h.height()) is None ==> spec_find(
            spec_update_state(s, h, host_timestamp, host_height).consensus_states,
            h.height(),
        ) == Some(
            SpecConsensusState {
                current_bps: match crate::store::spec_prev(s.consensus_states, h.height()) {
                    Some(prev) => prev.spec_get_block_producers_of(h.epoch_id()),
                    None => None,
                },
                header: h,
                commitment_root: crate::hash::enc_hash_list(h.prev_state_root_of_chunks),
            },
        ),
{
    if spec_find(s.consensus_states, h.height()) is None {
        let p = spec_insert_pos(s.consensus_states, h.height());
        lemma_insert_pos_bounds(s.consensus_states, h.height());
        lemma_insert_pos_splits(s.consensus_states, h.height());
        lemma_find_after_insert(
            s.consensus_states,
            p,
            h.height(),
            SpecConsensusState {
                current_bps: match crate::store::spec_prev(s.consensus_states, h.height()) {
                    Some(prev) => prev.spec_get_block_producers_of(h.epoch_id()),
                    None => None,
                },
                header: h,
                commitment_root: crate::hash::enc_hash_list(h.prev_state_root_of_chunks),
            },
        );
    }
}

// ---------------------------------------------------------------------------
// What acceptance of a header guarantees
// ---------------------------------------------------------------------------

/// Any header the verifier accepts has chunk state roots that merklize to
/// its previous state root.
pub proof fn lemma_accepted_header_merklizes(cs: SpecConsensusState, h: SpecHeader)
    requires
        spec_verify_header(cs, h) is Ok,
    ensures
        h.prev_state_root_of_chunks.len() > 0,
        spec_merkle_root(h.prev_state_root_of_chunks)
            == h.light_client_block.inner_lite.prev_state_root,
{
    assert(spec_chunks_root_ok(h));
}

/// A membership walk that succeeds for one value hash fails for every
/// other: the proof binds the value hash, not just the key.
proof fn lemma_walk_binds_value_hash(
    nodes: Seq<crate::trie::SpecTrieNodeWithSize>,
    i: int,
    key: Seq<u8>,
    vh1: Seq<u8>,
    vh2: Seq<u8>,
)
    requires
        crate::trie::spec_membership_walk(nodes, i, key, vh1) is Ok,
        vh1 != vh2,
    ensures
        crate::trie::spec_membership_walk(nodes, i, key, vh2) is Err,
    decreases nodes.len() - i,
{
    match nodes[i].node {
        crate::trie::SpecTrieNode::Leaf(frag, vh) => {},
        crate::trie::SpecTrieNode::Extension(frag, child) => {
            lemma_walk_binds_value_hash(nodes, i + 1, key.skip(frag.len() as int), vh1, vh2);
        },
        crate::trie::SpecTrieNode::Branch(children, value) => {
            if key.len() != 0 {
                lemma_walk_binds_value_hash(nodes, i + 1, key.skip(1), vh1, vh2);
            }
        },
    }
}

/// A membership query that accepts a value rejects every value with a
/// different digest under the same key, proof and root.
pub proof fn lemma_tampered_value_is_rejected(
    prefix: Seq<u8>,
    proof: Seq<u8>,
    root: Seq<u8>,
    path: Seq<u8>,
    value: Seq<u8>,
    other: Seq<u8>,
)
    requires
        crate::membership::spec_verify_membership(prefix, proof, root, path, value) is Ok,
        crate::hash::sha256_of(other) != crate::hash::sha256_of(value),
    ensures
        crate::membership::spec_verify_membership(prefix, proof, root, path, other) is Err,
{
    let (proofs, _) = crate::codec::dec_bytes_list(proof, 0)->Some_0;
    let nodes = crate::membership::spec_decode_nodes(proofs, 0)->Some_0;
    lemma_walk_binds_value_hash(
        nodes,
        0,
        crate::trie::spec_nibbles(prefix + path),
        crate::hash::sha256_of(value),
        crate::hash::sha256_of(other),
    );
}

/// A proof accepted against one root hash is rejected against every other
/// root hash.
pub proof fn lemma_tampered_root_is_rejected(
    key: Seq<u8>,
    nodes: Seq<crate::trie::SpecTrieNodeWithSize>,
    value: Seq<u8>,
    root_hash: Seq<u8>,
    other_root: Seq<u8>,
)
    requires
        crate::trie::spec_verify_state_proof(key, nodes, value, root_hash) is Ok,
        other_root != root_hash,
    ensures
        crate::trie::spec_verify_state_proof(key, nodes, value, other_root) == Err::<
            (),
            crate::error::Error,
        >(crate::error::Error::InvalidRootHashOfProofData),
{
}

/// The supermajority rule is strict: a header whose approving stake comes
/// to exactly two thirds of the total stake is rejected.
pub proof fn lemma_supermajority_is_strict(
    cs: SpecConsensusState,
    h: SpecHeader,
    bps: Seq<SpecValidatorStake>,
    total: int,
    approved: int,
)
    requires
        cs.spec_get_block_producers_of(h.epoch_id()) == Some(bps),
        spec_approval_outcome(
            bps,
            h.light_client_block.approvals_after_next,
            crate::header::spec_approval_message(h.light_client_block),
            0,
            spec_zip_len(bps, h.light_client_block.approvals_after_next),
            0,
            0,
        ) == Ok::<(int, int), crate::error::Error>((total, approved)),
        3 * approved == 2 * total,
    ensures
        spec_verify_header(cs, h) is Err,
{
}

} // verus!
