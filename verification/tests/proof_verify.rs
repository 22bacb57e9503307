//! Trie proof verification: membership and non-membership on small tries,
//! and rejection of every single-byte tampering.

use ics12_near::client_state::ClientState;
use ics12_near::codec::encode_bytes_list;
use ics12_near::error::Error;
use ics12_near::hash::{encode_hash_list, CryptoHash};
use ics12_near::height::Height;
use ics12_near::trie::{
    verify_not_in_state, verify_state_proof, RawTrieNode, RawTrieNodeWithSize,
};

fn client() -> ClientState {
    ClientState::new_without_validation(
        3_600_000_000_000,
        Height { revision_number: 0, revision_height: 10 },
        1_000_000_000,
    )
}

/// Nibbles of a key, two per byte, high first.
fn nibbles(key: &[u8]) -> Vec<u8> {
    let mut out = Vec::new();
    for b in key {
        out.push(b / 16);
        out.push(b % 16);
    }
    out
}

fn leaf_node(key: &[u8], value: &[u8]) -> RawTrieNodeWithSize {
    RawTrieNodeWithSize {
        node: RawTrieNode::Leaf(nibbles(key), CryptoHash::hash_bytes(value)),
        memory_usage: 50,
    }
}

/// The commitment root bytes for the given chunk state roots.
fn commitment_root(roots: &[CryptoHash]) -> Vec<u8> {
    let mut out = Vec::new();
    encode_hash_list(&roots.to_vec(), &mut out);
    out
}

/// The proof blob holding the given node encodings.
fn proof_blob(nodes: &[&RawTrieNodeWithSize]) -> Vec<u8> {
    let items: Vec<Vec<u8>> = nodes.iter().map(|n| n.encode()).collect();
    let mut out = Vec::new();
    encode_bytes_list(&items, &mut out);
    out
}

#[test]
fn leaf_membership_and_non_membership() {
    let key = [0x01u8, 0x02];
    let value = [0xffu8];
    let node = leaf_node(&key, &value);
    let root = node.hash();
    let proof = proof_blob(&[&node]);
    let root_bytes = commitment_root(&[root]);
    let c = client();
    assert_eq!(c.verify_membership(&[], &proof, &root_bytes, &key, &value), Ok(()));
    // Any other key is proven absent by the same diverging leaf.
    assert_eq!(c.verify_non_membership(&[], &proof, &root_bytes, &[0x01, 0x03]), Ok(()));
    assert_eq!(c.verify_non_membership(&[], &proof, &root_bytes, &[0x01]), Ok(()));
    // The stored key itself cannot be proven absent.
    assert_eq!(
        c.verify_non_membership(&[], &proof, &root_bytes, &key),
        Err(Error::SpecifiedKeyHasValueInState)
    );
}

#[test]
fn flipping_any_proof_byte_is_rejected() {
    let key = [0x01u8, 0x02];
    let value = [0xffu8];
    let node = leaf_node(&key, &value);
    let root = node.hash();
    let root_bytes = commitment_root(&[root]);
    let c = client();
    let node_bytes = node.encode();
    for i in 0..node_bytes.len() {
        let mut tampered = node_bytes.clone();
        tampered[i] ^= 0x01;
        let mut proof = Vec::new();
        encode_bytes_list(&vec![tampered], &mut proof);
        assert!(
            c.verify_membership(&[], &proof, &root_bytes, &key, &value).is_err(),
            "byte {} of the proof node went unnoticed",
            i
        );
    }
}

#[test]
fn tampered_value_is_rejected() {
    let key = [0x01u8, 0x02];
    let value = [0xffu8];
    let node = leaf_node(&key, &value);
    let root = node.hash();
    let proof = proof_blob(&[&node]);
    let root_bytes = commitment_root(&[root]);
    let c = client();
    assert!(c.verify_membership(&[], &proof, &root_bytes, &key, &[0xfe]).is_err());
    assert!(c.verify_membership(&[], &proof, &root_bytes, &key, &[0xff, 0x00]).is_err());
    assert!(c.verify_membership(&[], &proof, &root_bytes, &key, &[]).is_err());
}

#[test]
fn wrong_root_hash_is_rejected() {
    let key = [0x01u8, 0x02];
    let value = [0xffu8];
    let node = leaf_node(&key, &value);
    let proof = proof_blob(&[&node]);
    let c = client();
    // A commitment root that does not list the proof's root hash.
    let other_root = commitment_root(&[CryptoHash([0x55; 32])]);
    assert_eq!(
        c.verify_membership(&[], &proof, &other_root, &key, &value),
        Err(Error::InvalidRootHashOfProofData)
    );
    // A flipped byte inside the commitment root bytes.
    let mut root_bytes = commitment_root(&[node.hash()]);
    let last = root_bytes.len() - 1;
    root_bytes[last] ^= 0x01;
    assert!(c.verify_membership(&[], &proof, &root_bytes, &key, &value).is_err());
}

#[test]
fn empty_proof_is_rejected() {
    let c = client();
    let mut empty = Vec::new();
    encode_bytes_list(&vec![], &mut empty);
    let root_bytes = commitment_root(&[CryptoHash([0x55; 32])]);
    assert_eq!(
        c.verify_membership(&[], &empty, &root_bytes, &[0x01], &[0x02]),
        Err(Error::MissingProofData)
    );
    assert_eq!(
        c.verify_non_membership(&[], &empty, &root_bytes, &[0x01]),
        Err(Error::MissingProofData)
    );
}

#[test]
fn branch_descent_finds_and_misses_keys() {
    // A branch at the root holding a value for the empty key, with a leaf
    // under nibble 0 completing the key [0x01].
    let value = [0x42u8];
    let leaf = RawTrieNodeWithSize {
        node: RawTrieNode::Leaf(vec![1], CryptoHash::hash_bytes(&value)),
        memory_usage: 50,
    };
    let mut children: Vec<Option<CryptoHash>> = vec![None; 16];
    children[0] = Some(leaf.hash());
    let branch_value = [0x99u8];
    let branch = RawTrieNodeWithSize {
        node: RawTrieNode::Branch(children, Some(CryptoHash::hash_bytes(&branch_value))),
        memory_usage: 100,
    };
    let root = branch.hash();
    let root_bytes = commitment_root(&[CryptoHash([0x55; 32]), root]);
    let c = client();

    // Membership of the full key through the branch into the leaf.
    let proof = proof_blob(&[&branch, &leaf]);
    assert_eq!(c.verify_membership(&[], &proof, &root_bytes, &[0x01], &value), Ok(()));
    // Membership of the empty key at the branch itself.
    let proof_root_only = proof_blob(&[&branch]);
    assert_eq!(
        c.verify_membership(&[], &proof_root_only, &root_bytes, &[], &branch_value),
        Ok(())
    );
    // The prefix splits between prefix and path.
    assert_eq!(c.verify_membership(&[0x01], &proof, &root_bytes, &[], &value), Ok(()));
    // A key under an empty slot is proven absent by the branch alone.
    assert_eq!(c.verify_non_membership(&[], &proof_root_only, &root_bytes, &[0x11]), Ok(()));
    // Unused trailing nodes are rejected.
    assert_eq!(
        c.verify_non_membership(&[], &proof, &root_bytes, &[0x11]),
        Err(Error::InvalidProofData)
    );
    // A walk that needs a child the proof does not carry is incomplete.
    assert_eq!(
        c.verify_membership(&[], &proof_root_only, &root_bytes, &[0x01], &value),
        Err(Error::InvalidProofDataLength)
    );
}

#[test]
fn duplicated_nodes_are_rejected() {
    let key = [0x01u8, 0x02];
    let value = [0xffu8];
    let node = leaf_node(&key, &value);
    let root = node.hash();
    let proof = proof_blob(&[&node, &node]);
    let root_bytes = commitment_root(&[root]);
    let c = client();
    assert_eq!(
        c.verify_membership(&[], &proof, &root_bytes, &key, &value),
        Err(Error::InvalidProofData)
    );
}

#[test]
fn node_codec_roundtrip() {
    let key = [0xabu8, 0xcd];
    let node = leaf_node(&key, &[1, 2, 3]);
    let bytes = node.encode();
    let decoded = RawTrieNodeWithSize::decode(&bytes).expect("node should decode");
    assert_eq!(decoded.encode(), bytes);
    assert_eq!(decoded.memory_usage, 50);
    // Truncated node bytes are rejected.
    assert!(RawTrieNodeWithSize::decode(&bytes[..bytes.len() - 1]).is_err());
}

#[test]
fn direct_walk_entry_points_agree() {
    let key = [0x01u8, 0x02];
    let value = [0xffu8];
    let node = leaf_node(&key, &value);
    let root = node.hash();
    let nodes = vec![node];
    assert_eq!(verify_state_proof(&key, &nodes, &value, &root), Ok(()));
    assert_eq!(
        verify_not_in_state(&[0x01, 0x03], &nodes, &root),
        Ok(())
    );
    assert_eq!(
        verify_state_proof(&key, &nodes, &value, &CryptoHash([0; 32])),
        Err(Error::InvalidRootHashOfProofData)
    );
}
