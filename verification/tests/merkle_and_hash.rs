//! Exact values of the hashing primitives and the Merkle root.

use ics12_near::hash::{combine_hash, sha256, CryptoHash};
use ics12_near::merkle::merklize;

#[test]
fn sha256_matches_known_vector() {
    // SHA-256 of the empty string.
    let digest = sha256(&[]);
    let expected: [u8; 32] = [
        0xe3, 0xb0, 0xc4, 0x42, 0x98, 0xfc, 0x1c, 0x14, 0x9a, 0xfb, 0xf4, 0xc8, 0x99, 0x6f, 0xb9,
        0x24, 0x27, 0xae, 0x41, 0xe4, 0x64, 0x9b, 0x93, 0x4c, 0xa4, 0x95, 0x99, 0x1b, 0x78, 0x52,
        0xb8, 0x55,
    ];
    assert_eq!(digest, expected);
    // SHA-256 of "abc".
    let digest = sha256(b"abc");
    let expected: [u8; 32] = [
        0xba, 0x78, 0x16, 0xbf, 0x8f, 0x01, 0xcf, 0xea, 0x41, 0x41, 0x40, 0xde, 0x5d, 0xae, 0x22,
        0x23, 0xb0, 0x03, 0x61, 0xa3, 0x96, 0x17, 0x7a, 0x9c, 0xb4, 0x10, 0xff, 0x61, 0xf2, 0x00,
        0x15, 0xad,
    ];
    assert_eq!(digest, expected);
}

#[test]
fn combine_hash_is_digest_of_concatenation() {
    let a = CryptoHash([1u8; 32]);
    let b = CryptoHash([2u8; 32]);
    let combined = combine_hash(&a, &b);
    let mut joined = Vec::new();
    joined.extend_from_slice(&a.0);
    joined.extend_from_slice(&b.0);
    assert_eq!(combined.0, sha256(&joined));
}

#[test]
fn merklize_empty_is_error() {
    assert!(merklize(&vec![]).is_none());
}

#[test]
fn merklize_single_leaf_is_the_leaf() {
    let a = CryptoHash([9u8; 32]);
    let root = merklize(&vec![a]).expect("one leaf has a root");
    assert!(root.eq(&a));
}

#[test]
fn merklize_two_leaves_combines_them() {
    let a = CryptoHash([1u8; 32]);
    let b = CryptoHash([2u8; 32]);
    let root = merklize(&vec![a, b]).expect("two leaves have a root");
    assert!(root.eq(&combine_hash(&a, &b)));
}

#[test]
fn merklize_promotes_odd_leaf() {
    let a = CryptoHash([1u8; 32]);
    let b = CryptoHash([2u8; 32]);
    let c = CryptoHash([3u8; 32]);
    let root = merklize(&vec![a, b, c]).expect("three leaves have a root");
    // First level pairs (a, b) and promotes c; the second level combines.
    let expected = combine_hash(&combine_hash(&a, &b), &c);
    assert!(root.eq(&expected));
}

#[test]
fn merklize_four_leaves() {
    let a = CryptoHash([1u8; 32]);
    let b = CryptoHash([2u8; 32]);
    let c = CryptoHash([3u8; 32]);
    let d = CryptoHash([4u8; 32]);
    let root = merklize(&vec![a, b, c, d]).expect("four leaves have a root");
    let expected = combine_hash(&combine_hash(&a, &b), &combine_hash(&c, &d));
    assert!(root.eq(&expected));
}

#[test]
fn hash_bytes_is_sha256() {
    let h = CryptoHash::hash_bytes(b"abc");
    assert_eq!(h.0, sha256(b"abc"));
    assert_eq!(h.as_bytes(), &sha256(b"abc"));
}

#[test]
fn new_hash_is_zero() {
    assert_eq!(CryptoHash::new().0, [0u8; 32]);
}
