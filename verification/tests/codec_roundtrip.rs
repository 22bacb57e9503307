//! Round trips and exact bytes of the canonical codec.

use ics12_near::client_state::{decode_client_state, encode_client_state, ClientState};
use ics12_near::codec::{decode_u128, decode_u32, decode_u64, encode_u128, encode_u32, encode_u64};
use ics12_near::consensus_state::{decode_consensus_state, encode_consensus_state, ConsensusState};
use ics12_near::hash::CryptoHash;
use ics12_near::header::{
    decode_header, encode_header, Header, LightClientBlock, LightClientBlockInnerLite,
};
use ics12_near::height::Height;
use ics12_near::misbehaviour::{decode_misbehaviour, encode_misbehaviour, Misbehaviour};
use ics12_near::signature::{ED25519PublicKey, PublicKey, Signature};
use ics12_near::validator::ValidatorStakeView;

fn hash_of(byte: u8) -> CryptoHash {
    CryptoHash([byte; 32])
}

fn sample_inner_lite() -> LightClientBlockInnerLite {
    LightClientBlockInnerLite {
        height: 11,
        epoch_id: hash_of(1),
        next_epoch_id: hash_of(2),
        prev_state_root: hash_of(3),
        outcome_root: hash_of(4),
        timestamp: 1_000_000_500,
        next_bp_hash: hash_of(5),
        block_merkle_root: hash_of(6),
    }
}

fn sample_validator(stake: u128) -> ValidatorStakeView {
    ValidatorStakeView {
        account_id: b"validator.near".to_vec(),
        public_key: PublicKey::ED25519(ED25519PublicKey([7u8; 32])),
        stake,
    }
}

fn sample_header() -> Header {
    Header {
        light_client_block: LightClientBlock {
            prev_block_hash: hash_of(8),
            next_block_inner_hash: hash_of(9),
            inner_lite: sample_inner_lite(),
            inner_rest_hash: hash_of(10),
            next_bps: Some(vec![sample_validator(100), sample_validator(250)]),
            approvals_after_next: vec![None, Some(Signature::ED25519(vec![11u8; 64]))],
        },
        prev_state_root_of_chunks: vec![hash_of(12), hash_of(13)],
    }
}

#[test]
fn u32_little_endian_bytes() {
    let mut out = Vec::new();
    encode_u32(0x0403_0201, &mut out);
    assert_eq!(out, vec![0x01, 0x02, 0x03, 0x04]);
    assert_eq!(decode_u32(&out, 0), Some((0x0403_0201, 4)));
}

#[test]
fn u64_little_endian_bytes() {
    let mut out = Vec::new();
    encode_u64(0x0807_0605_0403_0201, &mut out);
    assert_eq!(out, vec![0x01, 0x02, 0x03, 0x04, 0x05, 0x06, 0x07, 0x08]);
    assert_eq!(decode_u64(&out, 0), Some((0x0807_0605_0403_0201, 8)));
}

#[test]
fn u128_roundtrip_and_width() {
    let v: u128 = 340_282_366_920_938_463_463_374_607_431_768_211_455;
    let mut out = Vec::new();
    encode_u128(v, &mut out);
    assert_eq!(out.len(), 16);
    assert_eq!(decode_u128(&out, 0), Some((v, 16)));
    let mut out2 = Vec::new();
    encode_u128(300, &mut out2);
    assert_eq!(out2[0], 0x2c);
    assert_eq!(out2[1], 0x01);
    assert_eq!(&out2[2..], &[0u8; 14]);
}

#[test]
fn header_roundtrip() {
    let header = sample_header();
    let mut bytes = Vec::new();
    encode_header(&header, &mut bytes);
    let decoded = decode_header(&bytes).expect("header should decode");
    let mut bytes2 = Vec::new();
    encode_header(&decoded, &mut bytes2);
    assert_eq!(bytes, bytes2);
    assert_eq!(decoded.light_client_block.inner_lite.height, 11);
    assert_eq!(decoded.light_client_block.inner_lite.timestamp, 1_000_000_500);
    assert_eq!(decoded.prev_state_root_of_chunks.len(), 2);
    assert!(decoded.prev_state_root_of_chunks[0].eq(&hash_of(12)));
    match &decoded.light_client_block.next_bps {
        Some(bps) => {
            assert_eq!(bps.len(), 2);
            assert_eq!(bps[0].account_id, b"validator.near".to_vec());
            assert_eq!(bps[1].stake, 250);
        },
        None => panic!("next_bps should survive the round trip"),
    }
    match &decoded.light_client_block.approvals_after_next[1] {
        Some(Signature::ED25519(sig)) => assert_eq!(sig, &vec![11u8; 64]),
        _ => panic!("approval should survive the round trip"),
    }
}

#[test]
fn header_decode_rejects_truncation() {
    let header = sample_header();
    let mut bytes = Vec::new();
    encode_header(&header, &mut bytes);
    for cut in [0, 1, bytes.len() / 2, bytes.len() - 1] {
        assert!(decode_header(&bytes[..cut]).is_none());
    }
    // Trailing garbage is rejected as well.
    bytes.push(0);
    assert!(decode_header(&bytes).is_none());
}

#[test]
fn client_state_roundtrip() {
    let cs = ClientState {
        trusting_period: 3_600_000_000_000,
        frozen_height: Some(Height { revision_number: 0, revision_height: 0 }),
        latest_height: Height { revision_number: 0, revision_height: 42 },
        latest_timestamp: 1_000_000_000,
        upgrade_commitment_prefix: vec![1, 2, 3],
        upgrade_key: vec![],
    };
    let mut bytes = Vec::new();
    encode_client_state(&cs, &mut bytes);
    let decoded = decode_client_state(&bytes).expect("client state should decode");
    assert_eq!(decoded.trusting_period, cs.trusting_period);
    assert_eq!(decoded.frozen_height, cs.frozen_height);
    assert_eq!(decoded.latest_height, cs.latest_height);
    assert_eq!(decoded.latest_timestamp, cs.latest_timestamp);
    assert_eq!(decoded.upgrade_commitment_prefix, cs.upgrade_commitment_prefix);
    assert_eq!(decoded.upgrade_key, cs.upgrade_key);
}

#[test]
fn consensus_state_roundtrip() {
    let cs = ConsensusState::new(Some(vec![sample_validator(77)]), sample_header());
    let mut bytes = Vec::new();
    encode_consensus_state(&cs, &mut bytes);
    let decoded = decode_consensus_state(&bytes).expect("consensus state should decode");
    assert_eq!(decoded.commitment_root, cs.commitment_root);
    assert_eq!(
        decoded.header.light_client_block.inner_lite.height,
        cs.header.light_client_block.inner_lite.height
    );
    match (&decoded.current_bps, &cs.current_bps) {
        (Some(a), Some(b)) => {
            assert_eq!(a.len(), b.len());
            assert_eq!(a[0].stake, b[0].stake);
            assert_eq!(a[0].account_id, b[0].account_id);
        },
        _ => panic!("current_bps should survive the round trip"),
    }
}

#[test]
fn misbehaviour_roundtrip() {
    let m = Misbehaviour::new(b"12-near-0".to_vec(), sample_header(), sample_header());
    let mut bytes = Vec::new();
    encode_misbehaviour(&m, &mut bytes);
    let decoded = decode_misbehaviour(&bytes).expect("misbehaviour should decode");
    assert_eq!(decoded.client_id(), m.client_id());
    assert_eq!(
        decoded.header1().light_client_block.inner_lite.height,
        m.header1().light_client_block.inner_lite.height
    );
    let mut bytes2 = Vec::new();
    encode_misbehaviour(&decoded, &mut bytes2);
    assert_eq!(bytes, bytes2);
}

#[test]
fn encoding_is_deterministic() {
    let a = sample_header();
    let b = sample_header();
    let mut ba = Vec::new();
    let mut bb = Vec::new();
    encode_header(&a, &mut ba);
    encode_header(&b, &mut bb);
    assert_eq!(ba, bb);
}
