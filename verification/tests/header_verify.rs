//! Header verification end to end: the happy update, each rejection, and
//! the strictness of the supermajority rule.

use ics12_near::consensus_state::ConsensusState;
use ics12_near::error::{Error, Status};
use ics12_near::hash::CryptoHash;
use ics12_near::header::{Header, LightClientBlock, LightClientBlockInnerLite};
use ics12_near::height::Height;
use ics12_near::client_state::ClientState;
use ics12_near::merkle::merklize;
use ics12_near::signature::{ED25519PublicKey, PublicKey, Signature};
use ics12_near::store::ClientStore;
use ics12_near::validator::{encode_validator_list, ValidatorStakeView};

const EPOCH: [u8; 32] = [0xe0; 32];
const NEXT_EPOCH: [u8; 32] = [0xe1; 32];
const LATER_EPOCH: [u8; 32] = [0xe2; 32];

struct Signer {
    secret: ed25519_dalek::SecretKey,
    public: ed25519_dalek::PublicKey,
}

fn signer(seed: u8) -> Signer {
    let secret = ed25519_dalek::SecretKey::from_bytes(&[seed; 32]).expect("32-byte seed");
    let public = ed25519_dalek::PublicKey::from(&secret);
    Signer { secret, public }
}

fn sign(s: &Signer, msg: &[u8]) -> Signature {
    let expanded = ed25519_dalek::ExpandedSecretKey::from(&s.secret);
    let sig = expanded.sign(msg, &s.public);
    Signature::ED25519(sig.to_bytes().to_vec())
}

fn validator(s: &Signer, stake: u128) -> ValidatorStakeView {
    ValidatorStakeView {
        account_id: b"v.near".to_vec(),
        public_key: PublicKey::ED25519(ED25519PublicKey(s.public.to_bytes())),
        stake,
    }
}

fn clone_bps(bps: &[ValidatorStakeView]) -> Vec<ValidatorStakeView> {
    bps.iter().map(|v| v.clone()).collect()
}

/// A header at the given height and timestamp whose chunk roots merklize
/// correctly, without approvals yet.
fn bare_header(height: u64, timestamp: u64, epoch_id: [u8; 32], next_epoch_id: [u8; 32]) -> Header {
    let chunk = CryptoHash([height as u8; 32]);
    let prev_state_root = merklize(&vec![chunk]).expect("one chunk root");
    Header {
        light_client_block: LightClientBlock {
            prev_block_hash: CryptoHash([0xaa; 32]),
            next_block_inner_hash: CryptoHash([0xbb; 32]),
            inner_lite: LightClientBlockInnerLite {
                height,
                epoch_id: CryptoHash(epoch_id),
                next_epoch_id: CryptoHash(next_epoch_id),
                prev_state_root,
                outcome_root: CryptoHash([0xcc; 32]),
                timestamp,
                next_bp_hash: CryptoHash([0; 32]),
                block_merkle_root: CryptoHash([0xdd; 32]),
            },
            inner_rest_hash: CryptoHash([0xee; 32]),
            next_bps: None,
            approvals_after_next: vec![],
        },
        prev_state_root_of_chunks: vec![chunk],
    }
}

/// Approves the header with the given signers; `None` entries stay absent.
fn approve(header: &mut Header, signers: &[Option<&Signer>]) {
    let msg = header.light_client_block.approval_message();
    header.light_client_block.approvals_after_next = signers
        .iter()
        .map(|s| s.map(|s| sign(s, &msg)))
        .collect();
}

/// A trusted consensus state at height 10 over the given producers.
fn trusted_state(bps: &[ValidatorStakeView]) -> ConsensusState {
    let header0 = bare_header(10, 1_000_000_000, EPOCH, NEXT_EPOCH);
    ConsensusState::new(Some(clone_bps(bps)), header0)
}

fn client_at_height_10() -> ClientState {
    ClientState::new_without_validation(
        3_600_000_000_000,
        Height { revision_number: 0, revision_height: 10 },
        1_000_000_000,
    )
}

#[test]
fn happy_update_accepts_and_activates() {
    let s = signer(1);
    let bps = [validator(&s, 100)];
    let cs0 = trusted_state(&bps);
    let client = client_at_height_10();
    let mut header = bare_header(11, 1_000_000_500, EPOCH, NEXT_EPOCH);
    approve(&mut header, &[Some(&s)]);
    assert_eq!(client.verify_header(&cs0, &header), Ok(()));

    let mut store = ClientStore::initialise(client, cs0).expect("initialise");
    assert!(!store.check_for_misbehaviour_update_client(&header));
    let updated = store.update_state(
        header,
        2_000_000_000,
        Height { revision_number: 0, revision_height: 7 },
    );
    assert_eq!(updated, vec![Height { revision_number: 0, revision_height: 11 }]);
    assert_eq!(
        store.client_state.latest_height,
        Height { revision_number: 0, revision_height: 11 }
    );
    assert!(store.consensus_state_at(11).is_some());
    assert_eq!(store.status(1_000_000_600), Status::Active);
}

#[test]
fn insufficient_stake_is_rejected() {
    let s1 = signer(1);
    let s2 = signer(2);
    let s3 = signer(3);
    let bps = [validator(&s1, 100), validator(&s2, 100), validator(&s3, 100)];
    let cs0 = trusted_state(&bps);
    let client = client_at_height_10();
    let mut header = bare_header(11, 1_000_000_500, EPOCH, NEXT_EPOCH);
    // approved = 200, total = 300: 200 * 3 == 600 <= 600 == 300 * 2.
    approve(&mut header, &[Some(&s1), Some(&s2), None]);
    assert_eq!(client.verify_header(&cs0, &header), Err(Error::InsufficientApprovedStake));
}

#[test]
fn exact_two_thirds_is_rejected() {
    let s1 = signer(1);
    let s2 = signer(2);
    let s3 = signer(3);
    // approved = 200, total = 300: exactly two thirds fails the strict rule.
    let bps = [validator(&s1, 200), validator(&s2, 50), validator(&s3, 50)];
    let cs0 = trusted_state(&bps);
    let client = client_at_height_10();
    let mut header = bare_header(11, 1_000_000_500, EPOCH, NEXT_EPOCH);
    approve(&mut header, &[Some(&s1), None, None]);
    assert_eq!(client.verify_header(&cs0, &header), Err(Error::InsufficientApprovedStake));
}

#[test]
fn epoch_rotation_without_next_bps_is_rejected() {
    let s = signer(1);
    let bps = [validator(&s, 100)];
    let cs0 = trusted_state(&bps);
    let client = client_at_height_10();
    // The header enters the next epoch but announces no producers.
    let mut header = bare_header(11, 1_000_000_500, NEXT_EPOCH, LATER_EPOCH);
    approve(&mut header, &[Some(&s)]);
    assert_eq!(
        client.verify_header(&cs0, &header),
        Err(Error::MissingNextBlockProducersInHeader)
    );
}

#[test]
fn old_header_is_rejected() {
    let s = signer(1);
    let bps = [validator(&s, 100)];
    let cs0 = trusted_state(&bps);
    let client = client_at_height_10();
    let mut header = bare_header(10, 1_000_000_500, EPOCH, NEXT_EPOCH);
    approve(&mut header, &[Some(&s)]);
    assert_eq!(client.verify_header(&cs0, &header), Err(Error::HeaderTooOld));
}

#[test]
fn foreign_epoch_is_rejected() {
    let s = signer(1);
    let bps = [validator(&s, 100)];
    let cs0 = trusted_state(&bps);
    let client = client_at_height_10();
    let mut header = bare_header(11, 1_000_000_500, LATER_EPOCH, LATER_EPOCH);
    approve(&mut header, &[Some(&s)]);
    assert_eq!(client.verify_header(&cs0, &header), Err(Error::InvalidEpochId));
}

#[test]
fn missing_epoch_producers_is_rejected() {
    let s = signer(1);
    // The trusted state knows no producers for its own epoch.
    let header0 = bare_header(10, 1_000_000_000, EPOCH, NEXT_EPOCH);
    let cs0 = ConsensusState::new(None, header0);
    let client = client_at_height_10();
    let mut header = bare_header(11, 1_000_000_500, EPOCH, NEXT_EPOCH);
    approve(&mut header, &[Some(&s)]);
    assert_eq!(client.verify_header(&cs0, &header), Err(Error::MissingEpochBlockProducers));
}

#[test]
fn invalid_signature_is_rejected() {
    let s = signer(1);
    let wrong = signer(9);
    let bps = [validator(&s, 100)];
    let cs0 = trusted_state(&bps);
    let client = client_at_height_10();
    let mut header = bare_header(11, 1_000_000_500, EPOCH, NEXT_EPOCH);
    // Signed under a key that is not the block producer's.
    approve(&mut header, &[Some(&wrong)]);
    assert_eq!(client.verify_header(&cs0, &header), Err(Error::InvalidSignatureInHeader));
}

#[test]
fn wrong_next_bp_hash_is_rejected() {
    let s = signer(1);
    let bps = [validator(&s, 100)];
    let cs0 = trusted_state(&bps);
    let client = client_at_height_10();
    let mut header = bare_header(11, 1_000_000_500, EPOCH, NEXT_EPOCH);
    header.light_client_block.next_bps = Some(clone_bps(&bps));
    // next_bp_hash still holds zeroes, not the hash of the announced list.
    approve(&mut header, &[Some(&s)]);
    assert_eq!(client.verify_header(&cs0, &header), Err(Error::InvalidNextBpsHash));
}

#[test]
fn correct_next_bp_hash_is_accepted() {
    let s = signer(1);
    let bps = [validator(&s, 100)];
    let cs0 = trusted_state(&bps);
    let client = client_at_height_10();
    let mut header = bare_header(11, 1_000_000_500, EPOCH, NEXT_EPOCH);
    header.light_client_block.next_bps = Some(clone_bps(&bps));
    let mut encoded = Vec::new();
    encode_validator_list(&clone_bps(&bps), &mut encoded);
    header.light_client_block.inner_lite.next_bp_hash = CryptoHash::hash_bytes(&encoded);
    approve(&mut header, &[Some(&s)]);
    assert_eq!(client.verify_header(&cs0, &header), Ok(()));
}

#[test]
fn wrong_chunk_merkle_root_is_rejected() {
    let s = signer(1);
    let bps = [validator(&s, 100)];
    let cs0 = trusted_state(&bps);
    let client = client_at_height_10();
    let mut header = bare_header(11, 1_000_000_500, EPOCH, NEXT_EPOCH);
    header.prev_state_root_of_chunks = vec![CryptoHash([0x77; 32])];
    approve(&mut header, &[Some(&s)]);
    assert_eq!(client.verify_header(&cs0, &header), Err(Error::InvalidPrevStateRootOfChunks));
}

#[test]
fn empty_chunk_roots_are_rejected() {
    let s = signer(1);
    let bps = [validator(&s, 100)];
    let cs0 = trusted_state(&bps);
    let client = client_at_height_10();
    let mut header = bare_header(11, 1_000_000_500, EPOCH, NEXT_EPOCH);
    header.prev_state_root_of_chunks = vec![];
    approve(&mut header, &[Some(&s)]);
    assert_eq!(client.verify_header(&cs0, &header), Err(Error::InvalidPrevStateRootOfChunks));
}

#[test]
fn epoch_rotation_with_announced_producers_is_accepted() {
    let s = signer(1);
    let bps = [validator(&s, 100)];
    let header0 = bare_header(10, 1_000_000_000, EPOCH, NEXT_EPOCH);
    // The trusted state knows the next epoch's producers from its header.
    let mut header0 = header0;
    header0.light_client_block.next_bps = Some(clone_bps(&bps));
    let cs0 = ConsensusState::new(None, header0);
    let client = client_at_height_10();
    let mut header = bare_header(11, 1_000_000_500, NEXT_EPOCH, LATER_EPOCH);
    header.light_client_block.next_bps = Some(clone_bps(&bps));
    let mut encoded = Vec::new();
    encode_validator_list(&clone_bps(&bps), &mut encoded);
    header.light_client_block.inner_lite.next_bp_hash = CryptoHash::hash_bytes(&encoded);
    approve(&mut header, &[Some(&s)]);
    assert_eq!(client.verify_header(&cs0, &header), Ok(()));
}

#[test]
fn upgrade_paths_always_fail() {
    let client = client_at_height_10();
    assert_eq!(client.verify_upgrade_client(), Err(Error::UpgradeNotSupported));
    assert_eq!(client.update_state_on_upgrade(), Err(Error::UpgradeNotSupported));
}

#[test]
fn proof_height_above_latest_is_rejected() {
    let client = client_at_height_10();
    assert_eq!(
        client.validate_proof_height(Height { revision_number: 0, revision_height: 11 }),
        Err(Error::InvalidProofHeight)
    );
    assert_eq!(
        client.validate_proof_height(Height { revision_number: 0, revision_height: 10 }),
        Ok(())
    );
}

#[test]
fn malformed_signature_bytes_never_verify() {
    let s = signer(1);
    let key = PublicKey::ED25519(ED25519PublicKey(s.public.to_bytes()));
    // Too short to be an Ed25519 signature.
    let short = Signature::ED25519(vec![0u8; 12]);
    assert!(!short.verify(b"message", &key));
    // The right width but not a valid signature of this message.
    let junk = Signature::ED25519(vec![0u8; 64]);
    assert!(!junk.verify(b"message", &key));
    // A genuine signature of another message does not transfer.
    let other = sign(&s, b"other message");
    assert!(!other.verify(b"message", &key));
    let genuine = sign(&s, b"message");
    assert!(genuine.verify(b"message", &key));
}

#[test]
fn extra_approvals_beyond_producers_are_ignored() {
    let s = signer(1);
    let bps = [validator(&s, 100)];
    let cs0 = trusted_state(&bps);
    let client = client_at_height_10();
    let mut header = bare_header(11, 1_000_000_500, EPOCH, NEXT_EPOCH);
    // The second slot has no matching producer; its content never counts.
    approve(&mut header, &[Some(&s), Some(&signer(9))]);
    assert_eq!(client.verify_header(&cs0, &header), Ok(()));
}

#[test]
fn empty_approvals_carry_no_stake() {
    let s = signer(1);
    let bps = [validator(&s, 100)];
    let cs0 = trusted_state(&bps);
    let client = client_at_height_10();
    let header = bare_header(11, 1_000_000_500, EPOCH, NEXT_EPOCH);
    assert_eq!(client.verify_header(&cs0, &header), Err(Error::InsufficientApprovedStake));
}
