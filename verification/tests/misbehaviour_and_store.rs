//! Misbehaviour detection and the store's lifecycle: forks, non-monotonic
//! time, idempotent updates, freezing and expiry.

use ics12_near::client_state::ClientState;
use ics12_near::consensus_state::ConsensusState;
use ics12_near::error::Status;
use ics12_near::hash::CryptoHash;
use ics12_near::header::{Header, LightClientBlock, LightClientBlockInnerLite};
use ics12_near::height::Height;
use ics12_near::merkle::merklize;
use ics12_near::misbehaviour::Misbehaviour;
use ics12_near::store::ClientStore;

const EPOCH: [u8; 32] = [0xe0; 32];
const NEXT_EPOCH: [u8; 32] = [0xe1; 32];

/// A header at the given height and timestamp; `salt` varies the block
/// contents so two headers at one height differ.
fn header_at(height: u64, timestamp: u64, salt: u8) -> Header {
    let chunk = CryptoHash([height as u8; 32]);
    let prev_state_root = merklize(&vec![chunk]).expect("one chunk root");
    Header {
        light_client_block: LightClientBlock {
            prev_block_hash: CryptoHash([salt; 32]),
            next_block_inner_hash: CryptoHash([0xbb; 32]),
            inner_lite: LightClientBlockInnerLite {
                height,
                epoch_id: CryptoHash(EPOCH),
                next_epoch_id: CryptoHash(NEXT_EPOCH),
                prev_state_root,
                outcome_root: CryptoHash([0xcc; 32]),
                timestamp,
                next_bp_hash: CryptoHash([0; 32]),
                block_merkle_root: CryptoHash([0xdd; 32]),
            },
            inner_rest_hash: CryptoHash([0xee; 32]),
            next_bps: None,
            approvals_after_next: vec![],
        },
        prev_state_root_of_chunks: vec![chunk],
    }
}

fn fresh_store() -> ClientStore {
    let client = ClientState::new_without_validation(
        3_600_000_000_000,
        Height { revision_number: 0, revision_height: 10 },
        1_000_000_000,
    );
    let cs0 = ConsensusState::new(None, header_at(10, 1_000_000_000, 0xaa));
    ClientStore::initialise(client, cs0).expect("initialise")
}

#[test]
fn same_height_fork_is_misbehaviour_and_freezes() {
    let mut store = fresh_store();
    let h1 = header_at(11, 1_000_000_500, 0x01);
    store.update_state(h1, 2_000_000_000, Height { revision_number: 0, revision_height: 7 });
    // A different block at the stored height is evidence of misbehaviour.
    let h2 = header_at(11, 1_000_000_500, 0x02);
    assert!(store.check_for_misbehaviour_update_client(&h2));
    store.update_state_on_misbehaviour();
    assert_eq!(store.status(1_000_000_600), Status::Frozen);
    // The frozen marker survives any clock reading.
    assert_eq!(store.status(u64::MAX), Status::Frozen);
}

#[test]
fn same_header_again_is_no_misbehaviour() {
    let mut store = fresh_store();
    let h1 = header_at(11, 1_000_000_500, 0x01);
    store.update_state(h1, 2_000_000_000, Height { revision_number: 0, revision_height: 7 });
    let again = header_at(11, 1_000_000_500, 0x01);
    assert!(!store.check_for_misbehaviour_update_client(&again));
}

#[test]
fn non_monotonic_time_across_heights_is_reported() {
    let store = fresh_store();
    let header1 = header_at(20, 2000, 0x01);
    let header2 = header_at(15, 2000, 0x02);
    let m = Misbehaviour::new(b"12-near-0".to_vec(), header1, header2);
    assert_eq!(store.check_for_misbehaviour_misbehaviour(&m), Ok(true));
}

#[test]
fn monotonic_time_across_heights_is_no_misbehaviour() {
    let store = fresh_store();
    let header1 = header_at(20, 3000, 0x01);
    let header2 = header_at(15, 2000, 0x02);
    let m = Misbehaviour::new(b"12-near-0".to_vec(), header1, header2);
    assert_eq!(store.check_for_misbehaviour_misbehaviour(&m), Ok(false));
}

#[test]
fn equal_headers_at_same_height_are_no_misbehaviour() {
    let store = fresh_store();
    let m = Misbehaviour::new(
        b"12-near-0".to_vec(),
        header_at(11, 1000, 0x01),
        header_at(11, 1000, 0x01),
    );
    assert_eq!(store.check_for_misbehaviour_misbehaviour(&m), Ok(false));
}

#[test]
fn timestamp_not_after_previous_state_is_misbehaviour() {
    let store = fresh_store();
    // The stored state at height 10 has timestamp 1_000_000_000; a later
    // header whose clock did not advance is suspect.
    let header = header_at(11, 1_000_000_000, 0x01);
    assert!(store.check_for_misbehaviour_update_client(&header));
}

#[test]
fn backfill_header_after_next_state_is_misbehaviour() {
    let mut store = fresh_store();
    let h20 = header_at(20, 2_000_000_000, 0x01);
    store.update_state(h20, 2_000_000_000, Height { revision_number: 0, revision_height: 7 });
    // A header between the stored heights whose timestamp does not precede
    // the next stored state's is suspect.
    let h15 = header_at(15, 2_000_000_000, 0x02);
    assert!(store.check_for_misbehaviour_update_client(&h15));
    // One that fits strictly between the neighbours is fine.
    let h15_ok = header_at(15, 1_500_000_000, 0x03);
    assert!(!store.check_for_misbehaviour_update_client(&h15_ok));
}

#[test]
fn update_is_idempotent() {
    let mut store = fresh_store();
    let h = header_at(11, 1_000_000_500, 0x01);
    let first = store.update_state(
        h,
        2_000_000_000,
        Height { revision_number: 0, revision_height: 7 },
    );
    let states_before = store.consensus_states.len();
    let log_before = store.update_log.len();
    let latest_before = store.client_state.latest_height;
    let again = header_at(11, 1_000_000_500, 0x01);
    let second = store.update_state(
        again,
        3_000_000_000,
        Height { revision_number: 0, revision_height: 9 },
    );
    assert_eq!(first, second);
    assert_eq!(store.consensus_states.len(), states_before);
    assert_eq!(store.update_log.len(), log_before);
    assert_eq!(store.client_state.latest_height, latest_before);
}

#[test]
fn latest_height_never_decreases() {
    let mut store = fresh_store();
    let h20 = header_at(20, 2_000_000_000, 0x01);
    store.update_state(h20, 2_000_000_000, Height { revision_number: 0, revision_height: 7 });
    assert_eq!(
        store.client_state.latest_height,
        Height { revision_number: 0, revision_height: 20 }
    );
    // Backfilling a lower height keeps the latest height where it is.
    let h15 = header_at(15, 1_500_000_000, 0x02);
    store.update_state(h15, 3_000_000_000, Height { revision_number: 0, revision_height: 9 });
    assert_eq!(
        store.client_state.latest_height,
        Height { revision_number: 0, revision_height: 20 }
    );
    assert!(store.consensus_state_at(15).is_some());
}

#[test]
fn update_derives_producers_from_previous_state() {
    // The previous state knows the next epoch's producers through its
    // header; an update into that epoch inherits them.
    let client = ClientState::new_without_validation(
        3_600_000_000_000,
        Height { revision_number: 0, revision_height: 10 },
        1_000_000_000,
    );
    let mut header0 = header_at(10, 1_000_000_000, 0xaa);
    header0.light_client_block.next_bps = Some(vec![]);
    let cs0 = ConsensusState::new(None, header0);
    let mut store = ClientStore::initialise(client, cs0).expect("initialise");
    let mut h11 = header_at(11, 1_000_000_500, 0x01);
    h11.light_client_block.inner_lite.epoch_id = CryptoHash(NEXT_EPOCH);
    store.update_state(h11, 2_000_000_000, Height { revision_number: 0, revision_height: 7 });
    let stored = store.consensus_state_at(11).expect("stored at 11");
    assert!(stored.current_bps.is_some());
}

#[test]
fn status_expires_after_trusting_period() {
    let store = fresh_store();
    // Stored timestamp is 1_000_000_000 ns and the trusting period is
    // 3_600_000_000_000 ns.
    assert_eq!(store.status(1_000_000_100), Status::Active);
    assert_eq!(store.status(3_601_000_000_100), Status::Expired);
    // A consensus state from the future does not expire the client.
    assert_eq!(store.status(0), Status::Active);
}

#[test]
fn status_without_latest_consensus_state_is_expired() {
    let mut store = fresh_store();
    // Point the client above any stored consensus state.
    store.client_state = store
        .client_state
        .clone()
        .with_timestamp(1_000_000_000);
    store.client_state.latest_height = Height { revision_number: 0, revision_height: 99 };
    assert_eq!(store.status(1_000_000_100), Status::Expired);
}

#[test]
fn initialise_rejects_empty_root_and_frozen_state() {
    let client = ClientState::new_without_validation(
        3_600_000_000_000,
        Height { revision_number: 0, revision_height: 10 },
        1_000_000_000,
    );
    let mut cs0 = ConsensusState::new(None, header_at(10, 1_000_000_000, 0xaa));
    cs0.commitment_root = vec![];
    assert!(ClientStore::initialise(client.clone(), cs0).is_err());

    let frozen = client.with_frozen_height(Height { revision_number: 0, revision_height: 0 });
    let cs0 = ConsensusState::new(None, header_at(10, 1_000_000_000, 0xaa));
    assert!(ClientStore::initialise(frozen, cs0).is_err());
}

#[test]
fn zero_custom_fields_clears_period_and_freeze() {
    let client = ClientState::new_without_validation(
        3_600_000_000_000,
        Height { revision_number: 0, revision_height: 10 },
        1_000_000_000,
    );
    let mut frozen = client.with_frozen_height(Height { revision_number: 0, revision_height: 3 });
    assert!(frozen.is_frozen());
    frozen.zero_custom_fields();
    assert!(!frozen.is_frozen());
    assert_eq!(frozen.trusting_period, 0);
}

#[test]
fn client_type_is_twelve_near() {
    assert_eq!(ics12_near::client_type(), "12-near".to_string());
}
