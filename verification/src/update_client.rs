//! Header verification: monotonicity, epoch continuity, stake-weighted
//! approval aggregation, the next-producer commitment and the chunk-root
//! Merkle check; and the misbehaviour predicates over conflicting headers.

use vstd::prelude::*;

use crate::client_state::{ClientState, SpecClientState};
use crate::consensus_state::{ConsensusState, SpecConsensusState};
use crate::error::Error;
use crate::hash::{sha256, sha256_of, CryptoHash};
use crate::header::{
    approvals_view, spec_approval_message, spec_current_block_hash, Header, SpecHeader,
};
use crate::height::Height;
use crate::merkle::{merklize, spec_merkle_root};
use crate::misbehaviour::{Misbehaviour, SpecMisbehaviour};
use crate::signature::{ed25519_verifies, opt_sig_view};
use crate::validator::{
    enc_validator_list, encode_validator_list, spec_opt_validator_list_wf, vs_list_view,
    SpecValidatorStake,
};

verus! {

/// The outcome of walking the approval slots zipped with the block
/// producers, starting at slot `i` with the stake sums accumulated so far:
/// either the final total and approved stake, or the error met on the way.
/// Every producer's stake joins the total; a present approval must verify
/// under the producer's key and then joins the approved stake.
pub open spec fn spec_approval_outcome(
    bps: Seq<SpecValidatorStake>,
    approvals: Seq<Option<Seq<u8>>>,
    msg: Seq<u8>,
    i: int,
    m: int,
    total: int,
    approved: int,
) -> Result<(int, int), Error>
    decreases m - i,
{
    if i >= m {
        Ok((total, approved))
    } else {
        let st = bps[i].stake as int;
        if total + st > u128::MAX {
            Err(Error::StakeArithmeticOverflow)
        } else {
            match approvals[i] {
                None => spec_approval_outcome(bps, approvals, msg, i + 1, m, total + st, approved),
                Some(sig) => if ed25519_verifies(bps[i].public_key, msg, sig) {
                    spec_approval_outcome(bps, approvals, msg, i + 1, m, total + st, approved + st)
                } else {
                    Err(Error::InvalidSignatureInHeader)
                },
            }
        }
    }
}

/// Whether the announced next block producers hash to the committed value;
/// vacuously true when none are announced.
pub open spec fn spec_next_bps_hash_ok(h: SpecHeader) -> bool {
    match h.light_client_block.next_bps {
        None => true,
        Some(nbps) => sha256_of(enc_validator_list(nbps))
            == h.light_client_block.inner_lite.next_bp_hash,
    }
}

/// Whether the chunk state roots are non-empty and merklize to the header's
/// previous state root.
pub open spec fn spec_chunks_root_ok(h: SpecHeader) -> bool {
    h.prev_state_root_of_chunks.len() > 0 && spec_merkle_root(h.prev_state_root_of_chunks)
        == h.light_client_block.inner_lite.prev_state_root
}

/// The number of approval slots zipped with producers: the shorter length
/// wins, extra approvals are ignored.
pub open spec fn spec_zip_len(bps: Seq<SpecValidatorStake>, approvals: Seq<Option<Seq<u8>>>) -> int {
    if approvals.len() <= bps.len() {
        approvals.len() as int
    } else {
        bps.len() as int
    }
}

/// The complete header check against the trusted consensus state: exactly
/// which error a candidate header draws, or that it is accepted.
pub open spec fn spec_verify_header(cs: SpecConsensusState, h: SpecHeader) -> Result<(), Error> {
    if h.height() > u64::MAX - 2 {
        Err(Error::InvalidHeaderHeight)
    } else if h.height() <= cs.header.height() {
        Err(Error::HeaderTooOld)
    } else if h.epoch_id() != cs.header.epoch_id() && h.epoch_id() != cs.header.next_epoch_id() {
        Err(Error::InvalidEpochId)
    } else if h.epoch_id() == cs.header.next_epoch_id() && h.light_client_block.next_bps is None {
        Err(Error::MissingNextBlockProducersInHeader)
    } else {
        match cs.spec_get_block_producers_of(h.epoch_id()) {
            None => Err(Error::MissingEpochBlockProducers),
            Some(bps) => {
                let approvals = h.light_client_block.approvals_after_next;
                let msg = spec_approval_message(h.light_client_block);
                match spec_approval_outcome(
                    bps,
                    approvals,
                    msg,
                    0,
                    spec_zip_len(bps, approvals),
                    0,
                    0,
                ) {
                    Err(e) => Err(e),
                    Ok((total, approved)) => if 3 * total > u128::MAX {
                        Err(Error::StakeArithmeticOverflow)
                    } else if 3 * approved <= 2 * total {
                        Err(Error::InsufficientApprovedStake)
                    } else if !spec_next_bps_hash_ok(h) {
                        Err(Error::InvalidNextBpsHash)
                    } else if !spec_chunks_root_ok(h) {
                        Err(Error::InvalidPrevStateRootOfChunks)
                    } else {
                        Ok(())
                    },
                }
            },
        }
    }
}

/// Folds the approval slots zipped with the block producers into the total
/// and approved stake, verifying each present signature on the way.
fn aggregate_approved_stake(
    bps: &Vec<crate::validator::ValidatorStakeView>,
    approvals: &Vec<Option<crate::signature::Signature>>,
    msg: &Vec<u8>,
) -> (r: Result<(u128, u128), Error>)
    ensures
        ({
            let bps_v = vs_list_view(bps@);
            let app_v = approvals_view(approvals@);
            let m = spec_zip_len(bps_v, app_v);
            match r {
                Ok((total, approved)) => spec_approval_outcome(bps_v, app_v, msg@, 0, m, 0, 0)
                    == Ok::<(int, int), Error>((total as int, approved as int)) && approved
                    <= total,
                Err(e) => spec_approval_outcome(bps_v, app_v, msg@, 0, m, 0, 0) == Err::<
                    (int, int),
                    Error,
                >(e),
            }
        }),
{
    let ghost bps_v = vs_list_view(bps@);
    let ghost app_v = approvals_view(approvals@);
    let m: usize = if approvals.len() <= bps.len() {
        approvals.len()
    } else {
        bps.len()
    };
    let mut total_stake: u128 = 0;
    let mut approved_stake: u128 = 0;
    let mut i: usize = 0;
    while i < m
        invariant
            0 <= i <= m,
            m == spec_zip_len(bps_v, app_v),
            m <= bps@.len() && m <= approvals@.len(),
            bps_v == vs_list_view(bps@),
            app_v == approvals_view(approvals@),
            approved_stake <= total_stake,
            spec_approval_outcome(bps_v, app_v, msg@, 0, m as int, 0, 0) == spec_approval_outcome(
                bps_v,
                app_v,
                msg@,
                i as int,
                m as int,
                total_stake as int,
                approved_stake as int,
            ),
        decreases m - i,
    {
        assert(bps_v[i as int] == bps@[i as int]@);
        assert(app_v[i as int] == opt_sig_view(approvals@[i as int]));
        let ghost ii = i as int;
        let ghost t0 = total_stake as int;
        let ghost a0 = approved_stake as int;
        let bp_stake = bps[i].stake;
        if u128::MAX - total_stake < bp_stake {
            assert(spec_approval_outcome(bps_v, app_v, msg@, ii, m as int, t0, a0) == Err::<
                (int, int),
                Error,
            >(Error::StakeArithmeticOverflow));
            return Err(Error::StakeArithmeticOverflow);
        }
        total_stake = total_stake + bp_stake;
        match &approvals[i] {
            None => {
                assert(spec_approval_outcome(bps_v, app_v, msg@, ii, m as int, t0, a0)
                    == spec_approval_outcome(
                    bps_v,
                    app_v,
                    msg@,
                    ii + 1,
                    m as int,
                    total_stake as int,
                    a0,
                ));
            },
            Some(signature) => {
                approved_stake = approved_stake + bp_stake;
                if !signature.verify(msg.as_slice(), &bps[i].public_key) {
                    assert(spec_approval_outcome(bps_v, app_v, msg@, ii, m as int, t0, a0) == Err::<
                        (int, int),
                        Error,
                    >(Error::InvalidSignatureInHeader));
                    return Err(Error::InvalidSignatureInHeader);
                }
                assert(spec_approval_outcome(bps_v, app_v, msg@, ii, m as int, t0, a0)
                    == spec_approval_outcome(
                    bps_v,
                    app_v,
                    msg@,
                    ii + 1,
                    m as int,
                    total_stake as int,
                    approved_stake as int,
                ));
            },
        }
        i += 1;
    }
    assert(spec_approval_outcome(bps_v, app_v, msg@, m as int, m as int, total_stake as int,
        approved_stake as int) == Ok::<(int, int), Error>((total_stake as int,
        approved_stake as int)));
    Ok((total_stake, approved_stake))
}

impl ClientState {
    /// Checks a candidate header against the latest trusted consensus state:
    /// the height must rise, the epoch must be the trusted one or its
    /// successor (the successor only with next producers announced), the
    /// approvals must verify and carry strictly more than two thirds of the
    /// epoch's stake, the announced producers must hash to the commitment,
    /// and the chunk roots must merklize to the header's state root.
    #[verifier::rlimit(100)]
    pub fn verify_header(
        &self,
        latest_consensus_state: &ConsensusState,
        header: &Header,
    ) -> (r: Result<(), Error>)
        requires
            spec_opt_validator_list_wf(header@.light_client_block.next_bps),
        ensures
            r == spec_verify_header(latest_consensus_state@, header@),
    {
        let lcb = &header.light_client_block;
        let latest_lcb = &latest_consensus_state.header.light_client_block;
        if lcb.inner_lite.height > u64::MAX - 2 {
            return Err(Error::InvalidHeaderHeight);
        }
        // Check the height of the block is higher than the height of the
        // current head.
        if lcb.inner_lite.height <= latest_lcb.inner_lite.height {
            return Err(Error::HeaderTooOld);
        }
        // Check the epoch of the block is equal to the epoch_id or
        // next_epoch_id known for the current head.
        let epoch_is_current = lcb.inner_lite.epoch_id.eq(&latest_lcb.inner_lite.epoch_id);
        let epoch_is_next = lcb.inner_lite.epoch_id.eq(&latest_lcb.inner_lite.next_epoch_id);
        if !epoch_is_current && !epoch_is_next {
            return Err(Error::InvalidEpochId);
        }
        // If the epoch of the block is equal to the next_epoch_id of the
        // head, then next_bps is not None.
        if epoch_is_next && lcb.next_bps.is_none() {
            return Err(Error::MissingNextBlockProducersInHeader);
        }
        let bps = match latest_consensus_state.get_block_producers_of(&lcb.inner_lite.epoch_id) {
            None => {
                return Err(Error::MissingEpochBlockProducers);
            },
            Some(bps) => bps,
        };
        let msg = lcb.approval_message();
        // The approvals_after_next must hold valid signatures on the
        // approval message from the block producers of the corresponding
        // epoch, and the approving stake must exceed 2/3 of the total.
        let (total_stake, approved_stake) = match aggregate_approved_stake(
            &bps,
            &lcb.approvals_after_next,
            &msg,
        ) {
            Err(e) => {
                return Err(e);
            },
            Ok(sums) => sums,
        };
        if total_stake > u128::MAX / 3 {
            assert(3 * total_stake > u128::MAX);
            return Err(Error::StakeArithmeticOverflow);
        }
        assert(3 * total_stake <= u128::MAX);
        if approved_stake * 3 <= total_stake * 2 {
            return Err(Error::InsufficientApprovedStake);
        }
        // If next_bps is announced, it must hash to the next_bp_hash
        // committed in the inner-lite summary.
        match &lcb.next_bps {
            None => {},
            Some(next_bps) => {
                let mut bytes: Vec<u8> = Vec::new();
                encode_validator_list(next_bps, &mut bytes);
                let hash = CryptoHash(sha256(bytes.as_slice()));
                if !hash.eq(&lcb.inner_lite.next_bp_hash) {
                    return Err(Error::InvalidNextBpsHash);
                }
            },
        }
        // The prev_state_root must be the Merkle root of the chunk state
        // roots.
        match merklize(&header.prev_state_root_of_chunks) {
            None => Err(Error::InvalidPrevStateRootOfChunks),
            Some(root) => {
                if !root.eq(&lcb.inner_lite.prev_state_root) {
                    Err(Error::InvalidPrevStateRootOfChunks)
                } else {
                    Ok(())
                }
            },
        }
    }
}

// ---------------------------------------------------------------------------
// Misbehaviour predicates
// ---------------------------------------------------------------------------

/// Whether two headers are evidence of misbehaviour: at equal heights their
/// block hashes must differ; across heights, time must run backwards — the
/// higher header's timestamp not above the lower one's.
pub open spec fn spec_misbehaviour_header_pair(m: SpecMisbehaviour) -> bool {
    if m.header1.height() == m.header2.height() {
        spec_current_block_hash(m.header1.light_client_block) != spec_current_block_hash(
            m.header2.light_client_block,
        )
    } else {
        m.header1.height() > m.header2.height() && m.header1.timestamp() <= m.header2.timestamp()
    }
}

/// Whether a candidate header together with the stored neighbourhood is
/// evidence of misbehaviour: a stored state at its height with another block
/// hash, or a timestamp not above the previous stored state's, or — below
/// the latest height — a timestamp not below the next stored state's.
pub open spec fn spec_misbehaviour_on_update(
    client: SpecClientState,
    h: SpecHeader,
    existing: Option<SpecConsensusState>,
    prev: Option<SpecConsensusState>,
    next: Option<SpecConsensusState>,
) -> bool {
    match existing {
        Some(e) => spec_current_block_hash(e.header.light_client_block)
            != spec_current_block_hash(h.light_client_block),
        None => {
            let prev_bad = match prev {
                Some(p) => h.timestamp() <= p.header.timestamp(),
                None => false,
            };
            let next_bad = (Height { revision_number: 0, revision_height: h.height() }).spec_lt(
                client.latest_height,
            ) && match next {
                Some(nx) => h.timestamp() >= nx.header.timestamp(),
                None => false,
            };
            prev_bad || next_bad
        },
    }
}

impl ClientState {
    /// Determines whether two conflicting headers would each have convinced
    /// the light client, by verifying both against the latest trusted
    /// consensus state.
    pub fn verify_misbehaviour(
        &self,
        latest_consensus_state: &ConsensusState,
        misbehaviour: &Misbehaviour,
    ) -> (r: Result<(), Error>)
        requires
            spec_opt_validator_list_wf(misbehaviour@.header1.light_client_block.next_bps),
            spec_opt_validator_list_wf(misbehaviour@.header2.light_client_block.next_bps),
        ensures
            r == match spec_verify_header(latest_consensus_state@, misbehaviour@.header1) {
                Err(e) => Err::<(), Error>(e),
                Ok(_) => spec_verify_header(latest_consensus_state@, misbehaviour@.header2),
            },
    {
        match self.verify_header(latest_consensus_state, misbehaviour.header1()) {
            Err(e) => Err(e),
            Ok(_) => self.verify_header(latest_consensus_state, misbehaviour.header2()),
        }
    }

    /// Whether submitted misbehaviour evidence is genuine: equal heights
    /// with different block hashes, or non-monotonic time across heights.
    pub fn check_for_misbehaviour_misbehaviour(&self, misbehaviour: &Misbehaviour) -> (r: Result<
        bool,
        Error,
    >)
        ensures
            r == Ok::<bool, Error>(spec_misbehaviour_header_pair(misbehaviour@)),
    {
        let header_1 = misbehaviour.header1();
        let header_2 = misbehaviour.header2();
        let h1 = header_1.light_client_block.inner_lite.height;
        let h2 = header_2.light_client_block.inner_lite.height;
        if h1 == h2 {
            // Equal heights are evidence only when the headers differ.
            let hash1 = header_1.light_client_block.current_block_hash();
            let hash2 = header_2.light_client_block.current_block_hash();
            Ok(!hash1.eq(&hash2))
        } else {
            // Across heights, the higher header's time must not exceed the
            // lower one's for the pair to violate monotonicity.
            Ok(h1 > h2 && header_1.raw_timestamp() <= header_2.raw_timestamp())
        }
    }

    /// Whether a candidate update header is evidence of misbehaviour, given
    /// the stored consensus state at its height and its stored neighbours by
    /// height.
    pub fn check_for_misbehaviour_update_client(
        &self,
        existing: Option<&ConsensusState>,
        prev: Option<&ConsensusState>,
        next: Option<&ConsensusState>,
        header: &Header,
    ) -> (r: bool)
        ensures
            r == spec_misbehaviour_on_update(
                self@,
                header@,
                match existing {
                    None => None,
                    Some(c) => Some(c@),
                },
                match prev {
                    None => None,
                    Some(c) => Some(c@),
                },
                match next {
                    None => None,
                    Some(c) => Some(c@),
                },
            ),
    {
        match existing {
            Some(existing_cs) => {
                // Evidence of misbehaviour if the stored consensus state
                // differs from the one the header would install.
                let stored = existing_cs.header.light_client_block.current_block_hash();
                let candidate = header.light_client_block.current_block_hash();
                !stored.eq(&candidate)
            },
            None => {
                // The new header must come strictly after the previous
                // stored state...
                match prev {
                    Some(prev_cs) => {
                        if header.raw_timestamp() <= prev_cs.header.raw_timestamp() {
                            return true;
                        }
                    },
                    None => {},
                }
                // ...and, when it is not the last, strictly before the next.
                if header.height().lt(&self.latest_height) {
                    match next {
                        Some(next_cs) => {
                            if header.raw_timestamp() >= next_cs.header.raw_timestamp() {
                                return true;
                            }
                        },
                        None => {},
                    }
                }
                false
            },
        }
    }
}

} // verus!
