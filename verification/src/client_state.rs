//! The client state: trusting period, latest trusted height and timestamp,
//! and the frozen marker, with the lifecycle rules over them.

use vstd::prelude::*;

use crate::codec::{
    dec_bytes, dec_u64, decode_bytes, decode_u64, enc_bytes, enc_u64, encode_bytes, encode_u64,
    lemma_dec_enc_bytes, lemma_dec_enc_u64, lemma_subrange_sub,
};
use crate::consensus_state::{ConsensusState, SpecConsensusState};
use crate::error::{Error, Status};
use crate::header::Header;
use crate::height::{
    dec_height, dec_opt_height, decode_height, decode_opt_height, enc_height, enc_opt_height,
    encode_height, encode_opt_height, lemma_dec_enc_height, lemma_dec_enc_opt_height, Height,
};

verus! {

/// The client state of the NEAR light client.
pub struct ClientState {
    /// Maximum age, in nanoseconds, of the latest consensus state before the
    /// client is considered expired.
    pub trusting_period: u64,
    /// Block height when the client was frozen due to a misbehaviour.
    pub frozen_height: Option<Height>,
    /// Latest height the client was updated to.
    pub latest_height: Height,
    /// Latest timestamp the client was updated to, in nanoseconds.
    pub latest_timestamp: u64,
    /// Prefix used to deterministically derive the next upgrade key.
    pub upgrade_commitment_prefix: Vec<u8>,
    pub upgrade_key: Vec<u8>,
}

/// The mathematical content of a client state.
pub struct SpecClientState {
    pub trusting_period: u64,
    pub frozen_height: Option<Height>,
    pub latest_height: Height,
    pub latest_timestamp: u64,
    pub upgrade_commitment_prefix: Seq<u8>,
    pub upgrade_key: Seq<u8>,
}

impl View for ClientState {
    type V = SpecClientState;

    open spec fn view(&self) -> SpecClientState {
        SpecClientState {
            trusting_period: self.trusting_period,
            frozen_height: self.frozen_height,
            latest_height: self.latest_height,
            latest_timestamp: self.latest_timestamp,
            upgrade_commitment_prefix: self.upgrade_commitment_prefix@,
            upgrade_key: self.upgrade_key@,
        }
    }
}

impl SpecClientState {
    pub open spec fn wf(self) -> bool {
        &&& self.upgrade_commitment_prefix.len() <= u32::MAX
        &&& self.upgrade_key.len() <= u32::MAX
    }

    pub open spec fn is_frozen(self) -> bool {
        self.frozen_height is Some
    }
}

/// The status of a client: frozen once marked so; expired when its latest
/// consensus state is missing or older than the trusting period; active
/// otherwise. A latest consensus state from the future never expires it.
pub open spec fn spec_status(
    cs: SpecClientState,
    latest_consensus_state: Option<SpecConsensusState>,
    now: u64,
) -> Status {
    if cs.is_frozen() {
        Status::Frozen
    } else {
        match latest_consensus_state {
            None => Status::Expired,
            Some(c) => if now >= c.header.timestamp() && now - c.header.timestamp()
                > cs.trusting_period {
                Status::Expired
            } else {
                Status::Active
            },
        }
    }
}

impl ClientState {
    /// A fresh, unfrozen client state with empty upgrade fields.
    pub fn new_without_validation(
        trusting_period: u64,
        latest_height: Height,
        latest_timestamp: u64,
    ) -> (r: Self)
        ensures
            r@ == (SpecClientState {
                trusting_period,
                frozen_height: None,
                latest_height,
                latest_timestamp,
                upgrade_commitment_prefix: Seq::<u8>::empty(),
                upgrade_key: Seq::<u8>::empty(),
            }),
    {
        let r = ClientState {
            trusting_period,
            frozen_height: None,
            latest_height,
            latest_timestamp,
            upgrade_commitment_prefix: Vec::new(),
            upgrade_key: Vec::new(),
        };
        assert(r.upgrade_commitment_prefix@ =~= Seq::<u8>::empty());
        assert(r.upgrade_key@ =~= Seq::<u8>::empty());
        r
    }

    /// Advances the latest height to the header's height if that is larger.
    pub fn with_header(self, header: &Header) -> (r: Result<Self, Error>)
        ensures
            match r {
                Ok(c) => c@ == (SpecClientState {
                    latest_height: if self.latest_height.spec_lt(
                        Height { revision_number: 0, revision_height: header@.height() },
                    ) {
                        Height { revision_number: 0, revision_height: header@.height() }
                    } else {
                        self.latest_height
                    },
                    ..self@
                }),
                Err(_) => false,
            },
    {
        let latest_height = header.height().max(&self.latest_height);
        Ok(ClientState { latest_height, ..self })
    }

    /// Replaces the latest timestamp.
    pub fn with_timestamp(self, timestamp: u64) -> (r: Self)
        ensures
            r@ == (SpecClientState { latest_timestamp: timestamp, ..self@ }),
    {
        ClientState { latest_timestamp: timestamp, ..self }
    }

    /// Marks the client frozen at the given height.
    pub fn with_frozen_height(self, h: Height) -> (r: Self)
        ensures
            r@ == (SpecClientState { frozen_height: Some(h), ..self@ }),
    {
        ClientState { frozen_height: Some(h), ..self }
    }

    /// Resets custom fields to zero values.
    pub fn zero_custom_fields(&mut self)
        ensures
            final(self)@ == (SpecClientState {
                trusting_period: 0,
                frozen_height: None,
                ..old(self)@
            }),
    {
        self.trusting_period = 0;
        self.frozen_height = None;
    }

    pub fn is_frozen(&self) -> (r: bool)
        ensures
            r == self@.is_frozen(),
    {
        self.frozen_height.is_some()
    }

    /// The latest height the client was updated to.
    pub fn latest_height(&self) -> (r: Height)
        ensures
            r == self@.latest_height,
    {
        self.latest_height
    }

    /// Accepts exactly the proof heights that do not exceed the latest
    /// height.
    pub fn validate_proof_height(&self, proof_height: Height) -> (r: Result<(), Error>)
        ensures
            r == if self@.latest_height.spec_lt(proof_height) {
                Err::<(), Error>(Error::InvalidProofHeight)
            } else {
                Ok::<(), Error>(())
            },
    {
        if self.latest_height.lt(&proof_height) {
            Err(Error::InvalidProofHeight)
        } else {
            Ok(())
        }
    }

    /// Accepts exactly the consensus states that carry a non-empty
    /// commitment root.
    pub fn verify_consensus_state(&self, consensus_state: &ConsensusState) -> (r: Result<
        (),
        Error,
    >)
        ensures
            r == if consensus_state@.commitment_root.len() == 0 {
                Err::<(), Error>(Error::EmptyCommitmentRoot)
            } else {
                Ok::<(), Error>(())
            },
    {
        if consensus_state.commitment_root.len() == 0 {
            Err(Error::EmptyCommitmentRoot)
        } else {
            Ok(())
        }
    }

    /// Client upgrades are not available on NEAR, so every upgrade attempt
    /// is rejected outright.
    pub fn verify_upgrade_client(&self) -> (r: Result<(), Error>)
        ensures
            r == Err::<(), Error>(Error::UpgradeNotSupported),
    {
        Err(Error::UpgradeNotSupported)
    }

    /// Client upgrades are not available on NEAR, so every upgrade attempt
    /// is rejected outright.
    pub fn update_state_on_upgrade(&self) -> (r: Result<Height, Error>)
        ensures
            r == Err::<Height, Error>(Error::UpgradeNotSupported),
    {
        Err(Error::UpgradeNotSupported)
    }

    /// The status of this client given its latest consensus state, if any is
    /// stored, and the host's clock reading in nanoseconds.
    pub fn status(&self, latest_consensus_state: Option<&ConsensusState>, now: u64) -> (r: Status)
        ensures
            r == spec_status(
                self@,
                match latest_consensus_state {
                    None => None,
                    Some(c) => Some(c@),
                },
                now,
            ),
    {
        if self.is_frozen() {
            return Status::Frozen;
        }
        match latest_consensus_state {
            None => Status::Expired,
            Some(c) => {
                let ts = c.timestamp();
                if now >= ts && now - ts > self.trusting_period {
                    Status::Expired
                } else {
                    Status::Active
                }
            },
        }
    }

    pub fn clone(&self) -> (r: Self)
        ensures
            r@ == self@,
    {
        let mut upgrade_commitment_prefix: Vec<u8> = Vec::new();
        crate::codec::encode_raw(&self.upgrade_commitment_prefix, &mut upgrade_commitment_prefix);
        assert(upgrade_commitment_prefix@ =~= self.upgrade_commitment_prefix@);
        let mut upgrade_key: Vec<u8> = Vec::new();
        crate::codec::encode_raw(&self.upgrade_key, &mut upgrade_key);
        assert(upgrade_key@ =~= self.upgrade_key@);
        ClientState {
            trusting_period: self.trusting_period,
            frozen_height: self.frozen_height,
            latest_height: self.latest_height,
            latest_timestamp: self.latest_timestamp,
            upgrade_commitment_prefix,
            upgrade_key,
        }
    }
}

// ---------------------------------------------------------------------------
// Codec
// ---------------------------------------------------------------------------

pub open spec fn enc_client_state(v: SpecClientState) -> Seq<u8> {
    enc_u64(v.trusting_period) + enc_opt_height(v.frozen_height) + enc_height(v.latest_height)
        + enc_u64(v.latest_timestamp) + enc_bytes(v.upgrade_commitment_prefix) + enc_bytes(
        v.upgrade_key,
    )
}

pub open spec fn dec_client_state(b: Seq<u8>, pos: int) -> Option<(SpecClientState, int)> {
    match dec_u64(b, pos) {
        None => None,
        Some((trusting_period, p1)) => match dec_opt_height(b, p1) {
            None => None,
            Some((frozen_height, p2)) => match dec_height(b, p2) {
                None => None,
                Some((latest_height, p3)) => match dec_u64(b, p3) {
                    None => None,
                    Some((latest_timestamp, p4)) => match dec_bytes(b, p4) {
                        None => None,
                        Some((upgrade_commitment_prefix, p5)) => match dec_bytes(b, p5) {
                            None => None,
                            Some((upgrade_key, p6)) => Some(
                                (
                                    SpecClientState {
                                        trusting_period,
                                        frozen_height,
                                        latest_height,
                                        latest_timestamp,
                                        upgrade_commitment_prefix,
                                        upgrade_key,
                                    },
                                    p6,
                                ),
                            ),
                        },
                    },
                },
            },
        },
    }
}

#[verifier::rlimit(50)]
pub proof fn lemma_dec_enc_client_state(v: SpecClientState, b: Seq<u8>, pos: int)
    requires
        0 <= pos,
        v.wf(),
        pos + enc_client_state(v).len() <= b.len(),
        b.subrange(pos, pos + enc_client_state(v).len()) == enc_client_state(v),
    ensures
        dec_client_state(b, pos) == Some((v, pos + enc_client_state(v).len())),
{
    let total = enc_client_state(v).len() as int;
    let l1 = enc_opt_height(v.frozen_height).len() as int;
    let l4 = enc_bytes(v.upgrade_commitment_prefix).len() as int;
    let l5 = enc_bytes(v.upgrade_key).len() as int;
    lemma_subrange_sub(b, pos, total, 0, 8);
    assert(enc_client_state(v).subrange(0, 8) =~= enc_u64(v.trusting_period));
    lemma_dec_enc_u64(v.trusting_period, b, pos);
    lemma_subrange_sub(b, pos, total, 8, l1);
    assert(enc_client_state(v).subrange(8, 8 + l1) =~= enc_opt_height(v.frozen_height));
    lemma_dec_enc_opt_height(v.frozen_height, b, pos + 8);
    lemma_subrange_sub(b, pos, total, 8 + l1, 16);
    assert(enc_client_state(v).subrange(8 + l1, 24 + l1) =~= enc_height(v.latest_height));
    lemma_dec_enc_height(v.latest_height, b, pos + 8 + l1);
    lemma_subrange_sub(b, pos, total, 24 + l1, 8);
    assert(enc_client_state(v).subrange(24 + l1, 32 + l1) =~= enc_u64(v.latest_timestamp));
    lemma_dec_enc_u64(v.latest_timestamp, b, pos + 24 + l1);
    lemma_subrange_sub(b, pos, total, 32 + l1, l4);
    assert(enc_client_state(v).subrange(32 + l1, 32 + l1 + l4) =~= enc_bytes(
        v.upgrade_commitment_prefix,
    ));
    lemma_dec_enc_bytes(v.upgrade_commitment_prefix, b, pos + 32 + l1);
    lemma_subrange_sub(b, pos, total, 32 + l1 + l4, l5);
    assert(enc_client_state(v).subrange(32 + l1 + l4, total) =~= enc_bytes(v.upgrade_key));
    lemma_dec_enc_bytes(v.upgrade_key, b, pos + 32 + l1 + l4);
}

pub fn encode_client_state(v: &ClientState, out: &mut Vec<u8>)
    requires
        v@.wf(),
    ensures
        final(out)@ == old(out)@ + enc_client_state(v@),
{
    encode_u64(v.trusting_period, out);
    encode_opt_height(&v.frozen_height, out);
    encode_height(&v.latest_height, out);
    encode_u64(v.latest_timestamp, out);
    encode_bytes(&v.upgrade_commitment_prefix, out);
    encode_bytes(&v.upgrade_key, out);
    assert(out@ =~= old(out)@ + enc_client_state(v@));
}

pub fn decode_client_state_at(buf: &[u8], pos: usize) -> (r: Option<(ClientState, usize)>)
    requires
        pos <= buf@.len(),
    ensures
        match r {
            Some((v, end)) => dec_client_state(buf@, pos as int) == Some((v@, end as int)) && end
                <= buf@.len() && v@.wf(),
            None => dec_client_state(buf@, pos as int) is None,
        },
{
    match decode_u64(buf, pos) {
        None => None,
        Some((trusting_period, p1)) => match decode_opt_height(buf, p1) {
            None => None,
            Some((frozen_height, p2)) => match decode_height(buf, p2) {
                None => None,
                Some((latest_height, p3)) => match decode_u64(buf, p3) {
                    None => None,
                    Some((latest_timestamp, p4)) => match decode_bytes(buf, p4) {
                        None => None,
                        Some((upgrade_commitment_prefix, p5)) => match decode_bytes(buf, p5) {
                            None => None,
                            Some((upgrade_key, p6)) => Some(
                                (
                                    ClientState {
                                        trusting_period,
                                        frozen_height,
                                        latest_height,
                                        latest_timestamp,
                                        upgrade_commitment_prefix,
                                        upgrade_key,
                                    },
                                    p6,
                                ),
                            ),
                        },
                    },
                },
            },
        },
    }
}

/// Decodes a client state from its canonical bytes; the whole buffer must be
/// one client state and nothing else.
pub fn decode_client_state(buf: &[u8]) -> (r: Option<ClientState>)
    ensures
        match r {
            Some(v) => dec_client_state(buf@, 0) == Some((v@, buf@.len() as int)) && v@.wf(),
            None => !(dec_client_state(buf@, 0) matches Some((_, end)) && end == buf@.len()),
        },
{
    match decode_client_state_at(buf, 0) {
        None => None,
        Some((v, end)) => {
            if end == buf.len() {
                Some(v)
            } else {
                None
            }
        },
    }
}

} // verus!
