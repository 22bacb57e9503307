//! The consensus state of the NEAR light client: the block producers of the
//! current epoch, the trusted header, and its commitment root.

use vstd::prelude::*;

use crate::codec::{
    dec_bytes, decode_bytes, enc_bytes, encode_bytes, lemma_dec_enc_bytes, lemma_subrange_sub,
};
use crate::hash::{enc_hash_list, encode_hash_list, hash_list_view, CryptoHash};
use crate::header::{
    dec_header, decode_header_at, enc_header, encode_header, lemma_dec_enc_header, Header,
    SpecHeader,
};
use crate::validator::{
    clone_opt_validator_list, clone_validator_list, dec_opt_validator_list,
    decode_opt_validator_list, enc_opt_validator_list, encode_opt_validator_list,
    lemma_dec_enc_opt_validator_list, opt_vs_list_view, spec_opt_validator_list_wf,
    SpecValidatorStake, ValidatorStakeView, vs_list_view,
};

verus! {

/// The consensus state of the NEAR light client.
pub struct ConsensusState {
    /// Block producers of the current epoch.
    pub current_bps: Option<Vec<ValidatorStakeView>>,
    /// Header data.
    pub header: Header,
    /// Commitment root: the canonical encoding of the header's chunk state
    /// roots, against which proofs are later verified.
    pub commitment_root: Vec<u8>,
}

/// The mathematical content of a consensus state.
pub struct SpecConsensusState {
    pub current_bps: Option<Seq<SpecValidatorStake>>,
    pub header: SpecHeader,
    pub commitment_root: Seq<u8>,
}

impl View for ConsensusState {
    type V = SpecConsensusState;

    open spec fn view(&self) -> SpecConsensusState {
        SpecConsensusState {
            current_bps: opt_vs_list_view(self.current_bps),
            header: self.header@,
            commitment_root: self.commitment_root@,
        }
    }
}

impl SpecConsensusState {
    pub open spec fn wf(self) -> bool {
        &&& spec_opt_validator_list_wf(self.current_bps)
        &&& self.header.wf()
        &&& self.commitment_root.len() <= u32::MAX
    }

    /// The block producers this state knows for the given epoch: its own for
    /// the header's epoch, the header's announced ones for the next epoch.
    pub open spec fn spec_get_block_producers_of(self, epoch_id: Seq<u8>) -> Option<
        Seq<SpecValidatorStake>,
    > {
        if epoch_id == self.header.epoch_id() {
            self.current_bps
        } else if epoch_id == self.header.next_epoch_id() {
            self.header.light_client_block.next_bps
        } else {
            None
        }
    }
}

impl ConsensusState {
    /// Builds a consensus state over the given header; the commitment root is
    /// the canonical encoding of the header's chunk state roots.
    pub fn new(current_bps: Option<Vec<ValidatorStakeView>>, header: Header) -> (r: Self)
        requires
            hash_list_view(header.prev_state_root_of_chunks@).len() <= u32::MAX,
        ensures
            r@.current_bps == opt_vs_list_view(current_bps),
            r@.header == header@,
            r@.commitment_root == enc_hash_list(header@.prev_state_root_of_chunks),
    {
        let mut commitment_root: Vec<u8> = Vec::new();
        encode_hash_list(&header.prev_state_root_of_chunks, &mut commitment_root);
        ConsensusState { current_bps, header, commitment_root }
    }

    /// Returns the block producers corresponding to the given epoch, this
    /// epoch's or the next.
    pub fn get_block_producers_of(&self, epoch_id: &CryptoHash) -> (r: Option<
        Vec<ValidatorStakeView>,
    >)
        ensures
            opt_vs_list_view(r) == self@.spec_get_block_producers_of(epoch_id@),
    {
        if self.header.epoch_id().eq(epoch_id) {
            clone_opt_validator_list(&self.current_bps)
        } else if self.header.next_epoch_id().eq(epoch_id) {
            clone_opt_validator_list(&self.header.light_client_block.next_bps)
        } else {
            None
        }
    }

    /// The commitment root carried by this state.
    pub fn root(&self) -> (r: &Vec<u8>)
        ensures
            r@ == self@.commitment_root,
    {
        &self.commitment_root
    }

    /// The timestamp of the trusted header, in nanoseconds.
    pub fn timestamp(&self) -> (r: u64)
        ensures
            r == self@.header.timestamp(),
    {
        self.header.raw_timestamp()
    }

    pub fn clone(&self) -> (r: Self)
        ensures
            r@ == self@,
    {
        let mut commitment_root: Vec<u8> = Vec::new();
        crate::codec::encode_raw(&self.commitment_root, &mut commitment_root);
        assert(commitment_root@ =~= self.commitment_root@);
        ConsensusState {
            current_bps: clone_opt_validator_list(&self.current_bps),
            header: self.header.clone(),
            commitment_root,
        }
    }
}

// ---------------------------------------------------------------------------
// Codec
// ---------------------------------------------------------------------------

pub open spec fn enc_consensus_state(v: SpecConsensusState) -> Seq<u8> {
    enc_opt_validator_list(v.current_bps) + enc_header(v.header) + enc_bytes(v.commitment_root)
}

pub open spec fn dec_consensus_state(b: Seq<u8>, pos: int) -> Option<(SpecConsensusState, int)> {
    match dec_opt_validator_list(b, pos) {
        None => None,
        Some((current_bps, p1)) => match dec_header(b, p1) {
            None => None,
            Some((header, p2)) => match dec_bytes(b, p2) {
                None => None,
                Some((commitment_root, p3)) => Some(
                    (SpecConsensusState { current_bps, header, commitment_root }, p3),
                ),
            },
        },
    }
}

pub proof fn lemma_dec_enc_consensus_state(v: SpecConsensusState, b: Seq<u8>, pos: int)
    requires
        0 <= pos,
        v.wf(),
        pos + enc_consensus_state(v).len() <= b.len(),
        b.subrange(pos, pos + enc_consensus_state(v).len()) == enc_consensus_state(v),
    ensures
        dec_consensus_state(b, pos) == Some((v, pos + enc_consensus_state(v).len())),
{
    let total = enc_consensus_state(v).len() as int;
    let l0 = enc_opt_validator_list(v.current_bps).len() as int;
    let l1 = enc_header(v.header).len() as int;
    let l2 = enc_bytes(v.commitment_root).len() as int;
    lemma_subrange_sub(b, pos, total, 0, l0);
    assert(enc_consensus_state(v).subrange(0, l0) =~= enc_opt_validator_list(v.current_bps));
    lemma_dec_enc_opt_validator_list(v.current_bps, b, pos);
    lemma_subrange_sub(b, pos, total, l0, l1);
    assert(enc_consensus_state(v).subrange(l0, l0 + l1) =~= enc_header(v.header));
    lemma_dec_enc_header(v.header, b, pos + l0);
    lemma_subrange_sub(b, pos, total, l0 + l1, l2);
    assert(enc_consensus_state(v).subrange(l0 + l1, total) =~= enc_bytes(v.commitment_root));
    lemma_dec_enc_bytes(v.commitment_root, b, pos + l0 + l1);
}

pub fn encode_consensus_state(v: &ConsensusState, out: &mut Vec<u8>)
    requires
        v@.wf(),
    ensures
        final(out)@ == old(out)@ + enc_consensus_state(v@),
{
    encode_opt_validator_list(&v.current_bps, out);
    encode_header(&v.header, out);
    encode_bytes(&v.commitment_root, out);
    assert(out@ =~= old(out)@ + enc_consensus_state(v@));
}

pub fn decode_consensus_state_at(buf: &[u8], pos: usize) -> (r: Option<(ConsensusState, usize)>)
    requires
        pos <= buf@.len(),
    ensures
        match r {
            Some((v, end)) => dec_consensus_state(buf@, pos as int) == Some((v@, end as int))
                && end <= buf@.len() && v@.wf(),
            None => dec_consensus_state(buf@, pos as int) is None,
        },
{
    match decode_opt_validator_list(buf, pos) {
        None => None,
        Some((current_bps, p1)) => match decode_header_at(buf, p1) {
            None => None,
            Some((header, p2)) => match decode_bytes(buf, p2) {
                None => None,
                Some((commitment_root, p3)) => Some(
                    (ConsensusState { current_bps, header, commitment_root }, p3),
                ),
            },
        },
    }
}

/// Decodes a consensus state from its canonical bytes; the whole buffer must
/// be one consensus state and nothing else.
pub fn decode_consensus_state(buf: &[u8]) -> (r: Option<ConsensusState>)
    ensures
        match r {
            Some(v) => dec_consensus_state(buf@, 0) == Some((v@, buf@.len() as int)) && v@.wf(),
            None => !(dec_consensus_state(buf@, 0) matches Some((_, end)) && end == buf@.len()),
        },
{
    match decode_consensus_state_at(buf, 0) {
        None => None,
        Some((v, end)) => {
            if end == buf.len() {
                Some(v)
            } else {
                None
            }
        },
    }
}

} // verus!
