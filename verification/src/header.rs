//! The light-client block header: the compact per-height structure the NEAR
//! protocol exports to light clients, together with its hashes and the
//! approval message that block producers sign.

use vstd::prelude::*;

use crate::codec::{
    dec_arr32, dec_u32, dec_u64, dec_u8, decode_arr32, decode_u32, decode_u64, decode_u8, enc_u32,
    enc_u64, enc_u8, encode_arr32, encode_u32, encode_u64, encode_u8, lemma_dec_enc_arr32,
    lemma_dec_enc_u32, lemma_dec_enc_u64, lemma_dec_enc_u8, lemma_subrange_sub,
};
use crate::hash::{
    combine_hash, combine_hash_spec, dec_hash_list, enc_hash_list, encode_hash_list,
    decode_hash_list, hash_list_view, lemma_dec_enc_hash_list, sha256, sha256_of,
    spec_hash_list_wf, CryptoHash,
};
use crate::height::Height;
use crate::signature::{
    dec_opt_signature, decode_opt_signature, enc_opt_signature, encode_opt_signature,
    lemma_dec_enc_opt_signature, opt_sig_view, spec_opt_signature_wf, Signature,
};
use crate::validator::{
    dec_opt_validator_list, decode_opt_validator_list, enc_opt_validator_list,
    encode_opt_validator_list, lemma_dec_enc_opt_validator_list, opt_vs_list_view,
    spec_opt_validator_list_wf, SpecValidatorStake, ValidatorStakeView,
};

verus! {

// ---------------------------------------------------------------------------
// Inner-lite summary
// ---------------------------------------------------------------------------

/// The fixed-width summary of a block that is hashed into its block hash.
#[derive(Clone, Copy)]
pub struct LightClientBlockInnerLite {
    pub height: u64,
    pub epoch_id: CryptoHash,
    pub next_epoch_id: CryptoHash,
    pub prev_state_root: CryptoHash,
    pub outcome_root: CryptoHash,
    /// Timestamp in nanoseconds.
    pub timestamp: u64,
    pub next_bp_hash: CryptoHash,
    pub block_merkle_root: CryptoHash,
}

/// The mathematical content of an inner-lite summary.
pub struct SpecInnerLite {
    pub height: u64,
    pub epoch_id: Seq<u8>,
    pub next_epoch_id: Seq<u8>,
    pub prev_state_root: Seq<u8>,
    pub outcome_root: Seq<u8>,
    pub timestamp: u64,
    pub next_bp_hash: Seq<u8>,
    pub block_merkle_root: Seq<u8>,
}

impl View for LightClientBlockInnerLite {
    type V = SpecInnerLite;

    open spec fn view(&self) -> SpecInnerLite {
        SpecInnerLite {
            height: self.height,
            epoch_id: self.epoch_id@,
            next_epoch_id: self.next_epoch_id@,
            prev_state_root: self.prev_state_root@,
            outcome_root: self.outcome_root@,
            timestamp: self.timestamp,
            next_bp_hash: self.next_bp_hash@,
            block_merkle_root: self.block_merkle_root@,
        }
    }
}

impl SpecInnerLite {
    pub open spec fn wf(self) -> bool {
        &&& self.epoch_id.len() == 32
        &&& self.next_epoch_id.len() == 32
        &&& self.prev_state_root.len() == 32
        &&& self.outcome_root.len() == 32
        &&& self.next_bp_hash.len() == 32
        &&& self.block_merkle_root.len() == 32
    }
}

pub open spec fn enc_inner_lite(v: SpecInnerLite) -> Seq<u8> {
    enc_u64(v.height) + v.epoch_id + v.next_epoch_id + v.prev_state_root + v.outcome_root
        + enc_u64(v.timestamp) + v.next_bp_hash + v.block_merkle_root
}

pub open spec fn dec_inner_lite(b: Seq<u8>, pos: int) -> Option<(SpecInnerLite, int)> {
    match dec_u64(b, pos) {
        None => None,
        Some((height, p1)) => match dec_arr32(b, p1) {
            None => None,
            Some((epoch_id, p2)) => match dec_arr32(b, p2) {
                None => None,
                Some((next_epoch_id, p3)) => match dec_arr32(b, p3) {
                    None => None,
                    Some((prev_state_root, p4)) => match dec_arr32(b, p4) {
                        None => None,
                        Some((outcome_root, p5)) => match dec_u64(b, p5) {
                            None => None,
                            Some((timestamp, p6)) => match dec_arr32(b, p6) {
                                None => None,
                                Some((next_bp_hash, p7)) => match dec_arr32(b, p7) {
                                    None => None,
                                    Some((block_merkle_root, p8)) => Some(
                                        (
                                            SpecInnerLite {
                                                height,
                                                epoch_id,
                                                next_epoch_id,
                                                prev_state_root,
                                                outcome_root,
                                                timestamp,
                                                next_bp_hash,
                                                block_merkle_root,
                                            },
                                            p8,
                                        ),
                                    ),
                                },
                            },
                        },
                    },
                },
            },
        },
    }
}

pub proof fn lemma_dec_enc_inner_lite(v: SpecInnerLite, b: Seq<u8>, pos: int)
    requires
        0 <= pos,
        v.wf(),
        pos + 208 <= b.len(),
        b.subrange(pos, pos + 208) == enc_inner_lite(v),
    ensures
        enc_inner_lite(v).len() == 208,
        dec_inner_lite(b, pos) == Some((v, pos + 208)),
{
    lemma_subrange_sub(b, pos, 208, 0, 8);
    assert(enc_inner_lite(v).subrange(0, 8) =~= enc_u64(v.height));
    lemma_dec_enc_u64(v.height, b, pos);
    lemma_subrange_sub(b, pos, 208, 8, 32);
    assert(enc_inner_lite(v).subrange(8, 40) =~= v.epoch_id);
    lemma_dec_enc_arr32(v.epoch_id, b, pos + 8);
    lemma_subrange_sub(b, pos, 208, 40, 32);
    assert(enc_inner_lite(v).subrange(40, 72) =~= v.next_epoch_id);
    lemma_dec_enc_arr32(v.next_epoch_id, b, pos + 40);
    lemma_subrange_sub(b, pos, 208, 72, 32);
    assert(enc_inner_lite(v).subrange(72, 104) =~= v.prev_state_root);
    lemma_dec_enc_arr32(v.prev_state_root, b, pos + 72);
    lemma_subrange_sub(b, pos, 208, 104, 32);
    assert(enc_inner_lite(v).subrange(104, 136) =~= v.outcome_root);
    lemma_dec_enc_arr32(v.outcome_root, b, pos + 104);
    lemma_subrange_sub(b, pos, 208, 136, 8);
    assert(enc_inner_lite(v).subrange(136, 144) =~= enc_u64(v.timestamp));
    lemma_dec_enc_u64(v.timestamp, b, pos + 136);
    lemma_subrange_sub(b, pos, 208, 144, 32);
    assert(enc_inner_lite(v).subrange(144, 176) =~= v.next_bp_hash);
    lemma_dec_enc_arr32(v.next_bp_hash, b, pos + 144);
    lemma_subrange_sub(b, pos, 208, 176, 32);
    assert(enc_inner_lite(v).subrange(176, 208) =~= v.block_merkle_root);
    lemma_dec_enc_arr32(v.block_merkle_root, b, pos + 176);
}

pub fn encode_inner_lite(v: &LightClientBlockInnerLite, out: &mut Vec<u8>)
    ensures
        final(out)@ == old(out)@ + enc_inner_lite(v@),
{
    encode_u64(v.height, out);
    encode_arr32(&v.epoch_id.0, out);
    encode_arr32(&v.next_epoch_id.0, out);
    encode_arr32(&v.prev_state_root.0, out);
    encode_arr32(&v.outcome_root.0, out);
    encode_u64(v.timestamp, out);
    encode_arr32(&v.next_bp_hash.0, out);
    encode_arr32(&v.block_merkle_root.0, out);
    assert(out@ =~= old(out)@ + enc_inner_lite(v@));
}

pub fn decode_inner_lite(buf: &[u8], pos: usize) -> (r: Option<(LightClientBlockInnerLite, usize)>)
    requires
        pos <= buf@.len(),
    ensures
        match r {
            Some((v, end)) => dec_inner_lite(buf@, pos as int) == Some((v@, end as int)) && end
                <= buf@.len() && v@.wf(),
            None => dec_inner_lite(buf@, pos as int) is None,
        },
{
    match decode_u64(buf, pos) {
        None => None,
        Some((height, p1)) => match decode_arr32(buf, p1) {
            None => None,
            Some((epoch_id, p2)) => match decode_arr32(buf, p2) {
                None => None,
                Some((next_epoch_id, p3)) => match decode_arr32(buf, p3) {
                    None => None,
                    Some((prev_state_root, p4)) => match decode_arr32(buf, p4) {
                        None => None,
                        Some((outcome_root, p5)) => match decode_u64(buf, p5) {
                            None => None,
                            Some((timestamp, p6)) => match decode_arr32(buf, p6) {
                                None => None,
                                Some((next_bp_hash, p7)) => match decode_arr32(buf, p7) {
                                    None => None,
                                    Some((block_merkle_root, p8)) => Some(
                                        (
                                            LightClientBlockInnerLite {
                                                height,
                                                epoch_id: CryptoHash(epoch_id),
                                                next_epoch_id: CryptoHash(next_epoch_id),
                                                prev_state_root: CryptoHash(prev_state_root),
                                                outcome_root: CryptoHash(outcome_root),
                                                timestamp,
                                                next_bp_hash: CryptoHash(next_bp_hash),
                                                block_merkle_root: CryptoHash(block_merkle_root),
                                            },
                                            p8,
                                        ),
                                    ),
                                },
                            },
                        },
                    },
                },
            },
        },
    }
}

// ---------------------------------------------------------------------------
// Approval list
// ---------------------------------------------------------------------------

/// The view of an approval list, slot by slot.
pub open spec fn approvals_view(v: Seq<Option<Signature>>) -> Seq<Option<Seq<u8>>> {
    v.map_values(|o: Option<Signature>| opt_sig_view(o))
}

pub proof fn lemma_approvals_view_push(s: Seq<Option<Signature>>, o: Option<Signature>)
    ensures
        approvals_view(s.push(o)) == approvals_view(s).push(opt_sig_view(o)),
{
    assert(approvals_view(s.push(o)) =~= approvals_view(s).push(opt_sig_view(o)));
}

pub open spec fn spec_approvals_wf(s: Seq<Option<Seq<u8>>>) -> bool {
    &&& s.len() <= u32::MAX
    &&& forall|i: int| 0 <= i < s.len() ==> spec_opt_signature_wf(#[trigger] s[i])
}

pub open spec fn enc_approval_items(s: Seq<Option<Seq<u8>>>) -> Seq<u8>
    decreases s.len(),
{
    if s.len() == 0 {
        Seq::empty()
    } else {
        enc_opt_signature(s[0]) + enc_approval_items(s.drop_first())
    }
}

pub open spec fn enc_approval_list(s: Seq<Option<Seq<u8>>>) -> Seq<u8> {
    enc_u32(s.len() as u32) + enc_approval_items(s)
}

pub open spec fn dec_approval_items(b: Seq<u8>, pos: int, n: nat) -> Option<
    (Seq<Option<Seq<u8>>>, int),
>
    decreases n,
{
    if n == 0 {
        Some((Seq::empty(), pos))
    } else {
        match dec_opt_signature(b, pos) {
            None => None,
            Some((o, p)) => match dec_approval_items(b, p, (n - 1) as nat) {
                None => None,
                Some((rest, end)) => Some((seq![o] + rest, end)),
            },
        }
    }
}

pub open spec fn dec_approval_list(b: Seq<u8>, pos: int) -> Option<(Seq<Option<Seq<u8>>>, int)> {
    match dec_u32(b, pos) {
        None => None,
        Some((n, p)) => dec_approval_items(b, p, n as nat),
    }
}

pub proof fn lemma_enc_approval_items_push(s: Seq<Option<Seq<u8>>>, o: Option<Seq<u8>>)
    ensures
        enc_approval_items(s.push(o)) == enc_approval_items(s) + enc_opt_signature(o),
    decreases s.len(),
{
    if s.len() == 0 {
        assert(s.push(o).drop_first() =~= s);
        assert(enc_approval_items(s.push(o)) =~= enc_approval_items(s) + enc_opt_signature(o));
    } else {
        assert(s.push(o).drop_first() =~= s.drop_first().push(o));
        lemma_enc_approval_items_push(s.drop_first(), o);
        assert(enc_approval_items(s.push(o)) =~= enc_approval_items(s) + enc_opt_signature(o));
    }
}

pub proof fn lemma_dec_enc_approval_items(s: Seq<Option<Seq<u8>>>, b: Seq<u8>, pos: int)
    requires
        0 <= pos,
        forall|i: int| 0 <= i < s.len() ==> spec_opt_signature_wf(#[trigger] s[i]),
        pos + enc_approval_items(s).len() <= b.len(),
        b.subrange(pos, pos + enc_approval_items(s).len()) == enc_approval_items(s),
    ensures
        dec_approval_items(b, pos, s.len()) == Some((s, pos + enc_approval_items(s).len())),
    decreases s.len(),
{
    if s.len() == 0 {
        assert(Seq::<Option<Seq<u8>>>::empty() =~= s);
    } else {
        let o = s[0];
        let rest = s.drop_first();
        let total = enc_approval_items(s).len() as int;
        let l0 = enc_opt_signature(o).len() as int;
        lemma_subrange_sub(b, pos, total, 0, l0);
        assert(enc_approval_items(s).subrange(0, l0) =~= enc_opt_signature(o));
        lemma_dec_enc_opt_signature(o, b, pos);
        lemma_subrange_sub(b, pos, total, l0, total - l0);
        assert(enc_approval_items(s).subrange(l0, total) =~= enc_approval_items(rest));
        lemma_dec_enc_approval_items(rest, b, pos + l0);
        assert(seq![o] + rest =~= s);
    }
}

pub proof fn lemma_dec_enc_approval_list(s: Seq<Option<Seq<u8>>>, b: Seq<u8>, pos: int)
    requires
        0 <= pos,
        spec_approvals_wf(s),
        pos + enc_approval_list(s).len() <= b.len(),
        b.subrange(pos, pos + enc_approval_list(s).len()) == enc_approval_list(s),
    ensures
        dec_approval_list(b, pos) == Some((s, pos + enc_approval_list(s).len())),
{
    let total = enc_approval_list(s).len() as int;
    let li = enc_approval_items(s).len() as int;
    lemma_subrange_sub(b, pos, total, 0, 4);
    assert(enc_approval_list(s).subrange(0, 4) =~= enc_u32(s.len() as u32));
    lemma_dec_enc_u32(s.len() as u32, b, pos);
    lemma_subrange_sub(b, pos, total, 4, li);
    assert(enc_approval_list(s).subrange(4, 4 + li) =~= enc_approval_items(s));
    lemma_dec_enc_approval_items(s, b, pos + 4);
}

pub fn encode_approval_list(list: &Vec<Option<Signature>>, out: &mut Vec<u8>)
    requires
        spec_approvals_wf(approvals_view(list@)),
    ensures
        final(out)@ == old(out)@ + enc_approval_list(approvals_view(list@)),
{
    let ghost full = approvals_view(list@);
    encode_u32(list.len() as u32, out);
    let ghost base = out@;
    let mut i: usize = 0;
    while i < list.len()
        invariant
            0 <= i <= list@.len(),
            spec_approvals_wf(approvals_view(list@)),
            full == approvals_view(list@),
            out@ == base + enc_approval_items(full.take(i as int)),
        decreases list@.len() - i,
    {
        assert(full[i as int] == opt_sig_view(list@[i as int]) && spec_opt_signature_wf(
            full[i as int],
        ));
        assert(full.take(i as int).push(full[i as int]) =~= full.take(i as int + 1));
        proof {
            lemma_enc_approval_items_push(full.take(i as int), full[i as int]);
        }
        encode_opt_signature(&list[i], out);
        i += 1;
    }
    assert(full.take(list@.len() as int) =~= full);
}

pub fn decode_approval_list(buf: &[u8], pos: usize) -> (r: Option<(Vec<Option<Signature>>, usize)>)
    requires
        pos <= buf@.len(),
    ensures
        match r {
            Some((v, end)) => dec_approval_list(buf@, pos as int) == Some(
                (approvals_view(v@), end as int),
            ) && end <= buf@.len() && spec_approvals_wf(approvals_view(v@)),
            None => dec_approval_list(buf@, pos as int) is None,
        },
{
    match decode_u32(buf, pos) {
        None => None,
        Some((n, p0)) => {
            let mut acc: Vec<Option<Signature>> = Vec::new();
            let mut p = p0;
            let mut i: u32 = 0;
            loop
                invariant
                    0 <= i <= n,
                    p <= buf@.len(),
                    acc@.len() == i,
                    spec_approvals_wf(approvals_view(acc@)),
                    dec_u32(buf@, pos as int) == Some((n, p0 as int)),
                    match dec_approval_items(buf@, p as int, (n - i) as nat) {
                        Some((rest, end)) => dec_approval_items(buf@, p0 as int, n as nat) == Some(
                            (approvals_view(acc@) + rest, end),
                        ),
                        None => dec_approval_items(buf@, p0 as int, n as nat) is None,
                    },
                ensures
                    match dec_approval_items(buf@, p0 as int, n as nat) {
                        Some((items, end)) => approvals_view(acc@) == items && p == end && p
                            <= buf@.len() && spec_approvals_wf(approvals_view(acc@)),
                        None => false,
                    },
                decreases n - i,
            {
                if i == n {
                    assert(dec_approval_items(buf@, p as int, 0) == Some(
                        (Seq::<Option<Seq<u8>>>::empty(), p as int),
                    ));
                    assert(approvals_view(acc@) + Seq::<Option<Seq<u8>>>::empty() =~= approvals_view(
                        acc@,
                    ));
                    break;
                }
                match decode_opt_signature(buf, p) {
                    None => {
                        return None;
                    },
                    Some((o, p2)) => {
                        let ghost oo = o;
                        proof {
                            lemma_approvals_view_push(acc@, oo);
                            let rest0 = dec_approval_items(buf@, p2 as int, (n - i - 1) as nat);
                            if rest0 is Some {
                                let (rest, end) = rest0->Some_0;
                                assert(approvals_view(acc@) + (seq![opt_sig_view(oo)] + rest)
                                    =~= approvals_view(acc@.push(oo)) + rest);
                            }
                        }
                        acc.push(o);
                        p = p2;
                        i += 1;
                        assert(spec_approvals_wf(approvals_view(acc@)));
                    },
                }
            }
            Some((acc, p))
        },
    }
}

// ---------------------------------------------------------------------------
// Light-client block
// ---------------------------------------------------------------------------

/// The compact per-height structure NEAR exports to light clients.
pub struct LightClientBlock {
    pub prev_block_hash: CryptoHash,
    pub next_block_inner_hash: CryptoHash,
    pub inner_lite: LightClientBlockInnerLite,
    pub inner_rest_hash: CryptoHash,
    pub next_bps: Option<Vec<ValidatorStakeView>>,
    pub approvals_after_next: Vec<Option<Signature>>,
}

/// The mathematical content of a light-client block.
pub struct SpecLightClientBlock {
    pub prev_block_hash: Seq<u8>,
    pub next_block_inner_hash: Seq<u8>,
    pub inner_lite: SpecInnerLite,
    pub inner_rest_hash: Seq<u8>,
    pub next_bps: Option<Seq<SpecValidatorStake>>,
    pub approvals_after_next: Seq<Option<Seq<u8>>>,
}

impl View for LightClientBlock {
    type V = SpecLightClientBlock;

    open spec fn view(&self) -> SpecLightClientBlock {
        SpecLightClientBlock {
            prev_block_hash: self.prev_block_hash@,
            next_block_inner_hash: self.next_block_inner_hash@,
            inner_lite: self.inner_lite@,
            inner_rest_hash: self.inner_rest_hash@,
            next_bps: opt_vs_list_view(self.next_bps),
            approvals_after_next: approvals_view(self.approvals_after_next@),
        }
    }
}

impl SpecLightClientBlock {
    pub open spec fn wf(self) -> bool {
        &&& self.prev_block_hash.len() == 32
        &&& self.next_block_inner_hash.len() == 32
        &&& self.inner_lite.wf()
        &&& self.inner_rest_hash.len() == 32
        &&& spec_opt_validator_list_wf(self.next_bps)
        &&& spec_approvals_wf(self.approvals_after_next)
    }
}

pub open spec fn enc_light_client_block(v: SpecLightClientBlock) -> Seq<u8> {
    v.prev_block_hash + v.next_block_inner_hash + enc_inner_lite(v.inner_lite) + v.inner_rest_hash
        + enc_opt_validator_list(v.next_bps) + enc_approval_list(v.approvals_after_next)
}

pub open spec fn dec_light_client_block(b: Seq<u8>, pos: int) -> Option<(SpecLightClientBlock, int)> {
    match dec_arr32(b, pos) {
        None => None,
        Some((prev_block_hash, p1)) => match dec_arr32(b, p1) {
            None => None,
            Some((next_block_inner_hash, p2)) => match dec_inner_lite(b, p2) {
                None => None,
                Some((inner_lite, p3)) => match dec_arr32(b, p3) {
                    None => None,
                    Some((inner_rest_hash, p4)) => match dec_opt_validator_list(b, p4) {
                        None => None,
                        Some((next_bps, p5)) => match dec_approval_list(b, p5) {
                            None => None,
                            Some((approvals_after_next, p6)) => Some(
                                (
                                    SpecLightClientBlock {
                                        prev_block_hash,
                                        next_block_inner_hash,
                                        inner_lite,
                                        inner_rest_hash,
                                        next_bps,
                                        approvals_after_next,
                                    },
                                    p6,
                                ),
                            ),
                        },
                    },
                },
            },
        },
    }
}

#[verifier::rlimit(50)]
pub proof fn lemma_dec_enc_light_client_block(v: SpecLightClientBlock, b: Seq<u8>, pos: int)
    requires
        0 <= pos,
        v.wf(),
        pos + enc_light_client_block(v).len() <= b.len(),
        b.subrange(pos, pos + enc_light_client_block(v).len()) == enc_light_client_block(v),
    ensures
        dec_light_client_block(b, pos) == Some((v, pos + enc_light_client_block(v).len())),
{
    let total = enc_light_client_block(v).len() as int;
    let l_bps = enc_opt_validator_list(v.next_bps).len() as int;
    let l_app = enc_approval_list(v.approvals_after_next).len() as int;
    lemma_subrange_sub(b, pos, total, 0, 32);
    assert(enc_light_client_block(v).subrange(0, 32) =~= v.prev_block_hash);
    lemma_dec_enc_arr32(v.prev_block_hash, b, pos);
    lemma_subrange_sub(b, pos, total, 32, 32);
    assert(enc_light_client_block(v).subrange(32, 64) =~= v.next_block_inner_hash);
    lemma_dec_enc_arr32(v.next_block_inner_hash, b, pos + 32);
    lemma_subrange_sub(b, pos, total, 64, 208);
    assert(enc_light_client_block(v).subrange(64, 272) =~= enc_inner_lite(v.inner_lite));
    lemma_dec_enc_inner_lite(v.inner_lite, b, pos + 64);
    lemma_subrange_sub(b, pos, total, 272, 32);
    assert(enc_light_client_block(v).subrange(272, 304) =~= v.inner_rest_hash);
    lemma_dec_enc_arr32(v.inner_rest_hash, b, pos + 272);
    lemma_subrange_sub(b, pos, total, 304, l_bps);
    assert(enc_light_client_block(v).subrange(304, 304 + l_bps) =~= enc_opt_validator_list(
        v.next_bps,
    ));
    lemma_dec_enc_opt_validator_list(v.next_bps, b, pos + 304);
    lemma_subrange_sub(b, pos, total, 304 + l_bps, l_app);
    assert(enc_light_client_block(v).subrange(304 + l_bps, total) =~= enc_approval_list(
        v.approvals_after_next,
    ));
    lemma_dec_enc_approval_list(v.approvals_after_next, b, pos + 304 + l_bps);
}

/// Whether the executable block fits the canonical encoding; a block decoded
/// from bytes always does.
pub open spec fn lcb_wf(v: LightClientBlock) -> bool {
    v@.wf()
}

pub fn encode_light_client_block(v: &LightClientBlock, out: &mut Vec<u8>)
    requires
        lcb_wf(*v),
    ensures
        final(out)@ == old(out)@ + enc_light_client_block(v@),
{
    encode_arr32(&v.prev_block_hash.0, out);
    encode_arr32(&v.next_block_inner_hash.0, out);
    encode_inner_lite(&v.inner_lite, out);
    encode_arr32(&v.inner_rest_hash.0, out);
    encode_opt_validator_list(&v.next_bps, out);
    encode_approval_list(&v.approvals_after_next, out);
    assert(out@ =~= old(out)@ + enc_light_client_block(v@));
}

pub fn decode_light_client_block(buf: &[u8], pos: usize) -> (r: Option<(LightClientBlock, usize)>)
    requires
        pos <= buf@.len(),
    ensures
        match r {
            Some((v, end)) => dec_light_client_block(buf@, pos as int) == Some((v@, end as int))
                && end <= buf@.len() && v@.wf(),
            None => dec_light_client_block(buf@, pos as int) is None,
        },
{
    match decode_arr32(buf, pos) {
        None => None,
        Some((prev_block_hash, p1)) => match decode_arr32(buf, p1) {
            None => None,
            Some((next_block_inner_hash, p2)) => match decode_inner_lite(buf, p2) {
                None => None,
                Some((inner_lite, p3)) => match decode_arr32(buf, p3) {
                    None => None,
                    Some((inner_rest_hash, p4)) => match decode_opt_validator_list(buf, p4) {
                        None => None,
                        Some((next_bps, p5)) => match decode_approval_list(buf, p5) {
                            None => None,
                            Some((approvals_after_next, p6)) => Some(
                                (
                                    LightClientBlock {
                                        prev_block_hash: CryptoHash(prev_block_hash),
                                        next_block_inner_hash: CryptoHash(next_block_inner_hash),
                                        inner_lite,
                                        inner_rest_hash: CryptoHash(inner_rest_hash),
                                        next_bps,
                                        approvals_after_next,
                                    },
                                    p6,
                                ),
                            ),
                        },
                    },
                },
            },
        },
    }
}

// ---------------------------------------------------------------------------
// Block hashes and the approval message
// ---------------------------------------------------------------------------

/// The hash of the block: the inner-lite summary hashed, combined with the
/// inner-rest hash and then the previous block hash.
pub open spec fn spec_current_block_hash(v: SpecLightClientBlock) -> Seq<u8> {
    combine_hash_spec(
        combine_hash_spec(sha256_of(enc_inner_lite(v.inner_lite)), v.inner_rest_hash),
        v.prev_block_hash,
    )
}

/// The hash of the block after this one.
pub open spec fn spec_next_block_hash(v: SpecLightClientBlock) -> Seq<u8> {
    combine_hash_spec(v.next_block_inner_hash, spec_current_block_hash(v))
}

/// The bytes a block producer signs to approve the block: an endorsement of
/// the next block hash, then the target height two above this block.
pub open spec fn spec_approval_message(v: SpecLightClientBlock) -> Seq<u8> {
    enc_u8(0) + spec_next_block_hash(v) + enc_u64((v.inner_lite.height + 2) as u64)
}

impl LightClientBlock {
    pub fn current_block_hash(&self) -> (r: CryptoHash)
        ensures
            r@ == spec_current_block_hash(self@),
    {
        let mut bytes: Vec<u8> = Vec::new();
        encode_inner_lite(&self.inner_lite, &mut bytes);
        let inner_lite_hash = CryptoHash(sha256(bytes.as_slice()));
        combine_hash(&combine_hash(&inner_lite_hash, &self.inner_rest_hash), &self.prev_block_hash)
    }

    pub fn next_block_hash(&self) -> (r: CryptoHash)
        ensures
            r@ == spec_next_block_hash(self@),
    {
        combine_hash(&self.next_block_inner_hash, &self.current_block_hash())
    }

    /// The deterministic byte encoding of the endorsement that validators of
    /// the corresponding epoch sign.
    pub fn approval_message(&self) -> (r: Vec<u8>)
        requires
            self.inner_lite.height + 2 <= u64::MAX,
        ensures
            r@ == spec_approval_message(self@),
    {
        let mut msg: Vec<u8> = Vec::new();
        encode_u8(0, &mut msg);
        let next_hash = self.next_block_hash();
        encode_arr32(&next_hash.0, &mut msg);
        encode_u64(self.inner_lite.height + 2, &mut msg);
        assert(msg@ =~= spec_approval_message(self@));
        msg
    }
}

// ---------------------------------------------------------------------------
// Header
// ---------------------------------------------------------------------------

/// The header data struct of the NEAR light client: a light-client block
/// together with the state roots of its chunks.
pub struct Header {
    pub light_client_block: LightClientBlock,
    pub prev_state_root_of_chunks: Vec<CryptoHash>,
}

/// The mathematical content of a header.
pub struct SpecHeader {
    pub light_client_block: SpecLightClientBlock,
    pub prev_state_root_of_chunks: Seq<Seq<u8>>,
}

impl View for Header {
    type V = SpecHeader;

    open spec fn view(&self) -> SpecHeader {
        SpecHeader {
            light_client_block: self.light_client_block@,
            prev_state_root_of_chunks: hash_list_view(self.prev_state_root_of_chunks@),
        }
    }
}

impl SpecHeader {
    pub open spec fn wf(self) -> bool {
        &&& self.light_client_block.wf()
        &&& spec_hash_list_wf(self.prev_state_root_of_chunks)
    }

    /// The height the header claims.
    pub open spec fn height(self) -> u64 {
        self.light_client_block.inner_lite.height
    }

    /// The timestamp the header claims, in nanoseconds.
    pub open spec fn timestamp(self) -> u64 {
        self.light_client_block.inner_lite.timestamp
    }

    pub open spec fn epoch_id(self) -> Seq<u8> {
        self.light_client_block.inner_lite.epoch_id
    }

    pub open spec fn next_epoch_id(self) -> Seq<u8> {
        self.light_client_block.inner_lite.next_epoch_id
    }
}

pub open spec fn enc_header(v: SpecHeader) -> Seq<u8> {
    enc_light_client_block(v.light_client_block) + enc_hash_list(v.prev_state_root_of_chunks)
}

pub open spec fn dec_header(b: Seq<u8>, pos: int) -> Option<(SpecHeader, int)> {
    match dec_light_client_block(b, pos) {
        None => None,
        Some((light_client_block, p1)) => match dec_hash_list(b, p1) {
            None => None,
            Some((prev_state_root_of_chunks, p2)) => Some(
                (SpecHeader { light_client_block, prev_state_root_of_chunks }, p2),
            ),
        },
    }
}

pub proof fn lemma_dec_enc_header(v: SpecHeader, b: Seq<u8>, pos: int)
    requires
        0 <= pos,
        v.wf(),
        pos + enc_header(v).len() <= b.len(),
        b.subrange(pos, pos + enc_header(v).len()) == enc_header(v),
    ensures
        dec_header(b, pos) == Some((v, pos + enc_header(v).len())),
{
    let total = enc_header(v).len() as int;
    let l0 = enc_light_client_block(v.light_client_block).len() as int;
    lemma_subrange_sub(b, pos, total, 0, l0);
    assert(enc_header(v).subrange(0, l0) =~= enc_light_client_block(v.light_client_block));
    lemma_dec_enc_light_client_block(v.light_client_block, b, pos);
    lemma_subrange_sub(b, pos, total, l0, total - l0);
    assert(enc_header(v).subrange(l0, total) =~= enc_hash_list(v.prev_state_root_of_chunks));
    lemma_dec_enc_hash_list(v.prev_state_root_of_chunks, b, pos + l0);
}

impl Header {
    pub open spec fn wf(self) -> bool {
        self@.wf()
    }

    pub fn epoch_id(&self) -> (r: CryptoHash)
        ensures
            r@ == self@.epoch_id(),
    {
        self.light_client_block.inner_lite.epoch_id
    }

    pub fn next_epoch_id(&self) -> (r: CryptoHash)
        ensures
            r@ == self@.next_epoch_id(),
    {
        self.light_client_block.inner_lite.next_epoch_id
    }

    /// The header's timestamp in nanoseconds.
    pub fn raw_timestamp(&self) -> (r: u64)
        ensures
            r == self@.timestamp(),
    {
        self.light_client_block.inner_lite.timestamp
    }

    /// The header's timestamp in nanoseconds, as the host counts time.
    pub fn timestamp(&self) -> (r: u64)
        ensures
            r == self@.timestamp(),
    {
        self.raw_timestamp()
    }

    /// The header's height, in revision zero as NEAR heights always are.
    pub fn height(&self) -> (r: Height)
        ensures
            r == (Height {
                revision_number: 0,
                revision_height: self@.height(),
            }),
    {
        Height { revision_number: 0, revision_height: self.light_client_block.inner_lite.height }
    }
}

/// Clones an approval list, preserving its view.
pub fn clone_approvals(list: &Vec<Option<Signature>>) -> (r: Vec<Option<Signature>>)
    ensures
        approvals_view(r@) == approvals_view(list@),
{
    let mut r: Vec<Option<Signature>> = Vec::new();
    let mut i: usize = 0;
    while i < list.len()
        invariant
            0 <= i <= list@.len(),
            approvals_view(r@) == approvals_view(list@).take(i as int),
        decreases list@.len() - i,
    {
        let c: Option<Signature> = match &list[i] {
            None => None,
            Some(s) => Some(s.clone()),
        };
        let ghost cc = c;
        let ghost prev = r@;
        r.push(c);
        proof {
            assert(approvals_view(prev).len() == prev.len());
            lemma_approvals_view_push(prev, cc);
            assert(approvals_view(r@) =~= approvals_view(list@).take(i as int + 1));
        }
        i += 1;
    }
    assert(approvals_view(list@).take(list@.len() as int) =~= approvals_view(list@));
    r
}

impl LightClientBlock {
    pub fn clone(&self) -> (r: Self)
        ensures
            r@ == self@,
    {
        LightClientBlock {
            prev_block_hash: self.prev_block_hash,
            next_block_inner_hash: self.next_block_inner_hash,
            inner_lite: self.inner_lite,
            inner_rest_hash: self.inner_rest_hash,
            next_bps: crate::validator::clone_opt_validator_list(&self.next_bps),
            approvals_after_next: clone_approvals(&self.approvals_after_next),
        }
    }
}

impl Header {
    pub fn clone(&self) -> (r: Self)
        ensures
            r@ == self@,
    {
        let mut chunks: Vec<CryptoHash> = Vec::new();
        let mut i: usize = 0;
        while i < self.prev_state_root_of_chunks.len()
            invariant
                0 <= i <= self.prev_state_root_of_chunks@.len(),
                chunks@ == self.prev_state_root_of_chunks@.subrange(0, i as int),
            decreases self.prev_state_root_of_chunks@.len() - i,
        {
            chunks.push(self.prev_state_root_of_chunks[i]);
            assert(chunks@ =~= self.prev_state_root_of_chunks@.subrange(0, i as int + 1));
            i += 1;
        }
        assert(chunks@ =~= self.prev_state_root_of_chunks@);
        Header {
            light_client_block: self.light_client_block.clone(),
            prev_state_root_of_chunks: chunks,
        }
    }
}

/// Encodes a header into its canonical bytes.
pub fn encode_header(v: &Header, out: &mut Vec<u8>)
    requires
        v.wf(),
    ensures
        final(out)@ == old(out)@ + enc_header(v@),
{
    encode_light_client_block(&v.light_client_block, out);
    encode_hash_list(&v.prev_state_root_of_chunks, out);
    assert(out@ =~= old(out)@ + enc_header(v@));
}

/// Decodes a header from its canonical bytes; the whole buffer must be one
/// header and nothing else.
pub fn decode_header(buf: &[u8]) -> (r: Option<Header>)
    ensures
        match r {
            Some(v) => dec_header(buf@, 0) == Some((v@, buf@.len() as int)) && v@.wf(),
            None => !(dec_header(buf@, 0) matches Some((_, end)) && end == buf@.len()),
        },
{
    match decode_header_at(buf, 0) {
        None => None,
        Some((v, end)) => {
            if end == buf.len() {
                Some(v)
            } else {
                None
            }
        },
    }
}

pub fn decode_header_at(buf: &[u8], pos: usize) -> (r: Option<(Header, usize)>)
    requires
        pos <= buf@.len(),
    ensures
        match r {
            Some((v, end)) => dec_header(buf@, pos as int) == Some((v@, end as int)) && end
                <= buf@.len() && v@.wf(),
            None => dec_header(buf@, pos as int) is None,
        },
{
    match decode_light_client_block(buf, pos) {
        None => None,
        Some((light_client_block, p1)) => match decode_hash_list(buf, p1) {
            None => None,
            Some((prev_state_root_of_chunks, p2)) => Some(
                (Header { light_client_block, prev_state_root_of_chunks }, p2),
            ),
        },
    }
}

} // verus!
