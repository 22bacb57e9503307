//! Block producers: validator identities with their stake weights.

use vstd::prelude::*;

use crate::codec::{
    dec_arr32, dec_bytes, dec_u128, dec_u32, dec_u8, decode_arr32, decode_bytes, decode_u128,
    decode_u32, decode_u8, enc_bytes, enc_u128, enc_u32, enc_u8, encode_bytes, encode_u128,
    encode_u32, encode_u8, lemma_dec_enc_arr32, lemma_dec_enc_bytes, lemma_dec_enc_u128,
    lemma_dec_enc_u32, lemma_dec_enc_u8,
};
use crate::signature::{ED25519PublicKey, PublicKey};

verus! {

/// A block producer: account identifier, public key and stake weight.
pub struct ValidatorStakeView {
    /// UTF-8 bytes of the account identifier.
    pub account_id: Vec<u8>,
    pub public_key: PublicKey,
    pub stake: u128,
}

/// The mathematical content of a `ValidatorStakeView`.
pub struct SpecValidatorStake {
    pub account_id: Seq<u8>,
    pub public_key: Seq<u8>,
    pub stake: u128,
}

impl View for ValidatorStakeView {
    type V = SpecValidatorStake;

    open spec fn view(&self) -> SpecValidatorStake {
        SpecValidatorStake {
            account_id: self.account_id@,
            public_key: self.public_key.bytes(),
            stake: self.stake,
        }
    }
}

impl SpecValidatorStake {
    /// Whether the fields fit the canonical encoding.
    pub open spec fn wf(self) -> bool {
        &&& self.account_id.len() <= u32::MAX
        &&& self.public_key.len() == 32
    }
}

impl ValidatorStakeView {
    pub fn clone(&self) -> (r: Self)
        ensures
            r@ == self@,
    {
        let mut account_id: Vec<u8> = Vec::new();
        let mut i: usize = 0;
        while i < self.account_id.len()
            invariant
                0 <= i <= self.account_id@.len(),
                account_id@ == self.account_id@.subrange(0, i as int),
            decreases self.account_id@.len() - i,
        {
            account_id.push(self.account_id[i]);
            assert(account_id@ =~= self.account_id@.subrange(0, i as int + 1));
            i += 1;
        }
        assert(account_id@ =~= self.account_id@);
        ValidatorStakeView { account_id, public_key: self.public_key, stake: self.stake }
    }
}

// ---------------------------------------------------------------------------
// Codec for a single validator stake
// ---------------------------------------------------------------------------
// Layout: a one-byte version discriminant, the length-prefixed account
// identifier, the tagged public key, and the stake as a little-endian u128.

/// Encoding of a tagged Ed25519 public key: discriminant byte then raw key.
pub open spec fn enc_public_key(key: Seq<u8>) -> Seq<u8> {
    enc_u8(0) + key
}

pub open spec fn dec_public_key(b: Seq<u8>, pos: int) -> Option<(Seq<u8>, int)> {
    match dec_u8(b, pos) {
        None => None,
        Some((tag, p)) => if tag == 0 {
            dec_arr32(b, p)
        } else {
            None
        },
    }
}

pub proof fn lemma_dec_enc_public_key(key: Seq<u8>, b: Seq<u8>, pos: int)
    requires
        0 <= pos,
        key.len() == 32,
        pos + 33 <= b.len(),
        b.subrange(pos, pos + 33) == enc_public_key(key),
    ensures
        dec_public_key(b, pos) == Some((key, pos + 33)),
{
    assert(b.subrange(pos, pos + 1) =~= enc_u8(0)) by {
        assert(b.subrange(pos, pos + 1)[0] == b.subrange(pos, pos + 33)[0]);
    }
    lemma_dec_enc_u8(0, b, pos);
    assert(b.subrange(pos + 1, pos + 33) =~= key) by {
        assert(forall|i: int|
            0 <= i < 32 ==> #[trigger] b.subrange(pos + 1, pos + 33)[i] == b.subrange(
                pos,
                pos + 33,
            )[1 + i]);
    }
    lemma_dec_enc_arr32(key, b, pos + 1);
}

pub fn encode_public_key(key: &PublicKey, out: &mut Vec<u8>)
    ensures
        final(out)@ == old(out)@ + enc_public_key(key.bytes()),
{
    match key {
        PublicKey::ED25519(raw) => {
            encode_u8(0, out);
            crate::codec::encode_arr32(&raw.0, out);
        },
    }
    assert(out@ =~= old(out)@ + enc_public_key(key.bytes()));
}

pub fn decode_public_key(buf: &[u8], pos: usize) -> (r: Option<(PublicKey, usize)>)
    requires
        pos <= buf@.len(),
    ensures
        match r {
            Some((v, end)) => dec_public_key(buf@, pos as int) == Some((v.bytes(), end as int))
                && end <= buf@.len(),
            None => dec_public_key(buf@, pos as int) is None,
        },
{
    match decode_u8(buf, pos) {
        None => None,
        Some((tag, p)) => {
            if tag == 0 {
                match decode_arr32(buf, p) {
                    None => None,
                    Some((raw, end)) => Some((PublicKey::ED25519(ED25519PublicKey(raw)), end)),
                }
            } else {
                None
            }
        },
    }
}

/// Encoding of one validator stake entry.
pub open spec fn enc_validator_stake(v: SpecValidatorStake) -> Seq<u8> {
    enc_u8(0) + enc_bytes(v.account_id) + enc_public_key(v.public_key) + enc_u128(v.stake)
}

pub open spec fn dec_validator_stake(b: Seq<u8>, pos: int) -> Option<(SpecValidatorStake, int)> {
    match dec_u8(b, pos) {
        None => None,
        Some((tag, p0)) => if tag == 0 {
            match dec_bytes(b, p0) {
                None => None,
                Some((account_id, p1)) => match dec_public_key(b, p1) {
                    None => None,
                    Some((public_key, p2)) => match dec_u128(b, p2) {
                        None => None,
                        Some((stake, p3)) => Some(
                            (SpecValidatorStake { account_id, public_key, stake }, p3),
                        ),
                    },
                },
            }
        } else {
            None
        },
    }
}

pub proof fn lemma_dec_enc_validator_stake(v: SpecValidatorStake, b: Seq<u8>, pos: int)
    requires
        0 <= pos,
        v.wf(),
        pos + enc_validator_stake(v).len() <= b.len(),
        b.subrange(pos, pos + enc_validator_stake(v).len()) == enc_validator_stake(v),
    ensures
        dec_validator_stake(b, pos) == Some((v, pos + enc_validator_stake(v).len())),
{
    let total = enc_validator_stake(v).len() as int;
    let l1 = enc_bytes(v.account_id).len() as int;
    let p0 = pos + 1;
    let p1 = p0 + l1;
    let p2 = p1 + 33;
    assert(b.subrange(pos, pos + 1) =~= enc_u8(0)) by {
        assert(b.subrange(pos, pos + 1)[0] == b.subrange(pos, pos + total)[0]);
    }
    lemma_dec_enc_u8(0, b, pos);
    assert(b.subrange(p0, p0 + l1) =~= enc_bytes(v.account_id)) by {
        assert(forall|i: int|
            0 <= i < l1 ==> #[trigger] b.subrange(p0, p0 + l1)[i] == b.subrange(
                pos,
                pos + total,
            )[1 + i]);
    }
    lemma_dec_enc_bytes(v.account_id, b, p0);
    assert(b.subrange(p1, p1 + 33) =~= enc_public_key(v.public_key)) by {
        assert(forall|i: int|
            0 <= i < 33 ==> #[trigger] b.subrange(p1, p1 + 33)[i] == b.subrange(
                pos,
                pos + total,
            )[1 + l1 + i]);
    }
    lemma_dec_enc_public_key(v.public_key, b, p1);
    assert(b.subrange(p2, p2 + 16) =~= enc_u128(v.stake)) by {
        assert(forall|i: int|
            0 <= i < 16 ==> #[trigger] b.subrange(p2, p2 + 16)[i] == b.subrange(
                pos,
                pos + total,
            )[1 + l1 + 33 + i]);
    }
    lemma_dec_enc_u128(v.stake, b, p2);
}

pub fn encode_validator_stake(v: &ValidatorStakeView, out: &mut Vec<u8>)
    requires
        v@.wf(),
    ensures
        final(out)@ == old(out)@ + enc_validator_stake(v@),
{
    encode_u8(0, out);
    encode_bytes(&v.account_id, out);
    encode_public_key(&v.public_key, out);
    encode_u128(v.stake, out);
    assert(out@ =~= old(out)@ + enc_validator_stake(v@));
}

pub fn decode_validator_stake(buf: &[u8], pos: usize) -> (r: Option<(ValidatorStakeView, usize)>)
    requires
        pos <= buf@.len(),
    ensures
        match r {
            Some((v, end)) => dec_validator_stake(buf@, pos as int) == Some((v@, end as int))
                && end <= buf@.len() && v@.wf(),
            None => dec_validator_stake(buf@, pos as int) is None,
        },
{
    match decode_u8(buf, pos) {
        None => None,
        Some((tag, p0)) => {
            if tag == 0 {
                match decode_bytes(buf, p0) {
                    None => None,
                    Some((account_id, p1)) => match decode_public_key(buf, p1) {
                        None => None,
                        Some((public_key, p2)) => match decode_u128(buf, p2) {
                            None => None,
                            Some((stake, p3)) => Some(
                                (ValidatorStakeView { account_id, public_key, stake }, p3),
                            ),
                        },
                    },
                }
            } else {
                None
            }
        },
    }
}

// ---------------------------------------------------------------------------
// Codec for a list of validator stakes
// ---------------------------------------------------------------------------

/// Concatenated encodings of the entries, without the count prefix.
pub open spec fn enc_validator_items(s: Seq<SpecValidatorStake>) -> Seq<u8>
    decreases s.len(),
{
    if s.len() == 0 {
        Seq::empty()
    } else {
        enc_validator_stake(s[0]) + enc_validator_items(s.drop_first())
    }
}

/// Encoding of a validator list: entry count then the entries.
pub open spec fn enc_validator_list(s: Seq<SpecValidatorStake>) -> Seq<u8> {
    enc_u32(s.len() as u32) + enc_validator_items(s)
}

pub open spec fn spec_validator_list_wf(s: Seq<SpecValidatorStake>) -> bool {
    &&& s.len() <= u32::MAX
    &&& forall|i: int| 0 <= i < s.len() ==> (#[trigger] s[i]).wf()
}

pub open spec fn dec_validator_items(b: Seq<u8>, pos: int, n: nat) -> Option<
    (Seq<SpecValidatorStake>, int),
>
    decreases n,
{
    if n == 0 {
        Some((Seq::empty(), pos))
    } else {
        match dec_validator_stake(b, pos) {
            None => None,
            Some((v, p)) => match dec_validator_items(b, p, (n - 1) as nat) {
                None => None,
                Some((rest, end)) => Some((seq![v] + rest, end)),
            },
        }
    }
}

pub open spec fn dec_validator_list(b: Seq<u8>, pos: int) -> Option<(Seq<SpecValidatorStake>, int)> {
    match dec_u32(b, pos) {
        None => None,
        Some((n, p)) => dec_validator_items(b, p, n as nat),
    }
}

pub proof fn lemma_enc_validator_items_push(s: Seq<SpecValidatorStake>, v: SpecValidatorStake)
    ensures
        enc_validator_items(s.push(v)) == enc_validator_items(s) + enc_validator_stake(v),
    decreases s.len(),
{
    if s.len() == 0 {
        assert(s.push(v).drop_first() =~= s);
        assert(enc_validator_items(s.push(v)) =~= enc_validator_items(s) + enc_validator_stake(v));
    } else {
        assert(s.push(v).drop_first() =~= s.drop_first().push(v));
        lemma_enc_validator_items_push(s.drop_first(), v);
        assert(enc_validator_items(s.push(v)) =~= enc_validator_items(s) + enc_validator_stake(v));
    }
}

pub proof fn lemma_dec_enc_validator_items(s: Seq<SpecValidatorStake>, b: Seq<u8>, pos: int)
    requires
        0 <= pos,
        forall|i: int| 0 <= i < s.len() ==> (#[trigger] s[i]).wf(),
        pos + enc_validator_items(s).len() <= b.len(),
        b.subrange(pos, pos + enc_validator_items(s).len()) == enc_validator_items(s),
    ensures
        dec_validator_items(b, pos, s.len()) == Some((s, pos + enc_validator_items(s).len())),
    decreases s.len(),
{
    if s.len() == 0 {
        assert(Seq::<SpecValidatorStake>::empty() =~= s);
    } else {
        let v = s[0];
        let rest = s.drop_first();
        let total = enc_validator_items(s).len() as int;
        let l0 = enc_validator_stake(v).len() as int;
        assert(b.subrange(pos, pos + l0) =~= enc_validator_stake(v)) by {
            assert(forall|i: int|
                0 <= i < l0 ==> #[trigger] b.subrange(pos, pos + l0)[i] == b.subrange(
                    pos,
                    pos + total,
                )[i]);
        }
        lemma_dec_enc_validator_stake(v, b, pos);
        assert(b.subrange(pos + l0, pos + total) =~= enc_validator_items(rest)) by {
            assert(forall|i: int|
                0 <= i < total - l0 ==> #[trigger] b.subrange(pos + l0, pos + total)[i]
                    == b.subrange(pos, pos + total)[l0 + i]);
        }
        lemma_dec_enc_validator_items(rest, b, pos + l0);
        assert(seq![v] + rest =~= s);
    }
}

pub proof fn lemma_dec_enc_validator_list(s: Seq<SpecValidatorStake>, b: Seq<u8>, pos: int)
    requires
        0 <= pos,
        spec_validator_list_wf(s),
        pos + enc_validator_list(s).len() <= b.len(),
        b.subrange(pos, pos + enc_validator_list(s).len()) == enc_validator_list(s),
    ensures
        dec_validator_list(b, pos) == Some((s, pos + enc_validator_list(s).len())),
{
    let total = enc_validator_list(s).len() as int;
    let li = enc_validator_items(s).len() as int;
    assert(b.subrange(pos, pos + 4) =~= enc_u32(s.len() as u32)) by {
        assert(forall|i: int|
            0 <= i < 4 ==> #[trigger] b.subrange(pos, pos + 4)[i] == b.subrange(
                pos,
                pos + total,
            )[i]);
    }
    lemma_dec_enc_u32(s.len() as u32, b, pos);
    assert(b.subrange(pos + 4, pos + 4 + li) =~= enc_validator_items(s)) by {
        assert(forall|i: int|
            0 <= i < li ==> #[trigger] b.subrange(pos + 4, pos + 4 + li)[i] == b.subrange(
                pos,
                pos + total,
            )[4 + i]);
    }
    lemma_dec_enc_validator_items(s, b, pos + 4);
}

/// The view of a validator list, entry by entry.
pub open spec fn vs_list_view(v: Seq<ValidatorStakeView>) -> Seq<SpecValidatorStake> {
    v.map_values(|x: ValidatorStakeView| x@)
}

pub proof fn lemma_vs_list_view_push(s: Seq<ValidatorStakeView>, v: ValidatorStakeView)
    ensures
        vs_list_view(s.push(v)) == vs_list_view(s).push(v@),
{
    assert(vs_list_view(s.push(v)) =~= vs_list_view(s).push(v@));
}

pub fn encode_validator_list(list: &Vec<ValidatorStakeView>, out: &mut Vec<u8>)
    requires
        spec_validator_list_wf(vs_list_view(list@)),
    ensures
        final(out)@ == old(out)@ + enc_validator_list(vs_list_view(list@)),
{
    let ghost full = vs_list_view(list@);
    encode_u32(list.len() as u32, out);
    let ghost base = out@;
    let mut i: usize = 0;
    while i < list.len()
        invariant
            0 <= i <= list@.len(),
            spec_validator_list_wf(vs_list_view(list@)),
            full == vs_list_view(list@),
            out@ == base + enc_validator_items(full.take(i as int)),
        decreases list@.len() - i,
    {
        assert(full[i as int] == list@[i as int]@ && full[i as int].wf());
        assert(full.take(i as int).push(list@[i as int]@) =~= full.take(i as int + 1));
        proof {
            lemma_enc_validator_items_push(full.take(i as int), list@[i as int]@);
        }
        encode_validator_stake(&list[i], out);
        i += 1;
    }
    assert(full.take(list@.len() as int) =~= full);
}

pub fn decode_validator_list(buf: &[u8], pos: usize) -> (r: Option<(Vec<ValidatorStakeView>, usize)>)
    requires
        pos <= buf@.len(),
    ensures
        match r {
            Some((v, end)) => dec_validator_list(buf@, pos as int) == Some(
                (vs_list_view(v@), end as int),
            ) && end <= buf@.len() && spec_validator_list_wf(vs_list_view(v@)),
            None => dec_validator_list(buf@, pos as int) is None,
        },
{
    match decode_u32(buf, pos) {
        None => None,
        Some((n, p0)) => {
            let mut acc: Vec<ValidatorStakeView> = Vec::new();
            let mut p = p0;
            let mut i: u32 = 0;
            loop
                invariant
                    0 <= i <= n,
                    p <= buf@.len(),
                    acc@.len() == i,
                    spec_validator_list_wf(vs_list_view(acc@)),
                    dec_u32(buf@, pos as int) == Some((n, p0 as int)),
                    match dec_validator_items(buf@, p as int, (n - i) as nat) {
                        Some((rest, end)) => dec_validator_items(buf@, p0 as int, n as nat)
                            == Some((vs_list_view(acc@) + rest, end)),
                        None => dec_validator_items(buf@, p0 as int, n as nat) is None,
                    },
                ensures
                    match dec_validator_items(buf@, p0 as int, n as nat) {
                        Some((items, end)) => vs_list_view(acc@) == items && p == end && p
                            <= buf@.len() && spec_validator_list_wf(vs_list_view(acc@)),
                        None => false,
                    },
                decreases n - i,
            {
                if i == n {
                    assert(dec_validator_items(buf@, p as int, 0) == Some(
                        (Seq::<SpecValidatorStake>::empty(), p as int),
                    ));
                    assert(vs_list_view(acc@) + Seq::<SpecValidatorStake>::empty() =~= vs_list_view(
                        acc@,
                    ));
                    break;
                }
                match decode_validator_stake(buf, p) {
                    None => {
                        return None;
                    },
                    Some((v, p2)) => {
                        proof {
                            lemma_vs_list_view_push(acc@, v);
                            let rest0 = dec_validator_items(buf@, p2 as int, (n - i - 1) as nat);
                            if rest0 is Some {
                                let (rest, end) = rest0->Some_0;
                                assert(vs_list_view(acc@) + (seq![v@] + rest) =~= vs_list_view(
                                    acc@.push(v),
                                ) + rest);
                            }
                        }
                        acc.push(v);
                        p = p2;
                        i += 1;
                        assert(spec_validator_list_wf(vs_list_view(acc@)));
                    },
                }
            }
            Some((acc, p))
        },
    }
}

// ---------------------------------------------------------------------------
// Codec for an optional list of validator stakes
// ---------------------------------------------------------------------------

pub open spec fn enc_opt_validator_list(o: Option<Seq<SpecValidatorStake>>) -> Seq<u8> {
    match o {
        None => enc_u8(0),
        Some(s) => enc_u8(1) + enc_validator_list(s),
    }
}

pub open spec fn dec_opt_validator_list(b: Seq<u8>, pos: int) -> Option<
    (Option<Seq<SpecValidatorStake>>, int),
> {
    match dec_u8(b, pos) {
        None => None,
        Some((tag, p)) => if tag == 0 {
            Some((None, p))
        } else if tag == 1 {
            match dec_validator_list(b, p) {
                None => None,
                Some((s, end)) => Some((Some(s), end)),
            }
        } else {
            None
        },
    }
}

pub open spec fn spec_opt_validator_list_wf(o: Option<Seq<SpecValidatorStake>>) -> bool {
    match o {
        None => true,
        Some(s) => spec_validator_list_wf(s),
    }
}

pub proof fn lemma_dec_enc_opt_validator_list(
    o: Option<Seq<SpecValidatorStake>>,
    b: Seq<u8>,
    pos: int,
)
    requires
        0 <= pos,
        spec_opt_validator_list_wf(o),
        pos + enc_opt_validator_list(o).len() <= b.len(),
        b.subrange(pos, pos + enc_opt_validator_list(o).len()) == enc_opt_validator_list(o),
    ensures
        dec_opt_validator_list(b, pos) == Some((o, pos + enc_opt_validator_list(o).len())),
{
    let total = enc_opt_validator_list(o).len() as int;
    match o {
        None => {
            assert(b.subrange(pos, pos + 1) =~= enc_u8(0));
            lemma_dec_enc_u8(0, b, pos);
        },
        Some(s) => {
            assert(b.subrange(pos, pos + 1) =~= enc_u8(1)) by {
                assert(b.subrange(pos, pos + 1)[0] == b.subrange(pos, pos + total)[0]);
            }
            lemma_dec_enc_u8(1, b, pos);
            let ls = enc_validator_list(s).len() as int;
            assert(b.subrange(pos + 1, pos + 1 + ls) =~= enc_validator_list(s)) by {
                assert(forall|i: int|
                    0 <= i < ls ==> #[trigger] b.subrange(pos + 1, pos + 1 + ls)[i] == b.subrange(
                        pos,
                        pos + total,
                    )[1 + i]);
            }
            lemma_dec_enc_validator_list(s, b, pos + 1);
        },
    }
}

/// The view of an optional validator list.
pub open spec fn opt_vs_list_view(o: Option<Vec<ValidatorStakeView>>) -> Option<
    Seq<SpecValidatorStake>,
> {
    match o {
        None => None,
        Some(v) => Some(vs_list_view(v@)),
    }
}

pub fn encode_opt_validator_list(o: &Option<Vec<ValidatorStakeView>>, out: &mut Vec<u8>)
    requires
        spec_opt_validator_list_wf(opt_vs_list_view(*o)),
    ensures
        final(out)@ == old(out)@ + enc_opt_validator_list(opt_vs_list_view(*o)),
{
    match o {
        None => {
            encode_u8(0, out);
        },
        Some(list) => {
            encode_u8(1, out);
            encode_validator_list(list, out);
        },
    }
    assert(out@ =~= old(out)@ + enc_opt_validator_list(opt_vs_list_view(*o)));
}

pub fn decode_opt_validator_list(buf: &[u8], pos: usize) -> (r: Option<
    (Option<Vec<ValidatorStakeView>>, usize),
>)
    requires
        pos <= buf@.len(),
    ensures
        match r {
            Some((v, end)) => dec_opt_validator_list(buf@, pos as int) == Some(
                (opt_vs_list_view(v), end as int),
            ) && end <= buf@.len() && spec_opt_validator_list_wf(opt_vs_list_view(v)),
            None => dec_opt_validator_list(buf@, pos as int) is None,
        },
{
    match decode_u8(buf, pos) {
        None => None,
        Some((tag, p)) => {
            if tag == 0 {
                Some((None, p))
            } else if tag == 1 {
                match decode_validator_list(buf, p) {
                    None => None,
                    Some((s, end)) => Some((Some(s), end)),
                }
            } else {
                None
            }
        },
    }
}

/// Clones a validator list, preserving its view.
pub fn clone_validator_list(list: &Vec<ValidatorStakeView>) -> (r: Vec<ValidatorStakeView>)
    ensures
        vs_list_view(r@) == vs_list_view(list@),
{
    let mut r: Vec<ValidatorStakeView> = Vec::new();
    let mut i: usize = 0;
    while i < list.len()
        invariant
            0 <= i <= list@.len(),
            vs_list_view(r@) == vs_list_view(list@).take(i as int),
        decreases list@.len() - i,
    {
        let c = list[i].clone();
        let ghost cc = c;
        let ghost prev = r@;
        r.push(c);
        proof {
            assert(vs_list_view(prev).len() == prev.len());
            lemma_vs_list_view_push(prev, cc);
            assert(vs_list_view(r@) =~= vs_list_view(list@).take(i as int + 1));
        }
        i += 1;
    }
    assert(vs_list_view(list@).take(list@.len() as int) =~= vs_list_view(list@));
    r
}

/// Clones an optional validator list, preserving its view.
pub fn clone_opt_validator_list(o: &Option<Vec<ValidatorStakeView>>) -> (r: Option<
    Vec<ValidatorStakeView>,
>)
    ensures
        opt_vs_list_view(r) == opt_vs_list_view(*o),
{
    match o {
        None => None,
        Some(list) => Some(clone_validator_list(list)),
    }
}

} // verus!
