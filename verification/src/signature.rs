//! Validator public keys and signatures, with Ed25519 verification.

use vstd::prelude::*;

verus! {

/// A raw 32-byte Ed25519 public key.
#[derive(Clone, Copy)]
pub struct ED25519PublicKey(pub [u8; 32]);

/// A raw 64-byte secp256k1 public key. NEAR defines this curve as well, but
/// the light client only ever meets Ed25519 block-producer keys.
#[derive(Clone, Copy)]
pub struct Secp256K1PublicKey(pub [u8; 64]);

/// A validator's public key.
#[derive(Clone, Copy)]
pub enum PublicKey {
    /// 256 bit elliptic curve based public-key.
    ED25519(ED25519PublicKey),
}

/// The curve a key or signature belongs to.
#[derive(Clone, Copy)]
pub enum KeyType {
    ED25519,
}

/// Signature container supporting different curves.
pub enum Signature {
    ED25519(Vec<u8>),
}

impl PublicKey {
    /// The raw key bytes.
    pub open spec fn bytes(self) -> Seq<u8> {
        match self {
            PublicKey::ED25519(k) => k.0@,
        }
    }
}

impl Signature {
    /// The raw signature bytes.
    pub open spec fn bytes(self) -> Seq<u8> {
        match self {
            Signature::ED25519(s) => s@,
        }
    }

    /// Whether the signature has the fixed width of its curve.
    pub open spec fn wf(self) -> bool {
        match self {
            Signature::ED25519(s) => s@.len() == 64,
        }
    }
}

/// Whether Ed25519 verification accepts `sig` as a signature on `data` under
/// the public key `key`; false as well whenever `key` or `sig` fail to decode.
/// The outcome depends on the three byte strings alone.
pub uninterp spec fn ed25519_verifies(key: Seq<u8>, data: Seq<u8>, sig: Seq<u8>) -> bool;

/// Relies on `ed25519_dalek::PublicKey::from_bytes`,
/// `ed25519_dalek::Signature::from_bytes` and
/// `ed25519_dalek::Verifier::verify`: parsing and verification are
/// deterministic in the key, message and signature bytes, and any parse
/// failure is reported as `false` rather than a panic.
#[verifier::external_body]
fn ed25519_verify(key: &[u8; 32], data: &[u8], sig: &[u8]) -> (r: bool)
    ensures
        r == ed25519_verifies(key@, data@, sig@),
{
    match ed25519_dalek::PublicKey::from_bytes(key) {
        Err(_) => false,
        Ok(public_key) => match ed25519_dalek::Signature::from_bytes(sig) {
            Err(_) => false,
            Ok(signature) => ed25519_dalek::Verifier::verify(&public_key, data, &signature).is_ok(),
        },
    }
}

impl View for Signature {
    type V = Seq<u8>;

    open spec fn view(&self) -> Seq<u8> {
        self.bytes()
    }
}

impl Signature {
    pub fn clone(&self) -> (r: Self)
        ensures
            r@ == self@,
    {
        match self {
            Signature::ED25519(raw) => {
                let mut bytes: Vec<u8> = Vec::new();
                let mut i: usize = 0;
                while i < raw.len()
                    invariant
                        0 <= i <= raw@.len(),
                        bytes@ == raw@.subrange(0, i as int),
                    decreases raw@.len() - i,
                {
                    bytes.push(raw[i]);
                    assert(bytes@ =~= raw@.subrange(0, i as int + 1));
                    i += 1;
                }
                assert(bytes@ =~= raw@);
                Signature::ED25519(bytes)
            },
        }
    }
}

// ---------------------------------------------------------------------------
// Codec for signatures and the approval list
// ---------------------------------------------------------------------------
// A signature is a one-byte curve discriminant followed by the fixed 64
// signature bytes; an approval slot is an `Option` tag byte.

pub open spec fn enc_signature(s: Seq<u8>) -> Seq<u8> {
    crate::codec::enc_u8(0) + s
}

pub open spec fn dec_signature(b: Seq<u8>, pos: int) -> Option<(Seq<u8>, int)> {
    match crate::codec::dec_u8(b, pos) {
        None => None,
        Some((tag, p)) => if tag == 0 {
            crate::codec::dec_fixed(b, p, 64)
        } else {
            None
        },
    }
}

pub proof fn lemma_dec_enc_signature(s: Seq<u8>, b: Seq<u8>, pos: int)
    requires
        0 <= pos,
        s.len() == 64,
        pos + 65 <= b.len(),
        b.subrange(pos, pos + 65) == enc_signature(s),
    ensures
        dec_signature(b, pos) == Some((s, pos + 65)),
{
    assert(b.subrange(pos, pos + 1) =~= crate::codec::enc_u8(0)) by {
        assert(b.subrange(pos, pos + 1)[0] == b.subrange(pos, pos + 65)[0]);
    }
    crate::codec::lemma_dec_enc_u8(0, b, pos);
    assert(b.subrange(pos + 1, pos + 65) =~= s) by {
        assert(forall|i: int|
            0 <= i < 64 ==> #[trigger] b.subrange(pos + 1, pos + 65)[i] == b.subrange(
                pos,
                pos + 65,
            )[1 + i]);
    }
    crate::codec::lemma_dec_enc_fixed(s, b, pos + 1);
}

pub fn encode_signature(s: &Signature, out: &mut Vec<u8>)
    requires
        s.wf(),
    ensures
        final(out)@ == old(out)@ + enc_signature(s@),
{
    match s {
        Signature::ED25519(raw) => {
            crate::codec::encode_u8(0, out);
            crate::codec::encode_raw(raw, out);
        },
    }
    assert(out@ =~= old(out)@ + enc_signature(s@));
}

pub fn decode_signature(buf: &[u8], pos: usize) -> (r: Option<(Signature, usize)>)
    requires
        pos <= buf@.len(),
    ensures
        match r {
            Some((v, end)) => dec_signature(buf@, pos as int) == Some((v@, end as int)) && end
                <= buf@.len() && v.wf(),
            None => dec_signature(buf@, pos as int) is None,
        },
{
    match crate::codec::decode_u8(buf, pos) {
        None => None,
        Some((tag, p)) => {
            if tag == 0 {
                match crate::codec::decode_fixed(buf, p, 64) {
                    None => None,
                    Some((raw, end)) => Some((Signature::ED25519(raw), end)),
                }
            } else {
                None
            }
        },
    }
}

/// The view of an approval slot.
pub open spec fn opt_sig_view(o: Option<Signature>) -> Option<Seq<u8>> {
    match o {
        None => None,
        Some(s) => Some(s@),
    }
}

pub open spec fn enc_opt_signature(o: Option<Seq<u8>>) -> Seq<u8> {
    match o {
        None => crate::codec::enc_u8(0),
        Some(s) => crate::codec::enc_u8(1) + enc_signature(s),
    }
}

pub open spec fn dec_opt_signature(b: Seq<u8>, pos: int) -> Option<(Option<Seq<u8>>, int)> {
    match crate::codec::dec_u8(b, pos) {
        None => None,
        Some((tag, p)) => if tag == 0 {
            Some((None, p))
        } else if tag == 1 {
            match dec_signature(b, p) {
                None => None,
                Some((s, end)) => Some((Some(s), end)),
            }
        } else {
            None
        },
    }
}

pub open spec fn spec_opt_signature_wf(o: Option<Seq<u8>>) -> bool {
    match o {
        None => true,
        Some(s) => s.len() == 64,
    }
}

pub proof fn lemma_dec_enc_opt_signature(o: Option<Seq<u8>>, b: Seq<u8>, pos: int)
    requires
        0 <= pos,
        spec_opt_signature_wf(o),
        pos + enc_opt_signature(o).len() <= b.len(),
        b.subrange(pos, pos + enc_opt_signature(o).len()) == enc_opt_signature(o),
    ensures
        dec_opt_signature(b, pos) == Some((o, pos + enc_opt_signature(o).len())),
{
    let total = enc_opt_signature(o).len() as int;
    match o {
        None => {
            assert(b.subrange(pos, pos + 1) =~= crate::codec::enc_u8(0));
            crate::codec::lemma_dec_enc_u8(0, b, pos);
        },
        Some(s) => {
            assert(b.subrange(pos, pos + 1) =~= crate::codec::enc_u8(1)) by {
                assert(b.subrange(pos, pos + 1)[0] == b.subrange(pos, pos + total)[0]);
            }
            crate::codec::lemma_dec_enc_u8(1, b, pos);
            assert(b.subrange(pos + 1, pos + 66) =~= enc_signature(s)) by {
                assert(forall|i: int|
                    0 <= i < 65 ==> #[trigger] b.subrange(pos + 1, pos + 66)[i] == b.subrange(
                        pos,
                        pos + total,
                    )[1 + i]);
            }
            lemma_dec_enc_signature(s, b, pos + 1);
        },
    }
}

pub fn encode_opt_signature(o: &Option<Signature>, out: &mut Vec<u8>)
    requires
        spec_opt_signature_wf(opt_sig_view(*o)),
    ensures
        final(out)@ == old(out)@ + enc_opt_signature(opt_sig_view(*o)),
{
    match o {
        None => {
            crate::codec::encode_u8(0, out);
        },
        Some(s) => {
            crate::codec::encode_u8(1, out);
            encode_signature(s, out);
        },
    }
    assert(out@ =~= old(out)@ + enc_opt_signature(opt_sig_view(*o)));
}

pub fn decode_opt_signature(buf: &[u8], pos: usize) -> (r: Option<(Option<Signature>, usize)>)
    requires
        pos <= buf@.len(),
    ensures
        match r {
            Some((v, end)) => dec_opt_signature(buf@, pos as int) == Some(
                (opt_sig_view(v), end as int),
            ) && end <= buf@.len() && spec_opt_signature_wf(opt_sig_view(v)),
            None => dec_opt_signature(buf@, pos as int) is None,
        },
{
    match crate::codec::decode_u8(buf, pos) {
        None => None,
        Some((tag, p)) => {
            if tag == 0 {
                Some((None, p))
            } else if tag == 1 {
                match decode_signature(buf, p) {
                    None => None,
                    Some((s, end)) => Some((Some(s), end)),
                }
            } else {
                None
            }
        },
    }
}

impl Signature {
    /// Verifies that this signature indeed signs the data with the given
    /// public key; returns `false` on any decode failure.
    pub fn verify(&self, data: &[u8], public_key: &PublicKey) -> (r: bool)
        ensures
            r == ed25519_verifies(public_key.bytes(), data@, self.bytes()),
    {
        match (self, public_key) {
            (Signature::ED25519(sig_bytes), PublicKey::ED25519(key)) => {
                ed25519_verify(&key.0, data, sig_bytes.as_slice())
            },
        }
    }
}

} // verus!
