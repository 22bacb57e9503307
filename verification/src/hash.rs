//! SHA-256 hashing and the 32-byte hash value used throughout the client.

use vstd::prelude::*;

verus! {

/// The digest that SHA-256 assigns to a byte string. Trusted wrappers below
/// relate executable calls into the `sha2` crate to this name.
pub uninterp spec fn sha256_of(data: Seq<u8>) -> Seq<u8>;

/// Relies on `sha2::Sha256::digest`: the digest is 32 bytes and depends on
/// the input bytes alone.
#[verifier::external_body]
pub fn sha256(data: &[u8]) -> (r: [u8; 32])
    ensures
        r@ == sha256_of(data@),
{
    <sha2::Sha256 as sha2::Digest>::digest(data).into()
}

/// A 32-byte hash value; equality is byte equality.
#[derive(Clone, Copy)]
pub struct CryptoHash(pub [u8; 32]);

impl CryptoHash {
    pub fn new() -> (r: Self)
        ensures
            r.0@ == Seq::<u8>::new(32, |i: int| 0u8),
    {
        let a = [0u8; 32];
        assert(a@ =~= Seq::<u8>::new(32, |i: int| 0u8));
        CryptoHash(a)
    }

    pub fn as_bytes(&self) -> (r: &[u8; 32])
        ensures
            r@ == self.0@,
    {
        &self.0
    }

    /// The SHA-256 digest of the given bytes.
    pub fn hash_bytes(bytes: &[u8]) -> (r: CryptoHash)
        ensures
            r.0@ == sha256_of(bytes@),
    {
        CryptoHash(sha256(bytes))
    }
}

impl PartialEq for CryptoHash {
    fn eq(&self, other: &CryptoHash) -> (r: bool) {
        let mut i: usize = 0;
        while i < 32
            invariant
                0 <= i <= 32,
                forall|j: int| 0 <= j < i ==> self.0@[j] == other.0@[j],
            decreases 32 - i,
        {
            if self.0[i] != other.0[i] {
                return false;
            }
            i += 1;
        }
        assert(self.0@ =~= other.0@);
        true
    }
}

impl Eq for CryptoHash {}

impl vstd::std_specs::cmp::PartialEqSpecImpl for CryptoHash {
    open spec fn obeys_eq_spec() -> bool {
        true
    }

    open spec fn eq_spec(&self, other: &CryptoHash) -> bool {
        self.0@ == other.0@
    }
}

impl View for CryptoHash {
    type V = Seq<u8>;

    open spec fn view(&self) -> Seq<u8> {
        self.0@
    }
}

// ---------------------------------------------------------------------------
// Codec for hash values and lists of hash values
// ---------------------------------------------------------------------------

/// The view of a hash list, entry by entry.
pub open spec fn hash_list_view(v: Seq<CryptoHash>) -> Seq<Seq<u8>> {
    v.map_values(|h: CryptoHash| h@)
}

pub proof fn lemma_hash_list_view_push(s: Seq<CryptoHash>, h: CryptoHash)
    ensures
        hash_list_view(s.push(h)) == hash_list_view(s).push(h@),
{
    assert(hash_list_view(s.push(h)) =~= hash_list_view(s).push(h@));
}

pub open spec fn spec_hash_list_wf(s: Seq<Seq<u8>>) -> bool {
    &&& s.len() <= u32::MAX
    &&& forall|i: int| 0 <= i < s.len() ==> (#[trigger] s[i]).len() == 32
}

/// Concatenated hash values, without the count prefix.
pub open spec fn enc_hash_items(s: Seq<Seq<u8>>) -> Seq<u8>
    decreases s.len(),
{
    if s.len() == 0 {
        Seq::empty()
    } else {
        s[0] + enc_hash_items(s.drop_first())
    }
}

/// Encoding of a hash list: entry count then the 32-byte entries.
pub open spec fn enc_hash_list(s: Seq<Seq<u8>>) -> Seq<u8> {
    crate::codec::enc_u32(s.len() as u32) + enc_hash_items(s)
}

pub open spec fn dec_hash_items(b: Seq<u8>, pos: int, n: nat) -> Option<(Seq<Seq<u8>>, int)>
    decreases n,
{
    if n == 0 {
        Some((Seq::empty(), pos))
    } else {
        match crate::codec::dec_arr32(b, pos) {
            None => None,
            Some((h, p)) => match dec_hash_items(b, p, (n - 1) as nat) {
                None => None,
                Some((rest, end)) => Some((seq![h] + rest, end)),
            },
        }
    }
}

pub open spec fn dec_hash_list(b: Seq<u8>, pos: int) -> Option<(Seq<Seq<u8>>, int)> {
    match crate::codec::dec_u32(b, pos) {
        None => None,
        Some((n, p)) => dec_hash_items(b, p, n as nat),
    }
}

pub proof fn lemma_enc_hash_items_push(s: Seq<Seq<u8>>, h: Seq<u8>)
    ensures
        enc_hash_items(s.push(h)) == enc_hash_items(s) + h,
    decreases s.len(),
{
    if s.len() == 0 {
        assert(s.push(h).drop_first() =~= s);
        assert(enc_hash_items(s.push(h)) =~= enc_hash_items(s) + h);
    } else {
        assert(s.push(h).drop_first() =~= s.drop_first().push(h));
        lemma_enc_hash_items_push(s.drop_first(), h);
        assert(enc_hash_items(s.push(h)) =~= enc_hash_items(s) + h);
    }
}

pub proof fn lemma_dec_enc_hash_items(s: Seq<Seq<u8>>, b: Seq<u8>, pos: int)
    requires
        0 <= pos,
        forall|i: int| 0 <= i < s.len() ==> (#[trigger] s[i]).len() == 32,
        pos + enc_hash_items(s).len() <= b.len(),
        b.subrange(pos, pos + enc_hash_items(s).len()) == enc_hash_items(s),
    ensures
        dec_hash_items(b, pos, s.len()) == Some((s, pos + enc_hash_items(s).len())),
    decreases s.len(),
{
    if s.len() == 0 {
        assert(Seq::<Seq<u8>>::empty() =~= s);
    } else {
        let h = s[0];
        let rest = s.drop_first();
        let total = enc_hash_items(s).len() as int;
        assert(b.subrange(pos, pos + 32) =~= h) by {
            assert(forall|i: int|
                0 <= i < 32 ==> #[trigger] b.subrange(pos, pos + 32)[i] == b.subrange(
                    pos,
                    pos + total,
                )[i]);
        }
        crate::codec::lemma_dec_enc_arr32(h, b, pos);
        assert(b.subrange(pos + 32, pos + total) =~= enc_hash_items(rest)) by {
            assert(forall|i: int|
                0 <= i < total - 32 ==> #[trigger] b.subrange(pos + 32, pos + total)[i]
                    == b.subrange(pos, pos + total)[32 + i]);
        }
        lemma_dec_enc_hash_items(rest, b, pos + 32);
        assert(seq![h] + rest =~= s);
    }
}

pub proof fn lemma_dec_enc_hash_list(s: Seq<Seq<u8>>, b: Seq<u8>, pos: int)
    requires
        0 <= pos,
        spec_hash_list_wf(s),
        pos + enc_hash_list(s).len() <= b.len(),
        b.subrange(pos, pos + enc_hash_list(s).len()) == enc_hash_list(s),
    ensures
        dec_hash_list(b, pos) == Some((s, pos + enc_hash_list(s).len())),
{
    let total = enc_hash_list(s).len() as int;
    let li = enc_hash_items(s).len() as int;
    assert(b.subrange(pos, pos + 4) =~= crate::codec::enc_u32(s.len() as u32)) by {
        assert(forall|i: int|
            0 <= i < 4 ==> #[trigger] b.subrange(pos, pos + 4)[i] == b.subrange(
                pos,
                pos + total,
            )[i]);
    }
    crate::codec::lemma_dec_enc_u32(s.len() as u32, b, pos);
    assert(b.subrange(pos + 4, pos + 4 + li) =~= enc_hash_items(s)) by {
        assert(forall|i: int|
            0 <= i < li ==> #[trigger] b.subrange(pos + 4, pos + 4 + li)[i] == b.subrange(
                pos,
                pos + total,
            )[4 + i]);
    }
    lemma_dec_enc_hash_items(s, b, pos + 4);
}

pub fn encode_hash_list(list: &Vec<CryptoHash>, out: &mut Vec<u8>)
    requires
        hash_list_view(list@).len() <= u32::MAX,
    ensures
        final(out)@ == old(out)@ + enc_hash_list(hash_list_view(list@)),
{
    let ghost full = hash_list_view(list@);
    crate::codec::encode_u32(list.len() as u32, out);
    let ghost base = out@;
    let mut i: usize = 0;
    while i < list.len()
        invariant
            0 <= i <= list@.len(),
            full == hash_list_view(list@),
            out@ == base + enc_hash_items(full.take(i as int)),
        decreases list@.len() - i,
    {
        assert(full[i as int] == list@[i as int]@);
        assert(full.take(i as int).push(list@[i as int]@) =~= full.take(i as int + 1));
        proof {
            lemma_enc_hash_items_push(full.take(i as int), list@[i as int]@);
        }
        crate::codec::encode_arr32(&list[i].0, out);
        i += 1;
    }
    assert(full.take(list@.len() as int) =~= full);
}

pub fn decode_hash_list(buf: &[u8], pos: usize) -> (r: Option<(Vec<CryptoHash>, usize)>)
    requires
        pos <= buf@.len(),
    ensures
        match r {
            Some((v, end)) => dec_hash_list(buf@, pos as int) == Some(
                (hash_list_view(v@), end as int),
            ) && end <= buf@.len() && spec_hash_list_wf(hash_list_view(v@)),
            None => dec_hash_list(buf@, pos as int) is None,
        },
{
    match crate::codec::decode_u32(buf, pos) {
        None => None,
        Some((n, p0)) => {
            let mut acc: Vec<CryptoHash> = Vec::new();
            let mut p = p0;
            let mut i: u32 = 0;
            loop
                invariant
                    0 <= i <= n,
                    p <= buf@.len(),
                    acc@.len() == i,
                    spec_hash_list_wf(hash_list_view(acc@)),
                    crate::codec::dec_u32(buf@, pos as int) == Some((n, p0 as int)),
                    match dec_hash_items(buf@, p as int, (n - i) as nat) {
                        Some((rest, end)) => dec_hash_items(buf@, p0 as int, n as nat) == Some(
                            (hash_list_view(acc@) + rest, end),
                        ),
                        None => dec_hash_items(buf@, p0 as int, n as nat) is None,
                    },
                ensures
                    match dec_hash_items(buf@, p0 as int, n as nat) {
                        Some((items, end)) => hash_list_view(acc@) == items && p == end && p
                            <= buf@.len() && spec_hash_list_wf(hash_list_view(acc@)),
                        None => false,
                    },
                decreases n - i,
            {
                if i == n {
                    assert(dec_hash_items(buf@, p as int, 0) == Some(
                        (Seq::<Seq<u8>>::empty(), p as int),
                    ));
                    assert(hash_list_view(acc@) + Seq::<Seq<u8>>::empty() =~= hash_list_view(acc@));
                    break;
                }
                match crate::codec::decode_arr32(buf, p) {
                    None => {
                        return None;
                    },
                    Some((h, p2)) => {
                        let c = CryptoHash(h);
                        let ghost cc = c;
                        proof {
                            lemma_hash_list_view_push(acc@, cc);
                            let rest0 = dec_hash_items(buf@, p2 as int, (n - i - 1) as nat);
                            if rest0 is Some {
                                let (rest, end) = rest0->Some_0;
                                assert(hash_list_view(acc@) + (seq![cc@] + rest) =~= hash_list_view(
                                    acc@.push(cc),
                                ) + rest);
                            }
                        }
                        acc.push(c);
                        p = p2;
                        i += 1;
                        assert(spec_hash_list_wf(hash_list_view(acc@)));
                    },
                }
            }
            Some((acc, p))
        },
    }
}

/// The combined-hash value `sha256(h1 ++ h2)`, written as a spec function so
/// that contracts can speak of inner Merkle nodes.
pub open spec fn combine_hash_spec(h1: Seq<u8>, h2: Seq<u8>) -> Seq<u8> {
    sha256_of(h1 + h2)
}

/// Hash of the concatenation of two hashes.
pub fn combine_hash(hash1: &CryptoHash, hash2: &CryptoHash) -> (r: CryptoHash)
    ensures
        r.0@ == combine_hash_spec(hash1.0@, hash2.0@),
{
    let mut data: Vec<u8> = Vec::new();
    let mut i: usize = 0;
    while i < 32
        invariant
            0 <= i <= 32,
            data@ == hash1.0@.subrange(0, i as int),
        decreases 32 - i,
    {
        data.push(hash1.0[i]);
        assert(data@ =~= hash1.0@.subrange(0, i + 1));
        i += 1;
    }
    assert(data@ =~= hash1.0@);
    let mut i: usize = 0;
    while i < 32
        invariant
            0 <= i <= 32,
            data@ == hash1.0@ + hash2.0@.subrange(0, i as int),
        decreases 32 - i,
    {
        data.push(hash2.0[i]);
        assert(data@ =~= hash1.0@ + hash2.0@.subrange(0, i + 1));
        i += 1;
    }
    assert(data@ =~= hash1.0@ + hash2.0@);
    CryptoHash(sha256(data.as_slice()))
}

} // verus!
