//! Misbehaviour evidence: two headers that honest protocol execution could
//! not both have produced.

use vstd::prelude::*;

use crate::codec::{
    dec_bytes, decode_bytes, enc_bytes, encode_bytes, lemma_dec_enc_bytes, lemma_subrange_sub,
};
use crate::header::{
    dec_header, decode_header_at, enc_header, encode_header, lemma_dec_enc_header, Header,
    SpecHeader,
};

verus! {

/// Evidence of misbehaviour on a client: two conflicting headers.
pub struct Misbehaviour {
    pub client_id: Vec<u8>,
    pub header1: Header,
    pub header2: Header,
}

/// The mathematical content of a misbehaviour message.
pub struct SpecMisbehaviour {
    pub client_id: Seq<u8>,
    pub header1: SpecHeader,
    pub header2: SpecHeader,
}

impl View for Misbehaviour {
    type V = SpecMisbehaviour;

    open spec fn view(&self) -> SpecMisbehaviour {
        SpecMisbehaviour {
            client_id: self.client_id@,
            header1: self.header1@,
            header2: self.header2@,
        }
    }
}

impl SpecMisbehaviour {
    pub open spec fn wf(self) -> bool {
        &&& self.client_id.len() <= u32::MAX
        &&& self.header1.wf()
        &&& self.header2.wf()
    }
}

impl Misbehaviour {
    pub fn new(client_id: Vec<u8>, header1: Header, header2: Header) -> (r: Self)
        ensures
            r@ == (SpecMisbehaviour {
                client_id: client_id@,
                header1: header1@,
                header2: header2@,
            }),
    {
        Misbehaviour { client_id, header1, header2 }
    }

    /// UTF-8 bytes of the identifier of the client the evidence concerns.
    pub fn client_id(&self) -> (r: &Vec<u8>)
        ensures
            r@ == self@.client_id,
    {
        &self.client_id
    }

    pub fn header1(&self) -> (r: &Header)
        ensures
            r@ == self@.header1,
    {
        &self.header1
    }

    pub fn header2(&self) -> (r: &Header)
        ensures
            r@ == self@.header2,
    {
        &self.header2
    }
}

// ---------------------------------------------------------------------------
// Codec
// ---------------------------------------------------------------------------

pub open spec fn enc_misbehaviour(v: SpecMisbehaviour) -> Seq<u8> {
    enc_bytes(v.client_id) + enc_header(v.header1) + enc_header(v.header2)
}

pub open spec fn dec_misbehaviour(b: Seq<u8>, pos: int) -> Option<(SpecMisbehaviour, int)> {
    match dec_bytes(b, pos) {
        None => None,
        Some((client_id, p1)) => match dec_header(b, p1) {
            None => None,
            Some((header1, p2)) => match dec_header(b, p2) {
                None => None,
                Some((header2, p3)) => Some(
                    (SpecMisbehaviour { client_id, header1, header2 }, p3),
                ),
            },
        },
    }
}

#[verifier::rlimit(50)]
pub proof fn lemma_dec_enc_misbehaviour(v: SpecMisbehaviour, b: Seq<u8>, pos: int)
    requires
        0 <= pos,
        v.wf(),
        pos + enc_misbehaviour(v).len() <= b.len(),
        b.subrange(pos, pos + enc_misbehaviour(v).len()) == enc_misbehaviour(v),
    ensures
        dec_misbehaviour(b, pos) == Some((v, pos + enc_misbehaviour(v).len())),
{
    let total = enc_misbehaviour(v).len() as int;
    let l0 = enc_bytes(v.client_id).len() as int;
    let l1 = enc_header(v.header1).len() as int;
    let l2 = enc_header(v.header2).len() as int;
    lemma_subrange_sub(b, pos, total, 0, l0);
    assert(enc_misbehaviour(v).subrange(0, l0) =~= enc_bytes(v.client_id));
    lemma_dec_enc_bytes(v.client_id, b, pos);
    lemma_subrange_sub(b, pos, total, l0, l1);
    assert(enc_misbehaviour(v).subrange(l0, l0 + l1) =~= enc_header(v.header1));
    lemma_dec_enc_header(v.header1, b, pos + l0);
    lemma_subrange_sub(b, pos, total, l0 + l1, l2);
    assert(enc_misbehaviour(v).subrange(l0 + l1, total) =~= enc_header(v.header2));
    lemma_dec_enc_header(v.header2, b, pos + l0 + l1);
}

pub fn encode_misbehaviour(v: &Misbehaviour, out: &mut Vec<u8>)
    requires
        v@.wf(),
    ensures
        final(out)@ == old(out)@ + enc_misbehaviour(v@),
{
    encode_bytes(&v.client_id, out);
    encode_header(&v.header1, out);
    encode_header(&v.header2, out);
    assert(out@ =~= old(out)@ + enc_misbehaviour(v@));
}

pub fn decode_misbehaviour_at(buf: &[u8], pos: usize) -> (r: Option<(Misbehaviour, usize)>)
    requires
        pos <= buf@.len(),
    ensures
        match r {
            Some((v, end)) => dec_misbehaviour(buf@, pos as int) == Some((v@, end as int)) && end
                <= buf@.len() && v@.wf(),
            None => dec_misbehaviour(buf@, pos as int) is None,
        },
{
    match decode_bytes(buf, pos) {
        None => None,
        Some((client_id, p1)) => match decode_header_at(buf, p1) {
            None => None,
            Some((header1, p2)) => match decode_header_at(buf, p2) {
                None => None,
                Some((header2, p3)) => Some((Misbehaviour { client_id, header1, header2 }, p3)),
            },
        },
    }
}

/// Decodes a misbehaviour message from its canonical bytes; the whole buffer
/// must be one message and nothing else.
pub fn decode_misbehaviour(buf: &[u8]) -> (r: Option<Misbehaviour>)
    ensures
        match r {
            Some(v) => dec_misbehaviour(buf@, 0) == Some((v@, buf@.len() as int)) && v@.wf(),
            None => !(dec_misbehaviour(buf@, 0) matches Some((_, end)) && end == buf@.len()),
        },
{
    match decode_misbehaviour_at(buf, 0) {
        None => None,
        Some((v, end)) => {
            if end == buf.len() {
                Some(v)
            } else {
                None
            }
        },
    }
}

} // verus!
