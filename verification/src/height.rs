//! Heights as the host counts them: a revision number and a height within
//! the revision, ordered lexicographically.

use vstd::prelude::*;

verus! {

/// A host height. NEAR headers always carry revision number zero.
#[derive(Clone, Copy, Debug, PartialEq, Eq, Structural)]
pub struct Height {
    pub revision_number: u64,
    pub revision_height: u64,
}

impl Height {
    pub open spec fn spec_lt(self, other: Height) -> bool {
        self.revision_number < other.revision_number || (self.revision_number
            == other.revision_number && self.revision_height < other.revision_height)
    }

    pub fn new(revision_number: u64, revision_height: u64) -> (r: Height)
        ensures
            r == (Height { revision_number, revision_height }),
    {
        Height { revision_number, revision_height }
    }

    /// Whether this height is strictly below the other, ordering first by
    /// revision number and then by height.
    pub fn lt(&self, other: &Height) -> (r: bool)
        ensures
            r == self.spec_lt(*other),
    {
        self.revision_number < other.revision_number || (self.revision_number
            == other.revision_number && self.revision_height < other.revision_height)
    }

    /// The larger of the two heights.
    pub fn max(&self, other: &Height) -> (r: Height)
        ensures
            r == if self.spec_lt(*other) {
                *other
            } else {
                *self
            },
    {
        if self.lt(other) {
            *other
        } else {
            *self
        }
    }
}

// ---------------------------------------------------------------------------
// Codec
// ---------------------------------------------------------------------------

pub open spec fn enc_height(h: Height) -> Seq<u8> {
    crate::codec::enc_u64(h.revision_number) + crate::codec::enc_u64(h.revision_height)
}

pub open spec fn dec_height(b: Seq<u8>, pos: int) -> Option<(Height, int)> {
    match crate::codec::dec_u64(b, pos) {
        None => None,
        Some((rn, p)) => match crate::codec::dec_u64(b, p) {
            None => None,
            Some((rh, end)) => Some(
                (Height { revision_number: rn, revision_height: rh }, end),
            ),
        },
    }
}

pub proof fn lemma_dec_enc_height(h: Height, b: Seq<u8>, pos: int)
    requires
        0 <= pos,
        pos + 16 <= b.len(),
        b.subrange(pos, pos + 16) == enc_height(h),
    ensures
        dec_height(b, pos) == Some((h, pos + 16)),
{
    crate::codec::lemma_subrange_sub(b, pos, 16, 0, 8);
    assert(enc_height(h).subrange(0, 8) =~= crate::codec::enc_u64(h.revision_number));
    crate::codec::lemma_dec_enc_u64(h.revision_number, b, pos);
    crate::codec::lemma_subrange_sub(b, pos, 16, 8, 8);
    assert(enc_height(h).subrange(8, 16) =~= crate::codec::enc_u64(h.revision_height));
    crate::codec::lemma_dec_enc_u64(h.revision_height, b, pos + 8);
}

pub fn encode_height(h: &Height, out: &mut Vec<u8>)
    ensures
        final(out)@ == old(out)@ + enc_height(*h),
{
    crate::codec::encode_u64(h.revision_number, out);
    crate::codec::encode_u64(h.revision_height, out);
    assert(out@ =~= old(out)@ + enc_height(*h));
}

pub fn decode_height(buf: &[u8], pos: usize) -> (r: Option<(Height, usize)>)
    requires
        pos <= buf@.len(),
    ensures
        match r {
            Some((v, end)) => dec_height(buf@, pos as int) == Some((v, end as int)) && end
                <= buf@.len(),
            None => dec_height(buf@, pos as int) is None,
        },
{
    match crate::codec::decode_u64(buf, pos) {
        None => None,
        Some((rn, p)) => match crate::codec::decode_u64(buf, p) {
            None => None,
            Some((rh, end)) => Some((Height { revision_number: rn, revision_height: rh }, end)),
        },
    }
}

pub open spec fn enc_opt_height(o: Option<Height>) -> Seq<u8> {
    match o {
        None => crate::codec::enc_u8(0),
        Some(h) => crate::codec::enc_u8(1) + enc_height(h),
    }
}

pub open spec fn dec_opt_height(b: Seq<u8>, pos: int) -> Option<(Option<Height>, int)> {
    match crate::codec::dec_u8(b, pos) {
        None => None,
        Some((tag, p)) => if tag == 0 {
            Some((None, p))
        } else if tag == 1 {
            match dec_height(b, p) {
                None => None,
                Some((h, end)) => Some((Some(h), end)),
            }
        } else {
            None
        },
    }
}

pub proof fn lemma_dec_enc_opt_height(o: Option<Height>, b: Seq<u8>, pos: int)
    requires
        0 <= pos,
        pos + enc_opt_height(o).len() <= b.len(),
        b.subrange(pos, pos + enc_opt_height(o).len()) == enc_opt_height(o),
    ensures
        dec_opt_height(b, pos) == Some((o, pos + enc_opt_height(o).len())),
{
    let total = enc_opt_height(o).len() as int;
    match o {
        None => {
            assert(b.subrange(pos, pos + 1) =~= crate::codec::enc_u8(0));
            crate::codec::lemma_dec_enc_u8(0, b, pos);
        },
        Some(h) => {
            crate::codec::lemma_subrange_sub(b, pos, total, 0, 1);
            assert(enc_opt_height(o).subrange(0, 1) =~= crate::codec::enc_u8(1));
            crate::codec::lemma_dec_enc_u8(1, b, pos);
            crate::codec::lemma_subrange_sub(b, pos, total, 1, 16);
            assert(enc_opt_height(o).subrange(1, 17) =~= enc_height(h));
            lemma_dec_enc_height(h, b, pos + 1);
        },
    }
}

pub fn encode_opt_height(o: &Option<Height>, out: &mut Vec<u8>)
    ensures
        final(out)@ == old(out)@ + enc_opt_height(*o),
{
    match o {
        None => {
            crate::codec::encode_u8(0, out);
        },
        Some(h) => {
            crate::codec::encode_u8(1, out);
            encode_height(h, out);
        },
    }
    assert(out@ =~= old(out)@ + enc_opt_height(*o));
}

pub fn decode_opt_height(buf: &[u8], pos: usize) -> (r: Option<(Option<Height>, usize)>)
    requires
        pos <= buf@.len(),
    ensures
        match r {
            Some((v, end)) => dec_opt_height(buf@, pos as int) == Some((v, end as int)) && end
                <= buf@.len(),
            None => dec_opt_height(buf@, pos as int) is None,
        },
{
    match crate::codec::decode_u8(buf, pos) {
        None => None,
        Some((tag, p)) => {
            if tag == 0 {
                Some((None, p))
            } else if tag == 1 {
                match decode_height(buf, p) {
                    None => None,
                    Some((h, end)) => Some((Some(h), end)),
                }
            } else {
                None
            }
        },
    }
}

} // verus!
