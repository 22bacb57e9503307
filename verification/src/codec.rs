//! Canonical binary encoding used for all hashing and commitment roots:
//! little-endian fixed-width integers, length-prefixed byte strings,
//! `Option` as a one-byte tag, enums as a one-byte discriminant.
//!
//! Every `enc_*` spec function gives the exact byte string of a value, every
//! `dec_*` spec function the exact parse, and the `lemma_dec_enc_*` lemmas
//! prove that parsing inverts printing. Executable encoders and decoders are
//! verified against these spec functions.

use vstd::prelude::*;

verus! {

/// A window into a window of a byte string is a window of it: used to hand a
/// component its own bytes out of a composite encoding.
pub proof fn lemma_subrange_sub(b: Seq<u8>, pos: int, total: int, off: int, len: int)
    requires
        0 <= pos,
        0 <= off,
        0 <= len,
        off + len <= total,
        pos + total <= b.len(),
    ensures
        b.subrange(pos + off, pos + off + len) == b.subrange(pos, pos + total).subrange(
            off,
            off + len,
        ),
{
    assert(b.subrange(pos + off, pos + off + len) =~= b.subrange(pos, pos + total).subrange(
        off,
        off + len,
    ));
}

// ---------------------------------------------------------------------------
// u8
// ---------------------------------------------------------------------------

pub open spec fn enc_u8(v: u8) -> Seq<u8> {
    seq![v]
}

pub open spec fn dec_u8(b: Seq<u8>, pos: int) -> Option<(u8, int)> {
    if 0 <= pos && pos + 1 <= b.len() {
        Some((b[pos], pos + 1))
    } else {
        None
    }
}

pub proof fn lemma_dec_enc_u8(v: u8, b: Seq<u8>, pos: int)
    requires
        0 <= pos,
        pos + 1 <= b.len(),
        b.subrange(pos, pos + 1) == enc_u8(v),
    ensures
        dec_u8(b, pos) == Some((v, pos + 1)),
{
    assert(b[pos] == b.subrange(pos, pos + 1)[0]);
}

pub fn encode_u8(v: u8, out: &mut Vec<u8>)
    ensures
        final(out)@ == old(out)@ + enc_u8(v),
{
    out.push(v);
    assert(out@ =~= old(out)@ + enc_u8(v));
}

pub fn decode_u8(buf: &[u8], pos: usize) -> (r: Option<(u8, usize)>)
    requires
        pos <= buf@.len(),
    ensures
        match r {
            Some((v, end)) => dec_u8(buf@, pos as int) == Some((v, end as int)) && end <= buf@.len(),
            None => dec_u8(buf@, pos as int) is None,
        },
{
    if buf.len() - pos >= 1 {
        Some((buf[pos], pos + 1))
    } else {
        None
    }
}

// ---------------------------------------------------------------------------
// u32, little endian
// ---------------------------------------------------------------------------

pub open spec fn enc_u32(v: u32) -> Seq<u8> {
    let q1 = v / 0x100;
    let q2 = q1 / 0x100;
    let q3 = q2 / 0x100;
    seq![(v % 0x100) as u8, (q1 % 0x100) as u8, (q2 % 0x100) as u8, (q3 % 0x100) as u8]
}

/// The value of the four little-endian bytes at `pos`.
pub open spec fn le32_at(b: Seq<u8>, pos: int) -> int {
    b[pos] + 0x100 * (b[pos + 1] + 0x100 * (b[pos + 2] + 0x100 * b[pos + 3]))
}

pub open spec fn dec_u32(b: Seq<u8>, pos: int) -> Option<(u32, int)> {
    if 0 <= pos && pos + 4 <= b.len() {
        Some((le32_at(b, pos) as u32, pos + 4))
    } else {
        None
    }
}

pub proof fn lemma_dec_enc_u32(v: u32, b: Seq<u8>, pos: int)
    requires
        0 <= pos,
        pos + 4 <= b.len(),
        b.subrange(pos, pos + 4) == enc_u32(v),
    ensures
        dec_u32(b, pos) == Some((v, pos + 4)),
{
    let s = b.subrange(pos, pos + 4);
    assert(b[pos] == s[0] && b[pos + 1] == s[1] && b[pos + 2] == s[2] && b[pos + 3] == s[3]);
    let q1 = v / 0x100;
    let q2 = q1 / 0x100;
    let q3 = q2 / 0x100;
    assert(q3 % 0x100 == q3 && q2 == q2 % 0x100 + 0x100 * q3 && q1 == q1 % 0x100 + 0x100 * q2
        && v == v % 0x100 + 0x100 * q1);
    assert(le32_at(b, pos) == v);
}

pub fn encode_u32(v: u32, out: &mut Vec<u8>)
    ensures
        final(out)@ == old(out)@ + enc_u32(v),
{
    let q1 = v / 0x100;
    let q2 = q1 / 0x100;
    let q3 = q2 / 0x100;
    out.push((v % 0x100) as u8);
    out.push((q1 % 0x100) as u8);
    out.push((q2 % 0x100) as u8);
    out.push((q3 % 0x100) as u8);
    assert(out@ =~= old(out)@ + enc_u32(v));
}

pub fn decode_u32(buf: &[u8], pos: usize) -> (r: Option<(u32, usize)>)
    requires
        pos <= buf@.len(),
    ensures
        match r {
            Some((v, end)) => dec_u32(buf@, pos as int) == Some((v, end as int)) && end <= buf@.len(),
            None => dec_u32(buf@, pos as int) is None,
        },
{
    if buf.len() - pos >= 4 {
        let v: u32 = (buf[pos] as u32) + 0x100 * ((buf[pos + 1] as u32) + 0x100 * ((buf[pos + 2]
            as u32) + 0x100 * (buf[pos + 3] as u32)));
        Some((v, pos + 4))
    } else {
        None
    }
}

// ---------------------------------------------------------------------------
// u64, little endian
// ---------------------------------------------------------------------------

pub open spec fn enc_u64(v: u64) -> Seq<u8> {
    let q1 = v / 0x100;
    let q2 = q1 / 0x100;
    let q3 = q2 / 0x100;
    let q4 = q3 / 0x100;
    let q5 = q4 / 0x100;
    let q6 = q5 / 0x100;
    let q7 = q6 / 0x100;
    seq![
        (v % 0x100) as u8,
        (q1 % 0x100) as u8,
        (q2 % 0x100) as u8,
        (q3 % 0x100) as u8,
        (q4 % 0x100) as u8,
        (q5 % 0x100) as u8,
        (q6 % 0x100) as u8,
        (q7 % 0x100) as u8,
    ]
}

/// The value of the eight little-endian bytes at `pos`.
pub open spec fn le64_at(b: Seq<u8>, pos: int) -> int {
    b[pos] + 0x100 * (b[pos + 1] + 0x100 * (b[pos + 2] + 0x100 * (b[pos + 3] + 0x100 * (b[pos + 4]
        + 0x100 * (b[pos + 5] + 0x100 * (b[pos + 6] + 0x100 * b[pos + 7]))))))
}

pub open spec fn dec_u64(b: Seq<u8>, pos: int) -> Option<(u64, int)> {
    if 0 <= pos && pos + 8 <= b.len() {
        Some((le64_at(b, pos) as u64, pos + 8))
    } else {
        None
    }
}

pub proof fn lemma_dec_enc_u64(v: u64, b: Seq<u8>, pos: int)
    requires
        0 <= pos,
        pos + 8 <= b.len(),
        b.subrange(pos, pos + 8) == enc_u64(v),
    ensures
        dec_u64(b, pos) == Some((v, pos + 8)),
{
    let s = b.subrange(pos, pos + 8);
    assert(forall|i: int| 0 <= i < 8 ==> b[pos + i] == s[i]);
    let q1 = v / 0x100;
    let q2 = q1 / 0x100;
    let q3 = q2 / 0x100;
    let q4 = q3 / 0x100;
    let q5 = q4 / 0x100;
    let q6 = q5 / 0x100;
    let q7 = q6 / 0x100;
    assert(q7 % 0x100 == q7 && q6 == q6 % 0x100 + 0x100 * q7 && q5 == q5 % 0x100 + 0x100 * q6
        && q4 == q4 % 0x100 + 0x100 * q5 && q3 == q3 % 0x100 + 0x100 * q4 && q2 == q2 % 0x100
        + 0x100 * q3 && q1 == q1 % 0x100 + 0x100 * q2 && v == v % 0x100 + 0x100 * q1);
    assert(le64_at(b, pos) == v);
}

pub fn encode_u64(v: u64, out: &mut Vec<u8>)
    ensures
        final(out)@ == old(out)@ + enc_u64(v),
{
    let q1 = v / 0x100;
    let q2 = q1 / 0x100;
    let q3 = q2 / 0x100;
    let q4 = q3 / 0x100;
    let q5 = q4 / 0x100;
    let q6 = q5 / 0x100;
    let q7 = q6 / 0x100;
    out.push((v % 0x100) as u8);
    out.push((q1 % 0x100) as u8);
    out.push((q2 % 0x100) as u8);
    out.push((q3 % 0x100) as u8);
    out.push((q4 % 0x100) as u8);
    out.push((q5 % 0x100) as u8);
    out.push((q6 % 0x100) as u8);
    out.push((q7 % 0x100) as u8);
    assert(out@ =~= old(out)@ + enc_u64(v));
}

pub fn decode_u64(buf: &[u8], pos: usize) -> (r: Option<(u64, usize)>)
    requires
        pos <= buf@.len(),
    ensures
        match r {
            Some((v, end)) => dec_u64(buf@, pos as int) == Some((v, end as int)) && end <= buf@.len(),
            None => dec_u64(buf@, pos as int) is None,
        },
{
    if buf.len() - pos >= 8 {
        let v: u64 = (buf[pos] as u64) + 0x100 * ((buf[pos + 1] as u64) + 0x100 * ((buf[pos + 2]
            as u64) + 0x100 * ((buf[pos + 3] as u64) + 0x100 * ((buf[pos + 4] as u64) + 0x100 * ((
        buf[pos + 5] as u64) + 0x100 * ((buf[pos + 6] as u64) + 0x100 * (buf[pos + 7] as u64)))))));
        Some((v, pos + 8))
    } else {
        None
    }
}

// ---------------------------------------------------------------------------
// u128, little endian
// ---------------------------------------------------------------------------

pub open spec fn enc_u128(v: u128) -> Seq<u8> {
    let q1 = v / 0x100;
    let q2 = q1 / 0x100;
    let q3 = q2 / 0x100;
    let q4 = q3 / 0x100;
    let q5 = q4 / 0x100;
    let q6 = q5 / 0x100;
    let q7 = q6 / 0x100;
    let q8 = q7 / 0x100;
    let q9 = q8 / 0x100;
    let q10 = q9 / 0x100;
    let q11 = q10 / 0x100;
    let q12 = q11 / 0x100;
    let q13 = q12 / 0x100;
    let q14 = q13 / 0x100;
    let q15 = q14 / 0x100;
    seq![
        (v % 0x100) as u8,
        (q1 % 0x100) as u8,
        (q2 % 0x100) as u8,
        (q3 % 0x100) as u8,
        (q4 % 0x100) as u8,
        (q5 % 0x100) as u8,
        (q6 % 0x100) as u8,
        (q7 % 0x100) as u8,
        (q8 % 0x100) as u8,
        (q9 % 0x100) as u8,
        (q10 % 0x100) as u8,
        (q11 % 0x100) as u8,
        (q12 % 0x100) as u8,
        (q13 % 0x100) as u8,
        (q14 % 0x100) as u8,
        (q15 % 0x100) as u8,
    ]
}

/// The value of the sixteen little-endian bytes at `pos`.
pub open spec fn le128_at(b: Seq<u8>, pos: int) -> int {
    b[pos] + 0x100 * (b[pos + 1] + 0x100 * (b[pos + 2] + 0x100 * (b[pos + 3] + 0x100 * (b[pos + 4]
        + 0x100 * (b[pos + 5] + 0x100 * (b[pos + 6] + 0x100 * (b[pos + 7] + 0x100 * (b[pos + 8]
        + 0x100 * (b[pos + 9] + 0x100 * (b[pos + 10] + 0x100 * (b[pos + 11] + 0x100 * (b[pos + 12]
        + 0x100 * (b[pos + 13] + 0x100 * (b[pos + 14] + 0x100 * b[pos + 15]))))))))))))))
}

pub open spec fn dec_u128(b: Seq<u8>, pos: int) -> Option<(u128, int)> {
    if 0 <= pos && pos + 16 <= b.len() {
        Some((le128_at(b, pos) as u128, pos + 16))
    } else {
        None
    }
}

pub proof fn lemma_dec_enc_u128(v: u128, b: Seq<u8>, pos: int)
    requires
        0 <= pos,
        pos + 16 <= b.len(),
        b.subrange(pos, pos + 16) == enc_u128(v),
    ensures
        dec_u128(b, pos) == Some((v, pos + 16)),
{
    let s = b.subrange(pos, pos + 16);
    assert(forall|i: int| 0 <= i < 16 ==> b[pos + i] == s[i]);
    let q1 = v / 0x100;
    let q2 = q1 / 0x100;
    let q3 = q2 / 0x100;
    let q4 = q3 / 0x100;
    let q5 = q4 / 0x100;
    let q6 = q5 / 0x100;
    let q7 = q6 / 0x100;
    let q8 = q7 / 0x100;
    let q9 = q8 / 0x100;
    let q10 = q9 / 0x100;
    let q11 = q10 / 0x100;
    let q12 = q11 / 0x100;
    let q13 = q12 / 0x100;
    let q14 = q13 / 0x100;
    let q15 = q14 / 0x100;
    assert(q15 % 0x100 == q15 && q14 == q14 % 0x100 + 0x100 * q15 && q13 == q13 % 0x100 + 0x100
        * q14 && q12 == q12 % 0x100 + 0x100 * q13 && q11 == q11 % 0x100 + 0x100 * q12 && q10 == q10
        % 0x100 + 0x100 * q11 && q9 == q9 % 0x100 + 0x100 * q10 && q8 == q8 % 0x100 + 0x100 * q9
        && q7 == q7 % 0x100 + 0x100 * q8 && q6 == q6 % 0x100 + 0x100 * q7 && q5 == q5 % 0x100
        + 0x100 * q6 && q4 == q4 % 0x100 + 0x100 * q5 && q3 == q3 % 0x100 + 0x100 * q4 && q2 == q2
        % 0x100 + 0x100 * q3 && q1 == q1 % 0x100 + 0x100 * q2 && v == v % 0x100 + 0x100 * q1);
    assert(le128_at(b, pos) == v);
}

pub fn encode_u128(v: u128, out: &mut Vec<u8>)
    ensures
        final(out)@ == old(out)@ + enc_u128(v),
{
    let q1 = v / 0x100;
    let q2 = q1 / 0x100;
    let q3 = q2 / 0x100;
    let q4 = q3 / 0x100;
    let q5 = q4 / 0x100;
    let q6 = q5 / 0x100;
    let q7 = q6 / 0x100;
    let q8 = q7 / 0x100;
    let q9 = q8 / 0x100;
    let q10 = q9 / 0x100;
    let q11 = q10 / 0x100;
    let q12 = q11 / 0x100;
    let q13 = q12 / 0x100;
    let q14 = q13 / 0x100;
    let q15 = q14 / 0x100;
    out.push((v % 0x100) as u8);
    out.push((q1 % 0x100) as u8);
    out.push((q2 % 0x100) as u8);
    out.push((q3 % 0x100) as u8);
    out.push((q4 % 0x100) as u8);
    out.push((q5 % 0x100) as u8);
    out.push((q6 % 0x100) as u8);
    out.push((q7 % 0x100) as u8);
    out.push((q8 % 0x100) as u8);
    out.push((q9 % 0x100) as u8);
    out.push((q10 % 0x100) as u8);
    out.push((q11 % 0x100) as u8);
    out.push((q12 % 0x100) as u8);
    out.push((q13 % 0x100) as u8);
    out.push((q14 % 0x100) as u8);
    out.push((q15 % 0x100) as u8);
    assert(out@ =~= old(out)@ + enc_u128(v));
}

pub fn decode_u128(buf: &[u8], pos: usize) -> (r: Option<(u128, usize)>)
    requires
        pos <= buf@.len(),
    ensures
        match r {
            Some((v, end)) => dec_u128(buf@, pos as int) == Some((v, end as int)) && end
                <= buf@.len(),
            None => dec_u128(buf@, pos as int) is None,
        },
{
    if buf.len() - pos >= 16 {
        let v: u128 = (buf[pos] as u128) + 0x100 * ((buf[pos + 1] as u128) + 0x100 * ((buf[pos + 2]
            as u128) + 0x100 * ((buf[pos + 3] as u128) + 0x100 * ((buf[pos + 4] as u128) + 0x100
            * ((buf[pos + 5] as u128) + 0x100 * ((buf[pos + 6] as u128) + 0x100 * ((buf[pos + 7]
            as u128) + 0x100 * ((buf[pos + 8] as u128) + 0x100 * ((buf[pos + 9] as u128) + 0x100
            * ((buf[pos + 10] as u128) + 0x100 * ((buf[pos + 11] as u128) + 0x100 * ((buf[pos + 12]
            as u128) + 0x100 * ((buf[pos + 13] as u128) + 0x100 * ((buf[pos + 14] as u128) + 0x100
            * (buf[pos + 15] as u128)))))))))))))));
        Some((v, pos + 16))
    } else {
        None
    }
}

// ---------------------------------------------------------------------------
// Byte strings, length-prefixed
// ---------------------------------------------------------------------------

/// Whether a byte string is short enough for its length prefix.
pub open spec fn bytes_wf(s: Seq<u8>) -> bool {
    s.len() <= u32::MAX
}

pub open spec fn enc_bytes(s: Seq<u8>) -> Seq<u8> {
    enc_u32(s.len() as u32) + s
}

pub open spec fn dec_bytes(b: Seq<u8>, pos: int) -> Option<(Seq<u8>, int)> {
    match dec_u32(b, pos) {
        None => None,
        Some((n, p)) => if p + n <= b.len() {
            Some((b.subrange(p, p + n), p + n))
        } else {
            None
        },
    }
}

pub proof fn lemma_dec_enc_bytes(s: Seq<u8>, b: Seq<u8>, pos: int)
    requires
        0 <= pos,
        bytes_wf(s),
        pos + enc_bytes(s).len() <= b.len(),
        b.subrange(pos, pos + enc_bytes(s).len()) == enc_bytes(s),
    ensures
        dec_bytes(b, pos) == Some((s, pos + enc_bytes(s).len())),
{
    let n = s.len() as int;
    assert(b.subrange(pos, pos + 4) =~= enc_u32(s.len() as u32)) by {
        assert(forall|i: int|
            0 <= i < 4 ==> #[trigger] b.subrange(pos, pos + 4)[i] == b.subrange(pos, pos + 4 + n)[i]);
    }
    lemma_dec_enc_u32(s.len() as u32, b, pos);
    assert(b.subrange(pos + 4, pos + 4 + n) =~= s) by {
        assert(forall|i: int|
            0 <= i < n ==> #[trigger] b.subrange(pos + 4, pos + 4 + n)[i] == b.subrange(
                pos,
                pos + 4 + n,
            )[4 + i]);
    }
}

pub fn encode_bytes(s: &Vec<u8>, out: &mut Vec<u8>)
    requires
        bytes_wf(s@),
    ensures
        final(out)@ == old(out)@ + enc_bytes(s@),
{
    encode_u32(s.len() as u32, out);
    let ghost mid = out@;
    let mut i: usize = 0;
    while i < s.len()
        invariant
            0 <= i <= s@.len(),
            out@ == mid + s@.subrange(0, i as int),
        decreases s@.len() - i,
    {
        out.push(s[i]);
        assert(out@ =~= mid + s@.subrange(0, i as int + 1));
        i += 1;
    }
    assert(out@ =~= old(out)@ + enc_bytes(s@));
}

pub fn decode_bytes(buf: &[u8], pos: usize) -> (r: Option<(Vec<u8>, usize)>)
    requires
        pos <= buf@.len(),
    ensures
        match r {
            Some((v, end)) => dec_bytes(buf@, pos as int) == Some((v@, end as int)) && end
                <= buf@.len(),
            None => dec_bytes(buf@, pos as int) is None,
        },
{
    match decode_u32(buf, pos) {
        None => None,
        Some((n, p)) => {
            if n as usize <= buf.len() - p {
                let end = p + n as usize;
                let mut v: Vec<u8> = Vec::new();
                let mut i: usize = p;
                while i < end
                    invariant
                        p <= i <= end <= buf@.len(),
                        v@ == buf@.subrange(p as int, i as int),
                    decreases end - i,
                {
                    v.push(buf[i]);
                    assert(v@ =~= buf@.subrange(p as int, i as int + 1));
                    i += 1;
                }
                Some((v, end))
            } else {
                None
            }
        },
    }
}

// ---------------------------------------------------------------------------
// Lists of byte strings, count-prefixed
// ---------------------------------------------------------------------------

/// The view of a list of byte strings.
pub open spec fn bytes_list_view(v: Seq<Vec<u8>>) -> Seq<Seq<u8>> {
    v.map_values(|x: Vec<u8>| x@)
}

pub proof fn lemma_bytes_list_view_push(s: Seq<Vec<u8>>, x: Vec<u8>)
    ensures
        bytes_list_view(s.push(x)) == bytes_list_view(s).push(x@),
{
    assert(bytes_list_view(s.push(x)) =~= bytes_list_view(s).push(x@));
}

pub open spec fn bytes_list_wf(s: Seq<Seq<u8>>) -> bool {
    &&& s.len() <= u32::MAX
    &&& forall|i: int| 0 <= i < s.len() ==> (#[trigger] s[i]).len() <= u32::MAX
}

pub open spec fn enc_bytes_items(s: Seq<Seq<u8>>) -> Seq<u8>
    decreases s.len(),
{
    if s.len() == 0 {
        Seq::empty()
    } else {
        enc_bytes(s[0]) + enc_bytes_items(s.drop_first())
    }
}

/// Encoding of a list of byte strings: a count, then each length-prefixed.
pub open spec fn enc_bytes_list(s: Seq<Seq<u8>>) -> Seq<u8> {
    enc_u32(s.len() as u32) + enc_bytes_items(s)
}

pub open spec fn dec_bytes_items(b: Seq<u8>, pos: int, n: nat) -> Option<(Seq<Seq<u8>>, int)>
    decreases n,
{
    if n == 0 {
        Some((Seq::empty(), pos))
    } else {
        match dec_bytes(b, pos) {
            None => None,
            Some((x, p)) => match dec_bytes_items(b, p, (n - 1) as nat) {
                None => None,
                Some((rest, end)) => Some((seq![x] + rest, end)),
            },
        }
    }
}

pub open spec fn dec_bytes_list(b: Seq<u8>, pos: int) -> Option<(Seq<Seq<u8>>, int)> {
    match dec_u32(b, pos) {
        None => None,
        Some((n, p)) => dec_bytes_items(b, p, n as nat),
    }
}

pub proof fn lemma_enc_bytes_items_push(s: Seq<Seq<u8>>, x: Seq<u8>)
    ensures
        enc_bytes_items(s.push(x)) == enc_bytes_items(s) + enc_bytes(x),
    decreases s.len(),
{
    if s.len() == 0 {
        assert(s.push(x).drop_first() =~= s);
        assert(enc_bytes_items(s.push(x)) =~= enc_bytes_items(s) + enc_bytes(x));
    } else {
        assert(s.push(x).drop_first() =~= s.drop_first().push(x));
        lemma_enc_bytes_items_push(s.drop_first(), x);
        assert(enc_bytes_items(s.push(x)) =~= enc_bytes_items(s) + enc_bytes(x));
    }
}

pub fn encode_bytes_list(list: &Vec<Vec<u8>>, out: &mut Vec<u8>)
    requires
        bytes_list_wf(bytes_list_view(list@)),
    ensures
        final(out)@ == old(out)@ + enc_bytes_list(bytes_list_view(list@)),
{
    let ghost full = bytes_list_view(list@);
    encode_u32(list.len() as u32, out);
    let ghost base = out@;
    let mut i: usize = 0;
    while i < list.len()
        invariant
            0 <= i <= list@.len(),
            bytes_list_wf(bytes_list_view(list@)),
            full == bytes_list_view(list@),
            out@ == base + enc_bytes_items(full.take(i as int)),
        decreases list@.len() - i,
    {
        assert(full[i as int] == list@[i as int]@ && full[i as int].len() <= u32::MAX);
        assert(full.take(i as int).push(full[i as int]) =~= full.take(i as int + 1));
        proof {
            lemma_enc_bytes_items_push(full.take(i as int), full[i as int]);
        }
        encode_bytes(&list[i], out);
        i += 1;
    }
    assert(full.take(list@.len() as int) =~= full);
}

pub fn decode_bytes_list(buf: &[u8], pos: usize) -> (r: Option<(Vec<Vec<u8>>, usize)>)
    requires
        pos <= buf@.len(),
    ensures
        match r {
            Some((v, end)) => dec_bytes_list(buf@, pos as int) == Some(
                (bytes_list_view(v@), end as int),
            ) && end <= buf@.len(),
            None => dec_bytes_list(buf@, pos as int) is None,
        },
{
    match decode_u32(buf, pos) {
        None => None,
        Some((n, p0)) => {
            let mut acc: Vec<Vec<u8>> = Vec::new();
            let mut p = p0;
            let mut i: u32 = 0;
            loop
                invariant
                    0 <= i <= n,
                    p <= buf@.len(),
                    acc@.len() == i,
                    dec_u32(buf@, pos as int) == Some((n, p0 as int)),
                    match dec_bytes_items(buf@, p as int, (n - i) as nat) {
                        Some((rest, end)) => dec_bytes_items(buf@, p0 as int, n as nat) == Some(
                            (bytes_list_view(acc@) + rest, end),
                        ),
                        None => dec_bytes_items(buf@, p0 as int, n as nat) is None,
                    },
                ensures
                    match dec_bytes_items(buf@, p0 as int, n as nat) {
                        Some((items, end)) => bytes_list_view(acc@) == items && p == end && p
                            <= buf@.len(),
                        None => false,
                    },
                decreases n - i,
            {
                if i == n {
                    assert(dec_bytes_items(buf@, p as int, 0) == Some(
                        (Seq::<Seq<u8>>::empty(), p as int),
                    ));
                    assert(bytes_list_view(acc@) + Seq::<Seq<u8>>::empty() =~= bytes_list_view(
                        acc@,
                    ));
                    break;
                }
                match decode_bytes(buf, p) {
                    None => {
                        return None;
                    },
                    Some((x, p2)) => {
                        let ghost xx = x;
                        proof {
                            lemma_bytes_list_view_push(acc@, xx);
                            let rest0 = dec_bytes_items(buf@, p2 as int, (n - i - 1) as nat);
                            if rest0 is Some {
                                let (rest, end) = rest0->Some_0;
                                assert(bytes_list_view(acc@) + (seq![xx@] + rest)
                                    =~= bytes_list_view(acc@.push(xx)) + rest);
                            }
                        }
                        acc.push(x);
                        p = p2;
                        i += 1;
                    },
                }
            }
            Some((acc, p))
        },
    }
}

// ---------------------------------------------------------------------------
// Fixed-width byte strings, no length prefix
// ---------------------------------------------------------------------------

pub open spec fn dec_fixed(b: Seq<u8>, pos: int, n: int) -> Option<(Seq<u8>, int)> {
    if 0 <= pos && 0 <= n && pos + n <= b.len() {
        Some((b.subrange(pos, pos + n), pos + n))
    } else {
        None
    }
}

pub proof fn lemma_dec_enc_fixed(s: Seq<u8>, b: Seq<u8>, pos: int)
    requires
        0 <= pos,
        pos + s.len() <= b.len(),
        b.subrange(pos, pos + s.len()) == s,
    ensures
        dec_fixed(b, pos, s.len() as int) == Some((s, pos + s.len())),
{
}

pub fn encode_raw(s: &Vec<u8>, out: &mut Vec<u8>)
    ensures
        final(out)@ == old(out)@ + s@,
{
    let ghost base = out@;
    let mut i: usize = 0;
    while i < s.len()
        invariant
            0 <= i <= s@.len(),
            out@ == base + s@.subrange(0, i as int),
        decreases s@.len() - i,
    {
        out.push(s[i]);
        assert(out@ =~= base + s@.subrange(0, i as int + 1));
        i += 1;
    }
    assert(out@ =~= base + s@);
}

pub fn decode_fixed(buf: &[u8], pos: usize, n: usize) -> (r: Option<(Vec<u8>, usize)>)
    requires
        pos <= buf@.len(),
    ensures
        match r {
            Some((v, end)) => dec_fixed(buf@, pos as int, n as int) == Some((v@, end as int))
                && end <= buf@.len() && v@.len() == n,
            None => dec_fixed(buf@, pos as int, n as int) is None,
        },
{
    let blen = buf.len();
    if blen - pos >= n {
        let end = pos + n;
        let mut v: Vec<u8> = Vec::new();
        let mut i: usize = pos;
        while i < end
            invariant
                pos <= i <= end <= buf@.len(),
                v@ == buf@.subrange(pos as int, i as int),
            decreases end - i,
        {
            v.push(buf[i]);
            assert(v@ =~= buf@.subrange(pos as int, i as int + 1));
            i += 1;
        }
        Some((v, end))
    } else {
        None
    }
}

// ---------------------------------------------------------------------------
// Fixed 32-byte values
// ---------------------------------------------------------------------------

pub open spec fn dec_arr32(b: Seq<u8>, pos: int) -> Option<(Seq<u8>, int)> {
    if 0 <= pos && pos + 32 <= b.len() {
        Some((b.subrange(pos, pos + 32), pos + 32))
    } else {
        None
    }
}

pub proof fn lemma_dec_enc_arr32(s: Seq<u8>, b: Seq<u8>, pos: int)
    requires
        0 <= pos,
        s.len() == 32,
        pos + 32 <= b.len(),
        b.subrange(pos, pos + 32) == s,
    ensures
        dec_arr32(b, pos) == Some((s, pos + 32)),
{
}

pub fn encode_arr32(s: &[u8; 32], out: &mut Vec<u8>)
    ensures
        final(out)@ == old(out)@ + s@,
{
    let ghost base = out@;
    let mut i: usize = 0;
    while i < 32
        invariant
            0 <= i <= 32,
            out@ == base + s@.subrange(0, i as int),
        decreases 32 - i,
    {
        out.push(s[i]);
        assert(out@ =~= base + s@.subrange(0, i as int + 1));
        i += 1;
    }
    assert(out@ =~= base + s@);
}

pub fn decode_arr32(buf: &[u8], pos: usize) -> (r: Option<([u8; 32], usize)>)
    requires
        pos <= buf@.len(),
    ensures
        match r {
            Some((v, end)) => dec_arr32(buf@, pos as int) == Some((v@, end as int)) && end
                <= buf@.len(),
            None => dec_arr32(buf@, pos as int) is None,
        },
{
    let blen = buf.len();
    if blen - pos >= 32 {
        let mut v = [0u8; 32];
        let mut i: usize = 0;
        while i < 32
            invariant
                0 <= i <= 32,
                pos + 32 <= blen,
                blen == buf@.len(),
                v@.len() == 32,
                forall|j: int| 0 <= j < i ==> v@[j] == buf@[pos + j],
            decreases 32 - i,
        {
            v[i] = buf[pos + i];
            i += 1;
        }
        assert(v@ =~= buf@.subrange(pos as int, pos as int + 32));
        Some((v, pos + 32))
    } else {
        None
    }
}

} // verus!
