//! The NEAR state trie: raw node model, node codec, and verification of
//! membership and non-membership proofs against a claimed root hash.
//!
//! A proof is a list of nodes in walk order. The walk drives a cursor of
//! remaining key nibbles from the root node downwards; every child step must
//! hash-match the next node in the list, every node must be used, and no
//! node hash may repeat.

use vstd::prelude::*;

use crate::codec::{
    dec_arr32, dec_bytes, dec_u64, dec_u8, decode_arr32, decode_bytes, decode_u64, decode_u8,
    enc_bytes, enc_u64, enc_u8, encode_arr32, encode_bytes, encode_u64, encode_u8,
};
use crate::error::Error;
use crate::hash::{sha256, sha256_of, CryptoHash};

verus! {

// ---------------------------------------------------------------------------
// Node model
// ---------------------------------------------------------------------------

/// A raw trie node. Key fragments are sequences of nibbles.
pub enum RawTrieNode {
    /// A leaf: the rest of a key, and the hash of the value stored there.
    Leaf(Vec<u8>, CryptoHash),
    /// An extension: a shared key fragment, and the child node's hash.
    Extension(Vec<u8>, CryptoHash),
    /// A branch: one child slot per nibble, and the hash of a value stored
    /// at the branch itself, if any.
    Branch(Vec<Option<CryptoHash>>, Option<CryptoHash>),
}

/// A raw trie node annotated with the memory its subtree uses.
pub struct RawTrieNodeWithSize {
    pub node: RawTrieNode,
    pub memory_usage: u64,
}

/// The mathematical content of a raw trie node.
pub enum SpecTrieNode {
    Leaf(Seq<u8>, Seq<u8>),
    Extension(Seq<u8>, Seq<u8>),
    Branch(Seq<Option<Seq<u8>>>, Option<Seq<u8>>),
}

pub struct SpecTrieNodeWithSize {
    pub node: SpecTrieNode,
    pub memory_usage: u64,
}

/// The view of an optional child hash.
pub open spec fn opt_hash_view(o: Option<CryptoHash>) -> Option<Seq<u8>> {
    match o {
        None => None,
        Some(h) => Some(h@),
    }
}

/// The view of a branch's child slots.
pub open spec fn children_view(v: Seq<Option<CryptoHash>>) -> Seq<Option<Seq<u8>>> {
    v.map_values(|o: Option<CryptoHash>| opt_hash_view(o))
}

pub proof fn lemma_children_view_push(s: Seq<Option<CryptoHash>>, o: Option<CryptoHash>)
    ensures
        children_view(s.push(o)) == children_view(s).push(opt_hash_view(o)),
{
    assert(children_view(s.push(o)) =~= children_view(s).push(opt_hash_view(o)));
}

impl View for RawTrieNode {
    type V = SpecTrieNode;

    open spec fn view(&self) -> SpecTrieNode {
        match self {
            RawTrieNode::Leaf(frag, vh) => SpecTrieNode::Leaf(frag@, vh@),
            RawTrieNode::Extension(frag, child) => SpecTrieNode::Extension(frag@, child@),
            RawTrieNode::Branch(children, value) => SpecTrieNode::Branch(
                children_view(children@),
                opt_hash_view(*value),
            ),
        }
    }
}

impl View for RawTrieNodeWithSize {
    type V = SpecTrieNodeWithSize;

    open spec fn view(&self) -> SpecTrieNodeWithSize {
        SpecTrieNodeWithSize { node: self.node@, memory_usage: self.memory_usage }
    }
}

impl SpecTrieNode {
    pub open spec fn wf(self) -> bool {
        match self {
            SpecTrieNode::Leaf(frag, vh) => frag.len() <= u32::MAX && vh.len() == 32,
            SpecTrieNode::Extension(frag, child) => frag.len() <= u32::MAX && child.len() == 32,
            SpecTrieNode::Branch(children, value) => children.len() == 16 && (forall|i: int|
                0 <= i < 16 ==> match #[trigger] children[i] {
                    None => true,
                    Some(h) => h.len() == 32,
                }) && match value {
                None => true,
                Some(h) => h.len() == 32,
            },
        }
    }
}

impl SpecTrieNodeWithSize {
    pub open spec fn wf(self) -> bool {
        self.node.wf()
    }
}

// ---------------------------------------------------------------------------
// Node codec
// ---------------------------------------------------------------------------

pub open spec fn enc_opt_hash(o: Option<Seq<u8>>) -> Seq<u8> {
    match o {
        None => enc_u8(0),
        Some(h) => enc_u8(1) + h,
    }
}

pub open spec fn dec_opt_hash(b: Seq<u8>, pos: int) -> Option<(Option<Seq<u8>>, int)> {
    match dec_u8(b, pos) {
        None => None,
        Some((tag, p)) => if tag == 0 {
            Some((None, p))
        } else if tag == 1 {
            match dec_arr32(b, p) {
                None => None,
                Some((h, end)) => Some((Some(h), end)),
            }
        } else {
            None
        },
    }
}

pub open spec fn enc_children(s: Seq<Option<Seq<u8>>>) -> Seq<u8>
    decreases s.len(),
{
    if s.len() == 0 {
        Seq::empty()
    } else {
        enc_opt_hash(s[0]) + enc_children(s.drop_first())
    }
}

pub open spec fn dec_children(b: Seq<u8>, pos: int, n: nat) -> Option<(Seq<Option<Seq<u8>>>, int)>
    decreases n,
{
    if n == 0 {
        Some((Seq::empty(), pos))
    } else {
        match dec_opt_hash(b, pos) {
            None => None,
            Some((o, p)) => match dec_children(b, p, (n - 1) as nat) {
                None => None,
                Some((rest, end)) => Some((seq![o] + rest, end)),
            },
        }
    }
}

/// Encoding of a node: a one-byte discriminant, then the payload.
pub open spec fn enc_trie_node(v: SpecTrieNode) -> Seq<u8> {
    match v {
        SpecTrieNode::Leaf(frag, vh) => enc_u8(0) + enc_bytes(frag) + vh,
        SpecTrieNode::Extension(frag, child) => enc_u8(1) + enc_bytes(frag) + child,
        SpecTrieNode::Branch(children, value) => enc_u8(2) + enc_children(children) + enc_opt_hash(
            value,
        ),
    }
}

pub open spec fn dec_trie_node(b: Seq<u8>, pos: int) -> Option<(SpecTrieNode, int)> {
    match dec_u8(b, pos) {
        None => None,
        Some((tag, p)) => if tag == 0 {
            match dec_bytes(b, p) {
                None => None,
                Some((frag, p1)) => match dec_arr32(b, p1) {
                    None => None,
                    Some((vh, end)) => Some((SpecTrieNode::Leaf(frag, vh), end)),
                },
            }
        } else if tag == 1 {
            match dec_bytes(b, p) {
                None => None,
                Some((frag, p1)) => match dec_arr32(b, p1) {
                    None => None,
                    Some((child, end)) => Some((SpecTrieNode::Extension(frag, child), end)),
                },
            }
        } else if tag == 2 {
            match dec_children(b, p, 16) {
                None => None,
                Some((children, p1)) => match dec_opt_hash(b, p1) {
                    None => None,
                    Some((value, end)) => Some((SpecTrieNode::Branch(children, value), end)),
                },
            }
        } else {
            None
        },
    }
}

pub open spec fn enc_trie_node_ws(v: SpecTrieNodeWithSize) -> Seq<u8> {
    enc_trie_node(v.node) + enc_u64(v.memory_usage)
}

pub open spec fn dec_trie_node_ws(b: Seq<u8>, pos: int) -> Option<(SpecTrieNodeWithSize, int)> {
    match dec_trie_node(b, pos) {
        None => None,
        Some((node, p)) => match dec_u64(b, p) {
            None => None,
            Some((memory_usage, end)) => Some(
                (SpecTrieNodeWithSize { node, memory_usage }, end),
            ),
        },
    }
}

pub fn encode_opt_hash(o: &Option<CryptoHash>, out: &mut Vec<u8>)
    ensures
        final(out)@ == old(out)@ + enc_opt_hash(opt_hash_view(*o)),
{
    match o {
        None => {
            encode_u8(0, out);
        },
        Some(h) => {
            encode_u8(1, out);
            encode_arr32(&h.0, out);
        },
    }
    assert(out@ =~= old(out)@ + enc_opt_hash(opt_hash_view(*o)));
}

pub fn decode_opt_hash(buf: &[u8], pos: usize) -> (r: Option<(Option<CryptoHash>, usize)>)
    requires
        pos <= buf@.len(),
    ensures
        match r {
            Some((v, end)) => dec_opt_hash(buf@, pos as int) == Some(
                (opt_hash_view(v), end as int),
            ) && end <= buf@.len(),
            None => dec_opt_hash(buf@, pos as int) is None,
        },
{
    match decode_u8(buf, pos) {
        None => None,
        Some((tag, p)) => {
            if tag == 0 {
                Some((None, p))
            } else if tag == 1 {
                match decode_arr32(buf, p) {
                    None => None,
                    Some((h, end)) => Some((Some(CryptoHash(h)), end)),
                }
            } else {
                None
            }
        },
    }
}

pub proof fn lemma_enc_children_push(s: Seq<Option<Seq<u8>>>, o: Option<Seq<u8>>)
    ensures
        enc_children(s.push(o)) == enc_children(s) + enc_opt_hash(o),
    decreases s.len(),
{
    if s.len() == 0 {
        assert(s.push(o).drop_first() =~= s);
        assert(enc_children(s.push(o)) =~= enc_children(s) + enc_opt_hash(o));
    } else {
        assert(s.push(o).drop_first() =~= s.drop_first().push(o));
        lemma_enc_children_push(s.drop_first(), o);
        assert(enc_children(s.push(o)) =~= enc_children(s) + enc_opt_hash(o));
    }
}

pub fn encode_children(children: &Vec<Option<CryptoHash>>, out: &mut Vec<u8>)
    ensures
        final(out)@ == old(out)@ + enc_children(children_view(children@)),
{
    let ghost full = children_view(children@);
    let ghost base = out@;
    let mut i: usize = 0;
    while i < children.len()
        invariant
            0 <= i <= children@.len(),
            full == children_view(children@),
            out@ == base + enc_children(full.take(i as int)),
        decreases children@.len() - i,
    {
        assert(full[i as int] == opt_hash_view(children@[i as int]));
        assert(full.take(i as int).push(full[i as int]) =~= full.take(i as int + 1));
        proof {
            lemma_enc_children_push(full.take(i as int), full[i as int]);
        }
        encode_opt_hash(&children[i], out);
        i += 1;
    }
    assert(full.take(children@.len() as int) =~= full);
}

pub fn decode_children(buf: &[u8], pos: usize) -> (r: Option<(Vec<Option<CryptoHash>>, usize)>)
    requires
        pos <= buf@.len(),
    ensures
        match r {
            Some((v, end)) => dec_children(buf@, pos as int, 16) == Some(
                (children_view(v@), end as int),
            ) && end <= buf@.len() && v@.len() == 16,
            None => dec_children(buf@, pos as int, 16) is None,
        },
{
    let mut acc: Vec<Option<CryptoHash>> = Vec::new();
    let mut p = pos;
    let mut i: usize = 0;
    loop
        invariant
            0 <= i <= 16,
            p <= buf@.len(),
            acc@.len() == i,
            match dec_children(buf@, p as int, (16 - i) as nat) {
                Some((rest, end)) => dec_children(buf@, pos as int, 16) == Some(
                    (children_view(acc@) + rest, end),
                ),
                None => dec_children(buf@, pos as int, 16) is None,
            },
        ensures
            match dec_children(buf@, pos as int, 16) {
                Some((items, end)) => children_view(acc@) == items && p == end && p <= buf@.len()
                    && acc@.len() == 16,
                None => false,
            },
        decreases 16 - i,
    {
        if i == 16 {
            assert(dec_children(buf@, p as int, 0) == Some(
                (Seq::<Option<Seq<u8>>>::empty(), p as int),
            ));
            assert(children_view(acc@) + Seq::<Option<Seq<u8>>>::empty() =~= children_view(acc@));
            break;
        }
        match decode_opt_hash(buf, p) {
            None => {
                return None;
            },
            Some((o, p2)) => {
                let ghost oo = o;
                proof {
                    lemma_children_view_push(acc@, oo);
                    let rest0 = dec_children(buf@, p2 as int, (16 - i - 1) as nat);
                    if rest0 is Some {
                        let (rest, end) = rest0->Some_0;
                        assert(children_view(acc@) + (seq![opt_hash_view(oo)] + rest)
                            =~= children_view(acc@.push(oo)) + rest);
                    }
                }
                acc.push(o);
                p = p2;
                i += 1;
            },
        }
    }
    Some((acc, p))
}

pub fn encode_trie_node(v: &RawTrieNode, out: &mut Vec<u8>)
    requires
        v@.wf(),
    ensures
        final(out)@ == old(out)@ + enc_trie_node(v@),
{
    match v {
        RawTrieNode::Leaf(frag, vh) => {
            encode_u8(0, out);
            encode_bytes(frag, out);
            encode_arr32(&vh.0, out);
        },
        RawTrieNode::Extension(frag, child) => {
            encode_u8(1, out);
            encode_bytes(frag, out);
            encode_arr32(&child.0, out);
        },
        RawTrieNode::Branch(children, value) => {
            encode_u8(2, out);
            encode_children(children, out);
            encode_opt_hash(value, out);
        },
    }
    assert(out@ =~= old(out)@ + enc_trie_node(v@));
}

pub fn decode_trie_node(buf: &[u8], pos: usize) -> (r: Option<(RawTrieNode, usize)>)
    requires
        pos <= buf@.len(),
    ensures
        match r {
            Some((v, end)) => dec_trie_node(buf@, pos as int) == Some((v@, end as int)) && end
                <= buf@.len() && v@.wf(),
            None => dec_trie_node(buf@, pos as int) is None,
        },
{
    match decode_u8(buf, pos) {
        None => None,
        Some((tag, p)) => {
            if tag == 0 {
                match decode_bytes(buf, p) {
                    None => None,
                    Some((frag, p1)) => match decode_arr32(buf, p1) {
                        None => None,
                        Some((vh, end)) => Some((RawTrieNode::Leaf(frag, CryptoHash(vh)), end)),
                    },
                }
            } else if tag == 1 {
                match decode_bytes(buf, p) {
                    None => None,
                    Some((frag, p1)) => match decode_arr32(buf, p1) {
                        None => None,
                        Some((child, end)) => Some(
                            (RawTrieNode::Extension(frag, CryptoHash(child)), end),
                        ),
                    },
                }
            } else if tag == 2 {
                match decode_children(buf, p) {
                    None => None,
                    Some((children, p1)) => match decode_opt_hash(buf, p1) {
                        None => None,
                        Some((value, end)) => Some((RawTrieNode::Branch(children, value), end)),
                    },
                }
            } else {
                None
            }
        },
    }
}

impl RawTrieNodeWithSize {
    /// Decodes a node from its canonical bytes; the whole buffer must be one
    /// node and nothing else.
    pub fn decode(buf: &[u8]) -> (r: Result<RawTrieNodeWithSize, Error>)
        ensures
            match r {
                Ok(v) => dec_trie_node_ws(buf@, 0) == Some((v@, buf@.len() as int)) && v@.wf(),
                Err(e) => e == Error::InvalidProofData && !(dec_trie_node_ws(buf@, 0) matches Some(
                    (_, end),
                ) && end == buf@.len()),
            },
    {
        match decode_trie_node(buf, 0) {
            None => Err(Error::InvalidProofData),
            Some((node, p)) => match decode_u64(buf, p) {
                None => Err(Error::InvalidProofData),
                Some((memory_usage, end)) => {
                    if end == buf.len() {
                        Ok(RawTrieNodeWithSize { node, memory_usage })
                    } else {
                        Err(Error::InvalidProofData)
                    }
                },
            },
        }
    }

    /// The node's canonical bytes.
    pub fn encode(&self) -> (r: Vec<u8>)
        requires
            self@.wf(),
        ensures
            r@ == enc_trie_node_ws(self@),
    {
        let mut out: Vec<u8> = Vec::new();
        encode_trie_node(&self.node, &mut out);
        encode_u64(self.memory_usage, &mut out);
        assert(out@ =~= enc_trie_node_ws(self@));
        out
    }

    /// The hash naming this node: the digest of its canonical bytes.
    pub fn hash(&self) -> (r: CryptoHash)
        requires
            self@.wf(),
        ensures
            r@ == spec_node_hash(self@),
    {
        let bytes = self.encode();
        CryptoHash(sha256(bytes.as_slice()))
    }
}

/// The hash naming a node: the digest of its canonical bytes.
pub open spec fn spec_node_hash(v: SpecTrieNodeWithSize) -> Seq<u8> {
    sha256_of(enc_trie_node_ws(v))
}

// ---------------------------------------------------------------------------
// Keys as nibbles
// ---------------------------------------------------------------------------

/// A key as the trie walks it: two nibbles per byte, high first.
pub open spec fn spec_nibbles(key: Seq<u8>) -> Seq<u8> {
    Seq::new(
        (2 * key.len()) as nat,
        |i: int|
            if i % 2 == 0 {
                ((key[i / 2] as int) / 16) as u8
            } else {
                ((key[i / 2] as int) % 16) as u8
            },
    )
}

/// Splits a key into its nibbles.
pub fn key_nibbles(key: &[u8]) -> (r: Vec<u8>)
    ensures
        r@ == spec_nibbles(key@),
        forall|i: int| 0 <= i < r@.len() ==> r@[i] < 16,
{
    let mut r: Vec<u8> = Vec::new();
    let mut i: usize = 0;
    while i < key.len()
        invariant
            0 <= i <= key@.len(),
            r@.len() == 2 * i,
            forall|j: int| 0 <= j < r@.len() ==> r@[j] == spec_nibbles(key@)[j],
        decreases key@.len() - i,
    {
        r.push(key[i] / 16);
        r.push(key[i] % 16);
        i += 1;
    }
    assert(r@ =~= spec_nibbles(key@));
    r
}

/// Whether `frag` is a prefix of `key`.
pub open spec fn is_nibble_prefix(frag: Seq<u8>, key: Seq<u8>) -> bool {
    frag.len() <= key.len() && key.subrange(0, frag.len() as int) == frag
}

/// Whether the fragment equals what remains of the key from offset `k`.
fn frag_equals_remaining(frag: &Vec<u8>, nib: &Vec<u8>, k: usize) -> (r: bool)
    requires
        k <= nib@.len(),
    ensures
        r == (frag@ == nib@.skip(k as int)),
{
    if frag.len() != nib.len() - k {
        assert(frag@ != nib@.skip(k as int)) by {
            assert(nib@.skip(k as int).len() == nib@.len() - k);
        }
        return false;
    }
    let n = nib.len();
    let mut i: usize = 0;
    while i < frag.len()
        invariant
            0 <= i <= frag@.len(),
            k + frag@.len() <= n,
            n == nib@.len(),
            forall|j: int| 0 <= j < i ==> frag@[j] == nib@[k + j],
        decreases frag@.len() - i,
    {
        if frag[i] != nib[k + i] {
            assert(frag@ != nib@.skip(k as int)) by {
                assert(nib@.skip(k as int)[i as int] == nib@[k + i]);
            }
            return false;
        }
        i += 1;
    }
    assert(frag@ =~= nib@.skip(k as int));
    true
}

/// Whether the fragment begins what remains of the key from offset `k`.
fn frag_is_prefix(frag: &Vec<u8>, nib: &Vec<u8>, k: usize) -> (r: bool)
    requires
        k <= nib@.len(),
    ensures
        r == is_nibble_prefix(frag@, nib@.skip(k as int)),
{
    if frag.len() > nib.len() - k {
        return false;
    }
    let n = nib.len();
    let mut i: usize = 0;
    while i < frag.len()
        invariant
            0 <= i <= frag@.len(),
            k + frag@.len() <= n,
            n == nib@.len(),
            forall|j: int| 0 <= j < i ==> frag@[j] == nib@[k + j],
        decreases frag@.len() - i,
    {
        if frag[i] != nib[k + i] {
            assert(!is_nibble_prefix(frag@, nib@.skip(k as int))) by {
                assert(nib@.skip(k as int).subrange(0, frag@.len() as int)[i as int] == nib@[k
                    + i]);
            }
            return false;
        }
        i += 1;
    }
    assert(nib@.skip(k as int).subrange(0, frag@.len() as int) =~= frag@);
    true
}

// ---------------------------------------------------------------------------
// Membership walk
// ---------------------------------------------------------------------------

/// No node hash occurs twice in the proof: rejects duplicated nodes and any
/// cycle among them.
pub open spec fn spec_distinct_hashes(nodes: Seq<SpecTrieNodeWithSize>) -> bool {
    forall|i: int, j: int|
        0 <= i < j < nodes.len() ==> spec_node_hash(#[trigger] nodes[i]) != spec_node_hash(
            #[trigger] nodes[j],
        )
}

/// The membership walk from node `i` with the remaining key nibbles: the
/// walk must use every remaining node, each descent must hash-match the
/// next node, and it must end on the value hash sought.
pub open spec fn spec_membership_walk(
    nodes: Seq<SpecTrieNodeWithSize>,
    i: int,
    key: Seq<u8>,
    value_hash: Seq<u8>,
) -> Result<(), Error>
    decreases nodes.len() - i,
{
    if i < 0 || i >= nodes.len() {
        Err(Error::InvalidProofDataLength)
    } else {
        match nodes[i].node {
            SpecTrieNode::Leaf(frag, vh) => if frag == key && vh == value_hash && i == nodes.len()
                - 1 {
                Ok(())
            } else {
                Err(Error::InvalidProofData)
            },
            SpecTrieNode::Extension(frag, child) => if !is_nibble_prefix(frag, key) {
                Err(Error::InvalidProofData)
            } else if i + 1 >= nodes.len() {
                Err(Error::InvalidProofDataLength)
            } else if spec_node_hash(nodes[i + 1]) != child {
                Err(Error::InvalidProofData)
            } else {
                spec_membership_walk(nodes, i + 1, key.skip(frag.len() as int), value_hash)
            },
            SpecTrieNode::Branch(children, value) => if children.len() != 16 {
                Err(Error::InvalidProofData)
            } else if key.len() == 0 {
                match value {
                    Some(vh) => if vh == value_hash && i == nodes.len() - 1 {
                        Ok(())
                    } else {
                        Err(Error::InvalidProofData)
                    },
                    None => Err(Error::InvalidProofData),
                }
            } else if key[0] >= 16 {
                Err(Error::InvalidProofData)
            } else {
                match children[key[0] as int] {
                    None => Err(Error::InvalidProofData),
                    Some(child) => if i + 1 >= nodes.len() {
                        Err(Error::InvalidProofDataLength)
                    } else if spec_node_hash(nodes[i + 1]) != child {
                        Err(Error::InvalidProofData)
                    } else {
                        spec_membership_walk(nodes, i + 1, key.skip(1), value_hash)
                    },
                }
            },
        }
    }
}

/// The view of a node list, node by node.
pub open spec fn nodes_view(v: Seq<RawTrieNodeWithSize>) -> Seq<SpecTrieNodeWithSize> {
    v.map_values(|n: RawTrieNodeWithSize| n@)
}

pub proof fn lemma_nodes_view_push(s: Seq<RawTrieNodeWithSize>, n: RawTrieNodeWithSize)
    ensures
        nodes_view(s.push(n)) == nodes_view(s).push(n@),
{
    assert(nodes_view(s.push(n)) =~= nodes_view(s).push(n@));
}

/// Whether every node in the list fits the canonical encoding.
pub open spec fn nodes_wf(v: Seq<SpecTrieNodeWithSize>) -> bool {
    forall|i: int| 0 <= i < v.len() ==> (#[trigger] v[i]).wf()
}

/// The complete membership check: the proof is non-empty, its first node
/// hashes to the claimed root, no node hash repeats, and the walk finds the
/// value's hash under the key.
pub open spec fn spec_verify_state_proof(
    key: Seq<u8>,
    nodes: Seq<SpecTrieNodeWithSize>,
    value: Seq<u8>,
    root_hash: Seq<u8>,
) -> Result<(), Error> {
    if nodes.len() == 0 {
        Err(Error::MissingProofData)
    } else if spec_node_hash(nodes[0]) != root_hash {
        Err(Error::InvalidRootHashOfProofData)
    } else if !spec_distinct_hashes(nodes) {
        Err(Error::InvalidProofData)
    } else {
        spec_membership_walk(nodes, 0, spec_nibbles(key), sha256_of(value))
    }
}

/// Hashes every node of the proof.
fn node_hashes(nodes: &Vec<RawTrieNodeWithSize>) -> (r: Vec<CryptoHash>)
    requires
        nodes_wf(nodes_view(nodes@)),
    ensures
        r@.len() == nodes@.len(),
        forall|i: int| 0 <= i < r@.len() ==> r@[i]@ == spec_node_hash(nodes_view(nodes@)[i]),
{
    let mut r: Vec<CryptoHash> = Vec::new();
    let mut i: usize = 0;
    while i < nodes.len()
        invariant
            0 <= i <= nodes@.len(),
            nodes_wf(nodes_view(nodes@)),
            r@.len() == i,
            forall|j: int| 0 <= j < i ==> r@[j]@ == spec_node_hash(nodes_view(nodes@)[j]),
        decreases nodes@.len() - i,
    {
        assert(nodes_view(nodes@)[i as int] == nodes@[i as int]@);
        r.push(nodes[i].hash());
        i += 1;
    }
    r
}

/// Whether all hashes are pairwise distinct.
fn hashes_distinct(hashes: &Vec<CryptoHash>) -> (r: bool)
    ensures
        r == (forall|i: int, j: int|
            0 <= i < j < hashes@.len() ==> (#[trigger] hashes@[i])@ != (#[trigger] hashes@[j])@),
{
    let n = hashes.len();
    let mut i: usize = 0;
    while i < n
        invariant
            0 <= i <= n,
            n == hashes@.len(),
            forall|a: int, b: int| 0 <= a < b < hashes@.len() && a < i ==> (#[trigger] hashes@[a])@
                != (#[trigger] hashes@[b])@,
        decreases n - i,
    {
        let mut j: usize = i + 1;
        while j < n
            invariant
                0 <= i < j <= n,
                n == hashes@.len(),
                forall|b: int| i < b < j ==> hashes@[i as int]@ != (#[trigger] hashes@[b])@,
            decreases n - j,
        {
            if hashes[i].eq(&hashes[j]) {
                return false;
            }
            j += 1;
        }
        i += 1;
    }
    true
}

/// Verifies that `value` is stored under `key` in the state trie whose root
/// node hashes to `root_hash`, walking the proof nodes in order.
pub fn verify_state_proof(
    key: &[u8],
    nodes: &Vec<RawTrieNodeWithSize>,
    value: &[u8],
    root_hash: &CryptoHash,
) -> (r: Result<(), Error>)
    requires
        nodes_wf(nodes_view(nodes@)),
    ensures
        r == spec_verify_state_proof(key@, nodes_view(nodes@), value@, root_hash@),
{
    let ghost nodes_v = nodes_view(nodes@);
    if nodes.len() == 0 {
        return Err(Error::MissingProofData);
    }
    let hashes = node_hashes(nodes);
    if !hashes[0].eq(root_hash) {
        return Err(Error::InvalidRootHashOfProofData);
    }
    if !hashes_distinct(&hashes) {
        proof {
            if spec_distinct_hashes(nodes_v) {
                assert forall|i: int, j: int|
                    0 <= i < j < hashes@.len() implies (#[trigger] hashes@[i])@ != (
                #[trigger] hashes@[j])@ by {
                    assert(spec_node_hash(nodes_v[i]) != spec_node_hash(nodes_v[j]));
                }
            }
        }
        return Err(Error::InvalidProofData);
    }
    assert(spec_distinct_hashes(nodes_v)) by {
        assert forall|i: int, j: int|
            0 <= i < j < nodes_v.len() implies spec_node_hash(#[trigger] nodes_v[i])
            != spec_node_hash(#[trigger] nodes_v[j]) by {
            assert(hashes@[i]@ != hashes@[j]@);
        }
    }
    let nib = key_nibbles(key);
    let value_hash = CryptoHash(sha256(value));
    let mut idx: usize = 0;
    let mut k: usize = 0;
    let n_nodes = nodes.len();
    assert(nib@.skip(0) =~= nib@);
    loop
        invariant
            0 <= idx < n_nodes,
            n_nodes == nodes@.len(),
            k <= nib@.len(),
            nodes_v == nodes_view(nodes@),
            nodes_wf(nodes_v),
            hashes@.len() == nodes@.len(),
            forall|i: int| 0 <= i < hashes@.len() ==> hashes@[i]@ == spec_node_hash(nodes_v[i]),
            nib@ == spec_nibbles(key@),
            forall|i: int| 0 <= i < nib@.len() ==> nib@[i] < 16,
            value_hash@ == sha256_of(value@),
            spec_node_hash(nodes_v[0]) == root_hash@,
            spec_distinct_hashes(nodes_v),
            spec_membership_walk(nodes_v, 0, spec_nibbles(key@), sha256_of(value@))
                == spec_membership_walk(nodes_v, idx as int, nib@.skip(k as int), value_hash@),
        decreases nodes@.len() - idx,
    {
        assert(nodes_v[idx as int] == nodes@[idx as int]@);
        let ghost rem = nib@.skip(k as int);
        match &nodes[idx].node {
            RawTrieNode::Leaf(frag, vh) => {
                let ok = frag_equals_remaining(frag, &nib, k) && vh.eq(&value_hash) && idx
                    == nodes.len() - 1;
                if ok {
                    return Ok(());
                } else {
                    return Err(Error::InvalidProofData);
                }
            },
            RawTrieNode::Extension(frag, child) => {
                if !frag_is_prefix(frag, &nib, k) {
                    return Err(Error::InvalidProofData);
                }
                if idx + 1 >= nodes.len() {
                    return Err(Error::InvalidProofDataLength);
                }
                if !hashes[idx + 1].eq(child) {
                    return Err(Error::InvalidProofData);
                }
                assert(rem.skip(frag@.len() as int) =~= nib@.skip(k + frag@.len()));
                let nib_len = nib.len();
                assert(k + frag@.len() <= nib_len) by {
                    assert(rem.len() == nib@.len() - k);
                }
                k = k + frag.len();
                idx = idx + 1;
            },
            RawTrieNode::Branch(children, value_slot) => {
                assert(children_view(children@).len() == 16);
                if k == nib.len() {
                    assert(rem.len() == 0);
                    match value_slot {
                        Some(vh) => {
                            if vh.eq(&value_hash) && idx == nodes.len() - 1 {
                                return Ok(());
                            } else {
                                return Err(Error::InvalidProofData);
                            }
                        },
                        None => {
                            return Err(Error::InvalidProofData);
                        },
                    }
                }
                let nb = nib[k];
                assert(rem[0] == nb && nb < 16);
                assert(children_view(children@)[nb as int] == opt_hash_view(
                    children@[nb as int],
                ));
                match &children[nb as usize] {
                    None => {
                        return Err(Error::InvalidProofData);
                    },
                    Some(child) => {
                        if idx + 1 >= nodes.len() {
                            return Err(Error::InvalidProofDataLength);
                        }
                        if !hashes[idx + 1].eq(child) {
                            return Err(Error::InvalidProofData);
                        }
                        assert(rem.skip(1) =~= nib@.skip(k + 1));
                        k = k + 1;
                        idx = idx + 1;
                    },
                }
            },
        }
    }
}

// ---------------------------------------------------------------------------
// Non-membership walk
// ---------------------------------------------------------------------------

/// The non-membership walk from node `i` with the remaining key nibbles:
/// success exactly when a divergence is proven at the walk's end — a leaf or
/// extension whose fragment diverges, an empty required branch slot, or a
/// valueless branch at the key's end. Finding the key is an error, as is a
/// walk that cannot be finished or leaves nodes unused.
pub open spec fn spec_nonmembership_walk(
    nodes: Seq<SpecTrieNodeWithSize>,
    i: int,
    key: Seq<u8>,
) -> Result<(), Error>
    decreases nodes.len() - i,
{
    if i < 0 || i >= nodes.len() {
        Err(Error::InvalidProofDataLength)
    } else {
        match nodes[i].node {
            SpecTrieNode::Leaf(frag, vh) => if frag == key {
                Err(Error::SpecifiedKeyHasValueInState)
            } else if i == nodes.len() - 1 {
                Ok(())
            } else {
                Err(Error::InvalidProofData)
            },
            SpecTrieNode::Extension(frag, child) => if !is_nibble_prefix(frag, key) {
                if i == nodes.len() - 1 {
                    Ok(())
                } else {
                    Err(Error::InvalidProofData)
                }
            } else if i + 1 >= nodes.len() {
                Err(Error::InvalidProofDataLength)
            } else if spec_node_hash(nodes[i + 1]) != child {
                Err(Error::InvalidProofData)
            } else {
                spec_nonmembership_walk(nodes, i + 1, key.skip(frag.len() as int))
            },
            SpecTrieNode::Branch(children, value) => if children.len() != 16 {
                Err(Error::InvalidProofData)
            } else if key.len() == 0 {
                match value {
                    Some(_) => Err(Error::SpecifiedKeyHasValueInState),
                    None => if i == nodes.len() - 1 {
                        Ok(())
                    } else {
                        Err(Error::InvalidProofData)
                    },
                }
            } else if key[0] >= 16 {
                Err(Error::InvalidProofData)
            } else {
                match children[key[0] as int] {
                    None => if i == nodes.len() - 1 {
                        Ok(())
                    } else {
                        Err(Error::InvalidProofData)
                    },
                    Some(child) => if i + 1 >= nodes.len() {
                        Err(Error::InvalidProofDataLength)
                    } else if spec_node_hash(nodes[i + 1]) != child {
                        Err(Error::InvalidProofData)
                    } else {
                        spec_nonmembership_walk(nodes, i + 1, key.skip(1))
                    },
                }
            },
        }
    }
}

/// The complete non-membership check: the proof is non-empty, its first
/// node hashes to the claimed root, no node hash repeats, and the walk
/// proves the key absent.
pub open spec fn spec_verify_not_in_state(
    key: Seq<u8>,
    nodes: Seq<SpecTrieNodeWithSize>,
    root_hash: Seq<u8>,
) -> Result<(), Error> {
    if nodes.len() == 0 {
        Err(Error::MissingProofData)
    } else if spec_node_hash(nodes[0]) != root_hash {
        Err(Error::InvalidRootHashOfProofData)
    } else if !spec_distinct_hashes(nodes) {
        Err(Error::InvalidProofData)
    } else {
        spec_nonmembership_walk(nodes, 0, spec_nibbles(key))
    }
}

/// Verifies that no value is stored under `key` in the state trie whose
/// root node hashes to `root_hash`, walking the proof nodes in order.
pub fn verify_not_in_state(
    key: &[u8],
    nodes: &Vec<RawTrieNodeWithSize>,
    root_hash: &CryptoHash,
) -> (r: Result<(), Error>)
    requires
        nodes_wf(nodes_view(nodes@)),
    ensures
        r == spec_verify_not_in_state(key@, nodes_view(nodes@), root_hash@),
{
    let ghost nodes_v = nodes_view(nodes@);
    if nodes.len() == 0 {
        return Err(Error::MissingProofData);
    }
    let hashes = node_hashes(nodes);
    if !hashes[0].eq(root_hash) {
        return Err(Error::InvalidRootHashOfProofData);
    }
    if !hashes_distinct(&hashes) {
        proof {
            if spec_distinct_hashes(nodes_v) {
                assert forall|i: int, j: int|
                    0 <= i < j < hashes@.len() implies (#[trigger] hashes@[i])@ != (
                #[trigger] hashes@[j])@ by {
                    assert(spec_node_hash(nodes_v[i]) != spec_node_hash(nodes_v[j]));
                }
            }
        }
        return Err(Error::InvalidProofData);
    }
    assert(spec_distinct_hashes(nodes_v)) by {
        assert forall|i: int, j: int|
            0 <= i < j < nodes_v.len() implies spec_node_hash(#[trigger] nodes_v[i])
            != spec_node_hash(#[trigger] nodes_v[j]) by {
            assert(hashes@[i]@ != hashes@[j]@);
        }
    }
    let nib = key_nibbles(key);
    let mut idx: usize = 0;
    let mut k: usize = 0;
    let n_nodes = nodes.len();
    assert(nib@.skip(0) =~= nib@);
    loop
        invariant
            0 <= idx < n_nodes,
            n_nodes == nodes@.len(),
            k <= nib@.len(),
            nodes_v == nodes_view(nodes@),
            nodes_wf(nodes_v),
            hashes@.len() == nodes@.len(),
            forall|i: int| 0 <= i < hashes@.len() ==> hashes@[i]@ == spec_node_hash(nodes_v[i]),
            nib@ == spec_nibbles(key@),
            forall|i: int| 0 <= i < nib@.len() ==> nib@[i] < 16,
            spec_node_hash(nodes_v[0]) == root_hash@,
            spec_distinct_hashes(nodes_v),
            spec_nonmembership_walk(nodes_v, 0, spec_nibbles(key@)) == spec_nonmembership_walk(
                nodes_v,
                idx as int,
                nib@.skip(k as int),
            ),
        decreases nodes@.len() - idx,
    {
        assert(nodes_v[idx as int] == nodes@[idx as int]@);
        let ghost rem = nib@.skip(k as int);
        match &nodes[idx].node {
            RawTrieNode::Leaf(frag, _vh) => {
                if frag_equals_remaining(frag, &nib, k) {
                    return Err(Error::SpecifiedKeyHasValueInState);
                }
                if idx == nodes.len() - 1 {
                    return Ok(());
                } else {
                    return Err(Error::InvalidProofData);
                }
            },
            RawTrieNode::Extension(frag, child) => {
                if !frag_is_prefix(frag, &nib, k) {
                    if idx == nodes.len() - 1 {
                        return Ok(());
                    } else {
                        return Err(Error::InvalidProofData);
                    }
                }
                if idx + 1 >= nodes.len() {
                    return Err(Error::InvalidProofDataLength);
                }
                if !hashes[idx + 1].eq(child) {
                    return Err(Error::InvalidProofData);
                }
                assert(rem.skip(frag@.len() as int) =~= nib@.skip(k + frag@.len()));
                let nib_len = nib.len();
                assert(k + frag@.len() <= nib_len) by {
                    assert(rem.len() == nib@.len() - k);
                }
                k = k + frag.len();
                idx = idx + 1;
            },
            RawTrieNode::Branch(children, value_slot) => {
                assert(children_view(children@).len() == 16);
                if k == nib.len() {
                    assert(rem.len() == 0);
                    match value_slot {
                        Some(_) => {
                            return Err(Error::SpecifiedKeyHasValueInState);
                        },
                        None => {
                            if idx == nodes.len() - 1 {
                                return Ok(());
                            } else {
                                return Err(Error::InvalidProofData);
                            }
                        },
                    }
                }
                let nb = nib[k];
                assert(rem[0] == nb && nb < 16);
                assert(children_view(children@)[nb as int] == opt_hash_view(
                    children@[nb as int],
                ));
                match &children[nb as usize] {
                    None => {
                        if idx == nodes.len() - 1 {
                            return Ok(());
                        } else {
                            return Err(Error::InvalidProofData);
                        }
                    },
                    Some(child) => {
                        if idx + 1 >= nodes.len() {
                            return Err(Error::InvalidProofDataLength);
                        }
                        if !hashes[idx + 1].eq(child) {
                            return Err(Error::InvalidProofData);
                        }
                        assert(rem.skip(1) =~= nib@.skip(k + 1));
                        k = k + 1;
                        idx = idx + 1;
                    },
                }
            },
        }
    }
}

} // verus!
