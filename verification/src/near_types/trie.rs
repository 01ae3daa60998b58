//! Nodes of the state trie, and proofs about what the trie holds.

use super::hash::{sha256, spec_sha256, CryptoHash};
use crate::codec::{DecodeError, Encoded};
use crate::StateProofVerificationError;
use byteorder::{ByteOrder, LittleEndian};
use vstd::bytes::*;
use vstd::prelude::*;
use vstd::slice::{slice_subrange, slice_to_vec};

pub mod nibble_slice;

use nibble_slice::{spec_encoded_nibbles, spec_key_nibbles, NibbleSlice};

verus! {

/// A node of the trie, as it is stored.
#[derive(Debug)]
pub enum RawTrieNode {
    /// The rest of a key, the length of its value and the hash of its value.
    Leaf(Vec<u8>, u32, CryptoHash),
    /// One child for each nibble, and the value of the key that ends here.
    Branch([Option<CryptoHash>; 16], Option<(u32, CryptoHash)>),
    /// A run of nibbles that leads to one child.
    Extension(Vec<u8>, CryptoHash),
}

/// A node with the memory that its subtree takes.
#[derive(Debug)]
pub struct RawTrieNodeWithSize {
    node: RawTrieNode,
    memory_usage: u64,
}

/// The model of a node.
pub enum SpecTrieNode {
    Leaf { key: Seq<u8>, value_length: u32, value_hash: Seq<u8> },
    Branch { children: Seq<Option<Seq<u8>>>, value: Option<(u32, Seq<u8>)> },
    Extension { key: Seq<u8>, child: Seq<u8> },
}

/// The model of a node with its size.
pub struct SpecTrieNodeWithSize {
    pub node: SpecTrieNode,
    pub memory_usage: u64,
}

impl DeepView for RawTrieNode {
    type V = SpecTrieNode;

    open spec fn deep_view(&self) -> SpecTrieNode {
        match self {
            RawTrieNode::Leaf(key, value_length, value_hash) => SpecTrieNode::Leaf {
                key: key@,
                value_length: *value_length,
                value_hash: value_hash@,
            },
            RawTrieNode::Branch(children, value) => SpecTrieNode::Branch {
                children: children.deep_view(),
                value: match value {
                    Some((value_length, value_hash)) => Some((*value_length, value_hash@)),
                    None => None,
                },
            },
            RawTrieNode::Extension(key, child) => SpecTrieNode::Extension {
                key: key@,
                child: child@,
            },
        }
    }
}

impl View for RawTrieNode {
    type V = SpecTrieNode;

    open spec fn view(&self) -> SpecTrieNode {
        self.deep_view()
    }
}

impl DeepView for RawTrieNodeWithSize {
    type V = SpecTrieNodeWithSize;

    closed spec fn deep_view(&self) -> SpecTrieNodeWithSize {
        SpecTrieNodeWithSize { node: self.node.deep_view(), memory_usage: self.memory_usage }
    }
}

impl View for RawTrieNodeWithSize {
    type V = SpecTrieNodeWithSize;

    open spec fn view(&self) -> SpecTrieNodeWithSize {
        self.deep_view()
    }
}

/// The bit of the slot `i` in the bitmap of a branch.
pub open spec fn spec_slot_bit(i: int) -> u16 {
    1u16 << (i as u16)
}

/// The bitmap of the first `n` slots: the bit of a slot is set where the slot holds a child.
pub open spec fn spec_children_bitmap(children: Seq<Option<Seq<u8>>>, n: nat) -> u16
    decreases n,
{
    if n == 0 {
        0
    } else if children[n - 1] is Some {
        spec_children_bitmap(children, (n - 1) as nat) | spec_slot_bit(n - 1)
    } else {
        spec_children_bitmap(children, (n - 1) as nat)
    }
}

/// The hashes of the children in the first `n` slots, in the order of the slots.
pub open spec fn spec_children_hashes(children: Seq<Option<Seq<u8>>>, n: nat) -> Seq<u8>
    decreases n,
{
    if n == 0 {
        Seq::empty()
    } else {
        match children[n - 1] {
            Some(hash) => spec_children_hashes(children, (n - 1) as nat) + hash,
            None => spec_children_hashes(children, (n - 1) as nat),
        }
    }
}

/// The bytes of a node: a tag, then what the variant holds. A key goes with its length
/// before it, the children as a bitmap of the 16 slots and then the hashes that are there.
pub open spec fn spec_encode_node(node: SpecTrieNode) -> Seq<u8> {
    match node {
        SpecTrieNode::Leaf { key, value_length, value_hash } => seq![0u8] + spec_u32_to_le_bytes(
            key.len() as u32,
        ) + key + spec_u32_to_le_bytes(value_length) + value_hash,
        SpecTrieNode::Branch { children, value } => (match value {
            Some((value_length, value_hash)) => seq![2u8] + spec_u32_to_le_bytes(value_length)
                + value_hash,
            None => seq![1u8],
        }) + spec_u16_to_le_bytes(spec_children_bitmap(children, 16)) + spec_children_hashes(
            children,
            16,
        ),
        SpecTrieNode::Extension { key, child } => seq![3u8] + spec_u32_to_le_bytes(
            key.len() as u32,
        ) + key + child,
    }
}

/// The bytes of a node with its size: the node, then the size in 8 bytes.
pub open spec fn spec_encode_node_with_size(node: SpecTrieNodeWithSize) -> Seq<u8> {
    spec_encode_node(node.node) + spec_u64_to_le_bytes(node.memory_usage)
}

/// The hash by which a node is found: SHA-256 of its bytes.
pub open spec fn spec_node_hash(node: SpecTrieNodeWithSize) -> Seq<u8> {
    spec_sha256(spec_encode_node_with_size(node))
}

/// The bit of slot `i`.
fn slot_bit(i: usize) -> (bit: u16)
    requires
        i < 16,
    ensures
        bit == spec_slot_bit(i as int),
{
    1u16 << (i as u16)
}

impl RawTrieNode {
    fn encode_children_into(children: &[Option<CryptoHash>; 16], out: &mut Vec<u8>)
        ensures
            final(out)@ == old(out)@ + spec_u16_to_le_bytes(
                spec_children_bitmap(children.deep_view(), 16),
            ) + spec_children_hashes(children.deep_view(), 16),
    {
        let mut bitmap: u16 = 0;
        let mut i: usize = 0;
        while i < 16
            invariant
                i <= 16,
                bitmap == spec_children_bitmap(children.deep_view(), i as nat),
            decreases 16 - i,
        {
            if children[i].is_some() {
                bitmap = bitmap | slot_bit(i);
            }
            i += 1;
        }
        let bitmap_bytes = u16_to_le_bytes(bitmap);
        out.extend_from_slice(bitmap_bytes.as_slice());
        let ghost start = out@;
        let mut i: usize = 0;
        while i < 16
            invariant
                i <= 16,
                out@ == start + spec_children_hashes(children.deep_view(), i as nat),
            decreases 16 - i,
        {
            if let Some(child) = &children[i] {
                out.extend_from_slice(child.as_bytes());
                assert(out@ =~= start + spec_children_hashes(children.deep_view(), (i + 1) as nat));
            }
            i += 1;
        }
        assert(start =~= old(out)@ + spec_u16_to_le_bytes(bitmap));
    }

    /// Appends the bytes of the node to `out`.
    pub fn encode_into(&self, out: &mut Vec<u8>)
        ensures
            final(out)@ == old(out)@ + spec_encode_node(self.deep_view()),
    {
        match &self {
            RawTrieNode::Leaf(key, value_length, value_hash) => {
                out.push(0u8);
                out.extend_from_slice(u32_to_le_bytes(key.len() as u32).as_slice());
                out.extend_from_slice(key.as_slice());
                out.extend_from_slice(u32_to_le_bytes(*value_length).as_slice());
                out.extend_from_slice(value_hash.as_bytes());
                assert(out@ =~= old(out)@ + spec_encode_node(self.deep_view()));
            },
            RawTrieNode::Branch(children, value) => {
                if let Some((value_length, value_hash)) = value {
                    out.push(2u8);
                    out.extend_from_slice(u32_to_le_bytes(*value_length).as_slice());
                    out.extend_from_slice(value_hash.as_bytes());
                } else {
                    out.push(1u8);
                }
                Self::encode_children_into(children, out);
                assert(out@ =~= old(out)@ + spec_encode_node(self.deep_view()));
            },
            RawTrieNode::Extension(key, child) => {
                out.push(3u8);
                out.extend_from_slice(u32_to_le_bytes(key.len() as u32).as_slice());
                out.extend_from_slice(key.as_slice());
                out.extend_from_slice(child.as_bytes());
                assert(out@ =~= old(out)@ + spec_encode_node(self.deep_view()));
            },
        }
    }
}

impl RawTrieNodeWithSize {
    /// Appends the bytes of the node and its size to `out`.
    pub fn encode_into(&self, out: &mut Vec<u8>)
        ensures
            final(out)@ == old(out)@ + spec_encode_node_with_size(self.deep_view()),
    {
        self.node.encode_into(out);
        out.extend_from_slice(u64_to_le_bytes(self.memory_usage).as_slice());
        assert(out@ =~= old(out)@ + spec_encode_node_with_size(self.deep_view()));
    }

    /// The hash by which the node is found.
    pub fn hash(&self) -> (h: CryptoHash)
        ensures
            h@ == spec_node_hash(self.deep_view()),
    {
        let mut bytes: Vec<u8> = Vec::new();
        self.encode_into(&mut bytes);
        assert(bytes@ =~= spec_encode_node_with_size(self.deep_view()));
        CryptoHash(sha256(bytes.as_slice()))
    }
}

/// The first `n` slots that `bytes` holds under `bitmap`, and the number of bytes taken:
/// 32 for each slot whose bit is set, none for the others.
pub open spec fn spec_parse_children_upto(bitmap: u16, bytes: Seq<u8>, n: nat) -> Option<
    (Seq<Option<Seq<u8>>>, int),
>
    decreases n,
{
    if n == 0 {
        Some((Seq::empty(), 0))
    } else {
        match spec_parse_children_upto(bitmap, bytes, (n - 1) as nat) {
            None => None,
            Some((init, k)) => if bitmap & spec_slot_bit(n - 1) != 0 {
                if 0 <= k && k + 32 <= bytes.len() {
                    Some((init.push(Some(bytes.subrange(k, k + 32))), k + 32))
                } else {
                    None
                }
            } else {
                Some((init.push(None), k))
            },
        }
    }
}

/// The 16 slots that `bytes` begins with: a bitmap in two bytes, then the hashes.
pub open spec fn spec_parse_children(bytes: Seq<u8>) -> Option<Seq<Option<Seq<u8>>>> {
    if bytes.len() < 2 {
        None
    } else {
        match spec_parse_children_upto(
            spec_u16_from_le_bytes(bytes.subrange(0, 2)),
            bytes.skip(2),
            16,
        ) {
            Some((children, _)) => Some(children),
            None => None,
        }
    }
}

/// The node that `bytes` begins with. Bytes after the node are not looked at.
pub open spec fn spec_parse_node(bytes: Seq<u8>) -> Option<SpecTrieNode> {
    if bytes.len() < 1 {
        None
    } else if bytes[0] == 0 || bytes[0] == 3 {
        if bytes.len() < 5 {
            None
        } else {
            let key_length = spec_u32_from_le_bytes(bytes.subrange(1, 5)) as int;
            let key = bytes.subrange(5, 5 + key_length);
            if bytes[0] == 0 {
                if bytes.len() < 5 + key_length + 36 {
                    None
                } else {
                    Some(
                        SpecTrieNode::Leaf {
                            key,
                            value_length: spec_u32_from_le_bytes(
                                bytes.subrange(5 + key_length, 9 + key_length),
                            ),
                            value_hash: bytes.subrange(9 + key_length, 41 + key_length),
                        },
                    )
                }
            } else {
                if bytes.len() < 5 + key_length + 32 {
                    None
                } else {
                    Some(
                        SpecTrieNode::Extension {
                            key,
                            child: bytes.subrange(5 + key_length, 37 + key_length),
                        },
                    )
                }
            }
        }
    } else if bytes[0] == 1 {
        match spec_parse_children(bytes.skip(1)) {
            Some(children) => Some(SpecTrieNode::Branch { children, value: None }),
            None => None,
        }
    } else if bytes[0] == 2 {
        if bytes.len() < 37 {
            None
        } else {
            match spec_parse_children(bytes.skip(37)) {
                Some(children) => Some(
                    SpecTrieNode::Branch {
                        children,
                        value: Some(
                            (spec_u32_from_le_bytes(bytes.subrange(1, 5)), bytes.subrange(5, 37)),
                        ),
                    },
                ),
                None => None,
            }
        }
    } else {
        None
    }
}

/// The node and size that `bytes` holds: the size is the last 8 bytes, the node begins
/// the bytes before them.
pub open spec fn spec_decode_node_with_size(bytes: Seq<u8>) -> Option<SpecTrieNodeWithSize> {
    if bytes.len() < 8 {
        None
    } else {
        match spec_parse_node(bytes.subrange(0, bytes.len() - 8)) {
            Some(node) => Some(
                SpecTrieNodeWithSize {
                    node,
                    memory_usage: spec_u64_from_le_bytes(
                        bytes.subrange(bytes.len() - 8, bytes.len() as int),
                    ),
                },
            ),
            None => None,
        }
    }
}

/// `LittleEndian::read_u16` of byteorder: the number that the first two bytes of `buf`
/// hold, the low byte first. It panics on fewer than two bytes.
#[verifier::external_body]
fn read_u16_le(buf: &[u8]) -> (v: u16)
    requires
        buf@.len() >= 2,
    ensures
        v == spec_u16_from_le_bytes(buf@.subrange(0, 2)),
{
    LittleEndian::read_u16(buf)
}

/// `LittleEndian::read_u32` of byteorder: the number that the first four bytes of `buf`
/// hold, the low byte first. It panics on fewer than four bytes.
#[verifier::external_body]
fn read_u32_le(buf: &[u8]) -> (v: u32)
    requires
        buf@.len() >= 4,
    ensures
        v == spec_u32_from_le_bytes(buf@.subrange(0, 4)),
{
    LittleEndian::read_u32(buf)
}

fn decode_children(bytes: &[u8]) -> (r: Result<[Option<CryptoHash>; 16], DecodeError>)
    ensures
        match r {
            Ok(children) => spec_parse_children(bytes@) == Some(children.deep_view()),
            Err(_) => spec_parse_children(bytes@) is None,
        },
{
    if bytes.len() < 2 {
        return Err(DecodeError);
    }
    let bitmap = read_u16_le(bytes);
    let mut children: [Option<CryptoHash>; 16] = [None;16];
    let mut at: usize = 2;
    let mut i: usize = 0;
    while i < 16
        invariant
            i <= 16,
            2 <= at <= bytes.len(),
            bitmap == spec_u16_from_le_bytes(bytes@.subrange(0, 2)),
            forall|j: int| i <= j < 16 ==> children@[j] is None,
            spec_parse_children_upto(bitmap, bytes@.skip(2), i as nat) == Some(
                (children.deep_view().take(i as int), at - 2),
            ),
        decreases 16 - i,
    {
        let ghost before = children.deep_view().take(i as int);
        if bitmap & slot_bit(i) != 0 {
            if bytes.len() - at < 32 {
                proof {
                    assert(((i + 1) as nat - 1) as nat == i as nat);
                    assert(spec_parse_children_upto(bitmap, bytes@.skip(2), (i + 1) as nat) is None);
                    lemma_parse_children_fails_on(bitmap, bytes@.skip(2), (i + 1) as nat, 16);
                }
                return Err(DecodeError);
            }
            let child = CryptoHash::read(bytes, at);
            assert(bytes@.skip(2).subrange(at - 2, at - 2 + 32) =~= child@);
            children[i] = Some(child);
            at = at + 32;
            assert(children.deep_view().take(i + 1) =~= before.push(Some(child@)));
        } else {
            assert(children.deep_view().take(i + 1) =~= before.push(None));
        }
        i += 1;
    }
    assert(children.deep_view().take(16) =~= children.deep_view());
    Ok(children)
}

/// Where the first `k` slots cannot be read, no more than `k` can.
proof fn lemma_parse_children_fails_on(bitmap: u16, bytes: Seq<u8>, k: nat, n: nat)
    requires
        k <= n,
        spec_parse_children_upto(bitmap, bytes, k) is None,
    ensures
        spec_parse_children_upto(bitmap, bytes, n) is None,
    decreases n,
{
    if k < n {
        lemma_parse_children_fails_on(bitmap, bytes, k, (n - 1) as nat);
    }
}

impl RawTrieNode {
    /// The node that `bytes` begins with.
    pub fn decode(bytes: &[u8]) -> (r: Result<RawTrieNode, DecodeError>)
        ensures
            match r {
                Ok(node) => spec_parse_node(bytes@) == Some(node.deep_view()),
                Err(_) => spec_parse_node(bytes@) is None,
            },
    {
        let size = bytes.len();
        if size < 1 {
            return Err(DecodeError);
        }
        let tag = bytes[0];
        if tag == 0 || tag == 3 {
            if size < 5 {
                return Err(DecodeError);
            }
            let key_length = read_u32_le(slice_subrange(bytes, 1, size)) as usize;
            assert(bytes@.subrange(1, size as int).subrange(0, 4) =~= bytes@.subrange(1, 5));
            let after = if tag == 0 {
                36usize
            } else {
                32usize
            };
            if size - 5 < key_length || size - 5 - key_length < after {
                return Err(DecodeError);
            }
            let key = slice_to_vec(slice_subrange(bytes, 5, 5 + key_length));
            if tag == 0 {
                let value_length = read_u32_le(slice_subrange(bytes, 5 + key_length, size));
                assert(bytes@.subrange(5 + key_length, size as int).subrange(0, 4) =~= bytes@.subrange(
                    5 + key_length,
                    9 + key_length,
                ));
                let value_hash = CryptoHash::read(bytes, 9 + key_length);
                Ok(RawTrieNode::Leaf(key, value_length, value_hash))
            } else {
                let child = CryptoHash::read(bytes, 5 + key_length);
                Ok(RawTrieNode::Extension(key, child))
            }
        } else if tag == 1 {
            assert(bytes@.subrange(1, size as int) =~= bytes@.skip(1));
            match decode_children(slice_subrange(bytes, 1, size)) {
                Ok(children) => Ok(RawTrieNode::Branch(children, None)),
                Err(e) => Err(e),
            }
        } else if tag == 2 {
            if size < 37 {
                return Err(DecodeError);
            }
            let value_length = read_u32_le(slice_subrange(bytes, 1, size));
            assert(bytes@.subrange(1, size as int).subrange(0, 4) =~= bytes@.subrange(1, 5));
            let value_hash = CryptoHash::read(bytes, 5);
            assert(bytes@.subrange(37, size as int) =~= bytes@.skip(37));
            match decode_children(slice_subrange(bytes, 37, size)) {
                Ok(children) => Ok(RawTrieNode::Branch(children, Some((value_length, value_hash)))),
                Err(e) => Err(e),
            }
        } else {
            Err(DecodeError)
        }
    }
}

impl RawTrieNodeWithSize {
    /// The node and size that `bytes` holds.
    pub fn decode(bytes: &[u8]) -> (r: Result<RawTrieNodeWithSize, DecodeError>)
        ensures
            match r {
                Ok(node) => spec_decode_node_with_size(bytes@) == Some(node.deep_view()),
                Err(_) => spec_decode_node_with_size(bytes@) is None,
            },
    {
        let size = bytes.len();
        if size < 8 {
            return Err(DecodeError);
        }
        match RawTrieNode::decode(slice_subrange(bytes, 0, size - 8)) {
            Ok(node) => {
                let memory_usage = u64_from_le_bytes(slice_subrange(bytes, size - 8, size));
                Ok(RawTrieNodeWithSize { node, memory_usage })
            },
            Err(e) => Err(e),
        }
    }
}

/// What the walk that shows a value says, from the node at index `i` on. `key` is what
/// is left of the key, in nibbles, `value_hash` the hash of the value, and `expected`
/// the hash that the node at `i` must have.
///
/// A leaf must hold the rest of the key and the hash of the value. An extension must
/// begin the rest of the key, and names the hash of the next node. A branch holds the
/// value if nothing is left of the key, and else names the next node in the slot of the
/// next nibble. A node that does not fit fails the walk with its index; nodes that end
/// before the walk does fail it too.
pub open spec fn spec_verify_state_proof(
    key: Seq<u8>,
    nodes: Seq<SpecTrieNodeWithSize>,
    value_hash: Seq<u8>,
    i: int,
    expected: Seq<u8>,
) -> Result<(), StateProofVerificationError>
    decreases nodes.len() - i,
{
    if i < 0 || i >= nodes.len() {
        Err(StateProofVerificationError::InvalidProofDataLength)
    } else {
        let invalid = Err(StateProofVerificationError::InvalidProofData { proof_index: i as u16 });
        if spec_node_hash(nodes[i]) != expected {
            invalid
        } else {
            match nodes[i].node {
                SpecTrieNode::Leaf { key: node_key, value_length, value_hash: node_value } => {
                    if spec_encoded_nibbles(node_key) == key && node_value == value_hash {
                        Ok(())
                    } else {
                        invalid
                    }
                },
                SpecTrieNode::Extension { key: node_key, child } => {
                    let nibbles = spec_encoded_nibbles(node_key);
                    if nibbles.is_prefix_of(key) {
                        spec_verify_state_proof(
                            key.skip(nibbles.len() as int),
                            nodes,
                            value_hash,
                            i + 1,
                            child,
                        )
                    } else {
                        invalid
                    }
                },
                SpecTrieNode::Branch { children, value } => {
                    if key.len() == 0 {
                        match value {
                            Some((_, node_value)) => if node_value == value_hash {
                                Ok(())
                            } else {
                                invalid
                            },
                            None => invalid,
                        }
                    } else {
                        match children[key[0] as int] {
                            Some(child) => spec_verify_state_proof(
                                key.skip(1),
                                nodes,
                                value_hash,
                                i + 1,
                                child,
                            ),
                            None => invalid,
                        }
                    }
                },
            }
        }
    }
}

/// What the walk that shows the absence of a value says, from the node at index `i` on.
///
/// The walk succeeds where it leaves the key: at a leaf with another key, at an
/// extension that does not begin the rest of the key, at a branch with an empty slot for
/// the next nibble, or with no value where the key ends. Where the key ends on a value,
/// it fails: the key has a value. A node with another hash than expected fails the walk
/// with its index; nodes that end before the walk does fail it too.
pub open spec fn spec_verify_not_in_state(
    key: Seq<u8>,
    nodes: Seq<SpecTrieNodeWithSize>,
    i: int,
    expected: Seq<u8>,
) -> Result<(), StateProofVerificationError>
    decreases nodes.len() - i,
{
    if i < 0 || i >= nodes.len() {
        Err(StateProofVerificationError::InvalidProofDataLength)
    } else if spec_node_hash(nodes[i]) != expected {
        Err(StateProofVerificationError::InvalidProofData { proof_index: i as u16 })
    } else {
        match nodes[i].node {
            SpecTrieNode::Leaf { key: node_key, value_length, value_hash } => {
                if spec_encoded_nibbles(node_key) == key {
                    Err(StateProofVerificationError::SpecifiedKeyHasValueInState)
                } else {
                    Ok(())
                }
            },
            SpecTrieNode::Extension { key: node_key, child } => {
                let nibbles = spec_encoded_nibbles(node_key);
                if nibbles.is_prefix_of(key) {
                    spec_verify_not_in_state(key.skip(nibbles.len() as int), nodes, i + 1, child)
                } else {
                    Ok(())
                }
            },
            SpecTrieNode::Branch { children, value } => {
                if key.len() == 0 {
                    match value {
                        Some(_) => Err(StateProofVerificationError::SpecifiedKeyHasValueInState),
                        None => Ok(()),
                    }
                } else {
                    match children[key[0] as int] {
                        Some(child) => spec_verify_not_in_state(key.skip(1), nodes, i + 1, child),
                        None => Ok(()),
                    }
                }
            },
        }
    }
}

/// Checks that `nodes` show the value `value` under `key` in the trie with root
/// `state_root`.
///
/// The index of a node goes into an error as 16 bits, so there may be no more than
/// 65536 nodes.
pub fn verify_state_proof(
    key: &[u8],
    nodes: &[RawTrieNodeWithSize],
    value: &[u8],
    state_root: &CryptoHash,
) -> (r: Result<(), StateProofVerificationError>)
    requires
        nodes@.len() <= 0x1_0000,
    ensures
        r == spec_verify_state_proof(
            spec_key_nibbles(key@),
            nodes.deep_view(),
            spec_sha256(value@),
            0,
            state_root@,
        ),
{
    let value_hash = CryptoHash(sha256(value));
    let mut cursor = NibbleSlice::new(key);
    let mut expected_hash = *state_root;
    let ghost whole = spec_verify_state_proof(
        spec_key_nibbles(key@),
        nodes.deep_view(),
        spec_sha256(value@),
        0,
        state_root@,
    );
    let mut i: usize = 0;
    while i < nodes.len()
        invariant
            i <= nodes@.len() <= 0x1_0000,
            value_hash@ == spec_sha256(value@),
            whole == spec_verify_state_proof(
                spec_key_nibbles(key@),
                nodes.deep_view(),
                spec_sha256(value@),
                0,
                state_root@,
            ),
            whole == spec_verify_state_proof(
                cursor@,
                nodes.deep_view(),
                value_hash@,
                i as int,
                expected_hash@,
            ),
        decreases nodes.len() - i,
    {
        let node = &nodes[i];
        assert(nodes.deep_view()[i as int] == node.deep_view());
        let invalid = Err(StateProofVerificationError::InvalidProofData { proof_index: i as u16 });
        if node.hash() != expected_hash {
            return invalid;
        }
        match &node.node {
            RawTrieNode::Leaf(node_key, _, node_value) => {
                let nibbles = NibbleSlice::from_encoded(node_key.as_slice()).0;
                if cursor != nibbles {
                    return invalid;
                }
                if value_hash == *node_value {
                    return Ok(());
                } else {
                    return invalid;
                }
            },
            RawTrieNode::Extension(node_key, child_hash) => {
                expected_hash = *child_hash;
                let nibbles = NibbleSlice::from_encoded(node_key.as_slice()).0;
                if !cursor.starts_with(&nibbles) {
                    return invalid;
                }
                cursor = cursor.mid(nibbles.len());
            },
            RawTrieNode::Branch(children, node_value) => {
                if cursor.is_empty() {
                    return match node_value {
                        Some((_, hash)) => if value_hash == *hash {
                            Ok(())
                        } else {
                            invalid
                        },
                        None => invalid,
                    };
                }
                let index = cursor.at(0);
                assert(children.deep_view()[index as int] == children[index as int].deep_view());
                match &children[index as usize] {
                    Some(child_hash) => {
                        cursor = cursor.mid(1);
                        expected_hash = *child_hash;
                    },
                    None => {
                        return invalid;
                    },
                }
            },
        }
        i += 1;
    }
    Err(StateProofVerificationError::InvalidProofDataLength)
}

/// Checks that `nodes` show that `key` has no value in the trie with root `state_root`.
///
/// The index of a node goes into an error as 16 bits, so there may be no more than
/// 65536 nodes.
pub fn verify_not_in_state(key: &[u8], nodes: &[RawTrieNodeWithSize], state_root: &CryptoHash) -> (r:
    Result<(), StateProofVerificationError>)
    requires
        nodes@.len() <= 0x1_0000,
    ensures
        r == spec_verify_not_in_state(spec_key_nibbles(key@), nodes.deep_view(), 0, state_root@),
{
    let mut cursor = NibbleSlice::new(key);
    let mut expected_hash = *state_root;
    let ghost whole = spec_verify_not_in_state(
        spec_key_nibbles(key@),
        nodes.deep_view(),
        0,
        state_root@,
    );
    let mut i: usize = 0;
    while i < nodes.len()
        invariant
            i <= nodes@.len() <= 0x1_0000,
            whole == spec_verify_not_in_state(
                spec_key_nibbles(key@),
                nodes.deep_view(),
                0,
                state_root@,
            ),
            whole == spec_verify_not_in_state(
                cursor@,
                nodes.deep_view(),
                i as int,
                expected_hash@,
            ),
        decreases nodes.len() - i,
    {
        let node = &nodes[i];
        assert(nodes.deep_view()[i as int] == node.deep_view());
        if node.hash() != expected_hash {
            return Err(StateProofVerificationError::InvalidProofData { proof_index: i as u16 });
        }
        match &node.node {
            RawTrieNode::Leaf(node_key, _, _) => {
                let nibbles = NibbleSlice::from_encoded(node_key.as_slice()).0;
                if cursor != nibbles {
                    return Ok(());
                }
                return Err(StateProofVerificationError::SpecifiedKeyHasValueInState);
            },
            RawTrieNode::Extension(node_key, child_hash) => {
                expected_hash = *child_hash;
                let nibbles = NibbleSlice::from_encoded(node_key.as_slice()).0;
                if !cursor.starts_with(&nibbles) {
                    return Ok(());
                }
                cursor = cursor.mid(nibbles.len());
            },
            RawTrieNode::Branch(children, node_value) => {
                if cursor.is_empty() {
                    match node_value {
                        Some(_) => {
                            return Err(StateProofVerificationError::SpecifiedKeyHasValueInState);
                        },
                        None => {
                            return Ok(());
                        },
                    }
                }
                let index = cursor.at(0);
                assert(children.deep_view()[index as int] == children[index as int].deep_view());
                match &children[index as usize] {
                    Some(child_hash) => {
                        cursor = cursor.mid(1);
                        expected_hash = *child_hash;
                    },
                    None => {
                        return Ok(());
                    },
                }
            },
        }
        i += 1;
    }
    Err(StateProofVerificationError::InvalidProofDataLength)
}

/// What a trie says of a key.
pub enum SpecLookup {
    /// The key has a value with this hash.
    Found(Seq<u8>),
    /// The key has no value.
    Absent,
    /// The nodes that were given do not tell.
    Unresolved,
}

/// Whether `store`, which finds nodes by their hashes, holds each of `nodes` under its
/// hash.
pub open spec fn spec_store_holds(
    store: Map<Seq<u8>, SpecTrieNodeWithSize>,
    nodes: Seq<SpecTrieNodeWithSize>,
) -> bool {
    forall|i: int|
        0 <= i < nodes.len() ==> store.dom().contains(#[trigger] spec_node_hash(nodes[i]))
            && store[spec_node_hash(nodes[i])] == nodes[i]
}

/// What the trie with root `root` in `store` says of the key whose nibbles are `key`,
/// going through no more than `fuel` nodes.
pub open spec fn spec_trie_lookup(
    store: Map<Seq<u8>, SpecTrieNodeWithSize>,
    root: Seq<u8>,
    key: Seq<u8>,
    fuel: nat,
) -> SpecLookup
    decreases fuel,
{
    if fuel == 0 || !store.dom().contains(root) {
        SpecLookup::Unresolved
    } else {
        match store[root].node {
            SpecTrieNode::Leaf { key: node_key, value_length, value_hash } => {
                if spec_encoded_nibbles(node_key) == key {
                    SpecLookup::Found(value_hash)
                } else {
                    SpecLookup::Absent
                }
            },
            SpecTrieNode::Extension { key: node_key, child } => {
                let nibbles = spec_encoded_nibbles(node_key);
                if nibbles.is_prefix_of(key) {
                    spec_trie_lookup(
                        store,
                        child,
                        key.skip(nibbles.len() as int),
                        (fuel - 1) as nat,
                    )
                } else {
                    SpecLookup::Absent
                }
            },
            SpecTrieNode::Branch { children, value } => {
                if key.len() == 0 {
                    match value {
                        Some((_, value_hash)) => SpecLookup::Found(value_hash),
                        None => SpecLookup::Absent,
                    }
                } else {
                    match children[key[0] as int] {
                        Some(child) => spec_trie_lookup(store, child, key.skip(1), (fuel - 1) as nat),
                        None => SpecLookup::Absent,
                    }
                }
            },
        }
    }
}

/// A proof of a value is sound: where the walk from the node `i` on accepts `nodes` as a
/// proof that the rest `key` of a key has a value with hash `value_hash`, every trie that
/// holds these nodes under their hashes has that value under the key.
pub proof fn lemma_state_proof_is_sound(
    store: Map<Seq<u8>, SpecTrieNodeWithSize>,
    key: Seq<u8>,
    nodes: Seq<SpecTrieNodeWithSize>,
    value_hash: Seq<u8>,
    i: int,
    expected: Seq<u8>,
)
    requires
        0 <= i,
        spec_store_holds(store, nodes),
        spec_verify_state_proof(key, nodes, value_hash, i, expected) is Ok,
    ensures
        i < nodes.len(),
        spec_trie_lookup(store, expected, key, (nodes.len() - i) as nat) == SpecLookup::Found(
            value_hash,
        ),
    decreases nodes.len() - i,
{
    assert(store[spec_node_hash(nodes[i])] == nodes[i]);
    match nodes[i].node {
        SpecTrieNode::Leaf { key: node_key, value_length, value_hash: node_value } => {},
        SpecTrieNode::Extension { key: node_key, child } => {
            let nibbles = spec_encoded_nibbles(node_key);
            lemma_state_proof_is_sound(
                store,
                key.skip(nibbles.len() as int),
                nodes,
                value_hash,
                i + 1,
                child,
            );
        },
        SpecTrieNode::Branch { children, value } => {
            if key.len() > 0 {
                lemma_state_proof_is_sound(
                    store,
                    key.skip(1),
                    nodes,
                    value_hash,
                    i + 1,
                    children[key[0] as int].unwrap(),
                );
            }
        },
    }
}

/// A proof of absence is sound: where the walk from the node `i` on accepts `nodes` as a
/// proof that the rest `key` of a key has no value, every trie that holds these nodes
/// under their hashes has no value under the key.
pub proof fn lemma_absence_proof_is_sound(
    store: Map<Seq<u8>, SpecTrieNodeWithSize>,
    key: Seq<u8>,
    nodes: Seq<SpecTrieNodeWithSize>,
    i: int,
    expected: Seq<u8>,
)
    requires
        0 <= i,
        spec_store_holds(store, nodes),
        spec_verify_not_in_state(key, nodes, i, expected) is Ok,
    ensures
        i < nodes.len(),
        spec_trie_lookup(store, expected, key, (nodes.len() - i) as nat) == SpecLookup::Absent,
    decreases nodes.len() - i,
{
    assert(store[spec_node_hash(nodes[i])] == nodes[i]);
    match nodes[i].node {
        SpecTrieNode::Leaf { key: node_key, value_length, value_hash } => {},
        SpecTrieNode::Extension { key: node_key, child } => {
            let nibbles = spec_encoded_nibbles(node_key);
            if nibbles.is_prefix_of(key) {
                lemma_absence_proof_is_sound(
                    store,
                    key.skip(nibbles.len() as int),
                    nodes,
                    i + 1,
                    child,
                );
            }
        },
        SpecTrieNode::Branch { children, value } => {
            if key.len() > 0 && children[key[0] as int] is Some {
                lemma_absence_proof_is_sound(
                    store,
                    key.skip(1),
                    nodes,
                    i + 1,
                    children[key[0] as int].unwrap(),
                );
            }
        },
    }
}

/// What a trie says of a key does not change with more nodes to go through, once it is
/// said.
pub proof fn lemma_lookup_stays(
    store: Map<Seq<u8>, SpecTrieNodeWithSize>,
    root: Seq<u8>,
    key: Seq<u8>,
    fuel: nat,
    more: nat,
)
    requires
        fuel <= more,
        spec_trie_lookup(store, root, key, fuel) != SpecLookup::Unresolved,
    ensures
        spec_trie_lookup(store, root, key, more) == spec_trie_lookup(store, root, key, fuel),
    decreases fuel,
{
    match store[root].node {
        SpecTrieNode::Leaf { key: node_key, value_length, value_hash } => {},
        SpecTrieNode::Extension { key: node_key, child } => {
            let nibbles = spec_encoded_nibbles(node_key);
            if nibbles.is_prefix_of(key) {
                lemma_lookup_stays(
                    store,
                    child,
                    key.skip(nibbles.len() as int),
                    (fuel - 1) as nat,
                    (more - 1) as nat,
                );
            }
        },
        SpecTrieNode::Branch { children, value } => {
            if key.len() > 0 && children[key[0] as int] is Some {
                lemma_lookup_stays(
                    store,
                    children[key[0] as int].unwrap(),
                    key.skip(1),
                    (fuel - 1) as nat,
                    (more - 1) as nat,
                );
            }
        },
    }
}

impl SpecTrieNode {
    /// Whether the node is one that the bytes of a node can hold: a key is short enough
    /// for its length to go into 32 bits, a hash has 32 bytes, and a branch has 16 slots.
    pub open spec fn wf(self) -> bool {
        match self {
            SpecTrieNode::Leaf { key, value_length, value_hash } => key.len() <= u32::MAX
                && value_hash.len() == 32,
            SpecTrieNode::Branch { children, value } => {
                &&& children.len() == 16
                &&& forall|i: int|
                    0 <= i < 16 ==> ((#[trigger] children[i]) matches Some(hash) ==> hash.len()
                        == 32)
                &&& value matches Some((_, value_hash)) ==> value_hash.len() == 32
            },
            SpecTrieNode::Extension { key, child } => key.len() <= u32::MAX && child.len() == 32,
        }
    }
}

/// The bit of a slot is set in the bitmap of the first `n` slots exactly where the slot
/// is among them and holds a child.
pub proof fn lemma_bitmap_bit(children: Seq<Option<Seq<u8>>>, n: nat, j: int)
    requires
        n <= 16,
        0 <= j < 16,
    ensures
        (spec_children_bitmap(children, n) & spec_slot_bit(j) != 0) <==> (j < n
            && children[j] is Some),
    decreases n,
{
    let slot = j as u16;
    if n == 0 {
        assert(0u16 & (1u16 << slot) == 0) by (bit_vector);
    } else {
        lemma_bitmap_bit(children, (n - 1) as nat, j);
        let before = spec_children_bitmap(children, (n - 1) as nat);
        let last = (n - 1) as u16;
        if children[n - 1] is Some {
            if j == n - 1 {
                assert((before | (1u16 << slot)) & (1u16 << slot) != 0) by (bit_vector)
                    requires
                        slot < 16,
                ;
            } else {
                assert((before | (1u16 << last)) & (1u16 << slot) == before & (1u16 << slot))
                    by (bit_vector)
                    requires
                        slot < 16,
                        last < 16,
                        slot != last,
                ;
            }
        }
    }
}

/// The children that were written are the children that are read, whatever follows.
pub proof fn lemma_parse_children_upto_encoded(
    children: Seq<Option<Seq<u8>>>,
    rest: Seq<u8>,
    n: nat,
)
    requires
        n <= 16,
        children.len() == 16,
        forall|i: int|
            0 <= i < 16 ==> ((#[trigger] children[i]) matches Some(hash) ==> hash.len() == 32),
    ensures
        spec_parse_children_upto(
            spec_children_bitmap(children, 16),
            spec_children_hashes(children, 16) + rest,
            n,
        ) == Some((children.take(n as int), spec_children_hashes(children, n).len() as int)),
        spec_children_hashes(children, n).is_prefix_of(spec_children_hashes(children, 16)),
    decreases n,
{
    let all = spec_children_hashes(children, 16);
    let bytes = all + rest;
    lemma_children_hashes_prefix(children, n, 16);
    if n == 0 {
        assert(children.take(0) =~= Seq::<Option<Seq<u8>>>::empty());
    } else {
        lemma_parse_children_upto_encoded(children, rest, (n - 1) as nat);
        lemma_bitmap_bit(children, 16, n - 1);
        let before = spec_children_hashes(children, (n - 1) as nat);
        let now = spec_children_hashes(children, n);
        match children[n - 1] {
            Some(hash) => {
                assert(now == before + hash);
                assert(bytes.subrange(before.len() as int, before.len() as int + 32) =~= hash) by {
                    assert(now.is_prefix_of(all));
                    assert forall|k: int| 0 <= k < 32 implies bytes[before.len() + k] == hash[k] by {
                        assert(all[before.len() + k] == now[before.len() + k]);
                    }
                }
                assert(children.take(n as int) =~= children.take(n - 1).push(Some(hash)));
            },
            None => {
                assert(children.take(n as int) =~= children.take(n - 1).push(None));
            },
        }
    }
}

/// The hashes of the first slots begin the hashes of more slots.
pub proof fn lemma_children_hashes_prefix(children: Seq<Option<Seq<u8>>>, n: nat, m: nat)
    requires
        n <= m,
    ensures
        spec_children_hashes(children, n).is_prefix_of(spec_children_hashes(children, m)),
    decreases m,
{
    if n < m {
        lemma_children_hashes_prefix(children, n, (m - 1) as nat);
    }
}

/// The children that were written are the children that are read.
pub proof fn lemma_parse_children_encoded(children: Seq<Option<Seq<u8>>>, rest: Seq<u8>)
    requires
        children.len() == 16,
        forall|i: int|
            0 <= i < 16 ==> ((#[trigger] children[i]) matches Some(hash) ==> hash.len() == 32),
    ensures
        spec_parse_children(
            spec_u16_to_le_bytes(spec_children_bitmap(children, 16)) + spec_children_hashes(
                children,
                16,
            ) + rest,
        ) == Some(children),
{
    lemma_auto_spec_u16_to_from_le_bytes();
    let bitmap = spec_children_bitmap(children, 16);
    let hashes = spec_children_hashes(children, 16);
    let bytes = spec_u16_to_le_bytes(bitmap) + hashes + rest;
    assert(bytes.subrange(0, 2) =~= spec_u16_to_le_bytes(bitmap));
    assert(bytes.skip(2) =~= hashes + rest);
    lemma_parse_children_upto_encoded(children, rest, 16);
    assert(children.take(16) =~= children);
}

/// Decoding undoes encoding for nodes: the bytes of a node hold that node, whatever
/// follows them.
pub proof fn lemma_parse_node_encoded(node: SpecTrieNode, rest: Seq<u8>)
    requires
        node.wf(),
    ensures
        spec_parse_node(spec_encode_node(node) + rest) == Some(node),
{
    lemma_auto_spec_u32_to_from_le_bytes();
    let bytes = spec_encode_node(node) + rest;
    match node {
        SpecTrieNode::Leaf { key, value_length, value_hash } => {
            let n = key.len() as int;
            assert(bytes.subrange(1, 5) =~= spec_u32_to_le_bytes(key.len() as u32));
            assert(bytes.subrange(5, 5 + n) =~= key);
            assert(bytes.subrange(5 + n, 9 + n) =~= spec_u32_to_le_bytes(
                value_length,
            ));
            assert(bytes.subrange(9 + n, 41 + n) =~= value_hash);
        },
        SpecTrieNode::Extension { key, child } => {
            let n = key.len() as int;
            assert(bytes.subrange(1, 5) =~= spec_u32_to_le_bytes(key.len() as u32));
            assert(bytes.subrange(5, 5 + n) =~= key);
            assert(bytes.subrange(5 + n, 37 + n) =~= child);
        },
        SpecTrieNode::Branch { children, value } => {
            let encoded_children = spec_u16_to_le_bytes(spec_children_bitmap(children, 16))
                + spec_children_hashes(children, 16);
            lemma_parse_children_encoded(children, rest);
            match value {
                Some((value_length, value_hash)) => {
                    assert(bytes.subrange(1, 5) =~= spec_u32_to_le_bytes(value_length));
                    assert(bytes.subrange(5, 37) =~= value_hash);
                    assert(bytes.skip(37) =~= encoded_children + rest);
                },
                None => {
                    assert(bytes.skip(1) =~= encoded_children + rest);
                },
            }
        },
    }
}

/// Decoding undoes encoding for nodes with their size.
pub proof fn lemma_decode_node_with_size_encoded(node: SpecTrieNodeWithSize)
    requires
        node.node.wf(),
    ensures
        spec_decode_node_with_size(spec_encode_node_with_size(node)) == Some(node),
{
    lemma_auto_spec_u64_to_from_le_bytes();
    let bytes = spec_encode_node_with_size(node);
    let inner = spec_encode_node(node.node);
    assert(bytes.subrange(0, bytes.len() - 8) =~= inner);
    assert(inner + Seq::<u8>::empty() =~= inner);
    lemma_parse_node_encoded(node.node, Seq::empty());
    assert(bytes.subrange(bytes.len() - 8, bytes.len() as int) =~= spec_u64_to_le_bytes(
        node.memory_usage,
    ));
}

impl RawTrieNodeWithSize {
    /// A node with the memory that its subtree takes.
    pub fn new(node: RawTrieNode, memory_usage: u64) -> (r: Self)
        ensures
            r.deep_view() == (SpecTrieNodeWithSize { node: node.deep_view(), memory_usage }),
    {
        RawTrieNodeWithSize { node, memory_usage }
    }
}

} // verus!
