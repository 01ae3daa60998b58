use near_light_client::codec::DecodeError;
use near_light_client::near_types::get_raw_prefix_for_contract_data;
use near_light_client::near_types::hash::{sha256, CryptoHash};
use near_light_client::near_types::trie::nibble_slice::NibbleSlice;
use near_light_client::near_types::trie::{
    verify_not_in_state, verify_state_proof, RawTrieNode, RawTrieNodeWithSize,
};
use near_light_client::StateProofVerificationError;

fn bytes_of(node: &RawTrieNodeWithSize) -> Vec<u8> {
    let mut out = Vec::new();
    node.encode_into(&mut out);
    out
}

fn no_children() -> [Option<CryptoHash>; 16] {
    [None; 16]
}

fn value_hash(value: &[u8]) -> CryptoHash {
    CryptoHash(sha256(value))
}

/// The key bytes of a node for the given nibbles.
fn encoded_nibbles(nibbles: &[u8], is_leaf: bool) -> Vec<u8> {
    let mut out = Vec::new();
    let odd = nibbles.len() % 2;
    let mut first = if is_leaf { 0x20 } else { 0 };
    if odd == 1 {
        first += 0x10 + nibbles[0];
    }
    out.push(first);
    let mut i = odd;
    while i < nibbles.len() {
        out.push(nibbles[i] * 16 + nibbles[i + 1]);
        i += 2;
    }
    out
}

/// A trie with the keys 0x12 0x34 and 0x12 0x56: an extension over 1 2, a branch at the
/// third nibble, and two leaves. The branch holds a value for the key 0x12 itself.
struct Fixture {
    root: CryptoHash,
    extension: RawTrieNodeWithSize,
    branch: RawTrieNodeWithSize,
    leaf_34: RawTrieNodeWithSize,
}

fn fixture() -> Fixture {
    let leaf_34 = RawTrieNodeWithSize::new(
        RawTrieNode::Leaf(encoded_nibbles(&[4], true), 5, value_hash(b"first")),
        10,
    );
    let leaf_56 = RawTrieNodeWithSize::new(
        RawTrieNode::Leaf(encoded_nibbles(&[6], true), 6, value_hash(b"second")),
        11,
    );
    let mut children = no_children();
    children[3] = Some(leaf_34.hash());
    children[5] = Some(leaf_56.hash());
    let branch = RawTrieNodeWithSize::new(
        RawTrieNode::Branch(children, Some((4, value_hash(b"stem")))),
        30,
    );
    let extension = RawTrieNodeWithSize::new(
        RawTrieNode::Extension(encoded_nibbles(&[1, 2], false), branch.hash()),
        40,
    );
    Fixture { root: extension.hash(), extension, branch, leaf_34 }
}

fn copy(node: &RawTrieNodeWithSize) -> RawTrieNodeWithSize {
    RawTrieNodeWithSize::decode(&bytes_of(node)).unwrap()
}

#[test]
fn leaf_is_encoded_with_tag_lengths_and_hash() {
    let node = RawTrieNodeWithSize::new(RawTrieNode::Leaf(vec![0x20, 0xab], 3, CryptoHash([7u8; 32])), 258);
    let mut expected = vec![0u8, 2, 0, 0, 0, 0x20, 0xab, 3, 0, 0, 0];
    expected.extend_from_slice(&[7u8; 32]);
    expected.extend_from_slice(&[2, 1, 0, 0, 0, 0, 0, 0]);
    assert_eq!(bytes_of(&node), expected);
}

#[test]
fn extension_is_encoded_with_tag_key_and_child() {
    let node = RawTrieNodeWithSize::new(RawTrieNode::Extension(vec![0x11], CryptoHash([8u8; 32])), 1);
    let mut expected = vec![3u8, 1, 0, 0, 0, 0x11];
    expected.extend_from_slice(&[8u8; 32]);
    expected.extend_from_slice(&[1, 0, 0, 0, 0, 0, 0, 0]);
    assert_eq!(bytes_of(&node), expected);
}

#[test]
fn branch_is_encoded_with_a_bitmap_and_the_children_that_are_there() {
    let mut children = no_children();
    children[0] = Some(CryptoHash([1u8; 32]));
    children[9] = Some(CryptoHash([2u8; 32]));
    children[15] = Some(CryptoHash([3u8; 32]));
    let node = RawTrieNodeWithSize::new(RawTrieNode::Branch(children, None), 0);
    let mut expected = vec![1u8, 0x01, 0x82];
    expected.extend_from_slice(&[1u8; 32]);
    expected.extend_from_slice(&[2u8; 32]);
    expected.extend_from_slice(&[3u8; 32]);
    expected.extend_from_slice(&[0u8; 8]);
    assert_eq!(bytes_of(&node), expected);
}

#[test]
fn branch_with_value_is_encoded_with_the_value_first() {
    let node = RawTrieNodeWithSize::new(
        RawTrieNode::Branch(no_children(), Some((0x0102, CryptoHash([4u8; 32])))),
        0,
    );
    let mut expected = vec![2u8, 2, 1, 0, 0];
    expected.extend_from_slice(&[4u8; 32]);
    expected.extend_from_slice(&[0, 0]);
    expected.extend_from_slice(&[0u8; 8]);
    assert_eq!(bytes_of(&node), expected);
}

#[test]
fn decoding_undoes_encoding_of_nodes() {
    let f = fixture();
    for node in [&f.extension, &f.branch, &f.leaf_34] {
        let decoded = RawTrieNodeWithSize::decode(&bytes_of(node)).unwrap();
        assert_eq!(bytes_of(&decoded), bytes_of(node));
        assert_eq!(decoded.hash(), node.hash());
    }
    let mut children = no_children();
    for (i, child) in children.iter_mut().enumerate() {
        if i % 3 == 0 {
            *child = Some(CryptoHash([i as u8; 32]));
        }
    }
    let node = RawTrieNodeWithSize::new(RawTrieNode::Branch(children, None), u64::MAX);
    let decoded = RawTrieNodeWithSize::decode(&bytes_of(&node)).unwrap();
    assert_eq!(bytes_of(&decoded), bytes_of(&node));
}

#[test]
fn node_hash_is_the_hash_of_its_bytes() {
    let f = fixture();
    assert_eq!(f.branch.hash().0, sha256(&bytes_of(&f.branch)));
}

#[test]
fn decoding_refuses_what_is_no_node() {
    assert_eq!(RawTrieNodeWithSize::decode(&[]).err(), Some(DecodeError));
    assert_eq!(RawTrieNodeWithSize::decode(&[0u8; 7]).err(), Some(DecodeError));
    assert_eq!(RawTrieNodeWithSize::decode(&[0u8; 8]).err(), Some(DecodeError));
    // an unknown tag
    assert_eq!(RawTrieNodeWithSize::decode(&[4u8, 0, 0, 0, 0, 0, 0, 0, 0]).err(), Some(DecodeError));
    // a leaf whose key is longer than what is there
    let mut bytes = vec![0u8, 9, 0, 0, 0, 1, 2];
    bytes.extend_from_slice(&[0u8; 8]);
    assert_eq!(RawTrieNodeWithSize::decode(&bytes).err(), Some(DecodeError));
    // a branch whose bitmap names a child that is not there
    let mut bytes = vec![1u8, 1, 0];
    bytes.extend_from_slice(&[0u8; 8]);
    assert_eq!(RawTrieNodeWithSize::decode(&bytes).err(), Some(DecodeError));
    assert_eq!(RawTrieNode::decode(&[3u8, 1, 0, 0, 0, 7]).err(), Some(DecodeError));
}

#[test]
fn nibbles_of_a_key_are_two_for_each_byte() {
    let key = [0x12u8, 0xab];
    let nibbles = NibbleSlice::new(&key);
    assert_eq!(nibbles.len(), 4);
    assert_eq!(
        (nibbles.at(0), nibbles.at(1), nibbles.at(2), nibbles.at(3)),
        (1, 2, 0xa, 0xb)
    );
    assert!(!nibbles.is_empty());
    assert!(NibbleSlice::new(&[]).is_empty());
    let rest = nibbles.mid(3);
    assert_eq!(rest.len(), 1);
    assert_eq!(rest.at(0), 0xb);
}

#[test]
fn key_bytes_of_a_node_hold_flags_and_nibbles() {
    let odd_leaf = [0x31u8, 0x23];
    let (nibbles, is_leaf) = NibbleSlice::from_encoded(&odd_leaf);
    assert!(is_leaf);
    assert_eq!(nibbles.len(), 3);
    assert_eq!((nibbles.at(0), nibbles.at(1), nibbles.at(2)), (1, 2, 3));
    let even_extension = [0x00u8, 0x45];
    let (nibbles, is_leaf) = NibbleSlice::from_encoded(&even_extension);
    assert!(!is_leaf);
    assert_eq!(nibbles.len(), 2);
    assert_eq!((nibbles.at(0), nibbles.at(1)), (4, 5));
    let (nibbles, is_leaf) = NibbleSlice::from_encoded(&[]);
    assert!(!is_leaf);
    assert!(nibbles.is_empty());
}

#[test]
fn nibble_slices_compare_by_their_nibbles() {
    let key = [0x12u8, 0x34];
    let whole = NibbleSlice::new(&key);
    let encoded = [0x00u8, 0x12];
    let prefix = NibbleSlice::from_encoded(&encoded).0;
    assert!(whole.starts_with(&prefix));
    assert!(!prefix.starts_with(&whole));
    assert!(whole != prefix);
    let same = [0x00u8, 0x12, 0x34];
    assert!(whole == NibbleSlice::from_encoded(&same).0);
    let other = [0x00u8, 0x13];
    assert!(!whole.starts_with(&NibbleSlice::from_encoded(&other).0));
    assert!(whole.starts_with(&NibbleSlice::new(&[])));
}

#[test]
fn value_at_a_leaf_is_shown() {
    let f = fixture();
    let nodes = vec![copy(&f.extension), copy(&f.branch), copy(&f.leaf_34)];
    assert_eq!(verify_state_proof(&[0x12, 0x34], &nodes, b"first", &f.root), Ok(()));
}

#[test]
fn value_at_a_branch_is_shown() {
    let f = fixture();
    let nodes = vec![copy(&f.extension), copy(&f.branch)];
    assert_eq!(verify_state_proof(&[0x12], &nodes, b"stem", &f.root), Ok(()));
}

#[test]
fn value_at_a_single_leaf_is_shown() {
    let leaf = RawTrieNodeWithSize::new(
        RawTrieNode::Leaf(encoded_nibbles(&[0xa, 0xb], true), 1, value_hash(b"v")),
        1,
    );
    let root = leaf.hash();
    assert_eq!(verify_state_proof(&[0xab], &[leaf], b"v", &root), Ok(()));
}

#[test]
fn another_value_is_not_shown() {
    let f = fixture();
    let nodes = vec![copy(&f.extension), copy(&f.branch), copy(&f.leaf_34)];
    assert_eq!(
        verify_state_proof(&[0x12, 0x34], &nodes, b"other", &f.root),
        Err(StateProofVerificationError::InvalidProofData { proof_index: 2 })
    );
    let nodes = vec![copy(&f.extension), copy(&f.branch)];
    assert_eq!(
        verify_state_proof(&[0x12], &nodes, b"other", &f.root),
        Err(StateProofVerificationError::InvalidProofData { proof_index: 1 })
    );
}

#[test]
fn a_node_with_another_hash_fails_with_its_index() {
    let f = fixture();
    let nodes = vec![copy(&f.extension), copy(&f.leaf_34), copy(&f.leaf_34)];
    assert_eq!(
        verify_state_proof(&[0x12, 0x34], &nodes, b"first", &f.root),
        Err(StateProofVerificationError::InvalidProofData { proof_index: 1 })
    );
    let nodes = vec![copy(&f.branch)];
    assert_eq!(
        verify_state_proof(&[0x12, 0x34], &nodes, b"first", &f.root),
        Err(StateProofVerificationError::InvalidProofData { proof_index: 0 })
    );
    assert_eq!(
        verify_not_in_state(&[0x12, 0x34], &nodes, &f.root),
        Err(StateProofVerificationError::InvalidProofData { proof_index: 0 })
    );
}

#[test]
fn a_key_that_leaves_the_trie_has_no_value_shown() {
    let f = fixture();
    // the extension does not begin the key
    let nodes = vec![copy(&f.extension)];
    assert_eq!(
        verify_state_proof(&[0x13, 0x34], &nodes, b"first", &f.root),
        Err(StateProofVerificationError::InvalidProofData { proof_index: 0 })
    );
    // the branch has no child for the nibble
    let nodes = vec![copy(&f.extension), copy(&f.branch)];
    assert_eq!(
        verify_state_proof(&[0x12, 0x74], &nodes, b"first", &f.root),
        Err(StateProofVerificationError::InvalidProofData { proof_index: 1 })
    );
    // the leaf holds another key
    let nodes = vec![copy(&f.extension), copy(&f.branch), copy(&f.leaf_34)];
    assert_eq!(
        verify_state_proof(&[0x12, 0x35], &nodes, b"first", &f.root),
        Err(StateProofVerificationError::InvalidProofData { proof_index: 2 })
    );
}

#[test]
fn proof_nodes_that_end_early_fail_for_their_length() {
    let f = fixture();
    let nodes = vec![copy(&f.extension), copy(&f.branch)];
    assert_eq!(
        verify_state_proof(&[0x12, 0x34], &nodes, b"first", &f.root),
        Err(StateProofVerificationError::InvalidProofDataLength)
    );
    assert_eq!(
        verify_not_in_state(&[0x12, 0x34], &nodes, &f.root),
        Err(StateProofVerificationError::InvalidProofDataLength)
    );
    assert_eq!(
        verify_state_proof(&[0x12], &[], b"stem", &f.root),
        Err(StateProofVerificationError::InvalidProofDataLength)
    );
}

#[test]
fn absence_is_shown_where_the_key_leaves_the_trie() {
    let f = fixture();
    // the extension does not begin the key
    assert_eq!(verify_not_in_state(&[0x13, 0x34], &[copy(&f.extension)], &f.root), Ok(()));
    // the branch has no child for the nibble
    let nodes = vec![copy(&f.extension), copy(&f.branch)];
    assert_eq!(verify_not_in_state(&[0x12, 0x74], &nodes, &f.root), Ok(()));
    // the leaf holds another key
    let nodes = vec![copy(&f.extension), copy(&f.branch), copy(&f.leaf_34)];
    assert_eq!(verify_not_in_state(&[0x12, 0x35], &nodes, &f.root), Ok(()));
    assert_eq!(verify_not_in_state(&[0x12, 0x34, 0x00], &nodes, &f.root), Ok(()));
}

#[test]
fn absence_is_shown_where_a_branch_has_no_value() {
    let leaf = RawTrieNodeWithSize::new(
        RawTrieNode::Leaf(encoded_nibbles(&[1], true), 1, value_hash(b"v")),
        1,
    );
    let mut children = no_children();
    children[2] = Some(leaf.hash());
    let branch = RawTrieNodeWithSize::new(RawTrieNode::Branch(children, None), 2);
    let root = branch.hash();
    assert_eq!(verify_not_in_state(&[], &[branch], &root), Ok(()));
}

#[test]
fn absence_is_not_shown_of_a_key_with_a_value() {
    let f = fixture();
    let nodes = vec![copy(&f.extension), copy(&f.branch), copy(&f.leaf_34)];
    assert_eq!(
        verify_not_in_state(&[0x12, 0x34], &nodes, &f.root),
        Err(StateProofVerificationError::SpecifiedKeyHasValueInState)
    );
    let nodes = vec![copy(&f.extension), copy(&f.branch)];
    assert_eq!(
        verify_not_in_state(&[0x12], &nodes, &f.root),
        Err(StateProofVerificationError::SpecifiedKeyHasValueInState)
    );
}

#[test]
fn storage_key_of_contract_data_is_column_account_comma_key() {
    assert_eq!(
        get_raw_prefix_for_contract_data(&"a.near".to_string(), &[1, 2, 3]),
        vec![9u8, b'a', b'.', b'n', b'e', b'a', b'r', 0x2c, 1, 2, 3]
    );
    assert_eq!(get_raw_prefix_for_contract_data(&String::new(), &[]), vec![9u8, b',']);
}
