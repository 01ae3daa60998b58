//! The NEAR data types that the light client reads, and their hashes.

use crate::codec::{
    encode, lemma_parse_at_encoded, lemma_parse_at_within, parse_field, spec_parse_at, Encoded,
};
use signature::{PublicKey, Signature};
use hash::{combine_hash, sha256, spec_combine_hash, spec_sha256, CryptoHash};
use vstd::bytes::*;
use vstd::prelude::*;
use vstd::slice::slice_subrange;

pub mod hash;
pub mod merkle;
pub mod signature;
pub mod transaction;
pub mod trie;

verus! {

/// The column of the keys under which a contract keeps its data.
pub const CONTRACT_DATA: u8 = 9;

/// The byte between the account and the key in the storage key of contract data.
pub const ACCOUNT_DATA_SEPARATOR: u8 = 0x2c;

pub type BlockHeight = u64;

pub type AccountId = String;

pub type Balance = u128;

pub type MerkleHash = CryptoHash;

/// A block, named by its height or by its hash.
#[derive(Clone, Copy, Debug, PartialEq, Eq)]
pub enum BlockId {
    Height(BlockHeight),
    Hash(CryptoHash),
}

/// The name of an epoch.
#[derive(Clone, Copy, Debug, PartialEq, Eq)]
pub struct EpochId(pub CryptoHash);

/// The part of a block header that a light client reads.
#[derive(Clone, Copy, Debug, PartialEq, Eq)]
pub struct BlockHeaderInnerLite {
    /// Height of this block.
    pub height: BlockHeight,
    /// The epoch of this block.
    pub epoch_id: EpochId,
    /// The epoch after it.
    pub next_epoch_id: EpochId,
    /// Root hash of the state at the previous block.
    pub prev_state_root: MerkleHash,
    /// Root of the outcomes of transactions and receipts.
    pub outcome_root: MerkleHash,
    /// The time at which the block was built, in nanoseconds since the start of 1970.
    pub timestamp: u64,
    /// Hash of the block producers of the next epoch.
    pub next_bp_hash: CryptoHash,
    /// Merkle root of the block hashes up to this block.
    pub block_merkle_root: CryptoHash,
}

/// A block header without what only the next header needs.
#[derive(Clone, Copy, Debug, PartialEq, Eq)]
pub struct LightClientBlockLite {
    pub inner_lite: BlockHeaderInnerLite,
    pub inner_rest_hash: CryptoHash,
    pub prev_block_hash: CryptoHash,
}

/// What a block producer approves: a block, or the skipping of heights.
#[derive(Clone, Copy, Debug, PartialEq, Eq)]
pub enum ApprovalInner {
    Endorsement(CryptoHash),
    Skip(BlockHeight),
}

/// The model of the inner part of a header.
pub struct SpecInnerLite {
    pub height: u64,
    pub epoch_id: Seq<u8>,
    pub next_epoch_id: Seq<u8>,
    pub prev_state_root: Seq<u8>,
    pub outcome_root: Seq<u8>,
    pub timestamp: u64,
    pub next_bp_hash: Seq<u8>,
    pub block_merkle_root: Seq<u8>,
}

/// The model of a lite block.
pub struct SpecBlockLite {
    pub inner_lite: SpecInnerLite,
    pub inner_rest_hash: Seq<u8>,
    pub prev_block_hash: Seq<u8>,
}

/// The model of what is approved.
pub enum SpecApprovalInner {
    Endorsement(Seq<u8>),
    Skip(u64),
}

impl View for EpochId {
    type V = Seq<u8>;

    open spec fn view(&self) -> Seq<u8> {
        self.0@
    }
}

impl DeepView for EpochId {
    type V = Seq<u8>;

    open spec fn deep_view(&self) -> Seq<u8> {
        self.0@
    }
}

impl DeepView for BlockHeaderInnerLite {
    type V = SpecInnerLite;

    open spec fn deep_view(&self) -> SpecInnerLite {
        SpecInnerLite {
            height: self.height,
            epoch_id: self.epoch_id@,
            next_epoch_id: self.next_epoch_id@,
            prev_state_root: self.prev_state_root@,
            outcome_root: self.outcome_root@,
            timestamp: self.timestamp,
            next_bp_hash: self.next_bp_hash@,
            block_merkle_root: self.block_merkle_root@,
        }
    }
}

impl View for BlockHeaderInnerLite {
    type V = SpecInnerLite;

    open spec fn view(&self) -> SpecInnerLite {
        self.deep_view()
    }
}

impl DeepView for LightClientBlockLite {
    type V = SpecBlockLite;

    open spec fn deep_view(&self) -> SpecBlockLite {
        SpecBlockLite {
            inner_lite: self.inner_lite@,
            inner_rest_hash: self.inner_rest_hash@,
            prev_block_hash: self.prev_block_hash@,
        }
    }
}

impl View for LightClientBlockLite {
    type V = SpecBlockLite;

    open spec fn view(&self) -> SpecBlockLite {
        self.deep_view()
    }
}

impl DeepView for ApprovalInner {
    type V = SpecApprovalInner;

    open spec fn deep_view(&self) -> SpecApprovalInner {
        match self {
            ApprovalInner::Endorsement(hash) => SpecApprovalInner::Endorsement(hash@),
            ApprovalInner::Skip(height) => SpecApprovalInner::Skip(*height),
        }
    }
}

impl View for ApprovalInner {
    type V = SpecApprovalInner;

    open spec fn view(&self) -> SpecApprovalInner {
        self.deep_view()
    }
}

impl SpecInnerLite {
    /// Every hash in it has 32 bytes.
    pub open spec fn wf(self) -> bool {
        &&& self.epoch_id.len() == 32
        &&& self.next_epoch_id.len() == 32
        &&& self.prev_state_root.len() == 32
        &&& self.outcome_root.len() == 32
        &&& self.next_bp_hash.len() == 32
        &&& self.block_merkle_root.len() == 32
    }
}

impl Encoded for EpochId {
    open spec fn encodable(m: Seq<u8>) -> bool {
        CryptoHash::encodable(m)
    }

    open spec fn spec_encode(m: Seq<u8>) -> Seq<u8> {
        CryptoHash::spec_encode(m)
    }

    open spec fn spec_parse(bytes: Seq<u8>) -> Option<(Seq<u8>, int)> {
        CryptoHash::spec_parse(bytes)
    }

    proof fn lemma_parse_encode(m: Seq<u8>, rest: Seq<u8>) {
        CryptoHash::lemma_parse_encode(m, rest);
    }

    proof fn lemma_parse_within(bytes: Seq<u8>) {
    }

    fn is_encodable(&self) -> (b: bool) {
        true
    }

    fn encode_into(&self, out: &mut Vec<u8>) {
        self.0.encode_into(out);
        assert(out@ =~= old(out)@ + Self::spec_encode(self.deep_view()));
    }

    fn parse(bytes: &[u8], pos: usize) -> (r: Option<(Self, usize)>) {
        match CryptoHash::parse(bytes, pos) {
            Some((hash, next)) => Some((EpochId(hash), next)),
            None => None,
        }
    }
}

impl Encoded for BlockHeaderInnerLite {
    open spec fn encodable(m: SpecInnerLite) -> bool {
        m.wf()
    }

    open spec fn spec_encode(m: SpecInnerLite) -> Seq<u8> {
        spec_u64_to_le_bytes(m.height) + m.epoch_id + m.next_epoch_id + m.prev_state_root
            + m.outcome_root + spec_u64_to_le_bytes(m.timestamp) + m.next_bp_hash
            + m.block_merkle_root
    }

    open spec fn spec_parse(bytes: Seq<u8>) -> Option<(SpecInnerLite, int)> {
        if bytes.len() >= 208 {
            Some(
                (
                    SpecInnerLite {
                        height: spec_u64_from_le_bytes(bytes.subrange(0, 8)),
                        epoch_id: bytes.subrange(8, 40),
                        next_epoch_id: bytes.subrange(40, 72),
                        prev_state_root: bytes.subrange(72, 104),
                        outcome_root: bytes.subrange(104, 136),
                        timestamp: spec_u64_from_le_bytes(bytes.subrange(136, 144)),
                        next_bp_hash: bytes.subrange(144, 176),
                        block_merkle_root: bytes.subrange(176, 208),
                    },
                    208,
                ),
            )
        } else {
            None
        }
    }

    proof fn lemma_parse_encode(m: SpecInnerLite, rest: Seq<u8>) {
        lemma_auto_spec_u64_to_from_le_bytes();
        let bytes = Self::spec_encode(m) + rest;
        assert(bytes.subrange(0, 8) =~= spec_u64_to_le_bytes(m.height));
        assert(bytes.subrange(8, 40) =~= m.epoch_id);
        assert(bytes.subrange(40, 72) =~= m.next_epoch_id);
        assert(bytes.subrange(72, 104) =~= m.prev_state_root);
        assert(bytes.subrange(104, 136) =~= m.outcome_root);
        assert(bytes.subrange(136, 144) =~= spec_u64_to_le_bytes(m.timestamp));
        assert(bytes.subrange(144, 176) =~= m.next_bp_hash);
        assert(bytes.subrange(176, 208) =~= m.block_merkle_root);
    }

    proof fn lemma_parse_within(bytes: Seq<u8>) {
    }

    fn is_encodable(&self) -> (b: bool) {
        true
    }

    fn encode_into(&self, out: &mut Vec<u8>) {
        self.height.encode_into(out);
        self.epoch_id.encode_into(out);
        self.next_epoch_id.encode_into(out);
        self.prev_state_root.encode_into(out);
        self.outcome_root.encode_into(out);
        self.timestamp.encode_into(out);
        self.next_bp_hash.encode_into(out);
        self.block_merkle_root.encode_into(out);
        assert(out@ =~= old(out)@ + Self::spec_encode(self.deep_view()));
    }

    fn parse(bytes: &[u8], pos: usize) -> (r: Option<(Self, usize)>) {
        if bytes.len() - pos < 208 {
            return None;
        }
        let ghost tail = bytes@.skip(pos as int);
        let height = u64_from_le_bytes(slice_subrange(bytes, pos, pos + 8));
        assert(tail.subrange(0, 8) =~= bytes@.subrange(pos as int, pos + 8));
        let epoch_id = EpochId(CryptoHash::read(bytes, pos + 8));
        assert(tail.subrange(8, 40) =~= bytes@.subrange(pos + 8, pos + 40));
        let next_epoch_id = EpochId(CryptoHash::read(bytes, pos + 40));
        assert(tail.subrange(40, 72) =~= bytes@.subrange(pos + 40, pos + 72));
        let prev_state_root = CryptoHash::read(bytes, pos + 72);
        assert(tail.subrange(72, 104) =~= bytes@.subrange(pos + 72, pos + 104));
        let outcome_root = CryptoHash::read(bytes, pos + 104);
        assert(tail.subrange(104, 136) =~= bytes@.subrange(pos + 104, pos + 136));
        let timestamp = u64_from_le_bytes(slice_subrange(bytes, pos + 136, pos + 144));
        assert(tail.subrange(136, 144) =~= bytes@.subrange(pos + 136, pos + 144));
        let next_bp_hash = CryptoHash::read(bytes, pos + 144);
        assert(tail.subrange(144, 176) =~= bytes@.subrange(pos + 144, pos + 176));
        let block_merkle_root = CryptoHash::read(bytes, pos + 176);
        assert(tail.subrange(176, 208) =~= bytes@.subrange(pos + 176, pos + 208));
        Some(
            (
                BlockHeaderInnerLite {
                    height,
                    epoch_id,
                    next_epoch_id,
                    prev_state_root,
                    outcome_root,
                    timestamp,
                    next_bp_hash,
                    block_merkle_root,
                },
                pos + 208,
            ),
        )
    }
}

impl Encoded for LightClientBlockLite {
    open spec fn encodable(m: SpecBlockLite) -> bool {
        &&& m.inner_lite.wf()
        &&& m.inner_rest_hash.len() == 32
        &&& m.prev_block_hash.len() == 32
    }

    open spec fn spec_encode(m: SpecBlockLite) -> Seq<u8> {
        BlockHeaderInnerLite::spec_encode(m.inner_lite) + m.inner_rest_hash + m.prev_block_hash
    }

    open spec fn spec_parse(bytes: Seq<u8>) -> Option<(SpecBlockLite, int)> {
        match BlockHeaderInnerLite::spec_parse(bytes) {
            Some((inner_lite, _)) => if bytes.len() >= 272 {
                Some(
                    (
                        SpecBlockLite {
                            inner_lite,
                            inner_rest_hash: bytes.subrange(208, 240),
                            prev_block_hash: bytes.subrange(240, 272),
                        },
                        272,
                    ),
                )
            } else {
                None
            },
            None => None,
        }
    }

    proof fn lemma_parse_encode(m: SpecBlockLite, rest: Seq<u8>) {
        let bytes = Self::spec_encode(m) + rest;
        let inner = BlockHeaderInnerLite::spec_encode(m.inner_lite);
        assert(bytes =~= inner + (m.inner_rest_hash + m.prev_block_hash + rest));
        BlockHeaderInnerLite::lemma_parse_encode(
            m.inner_lite,
            m.inner_rest_hash + m.prev_block_hash + rest,
        );
        assert(bytes.subrange(208, 240) =~= m.inner_rest_hash);
        assert(bytes.subrange(240, 272) =~= m.prev_block_hash);
    }

    proof fn lemma_parse_within(bytes: Seq<u8>) {
    }

    fn is_encodable(&self) -> (b: bool) {
        true
    }

    fn encode_into(&self, out: &mut Vec<u8>) {
        self.inner_lite.encode_into(out);
        self.inner_rest_hash.encode_into(out);
        self.prev_block_hash.encode_into(out);
        assert(out@ =~= old(out)@ + Self::spec_encode(self.deep_view()));
    }

    fn parse(bytes: &[u8], pos: usize) -> (r: Option<(Self, usize)>) {
        if bytes.len() - pos < 272 {
            return None;
        }
        let ghost tail = bytes@.skip(pos as int);
        match BlockHeaderInnerLite::parse(bytes, pos) {
            Some((inner_lite, _)) => {
                let inner_rest_hash = CryptoHash::read(bytes, pos + 208);
                assert(tail.subrange(208, 240) =~= bytes@.subrange(pos + 208, pos + 240));
                let prev_block_hash = CryptoHash::read(bytes, pos + 240);
                assert(tail.subrange(240, 272) =~= bytes@.subrange(pos + 240, pos + 272));
                Some((LightClientBlockLite { inner_lite, inner_rest_hash, prev_block_hash }, pos + 272))
            },
            None => None,
        }
    }
}

impl Encoded for ApprovalInner {
    open spec fn encodable(m: SpecApprovalInner) -> bool {
        match m {
            SpecApprovalInner::Endorsement(hash) => hash.len() == 32,
            SpecApprovalInner::Skip(_) => true,
        }
    }

    open spec fn spec_encode(m: SpecApprovalInner) -> Seq<u8> {
        match m {
            SpecApprovalInner::Endorsement(hash) => seq![0u8] + hash,
            SpecApprovalInner::Skip(height) => seq![1u8] + spec_u64_to_le_bytes(height),
        }
    }

    open spec fn spec_parse(bytes: Seq<u8>) -> Option<(SpecApprovalInner, int)> {
        if bytes.len() >= 33 && bytes[0] == 0 {
            Some((SpecApprovalInner::Endorsement(bytes.subrange(1, 33)), 33))
        } else if bytes.len() >= 9 && bytes[0] == 1 {
            Some((SpecApprovalInner::Skip(spec_u64_from_le_bytes(bytes.subrange(1, 9))), 9))
        } else {
            None
        }
    }

    proof fn lemma_parse_encode(m: SpecApprovalInner, rest: Seq<u8>) {
        lemma_auto_spec_u64_to_from_le_bytes();
        let bytes = Self::spec_encode(m) + rest;
        match m {
            SpecApprovalInner::Endorsement(hash) => {
                assert(bytes.subrange(1, 33) =~= hash);
            },
            SpecApprovalInner::Skip(height) => {
                assert(bytes.subrange(1, 9) =~= spec_u64_to_le_bytes(height));
            },
        }
    }

    proof fn lemma_parse_within(bytes: Seq<u8>) {
    }

    fn is_encodable(&self) -> (b: bool) {
        true
    }

    fn encode_into(&self, out: &mut Vec<u8>) {
        match self {
            ApprovalInner::Endorsement(hash) => {
                out.push(0u8);
                hash.encode_into(out);
            },
            ApprovalInner::Skip(height) => {
                out.push(1u8);
                height.encode_into(out);
            },
        }
        assert(out@ =~= old(out)@ + Self::spec_encode(self.deep_view()));
    }

    fn parse(bytes: &[u8], pos: usize) -> (r: Option<(Self, usize)>) {
        if pos >= bytes.len() {
            return None;
        }
        let ghost tail = bytes@.skip(pos as int);
        let tag = bytes[pos];
        if tag == 0 && bytes.len() - pos >= 33 {
            let hash = CryptoHash::read(bytes, pos + 1);
            assert(tail.subrange(1, 33) =~= bytes@.subrange(pos + 1, pos + 33));
            Some((ApprovalInner::Endorsement(hash), pos + 33))
        } else if tag == 1 && bytes.len() - pos >= 9 {
            let height = u64_from_le_bytes(slice_subrange(bytes, pos + 1, pos + 9));
            assert(tail.subrange(1, 9) =~= bytes@.subrange(pos + 1, pos + 9));
            Some((ApprovalInner::Skip(height), pos + 9))
        } else {
            None
        }
    }
}

/// The hash of the block with inner part `inner_lite`: the hash of the encoded inner
/// part, combined with the hash of the rest of the header and then with the hash of the
/// block before.
pub open spec fn spec_current_block_hash(
    inner_lite: SpecInnerLite,
    inner_rest_hash: Seq<u8>,
    prev_block_hash: Seq<u8>,
) -> Seq<u8> {
    spec_combine_hash(
        spec_combine_hash(
            spec_sha256(BlockHeaderInnerLite::spec_encode(inner_lite)),
            inner_rest_hash,
        ),
        prev_block_hash,
    )
}

/// The hash of a block, from the parts of its header.
fn block_hash(
    inner_lite: &BlockHeaderInnerLite,
    inner_rest_hash: &CryptoHash,
    prev_block_hash: &CryptoHash,
) -> (h: CryptoHash)
    ensures
        h@ == spec_current_block_hash(inner_lite@, inner_rest_hash@, prev_block_hash@),
{
    let inner = CryptoHash(sha256(encode(inner_lite).as_slice()));
    combine_hash(&combine_hash(&inner, inner_rest_hash), prev_block_hash)
}

impl LightClientBlockLite {
    /// The hash of this block.
    pub fn current_block_hash(&self) -> (h: CryptoHash)
        ensures
            h@ == spec_current_block_hash(
                self@.inner_lite,
                self@.inner_rest_hash,
                self@.prev_block_hash,
            ),
    {
        block_hash(&self.inner_lite, &self.inner_rest_hash, &self.prev_block_hash)
    }
}

/// The key in the trie of the data that the contract of `account_id` keeps under
/// `prefix`: the column of contract data, the account, a comma, and `prefix`.
pub open spec fn spec_raw_prefix_for_contract_data(account_id: Seq<char>, prefix: Seq<u8>) -> Seq<
    u8,
> {
    seq![CONTRACT_DATA] + vstd::utf8::encode_utf8(account_id) + seq![ACCOUNT_DATA_SEPARATOR]
        + prefix
}

/// The key in the trie of the data that the contract of `account_id` keeps under `prefix`.
pub fn get_raw_prefix_for_contract_data(account_id: &AccountId, prefix: &[u8]) -> (key: Vec<u8>)
    ensures
        key@ == spec_raw_prefix_for_contract_data(account_id@, prefix@),
{
    let mut res: Vec<u8> = Vec::new();
    res.push(CONTRACT_DATA);
    res.extend_from_slice(account_id.as_str().as_bytes());
    res.push(ACCOUNT_DATA_SEPARATOR);
    res.extend_from_slice(prefix);
    assert(res@ =~= spec_raw_prefix_for_contract_data(account_id@, prefix@));
    res
}

/// A block producer with its stake.
#[derive(Debug, PartialEq, Eq)]
pub struct ValidatorStakeViewV1 {
    pub account_id: AccountId,
    pub public_key: PublicKey,
    pub stake: Balance,
}

/// A block producer with its stake, in one of the versions of the record.
#[derive(Debug, PartialEq, Eq)]
pub enum ValidatorStakeView {
    V1(ValidatorStakeViewV1),
}

/// The model of a block producer with its stake.
pub struct SpecValidatorStake {
    pub account_id: Seq<char>,
    pub public_key: Seq<u8>,
    pub stake: u128,
}

impl DeepView for ValidatorStakeViewV1 {
    type V = SpecValidatorStake;

    open spec fn deep_view(&self) -> SpecValidatorStake {
        SpecValidatorStake {
            account_id: self.account_id@,
            public_key: self.public_key@,
            stake: self.stake,
        }
    }
}

impl View for ValidatorStakeViewV1 {
    type V = SpecValidatorStake;

    open spec fn view(&self) -> SpecValidatorStake {
        self.deep_view()
    }
}

impl DeepView for ValidatorStakeView {
    type V = SpecValidatorStake;

    open spec fn deep_view(&self) -> SpecValidatorStake {
        match self {
            ValidatorStakeView::V1(inner) => inner.deep_view(),
        }
    }
}

impl View for ValidatorStakeView {
    type V = SpecValidatorStake;

    open spec fn view(&self) -> SpecValidatorStake {
        self.deep_view()
    }
}

impl Clone for ValidatorStakeViewV1 {
    fn clone(&self) -> (r: Self)
        ensures
            r.deep_view() == self.deep_view(),
    {
        ValidatorStakeViewV1 {
            account_id: self.account_id.clone(),
            public_key: self.public_key.clone(),
            stake: self.stake,
        }
    }
}

impl Clone for ValidatorStakeView {
    fn clone(&self) -> (r: Self)
        ensures
            r.deep_view() == self.deep_view(),
    {
        match self {
            ValidatorStakeView::V1(inner) => ValidatorStakeView::V1(inner.clone()),
        }
    }
}

impl ValidatorStakeView {
    /// The record that this version holds.
    pub fn into_validator_stake(self) -> (r: ValidatorStakeViewV1)
        ensures
            r.deep_view() == self.deep_view(),
    {
        match self {
            Self::V1(inner) => inner,
        }
    }
}

impl Encoded for ValidatorStakeViewV1 {
    open spec fn encodable(m: SpecValidatorStake) -> bool {
        String::encodable(m.account_id) && PublicKey::encodable(m.public_key)
    }

    open spec fn spec_encode(m: SpecValidatorStake) -> Seq<u8> {
        String::spec_encode(m.account_id) + PublicKey::spec_encode(m.public_key)
            + u128::spec_encode(m.stake)
    }

    open spec fn spec_parse(bytes: Seq<u8>) -> Option<(SpecValidatorStake, int)> {
        match spec_parse_at::<String>(bytes, 0) {
            Some((account_id, first_end)) => match spec_parse_at::<PublicKey>(bytes, first_end) {
                Some((public_key, second_end)) => match spec_parse_at::<u128>(bytes, second_end) {
                    Some((stake, third_end)) => Some((SpecValidatorStake { account_id, public_key, stake }, third_end)),
                    None => None,
                },
                None => None,
            },
            None => None,
        }
    }

    proof fn lemma_parse_encode(m: SpecValidatorStake, rest: Seq<u8>) {
        let bytes = Self::spec_encode(m) + rest;
        let e1 = String::spec_encode(m.account_id);
        let e2 = PublicKey::spec_encode(m.public_key);
        let e3 = u128::spec_encode(m.stake);
        assert(bytes.skip(0) =~= e1 + (e2 + e3 + rest));
        lemma_parse_at_encoded::<String>(bytes, 0, m.account_id, e2 + e3 + rest);
        assert(bytes.skip(e1.len() as int) =~= e2 + (e3 + rest));
        lemma_parse_at_encoded::<PublicKey>(bytes, e1.len() as int, m.public_key, e3 + rest);
        lemma_parse_at_encoded::<u128>(bytes, (e1.len() + e2.len()) as int, m.stake, rest);
    }

    proof fn lemma_parse_within(bytes: Seq<u8>) {
        lemma_parse_at_within::<String>(bytes, 0);
        if let Some((_, first_end)) = spec_parse_at::<String>(bytes, 0) {
            lemma_parse_at_within::<PublicKey>(bytes, first_end);
            if let Some((_, second_end)) = spec_parse_at::<PublicKey>(bytes, first_end) {
                lemma_parse_at_within::<u128>(bytes, second_end);
            }
        }
    }

    fn is_encodable(&self) -> (b: bool) {
        self.account_id.is_encodable()
    }

    fn encode_into(&self, out: &mut Vec<u8>) {
        self.account_id.encode_into(out);
        self.public_key.encode_into(out);
        self.stake.encode_into(out);
        assert(out@ =~= old(out)@ + Self::spec_encode(self.deep_view()));
    }

    fn parse(bytes: &[u8], pos: usize) -> (r: Option<(Self, usize)>) {
        let (account_id, first_end) = match parse_field::<String>(bytes, pos, pos) {
            Some(p) => p,
            None => {
                return None;
            },
        };
        let (public_key, second_end) = match parse_field::<PublicKey>(bytes, pos, first_end) {
            Some(p) => p,
            None => {
                return None;
            },
        };
        let (stake, third_end) = match parse_field::<u128>(bytes, pos, second_end) {
            Some(p) => p,
            None => {
                return None;
            },
        };
        Some((ValidatorStakeViewV1 { account_id, public_key, stake }, third_end))
    }
}

impl Encoded for ValidatorStakeView {
    open spec fn encodable(m: SpecValidatorStake) -> bool {
        ValidatorStakeViewV1::encodable(m)
    }

    open spec fn spec_encode(m: SpecValidatorStake) -> Seq<u8> {
        seq![0u8] + ValidatorStakeViewV1::spec_encode(m)
    }

    open spec fn spec_parse(bytes: Seq<u8>) -> Option<(SpecValidatorStake, int)> {
        if bytes.len() >= 1 && bytes[0] == 0 {
            spec_parse_at::<ValidatorStakeViewV1>(bytes, 1)
        } else {
            None
        }
    }

    proof fn lemma_parse_encode(m: SpecValidatorStake, rest: Seq<u8>) {
        let bytes = Self::spec_encode(m) + rest;
        assert(bytes.skip(1) =~= ValidatorStakeViewV1::spec_encode(m) + rest);
        lemma_parse_at_encoded::<ValidatorStakeViewV1>(bytes, 1, m, rest);
    }

    proof fn lemma_parse_within(bytes: Seq<u8>) {
        lemma_parse_at_within::<ValidatorStakeViewV1>(bytes, 1);
    }

    fn is_encodable(&self) -> (b: bool) {
        match self {
            ValidatorStakeView::V1(inner) => inner.is_encodable(),
        }
    }

    fn encode_into(&self, out: &mut Vec<u8>) {
        match self {
            ValidatorStakeView::V1(inner) => {
                out.push(0u8);
                inner.encode_into(out);
                assert(out@ =~= old(out)@ + Self::spec_encode(self.deep_view()));
            },
        }
    }

    fn parse(bytes: &[u8], pos: usize) -> (r: Option<(Self, usize)>) {
        if pos >= bytes.len() || bytes[pos] != 0 {
            return None;
        }
        match parse_field::<ValidatorStakeViewV1>(bytes, pos, pos + 1) {
            Some((inner, next)) => Some((ValidatorStakeView::V1(inner), next)),
            None => None,
        }
    }
}

/// A block header as a light client is given it.
#[derive(Debug, PartialEq, Eq)]
pub struct LightClientBlock {
    pub prev_block_hash: CryptoHash,
    pub next_block_inner_hash: CryptoHash,
    pub inner_lite: BlockHeaderInnerLite,
    pub inner_rest_hash: CryptoHash,
    /// The block producers of the next epoch, in their order.
    pub next_bps: Option<Vec<ValidatorStakeView>>,
    /// For each block producer of the epoch, in their order, its signature if it signed.
    pub approvals_after_next: Vec<Option<Signature>>,
}

/// The model of a block header.
pub struct SpecBlock {
    pub prev_block_hash: Seq<u8>,
    pub next_block_inner_hash: Seq<u8>,
    pub inner_lite: SpecInnerLite,
    pub inner_rest_hash: Seq<u8>,
    pub next_bps: Option<Seq<SpecValidatorStake>>,
    pub approvals_after_next: Seq<Option<Seq<u8>>>,
}

impl DeepView for LightClientBlock {
    type V = SpecBlock;

    open spec fn deep_view(&self) -> SpecBlock {
        SpecBlock {
            prev_block_hash: self.prev_block_hash@,
            next_block_inner_hash: self.next_block_inner_hash@,
            inner_lite: self.inner_lite@,
            inner_rest_hash: self.inner_rest_hash@,
            next_bps: self.next_bps.deep_view(),
            approvals_after_next: self.approvals_after_next.deep_view(),
        }
    }
}

impl View for LightClientBlock {
    type V = SpecBlock;

    open spec fn view(&self) -> SpecBlock {
        self.deep_view()
    }
}

/// A copy of a list of block producers.
pub fn clone_block_producers(producers: &Vec<ValidatorStakeView>) -> (r: Vec<ValidatorStakeView>)
    ensures
        r.deep_view() == producers.deep_view(),
{
    let mut r: Vec<ValidatorStakeView> = Vec::new();
    let mut i: usize = 0;
    while i < producers.len()
        invariant
            i <= producers.len(),
            r.len() == i,
            forall|k: int| 0 <= k < i ==> (#[trigger] r[k]).deep_view() == producers[k].deep_view(),
        decreases producers.len() - i,
    {
        r.push(producers[i].clone());
        i += 1;
    }
    assert(r.deep_view() =~= producers.deep_view());
    r
}

/// A copy of a list of block producers that may be missing.
pub fn clone_optional_block_producers(producers: &Option<Vec<ValidatorStakeView>>) -> (r: Option<
    Vec<ValidatorStakeView>,
>)
    ensures
        r.deep_view() == producers.deep_view(),
{
    match producers {
        Some(list) => Some(clone_block_producers(list)),
        None => None,
    }
}

impl Clone for LightClientBlock {
    fn clone(&self) -> (r: Self)
        ensures
            r.deep_view() == self.deep_view(),
    {
        let mut approvals: Vec<Option<Signature>> = Vec::new();
        let mut i: usize = 0;
        while i < self.approvals_after_next.len()
            invariant
                i <= self.approvals_after_next.len(),
                approvals.len() == i,
                forall|k: int|
                    0 <= k < i ==> (#[trigger] approvals[k]).deep_view()
                        == self.approvals_after_next[k].deep_view(),
            decreases self.approvals_after_next.len() - i,
        {
            let approval = match &self.approvals_after_next[i] {
                Some(signature) => Some(signature.clone()),
                None => None,
            };
            approvals.push(approval);
            i += 1;
        }
        assert(approvals.deep_view() =~= self.approvals_after_next.deep_view());
        LightClientBlock {
            prev_block_hash: self.prev_block_hash,
            next_block_inner_hash: self.next_block_inner_hash,
            inner_lite: self.inner_lite,
            inner_rest_hash: self.inner_rest_hash,
            next_bps: clone_optional_block_producers(&self.next_bps),
            approvals_after_next: approvals,
        }
    }
}

impl Encoded for LightClientBlock {
    open spec fn encodable(m: SpecBlock) -> bool {
        &&& m.prev_block_hash.len() == 32
        &&& m.next_block_inner_hash.len() == 32
        &&& m.inner_lite.wf()
        &&& m.inner_rest_hash.len() == 32
        &&& Option::<Vec<ValidatorStakeView>>::encodable(m.next_bps)
        &&& Vec::<Option<Signature>>::encodable(m.approvals_after_next)
    }

    open spec fn spec_encode(m: SpecBlock) -> Seq<u8> {
        m.prev_block_hash + m.next_block_inner_hash + BlockHeaderInnerLite::spec_encode(
            m.inner_lite,
        ) + m.inner_rest_hash + Option::<Vec<ValidatorStakeView>>::spec_encode(m.next_bps)
            + Vec::<Option<Signature>>::spec_encode(m.approvals_after_next)
    }

    open spec fn spec_parse(bytes: Seq<u8>) -> Option<(SpecBlock, int)> {
        if bytes.len() < 304 {
            None
        } else {
            match BlockHeaderInnerLite::spec_parse(bytes.skip(64)) {
                None => None,
                Some((inner_lite, _)) => match spec_parse_at::<Option<Vec<ValidatorStakeView>>>(
                    bytes,
                    304,
                ) {
                    None => None,
                    Some((next_bps, first_end)) => match spec_parse_at::<Vec<Option<Signature>>>(bytes, first_end) {
                        None => None,
                        Some((approvals_after_next, second_end)) => Some(
                            (
                                SpecBlock {
                                    prev_block_hash: bytes.subrange(0, 32),
                                    next_block_inner_hash: bytes.subrange(32, 64),
                                    inner_lite,
                                    inner_rest_hash: bytes.subrange(272, 304),
                                    next_bps,
                                    approvals_after_next,
                                },
                                second_end,
                            ),
                        ),
                    },
                },
            }
        }
    }

    proof fn lemma_parse_encode(m: SpecBlock, rest: Seq<u8>) {
        let bytes = Self::spec_encode(m) + rest;
        let inner = BlockHeaderInnerLite::spec_encode(m.inner_lite);
        let bps = Option::<Vec<ValidatorStakeView>>::spec_encode(m.next_bps);
        let approvals = Vec::<Option<Signature>>::spec_encode(m.approvals_after_next);
        assert(inner.len() == 208) by {
            lemma_auto_spec_u64_to_from_le_bytes();
        }
        assert(bytes.subrange(0, 32) =~= m.prev_block_hash);
        assert(bytes.subrange(32, 64) =~= m.next_block_inner_hash);
        assert(bytes.skip(64) =~= inner + (m.inner_rest_hash + bps + approvals + rest));
        BlockHeaderInnerLite::lemma_parse_encode(
            m.inner_lite,
            m.inner_rest_hash + bps + approvals + rest,
        );
        assert(bytes.subrange(272, 304) =~= m.inner_rest_hash);
        assert(bytes.skip(304) =~= bps + (approvals + rest));
        lemma_parse_at_encoded::<Option<Vec<ValidatorStakeView>>>(
            bytes,
            304,
            m.next_bps,
            approvals + rest,
        );
        lemma_parse_at_encoded::<Vec<Option<Signature>>>(
            bytes,
            (304 + bps.len()) as int,
            m.approvals_after_next,
            rest,
        );
    }

    proof fn lemma_parse_within(bytes: Seq<u8>) {
        lemma_parse_at_within::<Option<Vec<ValidatorStakeView>>>(bytes, 304);
        if let Some((_, first_end)) = spec_parse_at::<Option<Vec<ValidatorStakeView>>>(bytes, 304) {
            lemma_parse_at_within::<Vec<Option<Signature>>>(bytes, first_end);
        }
    }

    fn is_encodable(&self) -> (b: bool) {
        self.next_bps.is_encodable() && self.approvals_after_next.is_encodable()
    }

    fn encode_into(&self, out: &mut Vec<u8>) {
        self.prev_block_hash.encode_into(out);
        self.next_block_inner_hash.encode_into(out);
        self.inner_lite.encode_into(out);
        self.inner_rest_hash.encode_into(out);
        self.next_bps.encode_into(out);
        self.approvals_after_next.encode_into(out);
        assert(out@ =~= old(out)@ + Self::spec_encode(self.deep_view()));
    }

    fn parse(bytes: &[u8], pos: usize) -> (r: Option<(Self, usize)>) {
        if bytes.len() - pos < 304 {
            return None;
        }
        let ghost tail = bytes@.skip(pos as int);
        let prev_block_hash = CryptoHash::read(bytes, pos);
        assert(tail.subrange(0, 32) =~= bytes@.subrange(pos as int, pos + 32));
        let next_block_inner_hash = CryptoHash::read(bytes, pos + 32);
        assert(tail.subrange(32, 64) =~= bytes@.subrange(pos + 32, pos + 64));
        assert(tail.skip(64) =~= bytes@.skip(pos + 64));
        let inner_lite = match BlockHeaderInnerLite::parse(bytes, pos + 64) {
            Some((inner_lite, _)) => inner_lite,
            None => {
                return None;
            },
        };
        let inner_rest_hash = CryptoHash::read(bytes, pos + 272);
        assert(tail.subrange(272, 304) =~= bytes@.subrange(pos + 272, pos + 304));
        let (next_bps, first_end) = match parse_field::<Option<Vec<ValidatorStakeView>>>(
            bytes,
            pos,
            pos + 304,
        ) {
            Some(p) => p,
            None => {
                return None;
            },
        };
        let (approvals_after_next, second_end) = match parse_field::<Vec<Option<Signature>>>(
            bytes,
            pos,
            first_end,
        ) {
            Some(p) => p,
            None => {
                return None;
            },
        };
        Some(
            (
                LightClientBlock {
                    prev_block_hash,
                    next_block_inner_hash,
                    inner_lite,
                    inner_rest_hash,
                    next_bps,
                    approvals_after_next,
                },
                second_end,
            ),
        )
    }
}

/// The hash of the block after the block with hash `current`, whose inner hash is
/// `next_block_inner_hash`.
pub open spec fn spec_next_block_hash(next_block_inner_hash: Seq<u8>, current: Seq<u8>) -> Seq<u8> {
    spec_combine_hash(next_block_inner_hash, current)
}

/// The message that the block producers sign to approve `block`: the endorsement of the
/// block after it, then the height two above the height of `block`, taken in 64 bits.
pub open spec fn spec_approval_message(block: SpecBlock) -> Seq<u8> {
    ApprovalInner::spec_encode(
        SpecApprovalInner::Endorsement(
            spec_next_block_hash(
                block.next_block_inner_hash,
                spec_current_block_hash(
                    block.inner_lite,
                    block.inner_rest_hash,
                    block.prev_block_hash,
                ),
            ),
        ),
    ) + spec_u64_to_le_bytes(block.inner_lite.height.wrapping_add(2))
}

impl LightClientBlock {
    /// The hash of this block.
    pub fn current_block_hash(&self) -> (h: CryptoHash)
        ensures
            h@ == spec_current_block_hash(
                self@.inner_lite,
                self@.inner_rest_hash,
                self@.prev_block_hash,
            ),
    {
        block_hash(&self.inner_lite, &self.inner_rest_hash, &self.prev_block_hash)
    }

    /// The hash of the block after this one.
    pub fn next_block_hash(&self) -> (h: CryptoHash)
        ensures
            h@ == spec_next_block_hash(
                self@.next_block_inner_hash,
                spec_current_block_hash(
                    self@.inner_lite,
                    self@.inner_rest_hash,
                    self@.prev_block_hash,
                ),
            ),
    {
        combine_hash(&self.next_block_inner_hash, &self.current_block_hash())
    }

    /// The message that the block producers sign to approve this block.
    pub fn approval_message(&self) -> (message: Vec<u8>)
        ensures
            message@ == spec_approval_message(self@),
    {
        let mut message = encode(&ApprovalInner::Endorsement(self.next_block_hash()));
        let target = self.inner_lite.height.wrapping_add(2);
        message.extend_from_slice(u64_to_le_bytes(target).as_slice());
        assert(message@ =~= spec_approval_message(self@));
        message
    }
}

} // verus!
