//! Outcomes of transactions and receipts, and the hashes that commit to them.

use super::hash::{sha256, spec_sha256, CryptoHash};
use super::AccountId;
use crate::codec::Encoded;
use vstd::prelude::*;
use vstd::utf8::encode_utf8;

verus! {

/// How the execution of a transaction or a receipt ended.
#[derive(Debug, PartialEq, Eq)]
pub enum ExecutionStatus {
    /// The execution is pending or unknown.
    Unknown,
    /// The execution failed.
    Failure,
    /// The execution succeeded with this value.
    SuccessValue(Vec<u8>),
    /// The execution goes on in the receipt with this hash.
    SuccessReceiptId(CryptoHash),
}

/// What the execution of a transaction or a receipt did.
#[derive(Debug, PartialEq, Eq)]
pub struct ExecutionOutcome {
    /// What the execution logged.
    pub logs: Vec<String>,
    /// The receipts that the execution made.
    pub receipt_ids: Vec<CryptoHash>,
    /// The gas that the execution burnt.
    pub gas_burnt: u64,
    /// The tokens that were burnt for the gas.
    pub tokens_burnt: u128,
    /// The account in which the execution ran.
    pub executor_id: AccountId,
    /// How the execution ended.
    pub status: ExecutionStatus,
}

/// An outcome with the hash of the transaction or the receipt that it is the outcome of.
#[derive(Debug, PartialEq, Eq)]
pub struct ExecutionOutcomeWithId {
    pub id: CryptoHash,
    pub outcome: ExecutionOutcome,
}

/// The model of the end of an execution.
pub enum SpecExecutionStatus {
    Unknown,
    Failure,
    SuccessValue(Seq<u8>),
    SuccessReceiptId(Seq<u8>),
}

/// The model of an outcome.
pub struct SpecExecutionOutcome {
    pub logs: Seq<Seq<char>>,
    pub receipt_ids: Seq<Seq<u8>>,
    pub gas_burnt: u64,
    pub tokens_burnt: u128,
    pub executor_id: Seq<char>,
    pub status: SpecExecutionStatus,
}

/// The model of an outcome with its hash.
pub struct SpecExecutionOutcomeWithId {
    pub id: Seq<u8>,
    pub outcome: SpecExecutionOutcome,
}

impl DeepView for ExecutionStatus {
    type V = SpecExecutionStatus;

    open spec fn deep_view(&self) -> SpecExecutionStatus {
        match self {
            ExecutionStatus::Unknown => SpecExecutionStatus::Unknown,
            ExecutionStatus::Failure => SpecExecutionStatus::Failure,
            ExecutionStatus::SuccessValue(value) => SpecExecutionStatus::SuccessValue(value@),
            ExecutionStatus::SuccessReceiptId(id) => SpecExecutionStatus::SuccessReceiptId(id@),
        }
    }
}

impl DeepView for ExecutionOutcome {
    type V = SpecExecutionOutcome;

    open spec fn deep_view(&self) -> SpecExecutionOutcome {
        SpecExecutionOutcome {
            logs: self.logs.deep_view(),
            receipt_ids: self.receipt_ids.deep_view(),
            gas_burnt: self.gas_burnt,
            tokens_burnt: self.tokens_burnt,
            executor_id: self.executor_id@,
            status: self.status.deep_view(),
        }
    }
}

impl DeepView for ExecutionOutcomeWithId {
    type V = SpecExecutionOutcomeWithId;

    open spec fn deep_view(&self) -> SpecExecutionOutcomeWithId {
        SpecExecutionOutcomeWithId { id: self.id@, outcome: self.outcome.deep_view() }
    }
}

impl View for ExecutionOutcomeWithId {
    type V = SpecExecutionOutcomeWithId;

    open spec fn view(&self) -> SpecExecutionOutcomeWithId {
        self.deep_view()
    }
}

/// The encoding of the end of an execution: a tag, and what a success holds. Of a
/// failure only the tag is kept.
pub open spec fn spec_encode_status(status: SpecExecutionStatus) -> Seq<u8> {
    match status {
        SpecExecutionStatus::Unknown => seq![0u8],
        SpecExecutionStatus::Failure => seq![1u8],
        SpecExecutionStatus::SuccessValue(value) => seq![2u8] + Vec::<u8>::spec_encode(value),
        SpecExecutionStatus::SuccessReceiptId(id) => seq![3u8] + id,
    }
}

/// The encoding of the part of an outcome that is hashed in one piece: all but the logs.
pub open spec fn spec_encode_partial_outcome(outcome: SpecExecutionOutcome) -> Seq<u8> {
    Vec::<CryptoHash>::spec_encode(outcome.receipt_ids) + u64::spec_encode(outcome.gas_burnt)
        + u128::spec_encode(outcome.tokens_burnt) + String::spec_encode(outcome.executor_id)
        + spec_encode_status(outcome.status)
}

/// Whether every length in the part of `outcome` that is hashed in one piece fits its
/// 32-bit count.
pub open spec fn spec_outcome_encodable(outcome: SpecExecutionOutcome) -> bool {
    &&& Vec::<CryptoHash>::encodable(outcome.receipt_ids)
    &&& String::encodable(outcome.executor_id)
    &&& match outcome.status {
        SpecExecutionStatus::SuccessValue(value) => value.len() <= u32::MAX,
        _ => true,
    }
}

/// The hash of each log: the hash of its text.
pub open spec fn spec_log_hashes(logs: Seq<Seq<char>>) -> Seq<Seq<u8>> {
    Seq::new(logs.len(), |i: int| spec_sha256(encode_utf8(logs[i])))
}

/// The hashes that commit to an outcome: the hash of the transaction or receipt, the hash
/// of the outcome without its logs, and the hash of each log.
pub open spec fn spec_outcome_hashes(outcome: SpecExecutionOutcomeWithId) -> Seq<Seq<u8>> {
    seq![outcome.id, spec_sha256(spec_encode_partial_outcome(outcome.outcome))]
        + spec_log_hashes(outcome.outcome.logs)
}

impl ExecutionOutcome {
    /// Whether every length in the part of the outcome that is hashed in one piece fits
    /// its 32-bit count.
    pub fn is_encodable(&self) -> (b: bool)
        ensures
            b == spec_outcome_encodable(self.deep_view()),
    {
        if self.receipt_ids.len() > u32::MAX as usize {
            return false;
        }
        assert(Vec::<CryptoHash>::encodable(self.receipt_ids.deep_view()));
        if self.executor_id.as_str().as_bytes().len() > u32::MAX as usize {
            return false;
        }
        match &self.status {
            ExecutionStatus::SuccessValue(value) => value.len() <= u32::MAX as usize,
            _ => true,
        }
    }

    /// The hash of the outcome without its logs.
    fn partial_hash(&self) -> (h: CryptoHash)
        requires
            spec_outcome_encodable(self.deep_view()),
        ensures
            h@ == spec_sha256(spec_encode_partial_outcome(self.deep_view())),
    {
        let mut bytes: Vec<u8> = Vec::new();
        self.receipt_ids.encode_into(&mut bytes);
        self.gas_burnt.encode_into(&mut bytes);
        self.tokens_burnt.encode_into(&mut bytes);
        self.executor_id.encode_into(&mut bytes);
        match &self.status {
            ExecutionStatus::Unknown => {
                bytes.push(0u8);
            },
            ExecutionStatus::Failure => {
                bytes.push(1u8);
            },
            ExecutionStatus::SuccessValue(value) => {
                bytes.push(2u8);
                assert(value.deep_view() =~= value@);
                value.encode_into(&mut bytes);
            },
            ExecutionStatus::SuccessReceiptId(id) => {
                bytes.push(3u8);
                id.encode_into(&mut bytes);
            },
        }
        assert(bytes@ =~= spec_encode_partial_outcome(self.deep_view()));
        CryptoHash(sha256(bytes.as_slice()))
    }
}

impl ExecutionOutcomeWithId {
    /// The hashes that commit to the outcome.
    pub fn to_hashes(&self) -> (hashes: Vec<CryptoHash>)
        requires
            spec_outcome_encodable(self@.outcome),
        ensures
            hashes.deep_view() == spec_outcome_hashes(self@),
    {
        let mut result: Vec<CryptoHash> = Vec::new();
        result.push(self.id);
        result.push(self.outcome.partial_hash());
        let mut i: usize = 0;
        while i < self.outcome.logs.len()
            invariant
                i <= self.outcome.logs.len(),
                result.len() == i + 2,
                result[0]@ == self@.id,
                result[1]@ == spec_sha256(spec_encode_partial_outcome(self@.outcome)),
                forall|k: int|
                    0 <= k < i ==> (#[trigger] result[k + 2])@ == spec_log_hashes(
                        self@.outcome.logs,
                    )[k],
            decreases self.outcome.logs.len() - i,
        {
            let log = &self.outcome.logs[i];
            assert(self@.outcome.logs[i as int] == log@);
            result.push(CryptoHash(sha256(log.as_str().as_bytes())));
            i += 1;
        }
        assert(result.deep_view() =~= spec_outcome_hashes(self@)) by {
            assert forall|k: int| 0 <= k < result.len() implies result.deep_view()[k]
                == spec_outcome_hashes(self@)[k] by {
                if k >= 2 {
                    assert(result[(k - 2) + 2]@ == spec_log_hashes(self@.outcome.logs)[k - 2]);
                }
            }
        }
        result
    }
}

} // verus!
