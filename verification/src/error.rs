use vstd::prelude::*;

verus! {

/// Why a receipt sequence is refused.
#[derive(Clone, Copy, Debug, PartialEq, Eq)]
pub enum ExecutionReceiptError {
    /// The parent execution receipt is unknown.
    MissingParent,
    /// The execution receipt has been pruned.
    Pruned,
    /// The execution receipt points to a block unknown to the history.
    UnknownBlock,
    /// The execution receipt is too far in the future.
    TooFarInFuture,
    /// Receipts are not in ascending order.
    Unsorted,
    /// Receipts in a bundle can not be empty.
    Empty,
}

/// Why a bundle is refused.
#[derive(Clone, Copy, Debug, PartialEq, Eq)]
pub enum BundleError {
    /// The signer of transaction bundle is unexpected.
    UnexpectedSigner,
    /// Invalid transaction bundle signature.
    BadSignature,
    /// Invalid vrf proof.
    BadVrfProof,
    /// Can not retrieve the state needed from the storage proof.
    BadStorageProof,
    /// Bundle author is not found in the authority set.
    AuthorityNotFound,
    /// Election solution does not satisfy the threshold.
    InvalidElectionSolution,
    /// An invalid execution receipt found in the bundle.
    Receipt(ExecutionReceiptError),
}

/// Why a fraud proof is refused.
#[derive(Clone, Copy, Debug, PartialEq, Eq)]
pub enum FraudProofError {
    /// Fraud proof is expired as the execution receipt has been pruned.
    ExecutionReceiptPruned,
    /// Trying to prove an receipt from the future.
    ExecutionReceiptInFuture,
    /// Unexpected hash type.
    WrongHashType,
    /// The execution receipt points to a block unknown to the history.
    UnknownBlock,
}

/// The two top-level error families.
#[derive(Clone, Copy, Debug, PartialEq, Eq)]
pub enum Error {
    /// Invalid bundle.
    Bundle(BundleError),
    /// Invalid fraud proof.
    FraudProof(FraudProofError),
}

impl Error {
    /// A bundle error as an error of the bundle family.
    pub fn from_bundle_error(e: BundleError) -> (r: Error)
        ensures
            r == Error::Bundle(e),
    {
        Error::Bundle(e)
    }

    /// A fraud-proof error as an error of the fraud-proof family.
    pub fn from_fraud_proof_error(e: FraudProofError) -> (r: Error)
        ensures
            r == Error::FraudProof(e),
    {
        Error::FraudProof(e)
    }
}

/// Why a dispatch is refused.
#[derive(Clone, Copy, Debug, PartialEq, Eq)]
pub enum DispatchError {
    /// The call came with an origin that it does not accept.
    BadOrigin,
}

/// The family of a pool rejection, one per kind of fault.
#[derive(Clone, Copy, Debug, PartialEq, Eq)]
pub enum InvalidTransactionCode {
    BundleEquivicationProof,
    TrasactionProof,
    ExecutionReceipt,
    Bundle,
    FraudProof,
}

/// Why the pool or the block builder refuses a submission.
#[derive(Clone, Copy, Debug, PartialEq, Eq)]
pub enum InvalidTransaction {
    /// The submission is older than what the state expects.
    Stale,
    /// The submission is ahead of what the state expects.
    Future,
    /// A fault of one of this library's families.
    Custom(InvalidTransactionCode),
}

/// The error of the submission gateway.
#[derive(Clone, Copy, Debug, PartialEq, Eq)]
pub enum TransactionValidityError {
    Invalid(InvalidTransaction),
}

} // verus!
