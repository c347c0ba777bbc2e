use vstd::prelude::*;
use crate::hash::H256;
use crate::receipt::ExecutionReceipt;

verus! {

/// Public key of an executor.
pub type ExecutorId = H256;

/// Stable account identifier of an executor.
pub type AccountId = H256;

/// Weight of an authority's stake.
pub type StakeWeight = u128;

/// Host-supplied parameters.
#[derive(Clone, Copy, Debug, PartialEq, Eq)]
pub struct Config {
    /// Number of execution receipts kept in the state.
    pub receipts_pruning_depth: u32,
    /// How far ahead of the receipt head a receipt may claim to be.
    pub maximum_receipt_drift: u32,
    /// Number of blocks for which a pooled bundle stays valid.
    pub confirmation_depth_k: u32,
}

/// What the host chain knows at the moment of a call.
#[derive(Clone, Copy, Debug, PartialEq, Eq)]
pub struct ChainContext {
    /// Number of the primary block being built or validated against.
    pub current_block_number: u32,
    /// Hash of that block's parent.
    pub parent_hash: H256,
}

/// An ordered sequence of receipts; the secondary-chain payload that travels
/// with it is opaque and not held here.
#[derive(Debug, PartialEq, Eq)]
pub struct Bundle {
    pub receipts: Vec<ExecutionReceipt>,
}

/// Parameters of the bundle producer election, as read from the storage proof.
#[derive(Debug, PartialEq, Eq)]
pub struct BundleElectionParams {
    pub authorities: Vec<(ExecutorId, StakeWeight)>,
    pub total_stake_weight: StakeWeight,
    pub slot_probability: (u64, u64),
}

/// What the cryptographic checks on a proof of election yielded.
#[derive(Debug, PartialEq, Eq)]
pub struct ProofOfElection {
    /// Whether the VRF proof verifies over the slot randomness with the VRF
    /// public key, binding the VRF output.
    pub vrf_proof_valid: bool,
    /// The election parameters read through the storage proof rooted at the
    /// state root; `None` where the proof does not yield them.
    pub election_params: Option<BundleElectionParams>,
    /// The election solution derived from the domain and the VRF output.
    pub election_solution: u128,
    /// The election threshold for the signer's stake weight; read only where
    /// the signer is among the authorities.
    pub threshold: u128,
}

/// A bundle with its signer and the evidence of its election.
#[derive(Debug, PartialEq, Eq)]
pub struct SignedOpaqueBundle {
    pub bundle: Bundle,
    /// Hash of the signed bundle.
    pub bundle_hash: H256,
    pub proof_of_election: ProofOfElection,
    /// Whether the signature over the bundle's hash verifies against `signer`.
    pub signature_valid: bool,
    pub signer: ExecutorId,
}

/// Evidence that a receipt above the stated ancestor is incorrect.
#[derive(Clone, Copy, Debug, PartialEq, Eq)]
pub struct FraudProof {
    /// Height of the ancestor that survives the rollback.
    pub parent_number: u32,
    /// Hash of the primary block at that height.
    pub parent_hash: H256,
    /// Content hash of the proof.
    pub proof_hash: H256,
}

/// Evidence that an executor signed two bundles for one slot.
#[derive(Clone, Copy, Debug, PartialEq, Eq)]
pub struct BundleEquivocationProof {
    /// Content hash of the proof.
    pub proof_hash: H256,
}

/// Evidence that a bundle holds an invalid transaction.
#[derive(Clone, Copy, Debug, PartialEq, Eq)]
pub struct InvalidTransactionProof {
    /// Content hash of the proof.
    pub proof_hash: H256,
}

/// Who dispatches a call.
#[derive(Clone, Copy, Debug, PartialEq, Eq)]
pub enum Origin {
    /// The system itself.
    Root,
    /// An account that signed the call.
    Signed(AccountId),
    /// Nobody: the call is unsigned.
    Unsigned,
}

impl Origin {
    /// Whether the call is unsigned.
    pub open spec fn spec_is_unsigned(&self) -> bool {
        *self is Unsigned
    }

    /// Whether the call is unsigned.
    pub fn is_unsigned(&self) -> (b: bool)
        ensures
            b == self.spec_is_unsigned(),
    {
        match self {
            Origin::Unsigned => true,
            _ => false,
        }
    }
}

/// What a state transition reports to the host.
#[derive(Clone, Copy, Debug, PartialEq, Eq)]
pub enum Event {
    /// A new execution receipt was backed.
    NewExecutionReceipt { primary_number: u32, primary_hash: H256 },
    /// A transaction bundle was included.
    TransactionBundleStored { bundle_hash: H256 },
    /// A fraud proof was processed.
    FraudProofProcessed,
    /// A bundle equivocation proof was processed.
    BundleEquivocationProofProcessed,
    /// An invalid transaction proof was processed.
    InvalidTransactionProofProcessed,
}

/// The four unsigned entry points, each with its argument.
#[derive(Debug, PartialEq, Eq)]
pub enum Call {
    SubmitTransactionBundle { signed_opaque_bundle: SignedOpaqueBundle },
    SubmitFraudProof { fraud_proof: FraudProof },
    SubmitBundleEquivocationProof { bundle_equivocation_proof: BundleEquivocationProof },
    SubmitInvalidTransactionProof { invalid_transaction_proof: InvalidTransactionProof },
}

} // verus!
