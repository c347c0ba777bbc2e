use vstd::prelude::*;
use crate::error::{
    BundleError, Error, ExecutionReceiptError, FraudProofError, InvalidTransaction,
    InvalidTransactionCode, TransactionValidityError,
};
use crate::hash::{Key, H256};
use crate::model::{any_vote_under, block_hash_at, State};
use crate::pallet::{views_of, Pallet};
use crate::receipt::{ExecutionReceipt, ReceiptView};
use crate::types::{
    BundleElectionParams, BundleEquivocationProof, ChainContext, Config, ExecutorId, FraudProof,
    InvalidTransactionProof, ProofOfElection, SignedOpaqueBundle, StakeWeight,
};

verus! {

/// The primary numbers never decrease along the sequence.
pub open spec fn is_sorted(rs: Seq<ReceiptView>) -> bool {
    forall|i: int| 0 <= i < rs.len() - 1 ==> (#[trigger] rs[i]).primary_number <= rs[i + 1].primary_number
}

/// The receipt names a block of the recorded history, or the parent of the
/// current block, whose row is not yet recorded when a bundle is admitted.
pub open spec fn ancestry_known(s: State, ctx: ChainContext, r: ReceiptView) -> bool {
    ||| (r.primary_number + 1 == ctx.current_block_number && r.primary_hash == ctx.parent_hash)
    ||| block_hash_at(s, r.primary_number) == r.primary_hash
}

/// The receipt at position `i` is for the current block itself, or lies more
/// than the maximum drift above the head advanced by `i`.
pub open spec fn beyond_window(s: State, cfg: Config, ctx: ChainContext, r: ReceiptView, i: int) -> bool {
    ||| r.primary_number == ctx.current_block_number
    ||| r.primary_number > s.head_number + i + cfg.maximum_receipt_drift
}

/// What is wrong with the receipt at position `i`, taken alone.
pub open spec fn receipt_fault(s: State, cfg: Config, ctx: ChainContext, rs: Seq<ReceiptView>, i: int) -> Option<
    ExecutionReceiptError,
> {
    if !ancestry_known(s, ctx, rs[i]) {
        Some(ExecutionReceiptError::UnknownBlock)
    } else if beyond_window(s, cfg, ctx, rs[i], i) {
        Some(ExecutionReceiptError::TooFarInFuture)
    } else {
        None
    }
}

/// `i` is the first position with a faulty receipt.
pub open spec fn first_fault_at(s: State, cfg: Config, ctx: ChainContext, rs: Seq<ReceiptView>, i: int) -> bool {
    &&& 0 <= i < rs.len()
    &&& receipt_fault(s, cfg, ctx, rs, i).is_some()
    &&& forall|j: int| 0 <= j < i ==> (#[trigger] receipt_fault(s, cfg, ctx, rs, j)).is_none()
}

/// The first position with a faulty receipt, where there is one.
pub open spec fn first_fault(s: State, cfg: Config, ctx: ChainContext, rs: Seq<ReceiptView>) -> int {
    choose|i: int| first_fault_at(s, cfg, ctx, rs, i)
}

/// The verdict on a receipt sequence: the checks in their order, and for the
/// per-receipt checks the fault of the first faulty receipt.
pub open spec fn receipts_verdict(s: State, cfg: Config, ctx: ChainContext, rs: Seq<ReceiptView>) -> Result<
    (),
    ExecutionReceiptError,
> {
    if ctx.current_block_number > 1 && rs.len() == 0 {
        Err(ExecutionReceiptError::Empty)
    } else if !is_sorted(rs) {
        Err(ExecutionReceiptError::Unsorted)
    } else if rs.len() > 0 && rs[0].primary_number < s.head_number {
        Err(ExecutionReceiptError::Pruned)
    } else if exists|i: int| first_fault_at(s, cfg, ctx, rs, i) {
        Err(receipt_fault(s, cfg, ctx, rs, first_fault(s, cfg, ctx, rs)).unwrap())
    } else {
        Ok(())
    }
}

/// The receipt at position `i` is not the one that extends the head advanced
/// by `i`: at or below it the receipt is stale, above the next height it is
/// from the future.
pub open spec fn contiguity_fault(s: State, rs: Seq<ReceiptView>, i: int) -> Option<InvalidTransaction> {
    if rs[i].primary_number == s.head_number + i + 1 {
        None
    } else if rs[i].primary_number <= s.head_number + i {
        Some(InvalidTransaction::Stale)
    } else {
        Some(InvalidTransaction::Future)
    }
}

/// `i` is the first position that breaks contiguity with the head.
pub open spec fn first_gap_at(s: State, rs: Seq<ReceiptView>, i: int) -> bool {
    &&& 0 <= i < rs.len()
    &&& contiguity_fault(s, rs, i).is_some()
    &&& forall|j: int| 0 <= j < i ==> (#[trigger] contiguity_fault(s, rs, j)).is_none()
}

/// The first position that breaks contiguity with the head, where there is one.
pub open spec fn first_gap(s: State, rs: Seq<ReceiptView>) -> int {
    choose|i: int| first_gap_at(s, rs, i)
}

/// Every receipt is at the height that extends the head by its position.
pub open spec fn contiguous_with_head(s: State, rs: Seq<ReceiptView>) -> bool {
    forall|i: int| 0 <= i < rs.len() ==> (#[trigger] rs[i]).primary_number == s.head_number + i + 1
}

/// Some receipt has a vote under the hash recorded for the height just below
/// the first receipt of the sequence.
pub open spec fn parent_receipt_known(s: State, rs: Seq<ReceiptView>) -> bool {
    any_vote_under(s.votes, block_hash_at(s, (rs[0].primary_number - 1) as u32))
}

/// The verdict before dispatch: contiguity first, then the parent receipt.
pub open spec fn pre_dispatch_verdict(s: State, rs: Seq<ReceiptView>) -> Result<(), TransactionValidityError> {
    if exists|i: int| first_gap_at(s, rs, i) {
        Err(TransactionValidityError::Invalid(contiguity_fault(s, rs, first_gap(s, rs)).unwrap()))
    } else if rs.len() == 0 || !parent_receipt_known(s, rs) {
        Err(
            TransactionValidityError::Invalid(
                InvalidTransaction::Custom(InvalidTransactionCode::ExecutionReceipt),
            ),
        )
    } else {
        Ok(())
    }
}

/// `i` is the first position of `id` among the authorities.
pub open spec fn first_authority_at(authorities: Seq<(ExecutorId, StakeWeight)>, id: ExecutorId, i: int) -> bool {
    &&& 0 <= i < authorities.len()
    &&& authorities[i].0 == id
    &&& forall|j: int| 0 <= j < i ==> (#[trigger] authorities[j]).0 != id
}

/// `id` is among the authorities.
pub open spec fn is_authority(authorities: Seq<(ExecutorId, StakeWeight)>, id: ExecutorId) -> bool {
    exists|i: int| 0 <= i < authorities.len() && (#[trigger] authorities[i]).0 == id
}

/// The first position of `id` among the authorities, where it is among them.
pub open spec fn first_authority(authorities: Seq<(ExecutorId, StakeWeight)>, id: ExecutorId) -> int {
    choose|i: int| first_authority_at(authorities, id, i)
}

/// The stake weight of the first authority with the key `id`, if there is one.
pub open spec fn spec_stake_weight_of(authorities: Seq<(ExecutorId, StakeWeight)>, id: ExecutorId) -> Option<
    StakeWeight,
> {
    if is_authority(authorities, id) {
        Some(authorities[first_authority(authorities, id)].1)
    } else {
        None
    }
}

/// The first three checks on a proof of election, in their order, and the
/// signer's stake weight where they pass.
pub open spec fn stake_weight_verdict(
    id: ExecutorId,
    vrf_proof_valid: bool,
    election_params: Option<BundleElectionParams>,
) -> Result<StakeWeight, BundleError> {
    if !vrf_proof_valid {
        Err(BundleError::BadVrfProof)
    } else if election_params.is_none() {
        Err(BundleError::BadStorageProof)
    } else {
        match spec_stake_weight_of(election_params.unwrap().authorities@, id) {
            Some(w) => Ok(w),
            None => Err(BundleError::AuthorityNotFound),
        }
    }
}

/// The last check: the election solution may not pass the threshold.
pub open spec fn solution_verdict(election_solution: u128, threshold: u128) -> Result<(), BundleError> {
    if election_solution > threshold {
        Err(BundleError::InvalidElectionSolution)
    } else {
        Ok(())
    }
}

/// The verdict on a proof of election, the checks in their order.
pub open spec fn election_verdict(id: ExecutorId, proof: ProofOfElection) -> Result<(), BundleError> {
    match stake_weight_verdict(id, proof.vrf_proof_valid, proof.election_params) {
        Err(e) => Err(e),
        Ok(_) => solution_verdict(proof.election_solution, proof.threshold),
    }
}

/// The verdict on a signed bundle: signature, then election, then receipts.
pub open spec fn bundle_verdict(s: State, cfg: Config, ctx: ChainContext, b: SignedOpaqueBundle) -> Result<
    (),
    BundleError,
> {
    if !b.signature_valid {
        Err(BundleError::BadSignature)
    } else if election_verdict(b.signer, b.proof_of_election).is_err() {
        election_verdict(b.signer, b.proof_of_election)
    } else {
        match receipts_verdict(s, cfg, ctx, views_of(b.bundle.receipts@)) {
            Ok(()) => Ok(()),
            Err(e) => Err(BundleError::Receipt(e)),
        }
    }
}

/// The head's number less the pruning depth, or 0 where the head is below it.
pub open spec fn finalized_number(s: State, cfg: Config) -> int {
    if s.head_number >= cfg.receipts_pruning_depth {
        s.head_number - cfg.receipts_pruning_depth
    } else {
        0
    }
}

/// The verdict on a fraud proof, the checks in their order.
pub open spec fn fraud_proof_verdict(s: State, cfg: Config, fp: FraudProof) -> Result<(), FraudProofError> {
    if !(fp.parent_number + 1 > finalized_number(s, cfg)) {
        Err(FraudProofError::ExecutionReceiptPruned)
    } else if !(fp.parent_number + 1 <= s.head_number) {
        Err(FraudProofError::ExecutionReceiptInFuture)
    } else if block_hash_at(s, fp.parent_number) != fp.parent_hash {
        Err(FraudProofError::UnknownBlock)
    } else {
        Ok(())
    }
}

/// The stake weight of the first authority with the key `executor_id`.
pub fn stake_weight_of(authorities: &Vec<(ExecutorId, StakeWeight)>, executor_id: &ExecutorId) -> (r: Option<
    StakeWeight,
>)
    ensures
        r == spec_stake_weight_of(authorities@, *executor_id),
{
    let mut i: usize = 0;
    while i < authorities.len()
        invariant
            i <= authorities@.len(),
            forall|j: int| 0 <= j < i ==> (#[trigger] authorities@[j]).0 != *executor_id,
        decreases authorities@.len() - i,
    {
        if authorities[i].0.same(executor_id) {
            proof {
                lemma_first_authority_unique(authorities@, *executor_id, i as int);
            }
            return Some(authorities[i].1);
        }
        i += 1;
    }
    None
}

/// The first part of the election check: the VRF proof must have verified, the
/// storage proof must have yielded the election parameters, and the executor
/// must be among the authorities. Where all hold, the executor's stake weight
/// is handed back, from which the threshold is computed.
pub fn election_stake_weight(
    executor_id: &ExecutorId,
    vrf_proof_valid: bool,
    election_params: &Option<BundleElectionParams>,
) -> (r: Result<StakeWeight, BundleError>)
    ensures
        r == stake_weight_verdict(*executor_id, vrf_proof_valid, *election_params),
{
    if !vrf_proof_valid {
        return Err(BundleError::BadVrfProof);
    }
    match election_params {
        None => Err(BundleError::BadStorageProof),
        Some(params) => match stake_weight_of(&params.authorities, executor_id) {
            None => Err(BundleError::AuthorityNotFound),
            Some(w) => Ok(w),
        },
    }
}

/// The second part of the election check: the election solution may not pass
/// the threshold.
pub fn check_election_solution(election_solution: u128, threshold: u128) -> (r: Result<(), BundleError>)
    ensures
        r == solution_verdict(election_solution, threshold),
{
    if election_solution > threshold {
        Err(BundleError::InvalidElectionSolution)
    } else {
        Ok(())
    }
}

/// Checks the election of `executor_id` from what the proof of election
/// yielded: both parts, in their order.
pub fn validate_bundle_election(executor_id: &ExecutorId, proof_of_election: &ProofOfElection) -> (r: Result<
    (),
    BundleError,
>)
    ensures
        r == election_verdict(*executor_id, *proof_of_election),
{
    match election_stake_weight(
        executor_id,
        proof_of_election.vrf_proof_valid,
        &proof_of_election.election_params,
    ) {
        Err(e) => Err(e),
        Ok(_) => check_election_solution(proof_of_election.election_solution, proof_of_election.threshold),
    }
}

fn check_sorted(receipts: &Vec<ExecutionReceipt>) -> (b: bool)
    ensures
        b == is_sorted(views_of(receipts@)),
{
    let ghost rs = views_of(receipts@);
    let mut i: usize = 1;
    while i < receipts.len()
        invariant
            1 <= i,
            rs == views_of(receipts@),
            forall|j: int| 0 <= j < i - 1 && j < rs.len() - 1 ==> (#[trigger] rs[j]).primary_number <= rs[j + 1].primary_number,
        decreases receipts@.len() - i,
    {
        if receipts[i - 1].primary_number > receipts[i].primary_number {
            assert(rs[i - 1].primary_number > rs[i - 1 + 1].primary_number);
            return false;
        }
        i += 1;
    }
    true
}

impl Pallet {
    /// Checks a receipt sequence against the head, the recorded history and the
    /// window.
    pub fn validate_execution_receipts(&self, ctx: &ChainContext, execution_receipts: &Vec<ExecutionReceipt>) -> (r:
        Result<(), ExecutionReceiptError>)
        requires
            self.wf(),
        ensures
            r == receipts_verdict(self@, self.spec_config(), *ctx, views_of(execution_receipts@)),
    {
        let ghost rs = views_of(execution_receipts@);
        let ghost s = self@;
        let ghost cfg = self.spec_config();
        let current_block_number = ctx.current_block_number;
        if current_block_number > 1 && execution_receipts.len() == 0 {
            return Err(ExecutionReceiptError::Empty);
        }
        if !check_sorted(execution_receipts) {
            return Err(ExecutionReceiptError::Unsorted);
        }
        let (_, best_number) = self.receipt_head();
        if execution_receipts.len() > 0 {
            if execution_receipts[0].primary_number < best_number {
                return Err(ExecutionReceiptError::Pruned);
            }
        }
        let drift: u64 = self.config().maximum_receipt_drift as u64;
        let mut i: usize = 0;
        while i < execution_receipts.len()
            invariant
                i <= execution_receipts@.len(),
                self.wf(),
                rs == views_of(execution_receipts@),
                s == self@,
                cfg == self.spec_config(),
                best_number == s.head_number,
                drift == cfg.maximum_receipt_drift,
                current_block_number == ctx.current_block_number,
                !(ctx.current_block_number > 1 && rs.len() == 0),
                is_sorted(rs),
                !(rs.len() > 0 && rs[0].primary_number < s.head_number),
                forall|j: int| 0 <= j < i ==> (#[trigger] receipt_fault(s, cfg, *ctx, rs, j)).is_none(),
            decreases execution_receipts@.len() - i,
        {
            let receipt = &execution_receipts[i];
            assert(receipt@ == rs[i as int]);
            let primary_number = receipt.primary_number;
            let point_to_parent_block = primary_number as u64 + 1 == current_block_number as u64
                && receipt.primary_hash.same(&ctx.parent_hash);
            if !point_to_parent_block && !self.block_hash(primary_number).same(&receipt.primary_hash) {
                proof {
                    assert(first_fault_at(s, cfg, *ctx, rs, i as int));
                    lemma_first_fault_unique(s, cfg, *ctx, rs, i as int);
                }
                return Err(ExecutionReceiptError::UnknownBlock);
            }
            let too_far = primary_number as u128 > best_number as u128 + i as u128 + drift as u128;
            if primary_number == current_block_number || too_far {
                proof {
                    assert(first_fault_at(s, cfg, *ctx, rs, i as int));
                    lemma_first_fault_unique(s, cfg, *ctx, rs, i as int);
                }
                return Err(ExecutionReceiptError::TooFarInFuture);
            }
            i += 1;
        }
        proof {
            assert forall|k: int| !first_fault_at(s, cfg, *ctx, rs, k) by {}
        }
        Ok(())
    }

    /// Checks a signed bundle: its signature, its election and its receipts.
    pub fn validate_bundle(&self, ctx: &ChainContext, signed_opaque_bundle: &SignedOpaqueBundle) -> (r: Result<
        (),
        BundleError,
    >)
        requires
            self.wf(),
        ensures
            r == bundle_verdict(self@, self.spec_config(), *ctx, *signed_opaque_bundle),
    {
        if !signed_opaque_bundle.signature_valid {
            return Err(BundleError::BadSignature);
        }
        match validate_bundle_election(&signed_opaque_bundle.signer, &signed_opaque_bundle.proof_of_election) {
            Err(e) => {
                return Err(e);
            },
            Ok(()) => {},
        }
        match self.validate_execution_receipts(ctx, &signed_opaque_bundle.bundle.receipts) {
            Err(e) => Err(BundleError::Receipt(e)),
            Ok(()) => Ok(()),
        }
    }

    /// Checks that the receipts extend the head one by one and that the receipt
    /// below the first is known, before any state is changed.
    pub fn pre_dispatch_transaction_bundle(&self, signed_opaque_bundle: &SignedOpaqueBundle) -> (r: Result<
        (),
        TransactionValidityError,
    >)
        requires
            self.wf(),
        ensures
            r == pre_dispatch_verdict(self@, views_of(signed_opaque_bundle.bundle.receipts@)),
            r.is_ok() ==> contiguous_with_head(self@, views_of(signed_opaque_bundle.bundle.receipts@)),
    {
        let execution_receipts = &signed_opaque_bundle.bundle.receipts;
        let ghost rs = views_of(execution_receipts@);
        let ghost s = self@;
        let (_, best_number) = self.receipt_head();
        let mut i: usize = 0;
        while i < execution_receipts.len()
            invariant
                i <= execution_receipts@.len(),
                rs == views_of(execution_receipts@),
                rs == views_of(signed_opaque_bundle.bundle.receipts@),
                s == self@,
                best_number == s.head_number,
                forall|j: int| 0 <= j < i ==> (#[trigger] contiguity_fault(s, rs, j)).is_none(),
            decreases execution_receipts@.len() - i,
        {
            let primary_number = execution_receipts[i].primary_number;
            assert(execution_receipts@[i as int]@ == rs[i as int]);
            let cursor: u128 = best_number as u128 + i as u128;
            if primary_number as u128 != cursor + 1 {
                proof {
                    assert(first_gap_at(s, rs, i as int));
                    lemma_first_gap_unique(s, rs, i as int);
                }
                if primary_number as u128 <= cursor {
                    return Err(TransactionValidityError::Invalid(InvalidTransaction::Stale));
                } else {
                    return Err(TransactionValidityError::Invalid(InvalidTransaction::Future));
                }
            }
            i += 1;
        }
        proof {
            assert forall|k: int| !first_gap_at(s, rs, k) by {}
            assert forall|k: int| 0 <= k < rs.len() implies (#[trigger] rs[k]).primary_number == s.head_number + k
                + 1 by {
                assert(contiguity_fault(s, rs, k).is_none());
            }
        }
        if execution_receipts.len() == 0 {
            return Err(
                TransactionValidityError::Invalid(
                    InvalidTransaction::Custom(InvalidTransactionCode::ExecutionReceipt),
                ),
            );
        }
        let first_primary_number = execution_receipts[0].primary_number;
        assert(rs[0].primary_number == s.head_number + 0 + 1);
        let parent_hash = self.block_hash(first_primary_number - 1);
        if !self.has_votes_under(&parent_hash) {
            return Err(
                TransactionValidityError::Invalid(
                    InvalidTransaction::Custom(InvalidTransactionCode::ExecutionReceipt),
                ),
            );
        }
        Ok(())
    }

    /// Checks a fraud proof against the head, the window and the recorded
    /// history.
    pub fn validate_fraud_proof(&self, fraud_proof: &FraudProof) -> (r: Result<(), FraudProofError>)
        requires
            self.wf(),
        ensures
            r == fraud_proof_verdict(self@, self.spec_config(), *fraud_proof),
            r != Err::<(), FraudProofError>(FraudProofError::WrongHashType),
    {
        let (_, best_number) = self.receipt_head();
        let depth = self.config().receipts_pruning_depth;
        let finalized: u32 = if best_number >= depth {
            best_number - depth
        } else {
            0
        };
        let to_prove: u64 = fraud_proof.parent_number as u64 + 1;
        if !(to_prove > finalized as u64) {
            return Err(FraudProofError::ExecutionReceiptPruned);
        }
        if !(to_prove <= best_number as u64) {
            return Err(FraudProofError::ExecutionReceiptInFuture);
        }
        let parent_hash = match H256::decode(&fraud_proof.parent_hash.encode()) {
            Some(h) => h,
            None => {
                return Err(FraudProofError::WrongHashType);
            },
        };
        if !self.block_hash(fraud_proof.parent_number).same(&parent_hash) {
            return Err(FraudProofError::UnknownBlock);
        }
        Ok(())
    }

    /// Checks a bundle equivocation proof: every proof is accepted.
    pub fn validate_bundle_equivocation_proof(&self, bundle_equivocation_proof: &BundleEquivocationProof) -> (r:
        Result<(), Error>)
        ensures
            r.is_ok(),
    {
        Ok(())
    }

    /// Checks an invalid transaction proof: every proof is accepted.
    pub fn validate_invalid_transaction_proof(&self, invalid_transaction_proof: &InvalidTransactionProof) -> (r:
        Result<(), Error>)
        ensures
            r.is_ok(),
    {
        Ok(())
    }
}

/// There is one first faulty position at most.
pub proof fn lemma_first_fault_unique(s: State, cfg: Config, ctx: ChainContext, rs: Seq<ReceiptView>, i: int)
    requires
        first_fault_at(s, cfg, ctx, rs, i),
    ensures
        (exists|k: int| first_fault_at(s, cfg, ctx, rs, k)),
        first_fault(s, cfg, ctx, rs) == i,
{
    let k = first_fault(s, cfg, ctx, rs);
    if k < i {
        assert(receipt_fault(s, cfg, ctx, rs, k).is_none());
    }
    if i < k {
        assert(receipt_fault(s, cfg, ctx, rs, i).is_none());
    }
}

/// An executor has one first position among the authorities at most.
pub proof fn lemma_first_authority_unique(authorities: Seq<(ExecutorId, StakeWeight)>, id: ExecutorId, i: int)
    requires
        first_authority_at(authorities, id, i),
    ensures
        is_authority(authorities, id),
        first_authority(authorities, id) == i,
{
    let k = first_authority(authorities, id);
    if k < i {
        assert(authorities[k].0 == id);
    }
    if i < k {
        assert(authorities[i].0 == id);
    }
}

/// There is one first position that breaks contiguity at most.
pub proof fn lemma_first_gap_unique(s: State, rs: Seq<ReceiptView>, i: int)
    requires
        first_gap_at(s, rs, i),
    ensures
        (exists|k: int| first_gap_at(s, rs, k)),
        first_gap(s, rs) == i,
{
    let k = first_gap(s, rs);
    if k < i {
        assert(contiguity_fault(s, rs, k).is_none());
    }
    if i < k {
        assert(contiguity_fault(s, rs, i).is_none());
    }
}

} // verus!
