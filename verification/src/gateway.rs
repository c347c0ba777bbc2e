use vstd::prelude::*;
use crate::error::{
    BundleError, InvalidTransaction, InvalidTransactionCode, TransactionValidityError,
};
use crate::hash::H256;
use crate::model::{commit_all, rollback, State};
use crate::pallet::{receipt_events, views_of, Pallet};
use crate::receipt::{ExecutionReceipt, ReceiptView};
use crate::types::{
    BundleEquivocationProof, Call, ChainContext, Config, Event, FraudProof, InvalidTransactionProof,
    SignedOpaqueBundle,
};
use crate::validation::{bundle_verdict, fraud_proof_verdict, pre_dispatch_verdict};

verus! {

/// The kind of call that a gossip tag belongs to.
#[derive(Clone, Copy, Debug, PartialEq, Eq)]
pub enum TagPrefix {
    SubmitBundle,
    SubmitFraudProof,
    SubmitBundleEquivocationProof,
    SubmitInvalidTransactionProof,
}

impl TagPrefix {
    /// The stable string of the call kind.
    pub open spec fn spec_as_str(&self) -> Seq<char> {
        match self {
            TagPrefix::SubmitBundle => "SubspaceSubmitBundle"@,
            TagPrefix::SubmitFraudProof => "SubspaceSubmitFraudProof"@,
            TagPrefix::SubmitBundleEquivocationProof => "SubspaceSubmitBundleEquivocationProof"@,
            TagPrefix::SubmitInvalidTransactionProof => "SubspaceSubmitInvalidTransactionProof"@,
        }
    }

    /// The stable string of the call kind.
    pub fn as_str(&self) -> (name: &'static str)
        ensures
            name@ == self.spec_as_str(),
    {
        match self {
            TagPrefix::SubmitBundle => "SubspaceSubmitBundle",
            TagPrefix::SubmitFraudProof => "SubspaceSubmitFraudProof",
            TagPrefix::SubmitBundleEquivocationProof => "SubspaceSubmitBundleEquivocationProof",
            TagPrefix::SubmitInvalidTransactionProof => "SubspaceSubmitInvalidTransactionProof",
        }
    }
}

/// What a submission provides to, or requires from, the pool.
#[derive(Clone, Copy, Debug, PartialEq, Eq)]
pub enum Tag {
    /// The receipt of a primary block height.
    BlockNumber(u32),
    /// A proof, by its content hash.
    Proof(H256),
}

/// The gossip descriptor of an accepted submission.
#[derive(Debug, PartialEq, Eq)]
pub struct ValidTransaction {
    pub tag_prefix: TagPrefix,
    pub priority: u64,
    pub requires: Vec<Tag>,
    pub provides: Vec<Tag>,
    pub longevity: u64,
    pub propagate: bool,
}

/// A gossip descriptor as a mathematical value.
pub struct Descriptor {
    pub tag_prefix: TagPrefix,
    pub priority: u64,
    pub requires: Seq<Tag>,
    pub provides: Seq<Tag>,
    pub longevity: u64,
    pub propagate: bool,
}

impl View for ValidTransaction {
    type V = Descriptor;

    open spec fn view(&self) -> Descriptor {
        Descriptor {
            tag_prefix: self.tag_prefix,
            priority: self.priority,
            requires: self.requires@,
            provides: self.provides@,
            longevity: self.longevity,
            propagate: self.propagate,
        }
    }
}

/// The descriptor of an accepted proof: greatest priority and longevity, one
/// provided tag, propagation enabled.
pub open spec fn proof_descriptor(prefix: TagPrefix, tag: Tag) -> Descriptor {
    Descriptor {
        tag_prefix: prefix,
        priority: u64::MAX,
        requires: Seq::empty(),
        provides: seq![tag],
        longevity: u64::MAX,
        propagate: true,
    }
}

/// The sum of the primary numbers of the receipts.
pub open spec fn sum_of_numbers(rs: Seq<ReceiptView>) -> nat
    decreases rs.len(),
{
    if rs.len() == 0 {
        0
    } else {
        sum_of_numbers(rs.drop_last()) + rs.last().primary_number as nat
    }
}

/// Half the greatest priority plus the sum of the receipts' primary numbers,
/// held at the greatest priority where it would pass it.
pub open spec fn bundle_priority(rs: Seq<ReceiptView>) -> u64 {
    if u64::MAX / 2 + sum_of_numbers(rs) > u64::MAX {
        u64::MAX
    } else {
        (u64::MAX / 2 + sum_of_numbers(rs)) as u64
    }
}

/// One tag per receipt, in order: its primary number.
pub open spec fn provided_tags(rs: Seq<ReceiptView>) -> Seq<Tag> {
    rs.map_values(|r: ReceiptView| Tag::BlockNumber(r.primary_number))
}

/// The tag of the height below the first receipt, unless the first receipt
/// extends the head or stands at height 0, where there is none.
pub open spec fn required_tags(s: State, rs: Seq<ReceiptView>) -> Seq<Tag> {
    if rs.len() == 0 || rs[0].primary_number == s.head_number + 1 || rs[0].primary_number == 0 {
        Seq::empty()
    } else {
        seq![Tag::BlockNumber((rs[0].primary_number - 1) as u32)]
    }
}

/// The descriptor of an accepted bundle.
pub open spec fn bundle_descriptor(s: State, cfg: Config, ctx: ChainContext, rs: Seq<ReceiptView>) -> Descriptor {
    Descriptor {
        tag_prefix: TagPrefix::SubmitBundle,
        priority: if ctx.current_block_number == 1 {
            u64::MAX
        } else {
            bundle_priority(rs)
        },
        requires: if ctx.current_block_number == 1 {
            Seq::empty()
        } else {
            required_tags(s, rs)
        },
        provides: provided_tags(rs),
        longevity: cfg.confirmation_depth_k as u64,
        propagate: true,
    }
}

/// What the pool is told of a call: its descriptor, or the family of the fault.
pub open spec fn unsigned_verdict(s: State, cfg: Config, ctx: ChainContext, call: Call) -> Result<
    Descriptor,
    TransactionValidityError,
> {
    match call {
        Call::SubmitTransactionBundle { signed_opaque_bundle } => {
            match bundle_verdict(s, cfg, ctx, signed_opaque_bundle) {
                Err(BundleError::Receipt(_)) => Err(
                    TransactionValidityError::Invalid(
                        InvalidTransaction::Custom(InvalidTransactionCode::ExecutionReceipt),
                    ),
                ),
                Err(_) => Err(
                    TransactionValidityError::Invalid(InvalidTransaction::Custom(InvalidTransactionCode::Bundle)),
                ),
                Ok(()) => Ok(bundle_descriptor(s, cfg, ctx, views_of(signed_opaque_bundle.bundle.receipts@))),
            }
        },
        Call::SubmitFraudProof { fraud_proof } => {
            if fraud_proof_verdict(s, cfg, fraud_proof).is_err() {
                Err(
                    TransactionValidityError::Invalid(
                        InvalidTransaction::Custom(InvalidTransactionCode::FraudProof),
                    ),
                )
            } else {
                Ok(proof_descriptor(TagPrefix::SubmitFraudProof, Tag::Proof(fraud_proof.proof_hash)))
            }
        },
        Call::SubmitBundleEquivocationProof { bundle_equivocation_proof } => Ok(
            proof_descriptor(
                TagPrefix::SubmitBundleEquivocationProof,
                Tag::Proof(bundle_equivocation_proof.proof_hash),
            ),
        ),
        Call::SubmitInvalidTransactionProof { invalid_transaction_proof } => Ok(
            proof_descriptor(
                TagPrefix::SubmitInvalidTransactionProof,
                Tag::Proof(invalid_transaction_proof.proof_hash),
            ),
        ),
    }
}

/// What the block builder is told of a call before it is dispatched.
pub open spec fn dispatch_verdict(s: State, call: Call) -> Result<(), TransactionValidityError> {
    match call {
        Call::SubmitTransactionBundle { signed_opaque_bundle } => pre_dispatch_verdict(
            s,
            views_of(signed_opaque_bundle.bundle.receipts@),
        ),
        _ => Ok(()),
    }
}

/// The state after the dispatch of a call with no signer.
pub open spec fn dispatched(s: State, cfg: Config, call: Call) -> State {
    match call {
        Call::SubmitTransactionBundle { signed_opaque_bundle } => commit_all(
            s,
            views_of(signed_opaque_bundle.bundle.receipts@),
            cfg.receipts_pruning_depth,
        ),
        Call::SubmitFraudProof { fraud_proof } => rollback(s, fraud_proof.parent_number),
        _ => s,
    }
}

/// The events of the dispatch of a call with no signer.
pub open spec fn dispatch_events(call: Call) -> Seq<Event> {
    match call {
        Call::SubmitTransactionBundle { signed_opaque_bundle } => receipt_events(
            views_of(signed_opaque_bundle.bundle.receipts@),
        ).push(Event::TransactionBundleStored { bundle_hash: signed_opaque_bundle.bundle_hash }),
        Call::SubmitFraudProof { .. } => seq![Event::FraudProofProcessed],
        Call::SubmitBundleEquivocationProof { .. } => seq![Event::BundleEquivocationProofProcessed],
        Call::SubmitInvalidTransactionProof { .. } => seq![Event::InvalidTransactionProofProcessed],
    }
}

/// Builds the descriptor of an accepted proof.
pub fn unsigned_validity(prefix: TagPrefix, tag: Tag) -> (v: ValidTransaction)
    ensures
        v@ == proof_descriptor(prefix, tag),
{
    let mut provides: Vec<Tag> = Vec::new();
    provides.push(tag);
    let v = ValidTransaction {
        tag_prefix: prefix,
        priority: u64::MAX,
        requires: Vec::new(),
        provides,
        longevity: u64::MAX,
        propagate: true,
    };
    proof {
        assert(v@.provides =~= seq![tag]);
        assert(v@.requires =~= Seq::<Tag>::empty());
    }
    v
}

/// The priority of a bundle with these receipts, outside the first block.
pub fn priority_of(receipts: &Vec<ExecutionReceipt>) -> (p: u64)
    ensures
        p == bundle_priority(views_of(receipts@)),
{
    let ghost rs = views_of(receipts@);
    let half: u64 = u64::MAX / 2;
    let mut additional: u64 = 0;
    let mut i: usize = 0;
    proof {
        assert(rs.subrange(0, 0) =~= Seq::<ReceiptView>::empty());
    }
    while i < receipts.len()
        invariant
            i <= receipts@.len(),
            rs == views_of(receipts@),
            additional as nat == if sum_of_numbers(rs.subrange(0, i as int)) > u64::MAX {
                u64::MAX as nat
            } else {
                sum_of_numbers(rs.subrange(0, i as int))
            },
        decreases receipts@.len() - i,
    {
        let n: u64 = receipts[i].primary_number as u64;
        proof {
            let next = rs.subrange(0, i + 1);
            assert(next.drop_last() =~= rs.subrange(0, i as int));
            assert(next.last() == receipts@[i as int]@);
        }
        additional = if additional > u64::MAX - n {
            u64::MAX
        } else {
            additional + n
        };
        i += 1;
    }
    proof {
        assert(rs.subrange(0, i as int) =~= rs);
    }
    if additional > u64::MAX - half {
        u64::MAX
    } else {
        half + additional
    }
}

/// The tags that a bundle provides: the primary number of each receipt.
pub fn provides_of(receipts: &Vec<ExecutionReceipt>) -> (tags: Vec<Tag>)
    ensures
        tags@ == provided_tags(views_of(receipts@)),
{
    let ghost rs = views_of(receipts@);
    let mut tags: Vec<Tag> = Vec::new();
    let mut i: usize = 0;
    while i < receipts.len()
        invariant
            i <= receipts@.len(),
            rs == views_of(receipts@),
            tags@ == provided_tags(rs).subrange(0, i as int),
        decreases receipts@.len() - i,
    {
        tags.push(Tag::BlockNumber(receipts[i].primary_number));
        assert(tags@ =~= provided_tags(rs).subrange(0, i + 1));
        i += 1;
    }
    assert(tags@ =~= provided_tags(rs));
    tags
}

impl Pallet {
    /// The call that submits a signed bundle over the unsigned channel.
    pub fn submit_transaction_bundle_unsigned(signed_opaque_bundle: SignedOpaqueBundle) -> (call: Call)
        ensures
            call == (Call::SubmitTransactionBundle { signed_opaque_bundle }),
    {
        Call::SubmitTransactionBundle { signed_opaque_bundle }
    }

    /// The call that submits a fraud proof over the unsigned channel.
    pub fn submit_fraud_proof_unsigned(fraud_proof: FraudProof) -> (call: Call)
        ensures
            call == (Call::SubmitFraudProof { fraud_proof }),
    {
        Call::SubmitFraudProof { fraud_proof }
    }

    /// The call that submits a bundle equivocation proof over the unsigned
    /// channel.
    pub fn submit_bundle_equivocation_proof_unsigned(bundle_equivocation_proof: BundleEquivocationProof) -> (call:
        Call)
        ensures
            call == (Call::SubmitBundleEquivocationProof { bundle_equivocation_proof }),
    {
        Call::SubmitBundleEquivocationProof { bundle_equivocation_proof }
    }

    /// The call that submits an invalid transaction proof over the unsigned
    /// channel.
    pub fn submit_invalid_transaction_proof_unsigned(invalid_transaction_proof: InvalidTransactionProof) -> (call:
        Call)
        ensures
            call == (Call::SubmitInvalidTransactionProof { invalid_transaction_proof }),
    {
        Call::SubmitInvalidTransactionProof { invalid_transaction_proof }
    }

    /// The check before dispatch: a bundle must extend the head receipt by
    /// receipt and find its parent receipt; the proofs pass.
    pub fn pre_dispatch(&self, call: &Call) -> (r: Result<(), TransactionValidityError>)
        requires
            self.wf(),
        ensures
            r == dispatch_verdict(self@, *call),
    {
        match call {
            Call::SubmitTransactionBundle { signed_opaque_bundle } => self.pre_dispatch_transaction_bundle(
                signed_opaque_bundle,
            ),
            Call::SubmitFraudProof { .. } => Ok(()),
            Call::SubmitBundleEquivocationProof { .. } => Ok(()),
            Call::SubmitInvalidTransactionProof { .. } => Ok(()),
        }
    }

    /// Inclusion of an unsigned call in a block: the check before dispatch,
    /// then the dispatch with no signer. A call that fails the check changes
    /// nothing.
    pub fn apply_unsigned(&mut self, call: &Call) -> (r: Result<Vec<Event>, TransactionValidityError>)
        requires
            old(self).wf(),
        ensures
            final(self).wf(),
            final(self).spec_config() == old(self).spec_config(),
            match r {
                Ok(events) => dispatch_verdict(old(self)@, *call).is_ok() && final(self)@ == dispatched(
                    old(self)@,
                    old(self).spec_config(),
                    *call,
                ) && events@ == dispatch_events(*call),
                Err(e) => dispatch_verdict(old(self)@, *call) == Err::<(), TransactionValidityError>(e)
                    && final(self)@ == old(self)@,
            },
    {
        match self.pre_dispatch(call) {
            Err(e) => {
                return Err(e);
            },
            Ok(()) => {},
        }
        let mut events: Vec<Event> = Vec::new();
        match call {
            Call::SubmitTransactionBundle { signed_opaque_bundle } => {
                events = self.commit_receipts(signed_opaque_bundle);
                events.push(Event::TransactionBundleStored { bundle_hash: signed_opaque_bundle.bundle_hash });
            },
            Call::SubmitFraudProof { fraud_proof } => {
                self.revert_to(fraud_proof.parent_number);
                events.push(Event::FraudProofProcessed);
            },
            Call::SubmitBundleEquivocationProof { .. } => {
                events.push(Event::BundleEquivocationProofProcessed);
            },
            Call::SubmitInvalidTransactionProof { .. } => {
                events.push(Event::InvalidTransactionProofProcessed);
            },
        }
        assert(events@ =~= dispatch_events(*call));
        Ok(events)
    }

    /// Pool validation of a call: the call is checked without any change of
    /// state, and an accepted call gets its gossip descriptor.
    pub fn validate_unsigned(&self, ctx: &ChainContext, call: &Call) -> (r: Result<
        ValidTransaction,
        TransactionValidityError,
    >)
        requires
            self.wf(),
            ctx.current_block_number >= 1,
        ensures
            match r {
                Ok(v) => unsigned_verdict(self@, self.spec_config(), *ctx, *call) == Ok::<
                    Descriptor,
                    TransactionValidityError,
                >(v@),
                Err(e) => unsigned_verdict(self@, self.spec_config(), *ctx, *call) == Err::<
                    Descriptor,
                    TransactionValidityError,
                >(e),
            },
    {
        match call {
            Call::SubmitTransactionBundle { signed_opaque_bundle } => {
                match self.validate_bundle(ctx, signed_opaque_bundle) {
                    Err(BundleError::Receipt(_)) => {
                        return Err(
                            TransactionValidityError::Invalid(
                                InvalidTransaction::Custom(InvalidTransactionCode::ExecutionReceipt),
                            ),
                        );
                    },
                    Err(_) => {
                        return Err(
                            TransactionValidityError::Invalid(
                                InvalidTransaction::Custom(InvalidTransactionCode::Bundle),
                            ),
                        );
                    },
                    Ok(()) => {},
                }
                let receipts = &signed_opaque_bundle.bundle.receipts;
                let ghost rs = views_of(receipts@);
                let provides = provides_of(receipts);
                let longevity: u64 = self.config().confirmation_depth_k as u64;
                if ctx.current_block_number == 1 {
                    let v = ValidTransaction {
                        tag_prefix: TagPrefix::SubmitBundle,
                        priority: u64::MAX,
                        requires: Vec::new(),
                        provides,
                        longevity,
                        propagate: true,
                    };
                    assert(v@.requires =~= Seq::<Tag>::empty());
                    return Ok(v);
                }
                let priority = priority_of(receipts);
                assert(receipts@.len() > 0);
                let first_primary_number = receipts[0].primary_number;
                assert(rs[0].primary_number == first_primary_number);
                let (_, best_number) = self.receipt_head();
                let mut required: Vec<Tag> = Vec::new();
                if first_primary_number as u64 != best_number as u64 + 1 && first_primary_number != 0 {
                    required.push(Tag::BlockNumber(first_primary_number - 1));
                }
                let v = ValidTransaction {
                    tag_prefix: TagPrefix::SubmitBundle,
                    priority,
                    requires: required,
                    provides,
                    longevity,
                    propagate: true,
                };
                assert(v@.requires =~= required_tags(self@, rs));
                Ok(v)
            },
            Call::SubmitFraudProof { fraud_proof } => {
                match self.validate_fraud_proof(fraud_proof) {
                    Err(_) => Err(
                        TransactionValidityError::Invalid(
                            InvalidTransaction::Custom(InvalidTransactionCode::FraudProof),
                        ),
                    ),
                    Ok(()) => Ok(
                        unsigned_validity(TagPrefix::SubmitFraudProof, Tag::Proof(fraud_proof.proof_hash)),
                    ),
                }
            },
            Call::SubmitBundleEquivocationProof { bundle_equivocation_proof } => {
                match self.validate_bundle_equivocation_proof(bundle_equivocation_proof) {
                    Err(_) => Err(
                        TransactionValidityError::Invalid(
                            InvalidTransaction::Custom(InvalidTransactionCode::BundleEquivicationProof),
                        ),
                    ),
                    Ok(()) => Ok(
                        unsigned_validity(
                            TagPrefix::SubmitBundleEquivocationProof,
                            Tag::Proof(bundle_equivocation_proof.proof_hash),
                        ),
                    ),
                }
            },
            Call::SubmitInvalidTransactionProof { invalid_transaction_proof } => {
                match self.validate_invalid_transaction_proof(invalid_transaction_proof) {
                    Err(_) => Err(
                        TransactionValidityError::Invalid(
                            InvalidTransaction::Custom(InvalidTransactionCode::TrasactionProof),
                        ),
                    ),
                    Ok(()) => Ok(
                        unsigned_validity(
                            TagPrefix::SubmitInvalidTransactionProof,
                            Tag::Proof(invalid_transaction_proof.proof_hash),
                        ),
                    ),
                }
            },
        }
    }
}

} // verus!
