use vstd::prelude::*;
use crate::error::DispatchError;
use crate::hash::H256;
use crate::model::{
    any_vote_under, block_hash_at, commit, commit_all, drain, drain_down_to, empty_state,
    initialize, one_more, prefix_keys, prune, record, rollback, vote_count, voted_under, State,
};
use crate::receipt::{ExecutionReceipt, ReceiptView};
use crate::table::Table;
use crate::types::{
    AccountId, BundleEquivocationProof, Config, Event, ExecutorId, FraudProof,
    InvalidTransactionProof, Origin, SignedOpaqueBundle,
};

verus! {

/// The receipt store with its block-hash index, vote tallies and head pointer.
pub struct Pallet {
    config: Config,
    executor: Option<(AccountId, ExecutorId)>,
    block_hash: Table<u32, H256>,
    receipts: Table<H256, ExecutionReceipt>,
    receipt_votes: Table<H256, Table<H256, u32>>,
    receipt_head: (H256, u32),
}

/// The stored receipts as mathematical values.
pub open spec fn receipt_views(m: Map<H256, ExecutionReceipt>) -> Map<H256, ReceiptView> {
    m.map_values(|r: ExecutionReceipt| r@)
}

/// The two-level vote table as one map keyed by (primary hash, receipt hash).
pub open spec fn flat_votes(outer: Map<H256, Table<H256, u32>>) -> Map<(H256, H256), u32> {
    Map::new(
        |k: (H256, H256)| outer.contains_key(k.0) && outer[k.0]@.contains_key(k.1),
        |k: (H256, H256)| outer[k.0]@[k.1],
    )
}

/// The views of a sequence of receipts.
pub open spec fn views_of(receipts: Seq<ExecutionReceipt>) -> Seq<ReceiptView> {
    receipts.map_values(|r: ExecutionReceipt| r@)
}

/// The events of committing the receipts in order.
pub open spec fn receipt_events(receipts: Seq<ReceiptView>) -> Seq<Event> {
    receipts.map_values(
        |r: ReceiptView|
            Event::NewExecutionReceipt { primary_number: r.primary_number, primary_hash: r.primary_hash },
    )
}

impl Pallet {
    /// The structural invariant: no table holds a key twice.
    pub closed spec fn wf(&self) -> bool {
        &&& self.block_hash.wf()
        &&& self.receipts.wf()
        &&& self.receipt_votes.wf()
        &&& forall|h: H256| #[trigger]
            self.receipt_votes@.contains_key(h) ==> self.receipt_votes@[h].wf()
    }

    /// The storage as a mathematical value.
    pub closed spec fn view(&self) -> State {
        State {
            executor: self.executor,
            block_hash: self.block_hash@,
            receipts: receipt_views(self.receipts@),
            votes: flat_votes(self.receipt_votes@),
            head_hash: self.receipt_head.0,
            head_number: self.receipt_head.1,
        }
    }

    /// The parameters that the store was made with.
    pub closed spec fn spec_config(&self) -> Config {
        self.config
    }

    /// An empty store.
    pub fn new(config: Config, executor: Option<(AccountId, ExecutorId)>) -> (p: Pallet)
        ensures
            p.wf(),
            p@ == empty_state(executor),
            p.spec_config() == config,
    {
        let p = Pallet {
            config,
            executor,
            block_hash: Table::new(),
            receipts: Table::new(),
            receipt_votes: Table::new(),
            receipt_head: (H256::zero(), 0),
        };
        proof {
            assert(p@.receipts =~= Map::<H256, ReceiptView>::empty());
            assert(p@.votes =~= Map::<(H256, H256), u32>::empty());
        }
        p
    }

    /// The parameters that the store was made with.
    pub fn config(&self) -> (c: Config)
        ensures
            c == self.spec_config(),
    {
        self.config
    }

    /// The executor installed at genesis.
    pub fn executor(&self) -> (e: Option<(AccountId, ExecutorId)>)
        ensures
            e == self@.executor,
    {
        self.executor
    }

    /// The (hash, number) of the latest acknowledged receipt.
    pub fn receipt_head(&self) -> (head: (H256, u32))
        ensures
            head == (self@.head_hash, self@.head_number),
    {
        self.receipt_head
    }

    /// The hash recorded for height `number`, or the default hash.
    pub fn block_hash(&self, number: u32) -> (h: H256)
        requires
            self.wf(),
        ensures
            h == block_hash_at(self@, number),
    {
        match self.block_hash.get(&number) {
            Some(h) => *h,
            None => H256::zero(),
        }
    }

    /// Whether a row is recorded for height `number`.
    pub fn has_block_hash(&self, number: u32) -> (b: bool)
        requires
            self.wf(),
        ensures
            b == self@.block_hash.contains_key(number),
    {
        self.block_hash.contains_key(&number)
    }

    /// The receipt stored under `receipt_hash`, if any.
    pub fn receipt(&self, receipt_hash: &H256) -> (r: Option<&ExecutionReceipt>)
        requires
            self.wf(),
        ensures
            match r {
                Some(receipt) => self@.receipts.contains_key(*receipt_hash) && receipt@
                    == self@.receipts[*receipt_hash],
                None => !self@.receipts.contains_key(*receipt_hash),
            },
    {
        self.receipts.get(receipt_hash)
    }

    /// The number of stored receipts.
    pub fn live_receipts(&self) -> (n: usize)
        requires
            self.wf(),
        ensures
            self@.receipts.dom().finite(),
            n == self@.receipts.dom().len(),
    {
        assert(self@.receipts.dom() =~= self.receipts@.dom());
        self.receipts.len()
    }

    /// The number of votes of `receipt_hash` under `primary_hash`.
    pub fn receipt_votes(&self, primary_hash: &H256, receipt_hash: &H256) -> (count: u32)
        requires
            self.wf(),
        ensures
            count == vote_count(self@, *primary_hash, *receipt_hash),
    {
        match self.receipt_votes.get(primary_hash) {
            Some(inner) => match inner.get(receipt_hash) {
                Some(c) => *c,
                None => 0,
            },
            None => 0,
        }
    }

    /// Whether any receipt has a vote under `primary_hash`.
    pub fn has_votes_under(&self, primary_hash: &H256) -> (b: bool)
        requires
            self.wf(),
        ensures
            b == any_vote_under(self@.votes, *primary_hash),
    {
        match self.receipt_votes.get(primary_hash) {
            Some(inner) => {
                if inner.len() > 0 {
                    let k = inner.key_at(0);
                    assert(self@.votes.contains_key((*primary_hash, k)));
                    true
                } else {
                    assert forall|r: H256| !self@.votes.contains_key((*primary_hash, r)) by {
                        if inner@.contains_key(r) {
                            let i = inner.lemma_key_has_position(r);
                        }
                    }
                    false
                }
            },
            None => false,
        }
    }

    /// Returns the block number of the latest receipt.
    pub fn best_execution_chain_number(&self) -> (n: u32)
        ensures
            n == self@.head_number,
    {
        self.receipt_head.1
    }

    /// The head's number less the pruning depth, or 0 where the head is below
    /// the depth.
    pub open spec fn spec_finalized_receipt_number(&self) -> u32 {
        if self@.head_number >= self.spec_config().receipts_pruning_depth {
            (self@.head_number - self.spec_config().receipts_pruning_depth) as u32
        } else {
            0
        }
    }

    /// Returns the block number of latest _finalized_ receipt: the head's number
    /// less the pruning depth, or 0 where the head is below the depth.
    pub fn finalized_receipt_number(&self) -> (n: u32)
        ensures
            n == self.spec_finalized_receipt_number(),
    {
        let best = self.receipt_head.1;
        let depth = self.config.receipts_pruning_depth;
        if best >= depth {
            best - depth
        } else {
            0
        }
    }

    /// Returns the block number of the oldest receipt still being tracked in the
    /// state: one above the finalized number.
    pub fn oldest_receipt_number(&self) -> (n: u32)
        requires
            self.spec_finalized_receipt_number() < u32::MAX,
        ensures
            n == self.spec_finalized_receipt_number() + 1,
    {
        self.finalized_receipt_number() + 1
    }

    fn add_vote(&mut self, primary_hash: H256, receipt_hash: H256)
        requires
            old(self).wf(),
        ensures
            final(self).wf(),
            final(self).spec_config() == old(self).spec_config(),
            final(self)@ == (State {
                votes: old(self)@.votes.insert(
                    (primary_hash, receipt_hash),
                    one_more(vote_count(old(self)@, primary_hash, receipt_hash)),
                ),
                ..old(self)@
            }),
    {
        let ghost outer0 = self.receipt_votes@;
        let removed = self.receipt_votes.remove(&primary_hash);
        let mut inner = match removed {
            Some(t) => t,
            None => Table::new(),
        };
        let ghost inner0 = inner@;
        let count: u32 = match inner.get(&receipt_hash) {
            Some(c) => *c,
            None => 0,
        };
        let next: u32 = if count < u32::MAX {
            count + 1
        } else {
            count
        };
        inner.insert(receipt_hash, next);
        self.receipt_votes.insert(primary_hash, inner);
        proof {
            let outer1 = self.receipt_votes@;
            assert(outer1 == outer0.remove(primary_hash).insert(primary_hash, inner));
            let before = flat_votes(outer0);
            let after = flat_votes(outer1);
            assert forall|k: (H256, H256)| after.contains_key(k) == (before.contains_key(k) || k == (
                primary_hash,
                receipt_hash,
            )) by {
                if k.0 == primary_hash {
                    assert(outer1[k.0]@ == inner0.insert(receipt_hash, next));
                } else {
                    assert(outer1.contains_key(k.0) == outer0.contains_key(k.0));
                }
            }
            assert(after =~= before.insert((primary_hash, receipt_hash), next));
            assert forall|h: H256| #[trigger]
                outer1.contains_key(h) implies outer1[h].wf() by {
                if h != primary_hash {
                    assert(outer0.contains_key(h));
                }
            }
        }
    }

    /// Removes every receipt voted under `block_hash` and clears those votes.
    fn drain_votes(&mut self, block_hash: &H256)
        requires
            old(self).wf(),
        ensures
            final(self).wf(),
            final(self).spec_config() == old(self).spec_config(),
            final(self)@ == drain(old(self)@, *block_hash),
    {
        let ghost outer0 = self.receipt_votes@;
        let ghost stored0 = self.receipts@;
        let ghost state0 = self@;
        let removed = self.receipt_votes.remove(block_hash);
        proof {
            let outer1 = self.receipt_votes@;
            assert(flat_votes(outer1) =~= flat_votes(outer0).remove_keys(prefix_keys(*block_hash)));
            assert forall|h: H256| #[trigger]
                outer1.contains_key(h) implies outer1[h].wf() by {
                assert(outer0.contains_key(h));
            }
        }
        match removed {
            Some(inner) => {
                let mut i: usize = 0;
                while i < inner.len()
                    invariant
                        i <= inner.entries().len(),
                        inner.wf(),
                        self.wf(),
                        self.config == old(self).config,
                        self.executor == old(self).executor,
                        self.block_hash == old(self).block_hash,
                        self.receipt_head == old(self).receipt_head,
                        flat_votes(self.receipt_votes@) == state0.votes.remove_keys(
                            prefix_keys(*block_hash),
                        ),
                        self.receipts@ == stored0.remove_keys(
                            Set::new(
                                |r: H256|
                                    exists|j: int| 0 <= j < i && #[trigger] inner.entries()[j].0 == r,
                            ),
                        ),
                    decreases inner.entries().len() - i,
                {
                    let ghost done = Set::new(
                        |r: H256| exists|j: int| 0 <= j < i && #[trigger] inner.entries()[j].0 == r,
                    );
                    let ghost stored = self.receipts@;
                    let key = inner.key_at(i);
                    let _ = self.receipts.remove(&key);
                    proof {
                        let next = Set::new(
                            |r: H256|
                                exists|j: int| 0 <= j < i + 1 && #[trigger] inner.entries()[j].0 == r,
                        );
                        assert forall|r: H256| next.contains(r) == (done.contains(r) || r == key) by {
                            if done.contains(r) {
                                let j = choose|j: int| 0 <= j < i && #[trigger] inner.entries()[j].0 == r;
                                assert(0 <= j < i + 1 && inner.entries()[j].0 == r);
                            }
                            if r == key {
                                assert(inner.entries()[i as int].0 == r);
                            }
                        }
                        assert(self.receipts@ =~= stored0.remove_keys(next));
                    }
                    i += 1;
                }
                proof {
                    let all = Set::new(
                        |r: H256|
                            exists|j: int| 0 <= j < inner.entries().len() && #[trigger] inner.entries()[j].0 == r,
                    );
                    let voted = voted_under(state0.votes, *block_hash);
                    inner.lemma_view();
                    assert forall|r: H256| all.contains(r) == voted.contains(r) by {
                        if all.contains(r) {
                            let j = choose|j: int|
                                0 <= j < inner.entries().len() && #[trigger] inner.entries()[j].0 == r;
                            crate::table::lemma_entry_in_map(inner.entries(), j);
                        }
                        if voted.contains(r) {
                            let j = inner.lemma_key_has_position(r);
                        }
                    }
                    assert(all =~= voted);
                    assert(receipt_views(self.receipts@) =~= state0.receipts.remove_keys(voted));
                }
            },
            None => {
                proof {
                    let voted = voted_under(state0.votes, *block_hash);
                    assert(voted =~= Set::<H256>::empty());
                    assert(state0.receipts.remove_keys(voted) =~= state0.receipts);
                }
            },
        }
    }

    /// Commits one receipt: stores it under its content hash, moves the head to
    /// it, counts a vote for it, and prunes the height that leaves the window.
    pub fn apply_execution_receipt(&mut self, execution_receipt: &ExecutionReceipt) -> (event: Event)
        requires
            old(self).wf(),
        ensures
            final(self).wf(),
            final(self).spec_config() == old(self).spec_config(),
            final(self)@ == commit(
                old(self)@,
                execution_receipt@,
                old(self).spec_config().receipts_pruning_depth,
            ),
            event == (Event::NewExecutionReceipt {
                primary_number: execution_receipt.primary_number,
                primary_hash: execution_receipt.primary_hash,
            }),
    {
        let primary_hash = execution_receipt.primary_hash;
        let primary_number = execution_receipt.primary_number;
        let receipt_hash = execution_receipt.hash();
        let ghost state0 = self@;

        self.receipts.insert(receipt_hash, execution_receipt.duplicate());
        self.receipt_head = (primary_hash, primary_number);
        proof {
            assert(receipt_views(self.receipts@) =~= state0.receipts.insert(
                receipt_hash,
                execution_receipt@,
            ));
        }
        self.add_vote(primary_hash, receipt_hash);
        assert(self@ == record(state0, execution_receipt@));

        let depth = self.config.receipts_pruning_depth;
        if primary_number >= depth {
            let to_prune: u32 = primary_number - depth;
            let ghost recorded = self@;
            match self.block_hash.remove(&to_prune) {
                Some(block_hash) => {
                    assert(self@ == (State {
                        block_hash: recorded.block_hash.remove(to_prune),
                        ..recorded
                    }));
                    self.drain_votes(&block_hash);
                    assert(self@ == prune(recorded, to_prune));
                },
                None => {
                    assert(self.block_hash@ =~= recorded.block_hash);
                    assert(self@ == prune(recorded, to_prune));
                },
            }
        }
        Event::NewExecutionReceipt { primary_number, primary_hash }
    }
}


impl Pallet {
    /// Commits each receipt of the bundle, in order.
    pub(crate) fn commit_receipts(&mut self, signed_opaque_bundle: &SignedOpaqueBundle) -> (events: Vec<Event>)
        requires
            old(self).wf(),
        ensures
            final(self).wf(),
            final(self).spec_config() == old(self).spec_config(),
            final(self)@ == commit_all(
                old(self)@,
                views_of(signed_opaque_bundle.bundle.receipts@),
                old(self).spec_config().receipts_pruning_depth,
            ),
            events@ == receipt_events(views_of(signed_opaque_bundle.bundle.receipts@)),
    {
        let ghost state0 = self@;
        let ghost depth = self.config.receipts_pruning_depth;
        let ghost views = views_of(signed_opaque_bundle.bundle.receipts@);
        let mut events: Vec<Event> = Vec::new();
        let mut i: usize = 0;
        proof {
            assert(views.subrange(0, 0) =~= Seq::<ReceiptView>::empty());
            assert(receipt_events(views.subrange(0, 0)) =~= Seq::<Event>::empty());
        }
        while i < signed_opaque_bundle.bundle.receipts.len()
            invariant
                i <= signed_opaque_bundle.bundle.receipts@.len(),
                views == views_of(signed_opaque_bundle.bundle.receipts@),
                self.wf(),
                self.config == old(self).config,
                depth == self.config.receipts_pruning_depth,
                self@ == commit_all(state0, views.subrange(0, i as int), depth),
                events@ == receipt_events(views.subrange(0, i as int)),
            decreases signed_opaque_bundle.bundle.receipts@.len() - i,
        {
            let event = self.apply_execution_receipt(&signed_opaque_bundle.bundle.receipts[i]);
            events.push(event);
            proof {
                let next = views.subrange(0, i + 1);
                assert(next.drop_last() =~= views.subrange(0, i as int));
                assert(next.last() == signed_opaque_bundle.bundle.receipts@[i as int]@);
                assert(events@ =~= receipt_events(next));
            }
            i += 1;
        }
        proof {
            assert(views.subrange(0, i as int) =~= views);
        }
        events
    }

    /// Moves the head to the ancestor and drains the heights above it, from the
    /// old head down.
    pub(crate) fn revert_to(&mut self, new_best_number: u32)
        requires
            old(self).wf(),
        ensures
            final(self).wf(),
            final(self).spec_config() == old(self).spec_config(),
            final(self)@ == rollback(old(self)@, new_best_number),
    {
        let ghost state0 = self@;
        let mut to_remove: u32 = self.receipt_head.1;
        let new_best_hash = self.block_hash(new_best_number);
        self.receipt_head = (new_best_hash, new_best_number);
        while to_remove > new_best_number
            invariant
                self.wf(),
                self.config == old(self).config,
                drain_down_to(self@, to_remove, new_best_number) == rollback(
                    state0,
                    new_best_number,
                ),
            decreases to_remove,
        {
            let block_hash = self.block_hash(to_remove);
            self.drain_votes(&block_hash);
            to_remove -= 1;
        }
    }

    /// Dispatch of a bundle: with no signer, commits each of its receipts, in
    /// order, and reports one event per receipt and one for the bundle. With any
    /// other origin the call is refused and the state stays.
    pub fn submit_transaction_bundle(&mut self, origin: Origin, signed_opaque_bundle: &SignedOpaqueBundle) -> (r:
        Result<Vec<Event>, DispatchError>)
        requires
            old(self).wf(),
        ensures
            final(self).wf(),
            final(self).spec_config() == old(self).spec_config(),
            match r {
                Ok(events) => origin is Unsigned && final(self)@ == commit_all(
                    old(self)@,
                    views_of(signed_opaque_bundle.bundle.receipts@),
                    old(self).spec_config().receipts_pruning_depth,
                ) && events@ == receipt_events(views_of(signed_opaque_bundle.bundle.receipts@)).push(
                    Event::TransactionBundleStored { bundle_hash: signed_opaque_bundle.bundle_hash },
                ),
                Err(e) => !(origin is Unsigned) && e == DispatchError::BadOrigin && final(self)@ == old(self)@,
            },
    {
        if !origin.is_unsigned() {
            return Err(DispatchError::BadOrigin);
        }
        let mut events = self.commit_receipts(signed_opaque_bundle);
        events.push(Event::TransactionBundleStored { bundle_hash: signed_opaque_bundle.bundle_hash });
        Ok(events)
    }

    /// Dispatch of a fraud proof: with no signer, rolls the receipt chain back
    /// to the ancestor that the proof names. With any other origin the call is
    /// refused and the state stays.
    pub fn submit_fraud_proof(&mut self, origin: Origin, fraud_proof: &FraudProof) -> (r: Result<
        Event,
        DispatchError,
    >)
        requires
            old(self).wf(),
        ensures
            final(self).wf(),
            final(self).spec_config() == old(self).spec_config(),
            match r {
                Ok(event) => origin is Unsigned && final(self)@ == rollback(old(self)@, fraud_proof.parent_number)
                    && event == Event::FraudProofProcessed,
                Err(e) => !(origin is Unsigned) && e == DispatchError::BadOrigin && final(self)@ == old(self)@,
            },
    {
        if !origin.is_unsigned() {
            return Err(DispatchError::BadOrigin);
        }
        self.revert_to(fraud_proof.parent_number);
        Ok(Event::FraudProofProcessed)
    }

    /// Dispatch of a bundle equivocation proof: the state stays as it is; with
    /// no signer the proof is reported as processed.
    pub fn submit_bundle_equivocation_proof(
        &mut self,
        origin: Origin,
        bundle_equivocation_proof: &BundleEquivocationProof,
    ) -> (r: Result<Event, DispatchError>)
        ensures
            *final(self) == *old(self),
            r == (if origin is Unsigned {
                Ok::<Event, DispatchError>(Event::BundleEquivocationProofProcessed)
            } else {
                Err::<Event, DispatchError>(DispatchError::BadOrigin)
            }),
    {
        if !origin.is_unsigned() {
            return Err(DispatchError::BadOrigin);
        }
        Ok(Event::BundleEquivocationProofProcessed)
    }

    /// Dispatch of an invalid transaction proof: the state stays as it is; with
    /// no signer the proof is reported as processed.
    pub fn submit_invalid_transaction_proof(
        &mut self,
        origin: Origin,
        invalid_transaction_proof: &InvalidTransactionProof,
    ) -> (r: Result<Event, DispatchError>)
        ensures
            *final(self) == *old(self),
            r == (if origin is Unsigned {
                Ok::<Event, DispatchError>(Event::InvalidTransactionProofProcessed)
            } else {
                Err::<Event, DispatchError>(DispatchError::BadOrigin)
            }),
    {
        if !origin.is_unsigned() {
            return Err(DispatchError::BadOrigin);
        }
        Ok(Event::InvalidTransactionProofProcessed)
    }

    /// Commits the receipt of the genesis block.
    pub fn initialize_genesis_receipt(&mut self, genesis_hash: H256) -> (event: Event)
        requires
            old(self).wf(),
        ensures
            final(self).wf(),
            final(self).spec_config() == old(self).spec_config(),
            final(self)@ == commit(
                old(self)@,
                ExecutionReceipt::spec_genesis(genesis_hash),
                old(self).spec_config().receipts_pruning_depth,
            ),
            event == (Event::NewExecutionReceipt { primary_number: 0, primary_hash: genesis_hash }),
    {
        let genesis_receipt = ExecutionReceipt::genesis(genesis_hash);
        self.apply_execution_receipt(&genesis_receipt)
    }

    /// Start of the primary block `block_number`: records the parent's hash and,
    /// at the first block, installs the genesis receipt.
    pub fn on_initialize(&mut self, block_number: u32, parent_hash: H256) -> (event: Option<Event>)
        requires
            old(self).wf(),
            block_number >= 1,
        ensures
            final(self).wf(),
            final(self).spec_config() == old(self).spec_config(),
            final(self)@ == initialize(
                old(self)@,
                block_number,
                parent_hash,
                old(self).spec_config().receipts_pruning_depth,
            ),
            event == (if block_number == 1 {
                Some(Event::NewExecutionReceipt { primary_number: 0, primary_hash: parent_hash })
            } else {
                None
            }),
    {
        let parent_number: u32 = block_number - 1;
        self.block_hash.insert(parent_number, parent_hash);
        if parent_number == 0 {
            Some(self.initialize_genesis_receipt(parent_hash))
        } else {
            None
        }
    }
}

/// What the store starts from.
#[derive(Clone, Copy, Debug, PartialEq, Eq)]
pub struct GenesisConfig {
    pub executor: Option<(AccountId, ExecutorId)>,
}

impl Default for GenesisConfig {
    fn default() -> (g: GenesisConfig)
        ensures
            g.executor.is_none(),
    {
        GenesisConfig { executor: None }
    }
}

impl GenesisConfig {
    /// Builds the store of the genesis block, with the executor installed.
    pub fn build(&self, config: Config) -> (p: Pallet)
        requires
            self.executor.is_some(),
        ensures
            p.wf(),
            p@ == empty_state(self.executor),
            p.spec_config() == config,
    {
        Pallet::new(config, self.executor)
    }
}

} // verus!
