use pallet_executor::error::{
    BundleError, DispatchError, Error, ExecutionReceiptError, FraudProofError, InvalidTransaction,
    InvalidTransactionCode, TransactionValidityError,
};
use pallet_executor::gateway::{priority_of, unsigned_validity, Tag, TagPrefix};
use pallet_executor::hash::{Key, H256};
use pallet_executor::pallet::{GenesisConfig, Pallet};
use pallet_executor::receipt::ExecutionReceipt;
use pallet_executor::types::{
    Bundle, BundleElectionParams, BundleEquivocationProof, Call, ChainContext, Config, Event,
    FraudProof, InvalidTransactionProof, Origin, ProofOfElection, SignedOpaqueBundle,
};
use pallet_executor::validation::{
    check_election_solution, election_stake_weight, stake_weight_of, validate_bundle_election,
};

fn h(n: u8) -> H256 {
    H256 { bytes: [n; 32] }
}

fn block(n: u32) -> H256 {
    let mut bytes = [0xb0u8; 32];
    bytes[31] = n as u8;
    H256 { bytes }
}

fn config(depth: u32) -> Config {
    Config { receipts_pruning_depth: depth, maximum_receipt_drift: 2, confirmation_depth_k: 100 }
}

fn receipt(n: u32) -> ExecutionReceipt {
    ExecutionReceipt {
        primary_number: n,
        primary_hash: block(n),
        secondary_hash: h(0x5e),
        trace: vec![h(1), h(2)],
        trace_root: h(3),
    }
}

fn signer() -> H256 {
    h(0xaa)
}

fn good_election() -> ProofOfElection {
    ProofOfElection {
        vrf_proof_valid: true,
        election_params: Some(BundleElectionParams {
            authorities: vec![(h(0x01), 10), (signer(), 90)],
            total_stake_weight: 100,
            slot_probability: (1, 1),
        }),
        election_solution: 5,
        threshold: 5,
    }
}

fn bundle_of(receipts: Vec<ExecutionReceipt>) -> SignedOpaqueBundle {
    SignedOpaqueBundle {
        bundle: Bundle { receipts },
        bundle_hash: h(0xbb),
        proof_of_election: good_election(),
        signature_valid: true,
        signer: signer(),
    }
}

/// A store in which the blocks `1..=last_block` were initialized, with block
/// `i - 1` having the hash `block(i - 1)`.
fn chain(depth: u32, last_block: u32) -> Pallet {
    let genesis = GenesisConfig { executor: Some((h(0xee), signer())) };
    let mut pallet = genesis.build(config(depth));
    for n in 1..=last_block {
        pallet.on_initialize(n, block(n - 1));
    }
    pallet
}

/// The same, with the receipts of heights `1..=head` committed one by one.
fn chain_with_head(depth: u32, last_block: u32, head: u32) -> Pallet {
    let mut pallet = chain(depth, last_block);
    for n in 1..=head {
        pallet.apply_execution_receipt(&receipt(n));
    }
    pallet
}

fn ctx(n: u32) -> ChainContext {
    ChainContext { current_block_number: n, parent_hash: block(n - 1) }
}

fn invalid(code: InvalidTransactionCode) -> TransactionValidityError {
    TransactionValidityError::Invalid(InvalidTransaction::Custom(code))
}

#[test]
fn genesis_build_installs_the_executor() {
    let genesis = GenesisConfig { executor: Some((h(0xee), signer())) };
    let pallet = genesis.build(config(3));
    assert_eq!(pallet.executor(), Some((h(0xee), signer())));
    assert_eq!(pallet.receipt_head(), (H256::zero(), 0));
    assert_eq!(pallet.config(), config(3));
    assert_eq!(GenesisConfig::default().executor, None);
}

#[test]
fn genesis_receipt_is_installed_once_at_block_one() {
    let genesis = GenesisConfig { executor: Some((h(0xee), signer())) };
    let mut pallet = genesis.build(config(3));
    let first = pallet.on_initialize(1, block(0));
    assert_eq!(
        first,
        Some(Event::NewExecutionReceipt { primary_number: 0, primary_hash: block(0) })
    );
    let genesis_receipt = ExecutionReceipt::genesis(block(0));
    let id = genesis_receipt.hash();
    assert_eq!(pallet.receipt(&id), Some(&genesis_receipt));
    assert_eq!(pallet.receipt_votes(&block(0), &id), 1);
    assert_eq!(pallet.receipt_head(), (block(0), 0));
    assert_eq!(pallet.block_hash(0), block(0));

    let second = pallet.on_initialize(2, block(1));
    assert_eq!(second, None);
    assert_eq!(pallet.receipt_votes(&block(0), &id), 1);
    assert_eq!(pallet.receipt_head(), (block(0), 0));
    assert_eq!(pallet.block_hash(1), block(1));
}

#[test]
fn receipt_hash_is_blake2_256_of_the_scale_encoding() {
    let r = receipt(7);
    let mut encoded: Vec<u8> = Vec::new();
    encoded.extend_from_slice(&7u32.to_le_bytes());
    encoded.extend_from_slice(&block(7).bytes);
    encoded.extend_from_slice(&h(0x5e).bytes);
    encoded.push(2 << 2);
    encoded.extend_from_slice(&h(1).bytes);
    encoded.extend_from_slice(&h(2).bytes);
    encoded.extend_from_slice(&h(3).bytes);
    let expected = <sp_core::Blake2Hasher as sp_core::Hasher>::hash(&encoded).0;
    assert_eq!(r.hash().bytes, expected);
    assert_ne!(r.hash(), r.primary_hash);
    assert_ne!(r.hash(), receipt(8).hash());
    assert_eq!(r.hash(), r.duplicate().hash());
    assert_eq!(r.duplicate(), r);
}

#[test]
fn hash_equality_compares_all_bytes() {
    assert!(h(4).same(&h(4)));
    assert!(!h(4).same(&h(5)));
    assert!(!block(1).same(&block(2)));
    assert!(H256::zero().same(&h(0)));
    assert!(7u32.same(&7u32));
    assert!(!7u32.same(&8u32));
}

#[test]
fn happy_path_extension() {
    let mut pallet = chain(3, 3);
    assert_eq!(pallet.receipt_head(), (block(0), 0));
    let bundle = bundle_of(vec![receipt(1), receipt(2)]);
    assert_eq!(pallet.validate_bundle(&ctx(3), &bundle), Ok(()));
    assert_eq!(pallet.pre_dispatch_transaction_bundle(&bundle), Ok(()));
    let events = pallet.submit_transaction_bundle(Origin::Unsigned, &bundle).unwrap();
    assert_eq!(
        events,
        vec![
            Event::NewExecutionReceipt { primary_number: 1, primary_hash: block(1) },
            Event::NewExecutionReceipt { primary_number: 2, primary_hash: block(2) },
            Event::TransactionBundleStored { bundle_hash: h(0xbb) },
        ]
    );
    assert_eq!(pallet.receipt_head(), (block(2), 2));
    assert_eq!(pallet.best_execution_chain_number(), 2);
    assert_eq!(pallet.receipt(&receipt(1).hash()), Some(&receipt(1)));
    assert_eq!(pallet.receipt(&receipt(2).hash()), Some(&receipt(2)));
    assert_eq!(pallet.receipt_votes(&block(1), &receipt(1).hash()), 1);
    assert_eq!(pallet.receipt_votes(&block(2), &receipt(2).hash()), 1);
}

#[test]
fn stale_bundle() {
    let pallet = chain_with_head(3, 7, 5);
    assert_eq!(pallet.receipt_head(), (block(5), 5));
    let bundle = bundle_of(vec![receipt(5)]);
    assert_eq!(
        pallet.pre_dispatch_transaction_bundle(&bundle),
        Err(TransactionValidityError::Invalid(InvalidTransaction::Stale))
    );
    assert_eq!(pallet.validate_bundle(&ctx(7), &bundle), Ok(()));
    let older = bundle_of(vec![receipt(4)]);
    assert_eq!(
        pallet.validate_bundle(&ctx(7), &older),
        Err(BundleError::Receipt(ExecutionReceiptError::Pruned))
    );
    assert_eq!(
        pallet.validate_unsigned(&ctx(7), &Call::SubmitTransactionBundle { signed_opaque_bundle: older }),
        Err(invalid(InvalidTransactionCode::ExecutionReceipt))
    );
    assert_eq!(pallet.receipt_head(), (block(5), 5));
    assert_eq!(pallet.receipt(&receipt(5).hash()), Some(&receipt(5)));
}

#[test]
fn future_bundle_beyond_drift() {
    let pallet = chain_with_head(3, 10, 5);
    let mut at_current = receipt(10);
    at_current.primary_hash = H256::zero();
    assert_eq!(
        pallet.validate_execution_receipts(&ctx(10), &vec![at_current]),
        Err(ExecutionReceiptError::TooFarInFuture)
    );
    assert_eq!(
        pallet.validate_execution_receipts(&ctx(10), &vec![receipt(10)]),
        Err(ExecutionReceiptError::UnknownBlock)
    );
    assert_eq!(
        pallet.validate_execution_receipts(&ctx(10), &vec![receipt(8)]),
        Err(ExecutionReceiptError::TooFarInFuture)
    );
    assert_eq!(pallet.validate_execution_receipts(&ctx(10), &vec![receipt(7)]), Ok(()));
    assert_eq!(
        pallet.validate_execution_receipts(&ctx(10), &vec![receipt(6), receipt(9)]),
        Err(ExecutionReceiptError::TooFarInFuture)
    );
    assert_eq!(
        pallet.validate_execution_receipts(&ctx(10), &vec![receipt(6), receipt(7), receipt(9)]),
        Ok(())
    );
    assert_eq!(
        pallet.validate_execution_receipts(&ctx(10), &vec![receipt(6), receipt(7), receipt(8)]),
        Ok(())
    );
}

#[test]
fn fraud_rollback() {
    let mut pallet = chain_with_head(5, 9, 7);
    for n in 3..=7 {
        assert_eq!(pallet.receipt(&receipt(n).hash()), Some(&receipt(n)));
    }
    assert_eq!(pallet.receipt(&receipt(2).hash()), None);
    let proof = FraudProof { parent_number: 4, parent_hash: block(4), proof_hash: h(0xf0) };
    assert_eq!(pallet.validate_fraud_proof(&proof), Ok(()));
    let event = pallet.submit_fraud_proof(Origin::Unsigned, &proof).unwrap();
    assert_eq!(event, Event::FraudProofProcessed);
    for n in 5..=7 {
        assert_eq!(pallet.receipt(&receipt(n).hash()), None);
        assert_eq!(pallet.receipt_votes(&block(n), &receipt(n).hash()), 0);
        assert!(!pallet.has_votes_under(&block(n)));
        assert!(pallet.has_block_hash(n));
        assert_eq!(pallet.block_hash(n), block(n));
    }
    for n in 3..=4 {
        assert_eq!(pallet.receipt(&receipt(n).hash()), Some(&receipt(n)));
        assert_eq!(pallet.receipt_votes(&block(n), &receipt(n).hash()), 1);
    }
    assert_eq!(pallet.receipt_head(), (block(4), 4));
}

#[test]
fn fraud_rollback_twice_is_rollback_once() {
    let mut once = chain_with_head(5, 9, 7);
    let mut twice = chain_with_head(5, 9, 7);
    let proof = FraudProof { parent_number: 4, parent_hash: block(4), proof_hash: h(0xf0) };
    once.submit_fraud_proof(Origin::Unsigned, &proof).unwrap();
    twice.submit_fraud_proof(Origin::Unsigned, &proof).unwrap();
    twice.submit_fraud_proof(Origin::Unsigned, &proof).unwrap();
    assert_eq!(once.receipt_head(), twice.receipt_head());
    for n in 0..=9u32 {
        assert_eq!(once.receipt(&receipt(n).hash()), twice.receipt(&receipt(n).hash()));
        assert_eq!(once.has_votes_under(&block(n)), twice.has_votes_under(&block(n)));
        assert_eq!(once.has_block_hash(n), twice.has_block_hash(n));
    }
}

#[test]
fn commit_then_rollback_restores_the_state() {
    let before = chain_with_head(10, 9, 3);
    let mut after = chain_with_head(10, 9, 3);
    after.submit_transaction_bundle(Origin::Unsigned, &bundle_of(vec![receipt(4), receipt(5), receipt(6)])).unwrap();
    assert_eq!(after.receipt_head(), (block(6), 6));
    after.submit_fraud_proof(Origin::Unsigned, &FraudProof { parent_number: 3, parent_hash: block(3), proof_hash: h(1) }).unwrap();
    assert_eq!(after.receipt_head(), before.receipt_head());
    for n in 0..=9u32 {
        assert_eq!(after.receipt(&receipt(n).hash()), before.receipt(&receipt(n).hash()));
        assert_eq!(
            after.receipt_votes(&block(n), &receipt(n).hash()),
            before.receipt_votes(&block(n), &receipt(n).hash())
        );
        assert_eq!(after.has_block_hash(n), before.has_block_hash(n));
        assert_eq!(after.block_hash(n), before.block_hash(n));
    }
    assert_eq!(after.executor(), before.executor());
}

#[test]
fn pruning() {
    let mut pallet = chain(3, 7);
    for n in 1..=5u32 {
        let event = pallet.apply_execution_receipt(&receipt(n));
        assert_eq!(event, Event::NewExecutionReceipt { primary_number: n, primary_hash: block(n) });
    }
    for n in 3..=5 {
        assert_eq!(pallet.receipt(&receipt(n).hash()), Some(&receipt(n)));
    }
    assert!(!pallet.has_block_hash(1));
    assert!(!pallet.has_block_hash(0));
    assert!(!pallet.has_block_hash(2));
    assert!(pallet.has_block_hash(3));
    assert_eq!(pallet.receipt(&receipt(2).hash()), None);
    assert_eq!(pallet.receipt(&receipt(1).hash()), None);
    assert_eq!(pallet.receipt(&ExecutionReceipt::genesis(block(0)).hash()), None);
    assert!(!pallet.has_votes_under(&block(1)));
    assert!(!pallet.has_votes_under(&block(2)));
    assert_eq!(pallet.block_hash(1), H256::zero());
    assert_eq!(pallet.finalized_receipt_number(), 2);
    assert_eq!(pallet.oldest_receipt_number(), 3);
    assert_eq!(pallet.best_execution_chain_number(), 5);
}

#[test]
fn receipts_stay_within_the_window() {
    let mut pallet = chain(3, 12);
    for n in 1..=10u32 {
        pallet.apply_execution_receipt(&receipt(n));
        let mut live = 0;
        if pallet.receipt(&ExecutionReceipt::genesis(block(0)).hash()).is_some() {
            live += 1;
            assert!(n < 3);
        }
        for m in 1..=10u32 {
            if pallet.receipt(&receipt(m).hash()).is_some() {
                live += 1;
                assert!(m <= n && m + 3 > n);
            }
        }
        assert!(live <= 4);
        assert_eq!(pallet.live_receipts(), live);
        assert_eq!(pallet.live_receipts(), if n < 3 { n as usize + 1 } else { 3 });
    }
    pallet.submit_fraud_proof(Origin::Unsigned, &FraudProof { parent_number: 8, parent_hash: block(8), proof_hash: h(1) })
        .unwrap();
    assert_eq!(pallet.live_receipts(), 1);
    let zero_depth = chain_with_head(0, 6, 4);
    assert_eq!(zero_depth.live_receipts(), 0);
}

#[test]
fn duplicate_receipt_vote() {
    let mut pallet = chain_with_head(3, 5, 3);
    let id = receipt(3).hash();
    assert_eq!(pallet.receipt_votes(&block(3), &id), 1);
    pallet.apply_execution_receipt(&receipt(3));
    assert_eq!(pallet.receipt_votes(&block(3), &id), 2);
    assert_eq!(pallet.receipt(&id), Some(&receipt(3)));
    assert_eq!(pallet.receipt(&receipt(2).hash()), Some(&receipt(2)));
    assert_eq!(pallet.receipt(&receipt(1).hash()), Some(&receipt(1)));
    assert_eq!(pallet.receipt_head(), (block(3), 3));
}

#[test]
fn head_never_goes_back_over_admitted_bundles() {
    let mut pallet = chain(3, 9);
    let mut last = pallet.best_execution_chain_number();
    let bundles = vec![
        bundle_of(vec![receipt(1)]),
        bundle_of(vec![receipt(2), receipt(3)]),
        bundle_of(vec![receipt(3)]),
        bundle_of(vec![receipt(5)]),
        bundle_of(vec![receipt(4), receipt(5), receipt(6)]),
    ];
    for bundle in bundles.iter() {
        if pallet.pre_dispatch_transaction_bundle(bundle).is_ok() {
            pallet.submit_transaction_bundle(Origin::Unsigned, bundle).unwrap();
        }
        assert!(pallet.best_execution_chain_number() >= last);
        last = pallet.best_execution_chain_number();
    }
    assert_eq!(last, 6);
}

#[test]
fn pre_dispatch_classifies_gaps() {
    let pallet = chain_with_head(3, 9, 5);
    let stale = TransactionValidityError::Invalid(InvalidTransaction::Stale);
    let future = TransactionValidityError::Invalid(InvalidTransaction::Future);
    assert_eq!(pallet.pre_dispatch_transaction_bundle(&bundle_of(vec![receipt(6)])), Ok(()));
    assert_eq!(pallet.pre_dispatch_transaction_bundle(&bundle_of(vec![receipt(6), receipt(7)])), Ok(()));
    assert_eq!(pallet.pre_dispatch_transaction_bundle(&bundle_of(vec![receipt(7)])), Err(future));
    assert_eq!(pallet.pre_dispatch_transaction_bundle(&bundle_of(vec![receipt(6), receipt(8)])), Err(future));
    assert_eq!(pallet.pre_dispatch_transaction_bundle(&bundle_of(vec![receipt(6), receipt(6)])), Err(stale));
    assert_eq!(pallet.pre_dispatch_transaction_bundle(&bundle_of(vec![receipt(3)])), Err(stale));
    assert_eq!(
        pallet.pre_dispatch_transaction_bundle(&bundle_of(vec![])),
        Err(invalid(InvalidTransactionCode::ExecutionReceipt))
    );
    let call = Call::SubmitTransactionBundle { signed_opaque_bundle: bundle_of(vec![receipt(7)]) };
    assert_eq!(pallet.pre_dispatch(&call), Err(future));
    let proof = FraudProof { parent_number: 90, parent_hash: h(1), proof_hash: h(2) };
    assert_eq!(pallet.pre_dispatch(&Call::SubmitFraudProof { fraud_proof: proof }), Ok(()));
}

#[test]
fn pre_dispatch_needs_the_parent_receipt() {
    let mut pallet = chain_with_head(3, 9, 5);
    pallet.submit_fraud_proof(Origin::Unsigned, &FraudProof { parent_number: 1, parent_hash: block(1), proof_hash: h(2) }).unwrap();
    assert_eq!(pallet.receipt_head(), (H256::zero(), 1));
    assert_eq!(
        pallet.pre_dispatch_transaction_bundle(&bundle_of(vec![receipt(2)])),
        Err(invalid(InvalidTransactionCode::ExecutionReceipt))
    );
}

#[test]
fn receipt_sequence_errors() {
    let pallet = chain_with_head(3, 9, 5);
    assert_eq!(
        pallet.validate_execution_receipts(&ctx(9), &vec![]),
        Err(ExecutionReceiptError::Empty)
    );
    assert_eq!(
        pallet.validate_execution_receipts(&ctx(9), &vec![receipt(7), receipt(6)]),
        Err(ExecutionReceiptError::Unsorted)
    );
    assert_eq!(
        pallet.validate_execution_receipts(&ctx(9), &vec![receipt(4), receipt(6)]),
        Err(ExecutionReceiptError::Pruned)
    );
    let mut unknown = receipt(6);
    unknown.primary_hash = h(0x99);
    assert_eq!(
        pallet.validate_execution_receipts(&ctx(9), &vec![unknown]),
        Err(ExecutionReceiptError::UnknownBlock)
    );
    assert_eq!(
        pallet.validate_execution_receipts(&ctx(9), &vec![receipt(6), receipt(9)]),
        Err(ExecutionReceiptError::UnknownBlock)
    );
    assert_eq!(pallet.validate_execution_receipts(&ctx(9), &vec![receipt(5), receipt(5)]), Ok(()));
}

#[test]
fn empty_sequence_passes_at_the_first_block() {
    let pallet = chain(3, 1);
    assert_eq!(pallet.validate_execution_receipts(&ctx(1), &vec![]), Ok(()));
}

#[test]
fn parent_block_exemption() {
    let pallet = chain_with_head(3, 6, 5);
    assert!(!pallet.has_block_hash(6));
    let context = ChainContext { current_block_number: 7, parent_hash: block(6) };
    assert_eq!(pallet.validate_execution_receipts(&context, &vec![receipt(6)]), Ok(()));
    let other = ChainContext { current_block_number: 7, parent_hash: h(0x77) };
    assert_eq!(
        pallet.validate_execution_receipts(&other, &vec![receipt(6)]),
        Err(ExecutionReceiptError::UnknownBlock)
    );
}

#[test]
fn election_errors_in_order() {
    let mut proof = good_election();
    assert_eq!(validate_bundle_election(&signer(), &proof), Ok(()));
    proof.election_solution = 6;
    assert_eq!(validate_bundle_election(&signer(), &proof), Err(BundleError::InvalidElectionSolution));
    assert_eq!(validate_bundle_election(&h(0x42), &proof), Err(BundleError::AuthorityNotFound));
    proof.election_params = None;
    assert_eq!(validate_bundle_election(&signer(), &proof), Err(BundleError::BadStorageProof));
    proof.vrf_proof_valid = false;
    assert_eq!(validate_bundle_election(&signer(), &proof), Err(BundleError::BadVrfProof));
}

#[test]
fn stake_weight_is_that_of_the_first_match() {
    let authorities = vec![(h(1), 10u128), (h(2), 20u128), (h(1), 30u128)];
    assert_eq!(stake_weight_of(&authorities, &h(1)), Some(10));
    assert_eq!(stake_weight_of(&authorities, &h(2)), Some(20));
    assert_eq!(stake_weight_of(&authorities, &h(3)), None);
}

#[test]
fn bundle_errors_in_order() {
    let pallet = chain_with_head(3, 9, 5);
    let mut bundle = bundle_of(vec![receipt(4)]);
    assert_eq!(
        pallet.validate_bundle(&ctx(9), &bundle),
        Err(BundleError::Receipt(ExecutionReceiptError::Pruned))
    );
    bundle.proof_of_election.vrf_proof_valid = false;
    assert_eq!(pallet.validate_bundle(&ctx(9), &bundle), Err(BundleError::BadVrfProof));
    bundle.signature_valid = false;
    assert_eq!(pallet.validate_bundle(&ctx(9), &bundle), Err(BundleError::BadSignature));
    assert_eq!(
        pallet.validate_unsigned(&ctx(9), &Call::SubmitTransactionBundle { signed_opaque_bundle: bundle }),
        Err(invalid(InvalidTransactionCode::Bundle))
    );
}

#[test]
fn fraud_proof_errors() {
    let pallet = chain_with_head(3, 9, 7);
    let proof = |n: u32, hash: H256| FraudProof { parent_number: n, parent_hash: hash, proof_hash: h(9) };
    assert_eq!(pallet.validate_fraud_proof(&proof(3, block(3))), Err(FraudProofError::ExecutionReceiptPruned));
    assert_eq!(pallet.validate_fraud_proof(&proof(7, block(7))), Err(FraudProofError::ExecutionReceiptInFuture));
    assert_eq!(
        pallet.validate_fraud_proof(&proof(u32::MAX, block(7))),
        Err(FraudProofError::ExecutionReceiptInFuture)
    );
    assert_eq!(pallet.validate_fraud_proof(&proof(5, h(0x31))), Err(FraudProofError::UnknownBlock));
    assert_eq!(pallet.validate_fraud_proof(&proof(4, block(4))), Err(FraudProofError::UnknownBlock));
    assert_eq!(pallet.validate_fraud_proof(&proof(5, block(5))), Ok(()));
    assert_eq!(pallet.validate_fraud_proof(&proof(6, block(6))), Ok(()));
    assert_eq!(
        pallet.validate_unsigned(&ctx(9), &Call::SubmitFraudProof { fraud_proof: proof(3, block(3)) }),
        Err(invalid(InvalidTransactionCode::FraudProof))
    );
}

#[test]
fn bootstrap_bundle_has_greatest_priority_and_requires_nothing() {
    let pallet = chain(3, 1);
    let call = Call::SubmitTransactionBundle { signed_opaque_bundle: bundle_of(vec![]) };
    let v = pallet.validate_unsigned(&ctx(1), &call).unwrap();
    assert_eq!(v.priority, u64::MAX);
    assert!(v.requires.is_empty());
    assert!(v.provides.is_empty());
    assert_eq!(v.longevity, 100);
    assert!(v.propagate);
    assert_eq!(v.tag_prefix, TagPrefix::SubmitBundle);

    let replay = Call::SubmitTransactionBundle {
        signed_opaque_bundle: bundle_of(vec![ExecutionReceipt::genesis(block(0))]),
    };
    let v = pallet.validate_unsigned(&ctx(1), &replay).unwrap();
    assert_eq!(v.priority, u64::MAX);
    assert!(v.requires.is_empty());
    assert_eq!(v.provides, vec![Tag::BlockNumber(0)]);
}

#[test]
fn head_extension_requires_nothing() {
    let pallet = chain_with_head(3, 9, 5);
    let call = Call::SubmitTransactionBundle { signed_opaque_bundle: bundle_of(vec![receipt(6), receipt(7)]) };
    let v = pallet.validate_unsigned(&ctx(9), &call).unwrap();
    assert!(v.requires.is_empty());
    assert_eq!(v.provides, vec![Tag::BlockNumber(6), Tag::BlockNumber(7)]);
    assert_eq!(v.priority, u64::MAX / 2 + 13);
    assert_eq!(v.longevity, 100);
    assert!(v.propagate);
    assert_eq!(v.tag_prefix.as_str(), "SubspaceSubmitBundle");
}

#[test]
fn bundle_above_the_head_requires_its_predecessor() {
    let pallet = chain_with_head(3, 9, 5);
    let call = Call::SubmitTransactionBundle { signed_opaque_bundle: bundle_of(vec![receipt(7)]) };
    let v = pallet.validate_unsigned(&ctx(9), &call).unwrap();
    assert_eq!(v.requires, vec![Tag::BlockNumber(6)]);
    assert_eq!(v.provides, vec![Tag::BlockNumber(7)]);
    assert_eq!(v.priority, u64::MAX / 2 + 7);

    let replay = Call::SubmitTransactionBundle { signed_opaque_bundle: bundle_of(vec![receipt(5)]) };
    let v = pallet.validate_unsigned(&ctx(9), &replay).unwrap();
    assert_eq!(v.requires, vec![Tag::BlockNumber(4)]);
}

#[test]
fn replay_at_height_zero_requires_nothing() {
    let pallet = chain(3, 3);
    let call = Call::SubmitTransactionBundle {
        signed_opaque_bundle: bundle_of(vec![ExecutionReceipt::genesis(block(0))]),
    };
    let v = pallet.validate_unsigned(&ctx(3), &call).unwrap();
    assert!(v.requires.is_empty());
    assert_eq!(v.priority, u64::MAX / 2);
}

#[test]
fn priority_is_half_the_maximum_plus_the_sum() {
    assert_eq!(priority_of(&vec![]), u64::MAX / 2);
    assert_eq!(priority_of(&vec![receipt(1), receipt(2), receipt(3)]), u64::MAX / 2 + 6);
    assert_eq!(priority_of(&vec![receipt(u32::MAX)]), u64::MAX / 2 + 4294967295);
}

#[test]
fn proofs_get_the_greatest_priority_and_longevity() {
    let pallet = chain_with_head(3, 9, 7);
    let fraud = FraudProof { parent_number: 5, parent_hash: block(5), proof_hash: h(0xf1) };
    let v = pallet.validate_unsigned(&ctx(9), &Call::SubmitFraudProof { fraud_proof: fraud }).unwrap();
    assert_eq!(v, unsigned_validity(TagPrefix::SubmitFraudProof, Tag::Proof(h(0xf1))));
    assert_eq!(v.priority, u64::MAX);
    assert_eq!(v.longevity, u64::MAX);
    assert_eq!(v.provides, vec![Tag::Proof(h(0xf1))]);
    assert!(v.requires.is_empty());
    assert!(v.propagate);
    assert_eq!(v.tag_prefix.as_str(), "SubspaceSubmitFraudProof");

    let equivocation = BundleEquivocationProof { proof_hash: h(0xf2) };
    assert!(pallet.validate_bundle_equivocation_proof(&equivocation).is_ok());
    let v = pallet
        .validate_unsigned(&ctx(9), &Call::SubmitBundleEquivocationProof { bundle_equivocation_proof: equivocation })
        .unwrap();
    assert_eq!(v.provides, vec![Tag::Proof(h(0xf2))]);
    assert_eq!(v.tag_prefix.as_str(), "SubspaceSubmitBundleEquivocationProof");

    let invalid_tx = InvalidTransactionProof { proof_hash: h(0xf3) };
    assert!(pallet.validate_invalid_transaction_proof(&invalid_tx).is_ok());
    let v = pallet
        .validate_unsigned(&ctx(9), &Call::SubmitInvalidTransactionProof { invalid_transaction_proof: invalid_tx })
        .unwrap();
    assert_eq!(v.provides, vec![Tag::Proof(h(0xf3))]);
    assert_eq!(v.tag_prefix.as_str(), "SubspaceSubmitInvalidTransactionProof");
}

#[test]
fn proof_dispatch_leaves_the_state() {
    let mut pallet = chain_with_head(3, 9, 5);
    let equivocation = BundleEquivocationProof { proof_hash: h(1) };
    let invalid_tx = InvalidTransactionProof { proof_hash: h(1) };
    assert_eq!(
        pallet.submit_bundle_equivocation_proof(Origin::Unsigned, &equivocation),
        Ok(Event::BundleEquivocationProofProcessed)
    );
    assert_eq!(
        pallet.submit_invalid_transaction_proof(Origin::Unsigned, &invalid_tx),
        Ok(Event::InvalidTransactionProofProcessed)
    );
    assert_eq!(
        pallet.submit_bundle_equivocation_proof(Origin::Unsigned, &equivocation),
        Ok(Event::BundleEquivocationProofProcessed)
    );
    assert_eq!(pallet.receipt_head(), (block(5), 5));
    assert_eq!(pallet.receipt(&receipt(5).hash()), Some(&receipt(5)));
}

#[test]
fn dispatch_refuses_a_signer() {
    let mut pallet = chain_with_head(5, 9, 5);
    let bundle = bundle_of(vec![receipt(6)]);
    let fraud = FraudProof { parent_number: 3, parent_hash: block(3), proof_hash: h(1) };
    for origin in [Origin::Root, Origin::Signed(h(0x11))] {
        assert_eq!(pallet.submit_transaction_bundle(origin, &bundle), Err(DispatchError::BadOrigin));
        assert_eq!(pallet.submit_fraud_proof(origin, &fraud), Err(DispatchError::BadOrigin));
        assert_eq!(
            pallet.submit_bundle_equivocation_proof(origin, &BundleEquivocationProof { proof_hash: h(1) }),
            Err(DispatchError::BadOrigin)
        );
        assert_eq!(
            pallet.submit_invalid_transaction_proof(origin, &InvalidTransactionProof { proof_hash: h(1) }),
            Err(DispatchError::BadOrigin)
        );
        assert_eq!(pallet.receipt_head(), (block(5), 5));
        assert_eq!(pallet.receipt(&receipt(6).hash()), None);
        assert_eq!(pallet.receipt(&receipt(5).hash()), Some(&receipt(5)));
    }
    assert!(Origin::Unsigned.is_unsigned());
    assert!(!Origin::Root.is_unsigned());
}

#[test]
fn inclusion_checks_then_dispatches() {
    let mut pallet = chain_with_head(5, 9, 5);
    let stale = Call::SubmitTransactionBundle { signed_opaque_bundle: bundle_of(vec![receipt(5)]) };
    assert_eq!(
        pallet.apply_unsigned(&stale),
        Err(TransactionValidityError::Invalid(InvalidTransaction::Stale))
    );
    assert_eq!(pallet.receipt_head(), (block(5), 5));
    assert_eq!(pallet.receipt_votes(&block(5), &receipt(5).hash()), 1);

    let next = Call::SubmitTransactionBundle { signed_opaque_bundle: bundle_of(vec![receipt(6), receipt(7)]) };
    assert_eq!(
        pallet.apply_unsigned(&next),
        Ok(vec![
            Event::NewExecutionReceipt { primary_number: 6, primary_hash: block(6) },
            Event::NewExecutionReceipt { primary_number: 7, primary_hash: block(7) },
            Event::TransactionBundleStored { bundle_hash: h(0xbb) },
        ])
    );
    assert_eq!(pallet.receipt_head(), (block(7), 7));

    let fraud = FraudProof { parent_number: 5, parent_hash: block(5), proof_hash: h(1) };
    assert_eq!(
        pallet.apply_unsigned(&Call::SubmitFraudProof { fraud_proof: fraud }),
        Ok(vec![Event::FraudProofProcessed])
    );
    assert_eq!(pallet.receipt_head(), (block(5), 5));
    assert_eq!(pallet.receipt(&receipt(6).hash()), None);
    assert_eq!(
        pallet.apply_unsigned(&Call::SubmitBundleEquivocationProof {
            bundle_equivocation_proof: BundleEquivocationProof { proof_hash: h(2) }
        }),
        Ok(vec![Event::BundleEquivocationProofProcessed])
    );
    assert_eq!(
        pallet.apply_unsigned(&Call::SubmitInvalidTransactionProof {
            invalid_transaction_proof: InvalidTransactionProof { proof_hash: h(3) }
        }),
        Ok(vec![Event::InvalidTransactionProofProcessed])
    );
}

#[test]
fn rollback_above_the_head_only_moves_the_head() {
    let mut pallet = chain_with_head(5, 9, 3);
    pallet.submit_fraud_proof(Origin::Unsigned, &FraudProof { parent_number: 6, parent_hash: block(6), proof_hash: h(1) }).unwrap();
    assert_eq!(pallet.receipt_head(), (block(6), 6));
    for n in 1..=3 {
        assert_eq!(pallet.receipt(&receipt(n).hash()), Some(&receipt(n)));
    }
}

#[test]
fn hash_encoding_round_trip() {
    let encoded = block(9).encode();
    assert_eq!(encoded, block(9).bytes.to_vec());
    assert_eq!(H256::decode(&encoded), Some(block(9)));
    assert_eq!(H256::decode(&vec![7u8; 31]), None);
    assert_eq!(H256::decode(&vec![]), None);
    let mut longer = block(3).bytes.to_vec();
    longer.push(0xff);
    assert_eq!(H256::decode(&longer), Some(block(3)));
    let mut ramp = vec![0u8; 32];
    for i in 0..32 {
        ramp[i] = i as u8;
    }
    let decoded = H256::decode(&ramp).unwrap();
    assert_eq!(decoded.bytes.to_vec(), ramp);
    assert_eq!(decoded.encode(), ramp);
}

#[test]
fn unsigned_calls_carry_their_argument() {
    let fraud = FraudProof { parent_number: 5, parent_hash: block(5), proof_hash: h(1) };
    assert_eq!(Pallet::submit_fraud_proof_unsigned(fraud), Call::SubmitFraudProof { fraud_proof: fraud });
    assert_eq!(
        Pallet::submit_transaction_bundle_unsigned(bundle_of(vec![receipt(1)])),
        Call::SubmitTransactionBundle { signed_opaque_bundle: bundle_of(vec![receipt(1)]) }
    );
    let equivocation = BundleEquivocationProof { proof_hash: h(2) };
    assert_eq!(
        Pallet::submit_bundle_equivocation_proof_unsigned(equivocation),
        Call::SubmitBundleEquivocationProof { bundle_equivocation_proof: equivocation }
    );
    let invalid_tx = InvalidTransactionProof { proof_hash: h(3) };
    assert_eq!(
        Pallet::submit_invalid_transaction_proof_unsigned(invalid_tx),
        Call::SubmitInvalidTransactionProof { invalid_transaction_proof: invalid_tx }
    );
}

#[test]
fn errors_nest_in_their_family() {
    assert_eq!(
        Error::from_bundle_error(BundleError::Receipt(ExecutionReceiptError::Unsorted)),
        Error::Bundle(BundleError::Receipt(ExecutionReceiptError::Unsorted))
    );
    assert_eq!(Error::from_bundle_error(BundleError::BadSignature), Error::Bundle(BundleError::BadSignature));
    assert_eq!(
        Error::from_fraud_proof_error(FraudProofError::UnknownBlock),
        Error::FraudProof(FraudProofError::UnknownBlock)
    );
}

/// Every height up to `top` whose receipt of this file is stored names the
/// recorded block, and every height with a vote has its receipt stored.
fn assert_closed_and_backed(pallet: &Pallet, top: u32) {
    for n in 1..=top {
        let id = receipt(n).hash();
        if let Some(stored) = pallet.receipt(&id) {
            assert_eq!(pallet.block_hash(stored.primary_number), stored.primary_hash);
            assert!(pallet.receipt_votes(&stored.primary_hash, &id) >= 1);
        }
        if pallet.receipt_votes(&block(n), &id) > 0 {
            assert_eq!(pallet.receipt(&id), Some(&receipt(n)));
        }
        if pallet.has_votes_under(&block(n)) {
            assert!(pallet.receipt(&id).is_some());
        }
    }
}

#[test]
fn stored_receipts_name_recorded_blocks_and_back_every_vote() {
    let mut pallet = chain(3, 12);
    assert_closed_and_backed(&pallet, 12);
    for n in 1..=4u32 {
        let call = Call::SubmitTransactionBundle { signed_opaque_bundle: bundle_of(vec![receipt(n)]) };
        assert!(pallet.validate_unsigned(&ctx(12), &call).is_ok());
        assert!(pallet.apply_unsigned(&call).is_ok());
        assert_closed_and_backed(&pallet, 12);
    }
    let pair = Call::SubmitTransactionBundle { signed_opaque_bundle: bundle_of(vec![receipt(5), receipt(6)]) };
    assert!(pallet.validate_unsigned(&ctx(12), &pair).is_ok());
    assert!(pallet.apply_unsigned(&pair).is_ok());
    assert_closed_and_backed(&pallet, 12);
    let fraud = FraudProof { parent_number: 4, parent_hash: block(4), proof_hash: h(1) };
    assert!(pallet.validate_unsigned(&ctx(12), &Call::SubmitFraudProof { fraud_proof: fraud }).is_ok());
    assert!(pallet.apply_unsigned(&Call::SubmitFraudProof { fraud_proof: fraud }).is_ok());
    assert_closed_and_backed(&pallet, 12);
    assert_eq!(pallet.receipt_head(), (block(4), 4));
    assert_eq!(pallet.receipt(&receipt(4).hash()), Some(&receipt(4)));
    assert_eq!(pallet.receipt(&receipt(5).hash()), None);
}

#[test]
fn election_check_in_two_parts() {
    let proof = good_election();
    assert_eq!(election_stake_weight(&signer(), true, &proof.election_params), Ok(90));
    assert_eq!(election_stake_weight(&h(0x01), true, &proof.election_params), Ok(10));
    assert_eq!(
        election_stake_weight(&h(0x02), true, &proof.election_params),
        Err(BundleError::AuthorityNotFound)
    );
    assert_eq!(election_stake_weight(&signer(), true, &None), Err(BundleError::BadStorageProof));
    assert_eq!(
        election_stake_weight(&signer(), false, &proof.election_params),
        Err(BundleError::BadVrfProof)
    );
    assert_eq!(election_stake_weight(&signer(), false, &None), Err(BundleError::BadVrfProof));
    assert_eq!(check_election_solution(7, 7), Ok(()));
    assert_eq!(check_election_solution(0, u128::MAX), Ok(()));
    assert_eq!(check_election_solution(8, 7), Err(BundleError::InvalidElectionSolution));
    assert_eq!(check_election_solution(u128::MAX, 0), Err(BundleError::InvalidElectionSolution));
}
