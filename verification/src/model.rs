use vstd::prelude::*;
use crate::hash::H256;
use crate::receipt::{receipt_hash, ReceiptView};

verus! {

/// The authoritative storage as a mathematical value.
pub struct State {
    /// The executor installed at genesis: (account, public key).
    pub executor: Option<(H256, H256)>,
    /// Primary block number to primary block hash.
    pub block_hash: Map<u32, H256>,
    /// Receipt hash to verified receipt.
    pub receipts: Map<H256, ReceiptView>,
    /// (primary block hash, receipt hash) to the number of votes.
    pub votes: Map<(H256, H256), u32>,
    /// Primary hash of the latest acknowledged receipt.
    pub head_hash: H256,
    /// Primary number of the latest acknowledged receipt.
    pub head_number: u32,
}

/// The state before the first block: nothing stored, the head at its default.
pub open spec fn empty_state(executor: Option<(H256, H256)>) -> State {
    State {
        executor,
        block_hash: Map::empty(),
        receipts: Map::empty(),
        votes: Map::empty(),
        head_hash: H256::spec_zero(),
        head_number: 0,
    }
}

/// The hash recorded for height `n`, or the default hash where none is.
pub open spec fn block_hash_at(s: State, n: u32) -> H256 {
    if s.block_hash.contains_key(n) {
        s.block_hash[n]
    } else {
        H256::spec_zero()
    }
}

/// The receipt hashes that have a vote under the primary hash `h`.
pub open spec fn voted_under(votes: Map<(H256, H256), u32>, h: H256) -> Set<H256> {
    Set::new(|r: H256| votes.contains_key((h, r)))
}

/// Some receipt hash has a vote under the primary hash `h`.
pub open spec fn any_vote_under(votes: Map<(H256, H256), u32>, h: H256) -> bool {
    exists|r: H256| votes.contains_key((h, r))
}

/// All vote keys under the primary hash `h`.
pub open spec fn prefix_keys(h: H256) -> Set<(H256, H256)> {
    Set::new(|k: (H256, H256)| k.0 == h)
}

/// The number of votes of a receipt hash under a primary hash; 0 where none.
pub open spec fn vote_count(s: State, h: H256, r: H256) -> u32 {
    if s.votes.contains_key((h, r)) {
        s.votes[(h, r)]
    } else {
        0
    }
}

/// A vote tally after one more vote; it stays at the largest value once there.
pub open spec fn one_more(count: u32) -> u32 {
    if count < u32::MAX {
        (count + 1) as u32
    } else {
        count
    }
}

/// Removes every receipt voted under `h` and clears the votes under `h`.
pub open spec fn drain(s: State, h: H256) -> State {
    State {
        receipts: s.receipts.remove_keys(voted_under(s.votes, h)),
        votes: s.votes.remove_keys(prefix_keys(h)),
        ..s
    }
}

/// Stores the receipt, moves the head to it and counts one vote for it.
pub open spec fn record(s: State, r: ReceiptView) -> State {
    let id = receipt_hash(r);
    State {
        receipts: s.receipts.insert(id, r),
        votes: s.votes.insert((r.primary_hash, id), one_more(vote_count(s, r.primary_hash, id))),
        head_hash: r.primary_hash,
        head_number: r.primary_number,
        ..s
    }
}

/// The height that committing a receipt at height `n` prunes, if any.
pub open spec fn prune_target(n: u32, depth: u32) -> Option<u32> {
    if n >= depth {
        Some((n - depth) as u32)
    } else {
        None
    }
}

/// Deletes the block-hash row of height `p` and drains what was voted under
/// that hash; nothing where no row is recorded for `p`.
pub open spec fn prune(s: State, p: u32) -> State {
    if s.block_hash.contains_key(p) {
        drain(State { block_hash: s.block_hash.remove(p), ..s }, s.block_hash[p])
    } else {
        s
    }
}

/// Commit of one receipt: record it, then prune the height that falls out of
/// the window of `depth` heights.
pub open spec fn commit(s: State, r: ReceiptView, depth: u32) -> State {
    match prune_target(r.primary_number, depth) {
        Some(p) => prune(record(s, r), p),
        None => record(s, r),
    }
}

/// Commit of a sequence of receipts, in order.
pub open spec fn commit_all(s: State, rs: Seq<ReceiptView>, depth: u32) -> State
    decreases rs.len(),
{
    if rs.len() == 0 {
        s
    } else {
        commit(commit_all(s, rs.drop_last(), depth), rs.last(), depth)
    }
}

/// Drains the heights `n, n - 1, ..., floor + 1`, in that order.
pub open spec fn drain_down_to(s: State, n: u32, floor: u32) -> State
    decreases n,
{
    if n > floor {
        drain_down_to(drain(s, block_hash_at(s, n)), (n - 1) as u32, floor)
    } else {
        s
    }
}

/// Rollback to the ancestor at `parent_number`: the head moves there, and all
/// that was voted under the hashes of the heights above it, up to the old
/// head, is removed. Block-hash rows stay.
pub open spec fn rollback(s: State, parent_number: u32) -> State {
    drain_down_to(
        State { head_hash: block_hash_at(s, parent_number), head_number: parent_number, ..s },
        s.head_number,
        parent_number,
    )
}

/// Start of the primary block `block_number >= 1`: the parent's hash is
/// recorded, and at the first block the genesis receipt is committed.
pub open spec fn initialize(s: State, block_number: u32, parent_hash: H256, depth: u32) -> State {
    let s1 = State { block_hash: s.block_hash.insert((block_number - 1) as u32, parent_hash), ..s };
    if block_number == 1 {
        commit(s1, crate::receipt::ExecutionReceipt::spec_genesis(parent_hash), depth)
    } else {
        s1
    }
}

} // verus!
