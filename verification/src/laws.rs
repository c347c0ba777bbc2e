use vstd::prelude::*;
use vstd::set_lib::{lemma_int_range, lemma_len_subset, lemma_map_size, set_int_range};
use vstd::relations::injective_on;
use crate::hash::H256;
use crate::model::{
    any_vote_under, block_hash_at, commit, commit_all, drain, drain_down_to, empty_state,
    initialize, one_more, prune_target, record, rollback, voted_under, State,
};
use crate::receipt::{receipt_hash, ExecutionReceipt, ReceiptView};
use crate::gateway::{bundle_descriptor, Tag};
use crate::types::{ChainContext, Config};
use crate::validation::{
    ancestry_known, contiguity_fault, contiguous_with_head, first_fault_at, first_gap_at,
    pre_dispatch_verdict, receipt_fault, receipts_verdict,
};

verus! {

/// Every vote is for a stored receipt of the primary block that it is filed
/// under.
pub open spec fn votes_backed(s: State) -> bool {
    forall|h: H256, r: H256| #[trigger]
        s.votes.contains_key((h, r)) ==> s.receipts.contains_key(r) && s.receipts[r].primary_hash == h
}

/// Every stored receipt has a vote under its primary block.
pub open spec fn receipts_voted(s: State) -> bool {
    forall|r: H256| #[trigger]
        s.receipts.contains_key(r) ==> s.votes.contains_key((s.receipts[r].primary_hash, r))
}

/// The content hash of `r` is free in the store, or held by a receipt of the
/// same primary block.
pub open spec fn no_collision(s: State, r: ReceiptView) -> bool {
    s.receipts.contains_key(receipt_hash(r)) ==> s.receipts[receipt_hash(r)].primary_hash
        == r.primary_hash
}

/// Every stored receipt names a block of the recorded history or the parent of
/// the current block.
pub open spec fn ancestry_closed(s: State, ctx: ChainContext) -> bool {
    forall|r: H256| #[trigger] s.receipts.contains_key(r) ==> ancestry_known(s, ctx, s.receipts[r])
}

/// A row is recorded for the receipt's height, and it holds the receipt's
/// primary hash.
pub open spec fn anchored(s: State, r: ReceiptView) -> bool {
    s.block_hash.contains_key(r.primary_number) && s.block_hash[r.primary_number] == r.primary_hash
}

/// The stored receipts lie in the window of `depth` heights that ends at the
/// head, one receipt per height at most, each anchored in the recorded history
/// and voted for.
pub open spec fn windowed(s: State, depth: u32) -> bool {
    &&& s.receipts.dom().finite()
    &&& receipts_voted(s)
    &&& forall|r: H256| #[trigger] s.receipts.contains_key(r) ==> anchored(s, s.receipts[r])
    &&& forall|r: H256| #[trigger]
        s.receipts.contains_key(r) ==> s.receipts[r].primary_number <= s.head_number
            && s.receipts[r].primary_number + depth > s.head_number
    &&& forall|a: H256, b: H256|
        s.receipts.contains_key(a) && s.receipts.contains_key(b) && (#[trigger] s.receipts[a]).primary_number
            == (#[trigger] s.receipts[b]).primary_number ==> a == b
}

/// The state with its head put elsewhere.
pub open spec fn with_head(s: State, head_hash: H256, head_number: u32) -> State {
    State { head_hash, head_number, ..s }
}

/// Draining changes neither the head, the block hashes nor the executor, and
/// only removes receipts and votes.
pub proof fn lemma_drain_down_frame(s: State, n: u32, floor: u32)
    ensures
        drain_down_to(s, n, floor).head_hash == s.head_hash,
        drain_down_to(s, n, floor).head_number == s.head_number,
        drain_down_to(s, n, floor).block_hash == s.block_hash,
        drain_down_to(s, n, floor).executor == s.executor,
        drain_down_to(s, n, floor).receipts.submap_of(s.receipts),
        drain_down_to(s, n, floor).votes.submap_of(s.votes),
    decreases n,
{
    if n > floor {
        let t = drain(s, block_hash_at(s, n));
        lemma_drain_down_frame(t, (n - 1) as u32, floor);
        let u = drain_down_to(t, (n - 1) as u32, floor);
        assert(t.receipts.submap_of(s.receipts));
        assert(t.votes.submap_of(s.votes));
        assert forall|k: H256| #[trigger] u.receipts.contains_key(k) implies s.receipts.contains_key(k)
            && u.receipts[k] == s.receipts[k] by {
            assert(t.receipts.contains_key(k));
        }
        assert forall|k: (H256, H256)| #[trigger] u.votes.contains_key(k) implies s.votes.contains_key(k)
            && u.votes[k] == s.votes[k] by {
            assert(t.votes.contains_key(k));
        }
    } else {
        assert(s.receipts.submap_of(s.receipts));
        assert(s.votes.submap_of(s.votes));
    }
}

/// Applying the same fraud proof twice is applying it once.
pub proof fn rollback_is_idempotent(s: State, parent_number: u32)
    ensures
        rollback(rollback(s, parent_number), parent_number) == rollback(s, parent_number),
{
    let start = with_head(s, block_hash_at(s, parent_number), parent_number);
    lemma_drain_down_frame(start, s.head_number, parent_number);
    let once = rollback(s, parent_number);
    assert(block_hash_at(once, parent_number) == block_hash_at(s, parent_number));
    assert(with_head(once, block_hash_at(once, parent_number), parent_number) == once);
}

/// After a sequence of commits the head is at the last receipt; with no receipt
/// it stays.
pub proof fn lemma_head_after_commits(s: State, rs: Seq<ReceiptView>, depth: u32)
    ensures
        rs.len() == 0 ==> commit_all(s, rs, depth) == s,
        rs.len() > 0 ==> commit_all(s, rs, depth).head_number == rs.last().primary_number
            && commit_all(s, rs, depth).head_hash == rs.last().primary_hash,
{
}

/// Where some receipt breaks contiguity, there is a first one that does.
pub proof fn lemma_first_gap_exists(s: State, rs: Seq<ReceiptView>, i: int)
    requires
        0 <= i < rs.len(),
        contiguity_fault(s, rs, i).is_some(),
    ensures
        exists|k: int| first_gap_at(s, rs, k),
    decreases i,
{
    if forall|j: int| 0 <= j < i ==> (#[trigger] contiguity_fault(s, rs, j)).is_none() {
        assert(first_gap_at(s, rs, i));
    } else {
        let j = choose|j: int| 0 <= j < i && !(#[trigger] contiguity_fault(s, rs, j)).is_none();
        lemma_first_gap_exists(s, rs, j);
    }
}

/// A bundle that passes the check before dispatch extends the head receipt by
/// receipt.
pub proof fn lemma_admitted_is_contiguous(s: State, rs: Seq<ReceiptView>)
    requires
        pre_dispatch_verdict(s, rs).is_ok(),
    ensures
        rs.len() > 0,
        contiguous_with_head(s, rs),
{
    assert forall|i: int| 0 <= i < rs.len() implies (#[trigger] rs[i]).primary_number == s.head_number + i
        + 1 by {
        if contiguity_fault(s, rs, i).is_some() {
            lemma_first_gap_exists(s, rs, i);
        }
    }
}

/// Head monotonicity: the dispatch of a bundle that passed the check before
/// dispatch moves the head up by the number of its receipts, never down.
pub proof fn admission_never_lowers_the_head(s: State, rs: Seq<ReceiptView>, depth: u32)
    requires
        pre_dispatch_verdict(s, rs).is_ok(),
    ensures
        commit_all(s, rs, depth).head_number == s.head_number + rs.len(),
        commit_all(s, rs, depth).head_number >= s.head_number,
{
    lemma_admitted_is_contiguous(s, rs);
    lemma_head_after_commits(s, rs, depth);
    assert(rs.last() == rs[rs.len() - 1]);
}

/// Draining keeps every vote backed and every receipt voted.
pub proof fn lemma_drain_keeps_votes(s: State, h: H256)
    ensures
        votes_backed(s) ==> votes_backed(drain(s, h)),
        receipts_voted(s) ==> receipts_voted(drain(s, h)),
{
    let t = drain(s, h);
    if votes_backed(s) {
        assert forall|g: H256, r: H256| #[trigger] t.votes.contains_key((g, r)) implies t.receipts.contains_key(r)
            && t.receipts[r].primary_hash == g by {
            assert(s.votes.contains_key((g, r)));
            assert(g != h);
            if s.votes.contains_key((h, r)) {
                assert(s.receipts[r].primary_hash == h);
            }
        }
    }
    if receipts_voted(s) {
        assert forall|r: H256| #[trigger] t.receipts.contains_key(r) implies t.votes.contains_key(
            (t.receipts[r].primary_hash, r),
        ) by {
            assert(s.receipts.contains_key(r));
            assert(s.votes.contains_key((s.receipts[r].primary_hash, r)));
            assert(!s.votes.contains_key((h, r)));
        }
    }
}

/// Recording a receipt keeps every vote backed, where its content hash does not
/// collide, and every receipt voted.
pub proof fn lemma_record_keeps_votes(s: State, r: ReceiptView)
    ensures
        votes_backed(s) && no_collision(s, r) ==> votes_backed(record(s, r)),
        receipts_voted(s) ==> receipts_voted(record(s, r)),
{
    let t = record(s, r);
    let id = receipt_hash(r);
    if votes_backed(s) && no_collision(s, r) {
        assert forall|g: H256, x: H256| #[trigger] t.votes.contains_key((g, x)) implies t.receipts.contains_key(x)
            && t.receipts[x].primary_hash == g by {
            if (g, x) != (r.primary_hash, id) {
                assert(s.votes.contains_key((g, x)));
            }
        }
    }
    if receipts_voted(s) {
        assert forall|x: H256| #[trigger] t.receipts.contains_key(x) implies t.votes.contains_key(
            (t.receipts[x].primary_hash, x),
        ) by {
            if x != id {
                assert(s.receipts.contains_key(x));
                assert(s.votes.contains_key((s.receipts[x].primary_hash, x)));
            }
        }
    }
}

/// Vote integrity is kept by a commit: where every vote is backed by a stored
/// receipt and the new receipt's content hash does not collide, every vote is
/// backed afterwards.
pub proof fn commit_keeps_votes_backed(s: State, r: ReceiptView, depth: u32)
    requires
        votes_backed(s),
        no_collision(s, r),
    ensures
        votes_backed(commit(s, r, depth)),
        receipts_voted(s) ==> receipts_voted(commit(s, r, depth)),
{
    lemma_record_keeps_votes(s, r);
    let t = record(s, r);
    match prune_target(r.primary_number, depth) {
        Some(p) => {
            if t.block_hash.contains_key(p) {
                let u = State { block_hash: t.block_hash.remove(p), ..t };
                assert(votes_backed(u));
                assert(receipts_voted(t) ==> receipts_voted(u));
                lemma_drain_keeps_votes(u, t.block_hash[p]);
            }
        },
        None => {},
    }
}

/// Draining a run of heights keeps every vote backed and every receipt voted.
pub proof fn lemma_drain_down_keeps_votes(s: State, n: u32, floor: u32)
    ensures
        votes_backed(s) ==> votes_backed(drain_down_to(s, n, floor)),
        receipts_voted(s) ==> receipts_voted(drain_down_to(s, n, floor)),
    decreases n,
{
    if n > floor {
        lemma_drain_keeps_votes(s, block_hash_at(s, n));
        lemma_drain_down_keeps_votes(drain(s, block_hash_at(s, n)), (n - 1) as u32, floor);
    }
}

/// Vote integrity is kept by a rollback.
pub proof fn rollback_keeps_votes_backed(s: State, parent_number: u32)
    requires
        votes_backed(s),
    ensures
        votes_backed(rollback(s, parent_number)),
        receipts_voted(s) ==> receipts_voted(rollback(s, parent_number)),
{
    let start = with_head(s, block_hash_at(s, parent_number), parent_number);
    assert(votes_backed(start));
    assert(receipts_voted(s) ==> receipts_voted(start));
    lemma_drain_down_keeps_votes(start, s.head_number, parent_number);
}

/// Vote integrity holds of the empty store.
pub proof fn empty_store_has_votes_backed(executor: Option<(H256, H256)>)
    ensures
        votes_backed(empty_state(executor)),
        receipts_voted(empty_state(executor)),
{
}

/// Vote integrity is kept by the start of a block.
pub proof fn initialize_keeps_votes_backed(s: State, block_number: u32, parent_hash: H256, depth: u32)
    requires
        block_number >= 1,
        votes_backed(s),
        no_collision(s, ExecutionReceipt::spec_genesis(parent_hash)),
    ensures
        votes_backed(initialize(s, block_number, parent_hash, depth)),
{
    let t = State { block_hash: s.block_hash.insert((block_number - 1) as u32, parent_hash), ..s };
    assert(votes_backed(t));
    if block_number == 1 {
        commit_keeps_votes_backed(t, ExecutionReceipt::spec_genesis(parent_hash), depth);
    }
}

/// Ancestry closure is kept by a commit: where every stored receipt names a
/// known block and has its vote, and the new receipt names a known block, every
/// stored receipt names a known block afterwards.
pub proof fn commit_keeps_ancestry_closed(s: State, r: ReceiptView, depth: u32, ctx: ChainContext)
    requires
        ancestry_closed(s, ctx),
        receipts_voted(s),
        ancestry_known(s, ctx, r),
    ensures
        ancestry_closed(commit(s, r, depth), ctx),
        receipts_voted(commit(s, r, depth)),
{
    lemma_record_keeps_votes(s, r);
    let t = record(s, r);
    assert forall|x: H256| #[trigger] t.receipts.contains_key(x) implies ancestry_known(t, ctx, t.receipts[x]) by {
        if x != receipt_hash(r) {
            assert(s.receipts.contains_key(x));
        }
    }
    match prune_target(r.primary_number, depth) {
        Some(p) => {
            if t.block_hash.contains_key(p) {
                let h = t.block_hash[p];
                let u = State { block_hash: t.block_hash.remove(p), ..t };
                let v = drain(u, h);
                assert(receipts_voted(u));
                lemma_drain_keeps_votes(u, h);
                assert forall|x: H256| #[trigger] v.receipts.contains_key(x) implies ancestry_known(
                    v,
                    ctx,
                    v.receipts[x],
                ) by {
                    assert(t.receipts.contains_key(x));
                    let rv = t.receipts[x];
                    assert(ancestry_known(t, ctx, rv));
                    assert(t.votes.contains_key((rv.primary_hash, x)));
                    assert(!u.votes.contains_key((h, x)));
                    if rv.primary_number != p {
                        assert(block_hash_at(v, rv.primary_number) == block_hash_at(t, rv.primary_number));
                    }
                }
            }
        },
        None => {},
    }
}

/// Ancestry closure is kept by a rollback.
pub proof fn rollback_keeps_ancestry_closed(s: State, parent_number: u32, ctx: ChainContext)
    requires
        ancestry_closed(s, ctx),
    ensures
        ancestry_closed(rollback(s, parent_number), ctx),
{
    let start = with_head(s, block_hash_at(s, parent_number), parent_number);
    lemma_drain_down_frame(start, s.head_number, parent_number);
    let t = rollback(s, parent_number);
    assert forall|x: H256| #[trigger] t.receipts.contains_key(x) implies ancestry_known(t, ctx, t.receipts[x]) by {
        assert(start.receipts.contains_key(x));
        assert(s.receipts.contains_key(x));
        assert(ancestry_known(s, ctx, s.receipts[x]));
        assert(block_hash_at(t, s.receipts[x].primary_number) == block_hash_at(s, s.receipts[x].primary_number));
    }
}


/// The primary number of the receipt stored under a content hash.
pub open spec fn height_of(s: State, r: H256) -> int {
    s.receipts[r].primary_number as int
}

/// Window bound: a windowed store holds `depth` receipts at most, so never
/// more than `depth + 1`.
pub proof fn window_bound(s: State, depth: u32)
    requires
        windowed(s, depth),
    ensures
        s.receipts.dom().len() <= depth,
        s.receipts.dom().len() <= depth + 1,
{
    let live = s.receipts.dom();
    let f = |r: H256| height_of(s, r);
    let heights = live.map(f);
    assert(injective_on(f, live)) by {
        assert forall|a: H256, b: H256| live.contains(a) && live.contains(b) && #[trigger] f(a) == #[trigger] f(
            b,
        ) implies a == b by {
            assert(s.receipts[a].primary_number == s.receipts[b].primary_number);
        }
    }
    lemma_map_size(live, heights, f);
    let lo = s.head_number - depth + 1;
    let hi = s.head_number + 1;
    lemma_int_range(lo, hi);
    assert forall|n: int| heights.contains(n) implies set_int_range(lo, hi).contains(n) by {
        let r = choose|r: H256| live.contains(r) && f(r) == n;
        assert(s.receipts.contains_key(r));
    }
    lemma_len_subset(heights, set_int_range(lo, hi));
}

/// The window is kept by the commit of a receipt that extends the head and is
/// anchored in the recorded history.
pub proof fn commit_keeps_windowed(s: State, r: ReceiptView, depth: u32)
    requires
        windowed(s, depth),
        r.primary_number == s.head_number + 1,
        anchored(s, r),
    ensures
        windowed(commit(s, r, depth), depth),
{
    lemma_record_keeps_votes(s, r);
    let id = receipt_hash(r);
    let t = record(s, r);
    assert(t.receipts.dom() =~= s.receipts.dom().insert(id));
    assert forall|x: H256| #[trigger] t.receipts.contains_key(x) implies anchored(t, t.receipts[x])
        && t.receipts[x].primary_number <= t.head_number by {
        if x != id {
            assert(s.receipts.contains_key(x));
        }
    }
    assert forall|a: H256, b: H256|
        t.receipts.contains_key(a) && t.receipts.contains_key(b) && (#[trigger] t.receipts[a]).primary_number
            == (#[trigger] t.receipts[b]).primary_number implies a == b by {
        if a != id {
            assert(s.receipts.contains_key(a));
        }
        if b != id {
            assert(s.receipts.contains_key(b));
        }
    }
    let p = (r.primary_number - depth) as u32;
    if r.primary_number >= depth && t.block_hash.contains_key(p) {
        let h = t.block_hash[p];
        let u = State { block_hash: t.block_hash.remove(p), ..t };
        let v = drain(u, h);
        assert(receipts_voted(u));
        lemma_drain_keeps_votes(u, h);
        assert(v.receipts.dom().subset_of(t.receipts.dom()));
        assert forall|x: H256| #[trigger] v.receipts.contains_key(x) implies anchored(v, v.receipts[x])
            && v.receipts[x].primary_number <= v.head_number && v.receipts[x].primary_number + depth
            > v.head_number by {
            assert(t.receipts.contains_key(x));
            assert(anchored(t, t.receipts[x]));
            assert(t.votes.contains_key((t.receipts[x].primary_hash, x)));
            assert(!u.votes.contains_key((h, x)));
            if x != id {
                assert(s.receipts.contains_key(x));
            }
        }
        assert forall|a: H256, b: H256|
            v.receipts.contains_key(a) && v.receipts.contains_key(b) && (#[trigger] v.receipts[a]).primary_number
                == (#[trigger] v.receipts[b]).primary_number implies a == b by {
            assert(t.receipts.contains_key(a) && t.receipts.contains_key(b));
        }
        assert(commit(s, r, depth) == v);
    } else {
        assert(commit(s, r, depth) == t);
        assert forall|x: H256| #[trigger] t.receipts.contains_key(x) implies t.receipts[x].primary_number + depth
            > t.head_number by {
            if x != id {
                assert(s.receipts.contains_key(x));
                assert(anchored(s, s.receipts[x]));
            }
        }
    }
}

/// Draining the heights `n` down to `floor + 1` of a store whose receipts are
/// anchored and voted leaves no receipt at those heights.
pub proof fn lemma_drain_down_clears(s: State, n: u32, floor: u32)
    requires
        receipts_voted(s),
        forall|r: H256| #[trigger] s.receipts.contains_key(r) ==> anchored(s, s.receipts[r]),
    ensures
        forall|r: H256| #[trigger]
            drain_down_to(s, n, floor).receipts.contains_key(r) ==> s.receipts.contains_key(r) && drain_down_to(
                s,
                n,
                floor,
            ).receipts[r] == s.receipts[r] && !(floor < s.receipts[r].primary_number <= n),
    decreases n,
{
    if n > floor {
        let h = block_hash_at(s, n);
        let t = drain(s, h);
        lemma_drain_keeps_votes(s, h);
        assert forall|r: H256| #[trigger] t.receipts.contains_key(r) implies anchored(t, t.receipts[r])
            && t.receipts[r].primary_number != n by {
            assert(s.receipts.contains_key(r));
            assert(anchored(s, s.receipts[r]));
            assert(s.votes.contains_key((s.receipts[r].primary_hash, r)));
        }
        lemma_drain_down_clears(t, (n - 1) as u32, floor);
        let u = drain_down_to(t, (n - 1) as u32, floor);
        assert forall|r: H256| #[trigger] u.receipts.contains_key(r) implies s.receipts.contains_key(r)
            && u.receipts[r] == s.receipts[r] && !(floor < s.receipts[r].primary_number <= n) by {
            assert(t.receipts.contains_key(r));
        }
    }
}

/// The window is kept by a rollback to a height at or below the head.
pub proof fn rollback_keeps_windowed(s: State, parent_number: u32, depth: u32)
    requires
        windowed(s, depth),
        parent_number <= s.head_number,
    ensures
        windowed(rollback(s, parent_number), depth),
{
    let start = with_head(s, block_hash_at(s, parent_number), parent_number);
    let t = rollback(s, parent_number);
    assert(receipts_voted(start));
    assert forall|r: H256| #[trigger] start.receipts.contains_key(r) implies anchored(start, start.receipts[r]) by {
        assert(s.receipts.contains_key(r));
    }
    lemma_drain_down_frame(start, s.head_number, parent_number);
    lemma_drain_down_keeps_votes(start, s.head_number, parent_number);
    lemma_drain_down_clears(start, s.head_number, parent_number);
    assert(t.receipts.dom().subset_of(s.receipts.dom())) by {
        assert forall|r: H256| t.receipts.dom().contains(r) implies s.receipts.dom().contains(r) by {
            assert(t.receipts.contains_key(r));
        }
    }
    assert forall|r: H256| #[trigger] t.receipts.contains_key(r) implies anchored(t, t.receipts[r])
        && t.receipts[r].primary_number <= t.head_number && t.receipts[r].primary_number + depth
        > t.head_number by {
        assert(s.receipts.contains_key(r));
        assert(anchored(s, s.receipts[r]));
    }
    assert forall|a: H256, b: H256|
        t.receipts.contains_key(a) && t.receipts.contains_key(b) && (#[trigger] t.receipts[a]).primary_number
            == (#[trigger] t.receipts[b]).primary_number implies a == b by {
        assert(s.receipts.contains_key(a) && s.receipts.contains_key(b));
    }
}

/// The store after the first block, with the genesis receipt alone, is
/// windowed for every depth.
pub proof fn first_block_is_windowed(executor: Option<(H256, H256)>, genesis_hash: H256, depth: u32)
    ensures
        windowed(initialize(empty_state(executor), 1, genesis_hash, depth), depth),
{
    let e = empty_state(executor);
    let r = ExecutionReceipt::spec_genesis(genesis_hash);
    let id = receipt_hash(r);
    let s1 = State { block_hash: e.block_hash.insert(0, genesis_hash), ..e };
    let t = record(s1, r);
    assert(t.receipts.dom() =~= Set::<H256>::empty().insert(id));
    if depth == 0 {
        let u = State { block_hash: t.block_hash.remove(0), ..t };
        let v = drain(u, genesis_hash);
        assert(u.votes.contains_key((genesis_hash, id)));
        assert(v.receipts.dom() =~= Set::<H256>::empty());
        assert(initialize(e, 1, genesis_hash, depth) == v);
    } else {
        assert(initialize(e, 1, genesis_hash, depth) == t);
    }
}

/// The window is kept by the start of a later block whose parent has no row
/// yet.
pub proof fn initialize_keeps_windowed(s: State, block_number: u32, parent_hash: H256, depth: u32)
    requires
        windowed(s, depth),
        block_number >= 2,
        !s.block_hash.contains_key((block_number - 1) as u32),
    ensures
        windowed(initialize(s, block_number, parent_hash, depth), depth),
{
    let t = initialize(s, block_number, parent_hash, depth);
    assert forall|r: H256| #[trigger] t.receipts.contains_key(r) implies anchored(t, t.receipts[r]) by {
        assert(s.receipts.contains_key(r));
        assert(anchored(s, s.receipts[r]));
    }
}


/// The receipts extend the head height by height, each anchored in the
/// recorded history; none is stored yet, nothing is voted yet under their
/// blocks, no two of them share a content hash or a block, and the commit of
/// none prunes a recorded row.
pub open spec fn fresh_extension(s: State, rs: Seq<ReceiptView>, depth: u32) -> bool {
    &&& contiguous_with_head(s, rs)
    &&& forall|i: int| 0 <= i < rs.len() ==> anchored(s, #[trigger] rs[i])
    &&& forall|i: int| 0 <= i < rs.len() ==> !s.receipts.contains_key(receipt_hash(#[trigger] rs[i]))
    &&& forall|i: int| 0 <= i < rs.len() ==> !any_vote_under(s.votes, (#[trigger] rs[i]).primary_hash)
    &&& forall|i: int, j: int|
        0 <= i < rs.len() && 0 <= j < rs.len() && i != j ==> receipt_hash(#[trigger] rs[i]) != receipt_hash(
            #[trigger] rs[j],
        ) && rs[i].primary_hash != rs[j].primary_hash
    &&& forall|i: int|
        0 <= i < rs.len() ==> match prune_target((#[trigger] rs[i]).primary_number, depth) {
            Some(p) => !s.block_hash.contains_key(p),
            None => true,
        }
}

/// Draining the block of a receipt that was just recorded, where nothing else
/// was voted under that block and the receipt was new, undoes the record but
/// for the head.
pub proof fn lemma_drain_undoes_record(s: State, r: ReceiptView, head_hash: H256, head_number: u32)
    requires
        !any_vote_under(s.votes, r.primary_hash),
        !s.receipts.contains_key(receipt_hash(r)),
    ensures
        drain(with_head(record(s, r), head_hash, head_number), r.primary_hash) == with_head(
            s,
            head_hash,
            head_number,
        ),
{
    let id = receipt_hash(r);
    let t = with_head(record(s, r), head_hash, head_number);
    let u = drain(t, r.primary_hash);
    assert forall|x: H256| voted_under(t.votes, r.primary_hash).contains(x) == (x == id) by {
        if x != id && t.votes.contains_key((r.primary_hash, x)) {
            assert(s.votes.contains_key((r.primary_hash, x)));
        }
    }
    assert(u.receipts =~= s.receipts);
    assert forall|k: (H256, H256)| s.votes.contains_key(k) implies k.0 != r.primary_hash by {
        if k.0 == r.primary_hash {
            assert(s.votes.contains_key((r.primary_hash, k.1)));
        }
    }
    assert(u.votes =~= s.votes);
}

/// What the first `j` commits of a fresh extension leave: the rows as they
/// were, and the later receipts still new, with nothing voted under their
/// blocks.
pub proof fn lemma_fresh_prefix(s: State, rs: Seq<ReceiptView>, depth: u32, j: int)
    requires
        fresh_extension(s, rs, depth),
        0 <= j <= rs.len(),
    ensures
        commit_all(s, rs.subrange(0, j), depth).block_hash == s.block_hash,
        commit_all(s, rs.subrange(0, j), depth).executor == s.executor,
        forall|i: int|
            j <= i < rs.len() ==> !commit_all(s, rs.subrange(0, j), depth).receipts.contains_key(
                receipt_hash(#[trigger] rs[i]),
            ),
        forall|i: int|
            j <= i < rs.len() ==> !any_vote_under(
                commit_all(s, rs.subrange(0, j), depth).votes,
                (#[trigger] rs[i]).primary_hash,
            ),
        j > 0 ==> commit_all(s, rs.subrange(0, j), depth) == record(
            commit_all(s, rs.subrange(0, j - 1), depth),
            rs[j - 1],
        ),
    decreases j,
{
    if j > 0 {
        lemma_fresh_prefix(s, rs, depth, j - 1);
        let before = commit_all(s, rs.subrange(0, j - 1), depth);
        let r = rs[j - 1];
        assert(rs.subrange(0, j).drop_last() =~= rs.subrange(0, j - 1));
        assert(rs.subrange(0, j).last() == r);
        let after = commit_all(s, rs.subrange(0, j), depth);
        assert(after == commit(before, r, depth));
        assert(after == record(before, r));
        assert forall|i: int| j <= i < rs.len() implies !any_vote_under(after.votes, (#[trigger] rs[i]).primary_hash) by {
            let g = rs[i].primary_hash;
            assert(!any_vote_under(before.votes, g));
            assert forall|x: H256| !after.votes.contains_key((g, x)) by {
                if after.votes.contains_key((g, x)) {
                    assert(before.votes.contains_key((g, x)));
                }
            }
        }
    } else {
        assert(rs.subrange(0, 0) =~= Seq::<ReceiptView>::empty());
    }
}

/// Draining the heights of the first `j` receipts of a fresh extension, from
/// the top down, undoes their commits but for the head.
pub proof fn lemma_drain_undoes_prefix(
    s: State,
    rs: Seq<ReceiptView>,
    depth: u32,
    j: int,
    head_hash: H256,
    head_number: u32,
)
    requires
        fresh_extension(s, rs, depth),
        0 <= j <= rs.len(),
    ensures
        s.head_number + j <= u32::MAX,
        drain_down_to(
            with_head(commit_all(s, rs.subrange(0, j), depth), head_hash, head_number),
            (s.head_number + j) as u32,
            s.head_number,
        ) == with_head(s, head_hash, head_number),
    decreases j,
{
    if j > 0 {
        lemma_fresh_prefix(s, rs, depth, j);
        lemma_fresh_prefix(s, rs, depth, j - 1);
        lemma_drain_undoes_prefix(s, rs, depth, j - 1, head_hash, head_number);
        let before = commit_all(s, rs.subrange(0, j - 1), depth);
        let r = rs[j - 1];
        let after = with_head(commit_all(s, rs.subrange(0, j), depth), head_hash, head_number);
        assert(r.primary_number == s.head_number + j);
        assert(anchored(s, r));
        assert(block_hash_at(after, (s.head_number + j) as u32) == r.primary_hash);
        lemma_drain_undoes_record(before, r, head_hash, head_number);
    } else {
        assert(rs.subrange(0, 0) =~= Seq::<ReceiptView>::empty());
    }
}

/// Rollback undoes commits: after the commit of a fresh extension of the head,
/// a rollback to the old head's height gives the state before the commits
/// back, where the old head's hash is the one recorded for its height.
pub proof fn rollback_undoes_commits(s: State, rs: Seq<ReceiptView>, depth: u32)
    requires
        fresh_extension(s, rs, depth),
        s.head_hash == block_hash_at(s, s.head_number),
    ensures
        rollback(commit_all(s, rs, depth), s.head_number) == s,
{
    let k = rs.len() as int;
    let after = commit_all(s, rs, depth);
    assert(rs.subrange(0, k) =~= rs);
    lemma_fresh_prefix(s, rs, depth, k);
    lemma_drain_undoes_prefix(s, rs, depth, k, s.head_hash, s.head_number);
    lemma_head_after_commits(s, rs, depth);
    if k > 0 {
        assert(rs.last() == rs[k - 1]);
        assert(after.head_number == s.head_number + k);
    }
    assert(block_hash_at(after, s.head_number) == s.head_hash);
    assert(with_head(s, s.head_hash, s.head_number) == s);
}


/// A rollback leaves no receipt at a height above the ancestor and up to the
/// old head, where every stored receipt is anchored and voted; what it leaves
/// is as it was.
pub proof fn rollback_removes_all_above(s: State, parent_number: u32)
    requires
        receipts_voted(s),
        forall|r: H256| #[trigger] s.receipts.contains_key(r) ==> anchored(s, s.receipts[r]),
    ensures
        forall|r: H256| #[trigger]
            rollback(s, parent_number).receipts.contains_key(r) ==> s.receipts.contains_key(r) && rollback(
                s,
                parent_number,
            ).receipts[r] == s.receipts[r] && !(parent_number < s.receipts[r].primary_number
                <= s.head_number),
        rollback(s, parent_number).block_hash == s.block_hash,
        rollback(s, parent_number).head_number == parent_number,
        rollback(s, parent_number).head_hash == block_hash_at(s, parent_number),
{
    let start = with_head(s, block_hash_at(s, parent_number), parent_number);
    assert(receipts_voted(start));
    assert forall|r: H256| #[trigger] start.receipts.contains_key(r) implies anchored(start, start.receipts[r]) by {
        assert(s.receipts.contains_key(r));
    }
    lemma_drain_down_frame(start, s.head_number, parent_number);
    lemma_drain_down_clears(start, s.head_number, parent_number);
}

/// Ancestry closure is kept by the start of a block: where every stored
/// receipt names a known block as seen from the new block, and a stored receipt
/// at the parent's height names the parent, recording the parent's row keeps it
/// so.
pub proof fn initialize_keeps_ancestry_closed(s: State, block_number: u32, parent_hash: H256, depth: u32)
    requires
        block_number >= 2,
        ancestry_closed(s, ChainContext { current_block_number: block_number, parent_hash }),
        forall|r: H256| #[trigger]
            s.receipts.contains_key(r) && s.receipts[r].primary_number + 1 == block_number
                ==> s.receipts[r].primary_hash == parent_hash,
    ensures
        ancestry_closed(
            initialize(s, block_number, parent_hash, depth),
            ChainContext { current_block_number: block_number, parent_hash },
        ),
{
    let ctx = ChainContext { current_block_number: block_number, parent_hash };
    let t = initialize(s, block_number, parent_hash, depth);
    assert forall|r: H256| #[trigger] t.receipts.contains_key(r) implies ancestry_known(t, ctx, t.receipts[r]) by {
        assert(s.receipts.contains_key(r));
        assert(ancestry_known(s, ctx, s.receipts[r]));
    }
}

/// The genesis receipt is installed at the first block and at no other: a later
/// block only records its parent's row.
pub proof fn genesis_receipt_only_at_first_block(s: State, block_number: u32, parent_hash: H256, depth: u32)
    requires
        block_number >= 1,
    ensures
        block_number != 1 ==> initialize(s, block_number, parent_hash, depth) == (State {
            block_hash: s.block_hash.insert((block_number - 1) as u32, parent_hash),
            ..s
        }),
        block_number == 1 ==> initialize(s, block_number, parent_hash, depth).head_number == 0
            && initialize(s, block_number, parent_hash, depth).head_hash == parent_hash,
        block_number == 1 && depth > 0 ==> initialize(s, block_number, parent_hash, depth).receipts.contains_key(
            receipt_hash(ExecutionReceipt::spec_genesis(parent_hash)),
        ) && initialize(s, block_number, parent_hash, depth).receipts[receipt_hash(
            ExecutionReceipt::spec_genesis(parent_hash),
        )] == ExecutionReceipt::spec_genesis(parent_hash),
{
}

/// At the first block a bundle gets the greatest priority and requires no tag.
pub proof fn bootstrap_bundle_requires_nothing(s: State, cfg: Config, ctx: ChainContext, rs: Seq<ReceiptView>)
    requires
        ctx.current_block_number == 1,
    ensures
        bundle_descriptor(s, cfg, ctx, rs).priority == u64::MAX,
        bundle_descriptor(s, cfg, ctx, rs).requires == Seq::<Tag>::empty(),
{
}

/// A bundle whose first receipt extends the head requires no tag.
pub proof fn head_extension_requires_nothing(s: State, cfg: Config, ctx: ChainContext, rs: Seq<ReceiptView>)
    requires
        rs.len() > 0,
        rs[0].primary_number == s.head_number + 1,
    ensures
        bundle_descriptor(s, cfg, ctx, rs).requires == Seq::<Tag>::empty(),
{
}


/// The commit of a receipt that is stored already, and stays stored, changes
/// nothing but the tally of its votes.
pub proof fn recommit_only_counts_a_vote(s: State, r: ReceiptView, depth: u32)
    requires
        commit(s, r, depth).receipts.contains_key(receipt_hash(r)),
    ensures
        commit(s, r, depth).votes.contains_key((r.primary_hash, receipt_hash(r))),
        commit(commit(s, r, depth), r, depth) == (State {
            votes: commit(s, r, depth).votes.insert(
                (r.primary_hash, receipt_hash(r)),
                one_more(commit(s, r, depth).votes[(r.primary_hash, receipt_hash(r))]),
            ),
            ..commit(s, r, depth)
        }),
{
    let id = receipt_hash(r);
    let once = commit(s, r, depth);
    let t = record(s, r);
    assert(t.votes.contains_key((r.primary_hash, id)));
    assert(once.receipts[id] == r);
    let again = record(once, r);
    assert(again.receipts =~= once.receipts);
    match prune_target(r.primary_number, depth) {
        Some(p) => {
            assert(!once.block_hash.contains_key(p));
        },
        None => {},
    }
}

/// A commit leaves the rows above the receipt's height as they were.
pub proof fn lemma_commit_keeps_rows_above(s: State, r: ReceiptView, depth: u32)
    ensures
        forall|n: u32|
            n > r.primary_number ==> #[trigger] commit(s, r, depth).block_hash.contains_key(n)
                == s.block_hash.contains_key(n) && block_hash_at(commit(s, r, depth), n) == block_hash_at(
                s,
                n,
            ),
{
}

/// Where some receipt is faulty, there is a first one that is.
pub proof fn lemma_first_fault_exists(s: State, cfg: Config, ctx: ChainContext, rs: Seq<ReceiptView>, i: int)
    requires
        0 <= i < rs.len(),
        receipt_fault(s, cfg, ctx, rs, i).is_some(),
    ensures
        exists|k: int| first_fault_at(s, cfg, ctx, rs, k),
    decreases i,
{
    if forall|j: int| 0 <= j < i ==> (#[trigger] receipt_fault(s, cfg, ctx, rs, j)).is_none() {
        assert(first_fault_at(s, cfg, ctx, rs, i));
    } else {
        let j = choose|j: int| 0 <= j < i && !(#[trigger] receipt_fault(s, cfg, ctx, rs, j)).is_none();
        lemma_first_fault_exists(s, cfg, ctx, rs, j);
    }
}

/// What the first `j` commits of a bundle that extends the head leave: the rows
/// above the heights committed so far as they were, and the head at the last
/// height committed.
pub proof fn lemma_contiguous_prefix(s: State, rs: Seq<ReceiptView>, depth: u32, j: int)
    requires
        contiguous_with_head(s, rs),
        0 <= j <= rs.len(),
    ensures
        commit_all(s, rs.subrange(0, j), depth).head_number == s.head_number + j,
        forall|n: u32|
            n > s.head_number + j ==> #[trigger] commit_all(s, rs.subrange(0, j), depth).block_hash.contains_key(n)
                == s.block_hash.contains_key(n) && block_hash_at(
                commit_all(s, rs.subrange(0, j), depth),
                n,
            ) == block_hash_at(s, n),
        j > 0 ==> commit_all(s, rs.subrange(0, j), depth) == commit(
            commit_all(s, rs.subrange(0, j - 1), depth),
            rs[j - 1],
            depth,
        ),
    decreases j,
{
    if j > 0 {
        lemma_contiguous_prefix(s, rs, depth, j - 1);
        let before = commit_all(s, rs.subrange(0, j - 1), depth);
        assert(rs.subrange(0, j).drop_last() =~= rs.subrange(0, j - 1));
        assert(rs.subrange(0, j).last() == rs[j - 1]);
        lemma_commit_keeps_rows_above(before, rs[j - 1], depth);
        let after = commit(before, rs[j - 1], depth);
        assert forall|n: u32| n > s.head_number + j implies #[trigger] after.block_hash.contains_key(n)
            == s.block_hash.contains_key(n) && block_hash_at(after, n) == block_hash_at(s, n) by {
            assert(before.block_hash.contains_key(n) == s.block_hash.contains_key(n));
        }
    } else {
        assert(rs.subrange(0, 0) =~= Seq::<ReceiptView>::empty());
    }
}

/// Ancestry closure over the first `j` commits of an admitted bundle.
pub proof fn lemma_admitted_prefix_keeps_ancestry_closed(
    s: State,
    cfg: Config,
    ctx: ChainContext,
    rs: Seq<ReceiptView>,
    j: int,
)
    requires
        ancestry_closed(s, ctx),
        receipts_voted(s),
        receipts_verdict(s, cfg, ctx, rs).is_ok(),
        pre_dispatch_verdict(s, rs).is_ok(),
        0 <= j <= rs.len(),
    ensures
        ancestry_closed(commit_all(s, rs.subrange(0, j), cfg.receipts_pruning_depth), ctx),
        receipts_voted(commit_all(s, rs.subrange(0, j), cfg.receipts_pruning_depth)),
    decreases j,
{
    let depth = cfg.receipts_pruning_depth;
    lemma_admitted_is_contiguous(s, rs);
    if j > 0 {
        lemma_admitted_prefix_keeps_ancestry_closed(s, cfg, ctx, rs, j - 1);
        lemma_contiguous_prefix(s, rs, depth, j);
        lemma_contiguous_prefix(s, rs, depth, j - 1);
        let before = commit_all(s, rs.subrange(0, j - 1), depth);
        let r = rs[j - 1];
        if receipt_fault(s, cfg, ctx, rs, j - 1).is_some() {
            lemma_first_fault_exists(s, cfg, ctx, rs, j - 1);
        }
        assert(ancestry_known(s, ctx, r));
        assert(r.primary_number == s.head_number + (j - 1) + 1);
        assert(before.block_hash.contains_key(r.primary_number) == s.block_hash.contains_key(r.primary_number));
        assert(block_hash_at(before, r.primary_number) == block_hash_at(s, r.primary_number));
        commit_keeps_ancestry_closed(before, r, depth, ctx);
    } else {
        assert(rs.subrange(0, 0) =~= Seq::<ReceiptView>::empty());
    }
}

/// Ancestry closure over an admission: the dispatch of a bundle that passed
/// both the receipt checks and the check before dispatch, against the same
/// state, keeps every stored receipt at a known block.
pub proof fn admission_keeps_ancestry_closed(s: State, cfg: Config, ctx: ChainContext, rs: Seq<ReceiptView>)
    requires
        ancestry_closed(s, ctx),
        receipts_voted(s),
        receipts_verdict(s, cfg, ctx, rs).is_ok(),
        pre_dispatch_verdict(s, rs).is_ok(),
    ensures
        ancestry_closed(commit_all(s, rs, cfg.receipts_pruning_depth), ctx),
        receipts_voted(commit_all(s, rs, cfg.receipts_pruning_depth)),
{
    lemma_admitted_prefix_keeps_ancestry_closed(s, cfg, ctx, rs, rs.len() as int);
    assert(rs.subrange(0, rs.len() as int) =~= rs);
}

/// The window over the first `j` commits of a bundle that extends the head.
pub proof fn lemma_extension_prefix_keeps_windowed(s: State, rs: Seq<ReceiptView>, depth: u32, j: int)
    requires
        windowed(s, depth),
        contiguous_with_head(s, rs),
        forall|i: int| 0 <= i < rs.len() ==> anchored(s, #[trigger] rs[i]),
        0 <= j <= rs.len(),
    ensures
        windowed(commit_all(s, rs.subrange(0, j), depth), depth),
    decreases j,
{
    if j > 0 {
        lemma_extension_prefix_keeps_windowed(s, rs, depth, j - 1);
        lemma_contiguous_prefix(s, rs, depth, j);
        lemma_contiguous_prefix(s, rs, depth, j - 1);
        let before = commit_all(s, rs.subrange(0, j - 1), depth);
        let r = rs[j - 1];
        assert(anchored(s, r));
        assert(r.primary_number == s.head_number + (j - 1) + 1);
        assert(before.block_hash.contains_key(r.primary_number) == s.block_hash.contains_key(r.primary_number));
        assert(block_hash_at(before, r.primary_number) == block_hash_at(s, r.primary_number));
        commit_keeps_windowed(before, r, depth);
    } else {
        assert(rs.subrange(0, 0) =~= Seq::<ReceiptView>::empty());
    }
}

/// The window over an admission: the dispatch of a bundle that extends the
/// head height by height, each receipt anchored in the recorded history, keeps
/// the store windowed, so the window bound holds afterwards.
pub proof fn admission_keeps_windowed(s: State, rs: Seq<ReceiptView>, depth: u32)
    requires
        windowed(s, depth),
        contiguous_with_head(s, rs),
        forall|i: int| 0 <= i < rs.len() ==> anchored(s, #[trigger] rs[i]),
    ensures
        windowed(commit_all(s, rs, depth), depth),
        commit_all(s, rs, depth).receipts.dom().len() <= depth + 1,
{
    lemma_extension_prefix_keeps_windowed(s, rs, depth, rs.len() as int);
    assert(rs.subrange(0, rs.len() as int) =~= rs);
    window_bound(commit_all(s, rs, depth), depth);
}


/// No content hash of the bundle collides: where one is held by a stored
/// receipt or shared by two receipts of the bundle, they are of the same
/// primary block.
pub open spec fn collision_free(s: State, rs: Seq<ReceiptView>) -> bool {
    &&& forall|i: int| 0 <= i < rs.len() ==> no_collision(s, #[trigger] rs[i])
    &&& forall|i: int, j: int|
        0 <= i < rs.len() && 0 <= j < rs.len() && receipt_hash(#[trigger] rs[i]) == receipt_hash(
            #[trigger] rs[j],
        ) ==> rs[i].primary_hash == rs[j].primary_hash
}

/// What the first `j` commits of a bundle leave in the store: each receipt is
/// one that was stored before, unchanged, or one of the first `j` of the bundle
/// under its content hash.
pub proof fn lemma_commits_store(s: State, rs: Seq<ReceiptView>, depth: u32, j: int)
    requires
        0 <= j <= rs.len(),
    ensures
        forall|x: H256| #[trigger]
            commit_all(s, rs.subrange(0, j), depth).receipts.contains_key(x) ==> (s.receipts.contains_key(x)
                && commit_all(s, rs.subrange(0, j), depth).receipts[x] == s.receipts[x]) || (exists|k: int|
                0 <= k < j && receipt_hash(#[trigger] rs[k]) == x && commit_all(
                    s,
                    rs.subrange(0, j),
                    depth,
                ).receipts[x] == rs[k]),
        j > 0 ==> commit_all(s, rs.subrange(0, j), depth) == commit(
            commit_all(s, rs.subrange(0, j - 1), depth),
            rs[j - 1],
            depth,
        ),
    decreases j,
{
    if j > 0 {
        lemma_commits_store(s, rs, depth, j - 1);
        let before = commit_all(s, rs.subrange(0, j - 1), depth);
        let r = rs[j - 1];
        assert(rs.subrange(0, j).drop_last() =~= rs.subrange(0, j - 1));
        assert(rs.subrange(0, j).last() == r);
        let after = commit_all(s, rs.subrange(0, j), depth);
        let t = record(before, r);
        assert forall|x: H256| #[trigger] after.receipts.contains_key(x) implies (s.receipts.contains_key(x)
            && after.receipts[x] == s.receipts[x]) || (exists|k: int|
            0 <= k < j && receipt_hash(#[trigger] rs[k]) == x && after.receipts[x] == rs[k]) by {
            assert(t.receipts.contains_key(x) && after.receipts[x] == t.receipts[x]);
            if x == receipt_hash(r) {
                assert(receipt_hash(rs[j - 1]) == x && after.receipts[x] == rs[j - 1]);
            } else {
                assert(before.receipts.contains_key(x));
                if !(s.receipts.contains_key(x) && before.receipts[x] == s.receipts[x]) {
                    let k = choose|k: int|
                        0 <= k < j - 1 && receipt_hash(#[trigger] rs[k]) == x && before.receipts[x] == rs[k];
                    assert(0 <= k < j && receipt_hash(rs[k]) == x && after.receipts[x] == rs[k]);
                }
            }
        }
    } else {
        assert(rs.subrange(0, 0) =~= Seq::<ReceiptView>::empty());
    }
}

/// Vote integrity over the first `j` commits of a bundle without collisions.
pub proof fn lemma_prefix_keeps_votes_backed(s: State, rs: Seq<ReceiptView>, depth: u32, j: int)
    requires
        votes_backed(s),
        collision_free(s, rs),
        0 <= j <= rs.len(),
    ensures
        votes_backed(commit_all(s, rs.subrange(0, j), depth)),
    decreases j,
{
    if j > 0 {
        lemma_prefix_keeps_votes_backed(s, rs, depth, j - 1);
        lemma_commits_store(s, rs, depth, j);
        lemma_commits_store(s, rs, depth, j - 1);
        let before = commit_all(s, rs.subrange(0, j - 1), depth);
        let r = rs[j - 1];
        let x = receipt_hash(r);
        if before.receipts.contains_key(x) {
            if s.receipts.contains_key(x) && before.receipts[x] == s.receipts[x] {
                assert(no_collision(s, r));
            } else {
                let k = choose|k: int|
                    0 <= k < j - 1 && receipt_hash(#[trigger] rs[k]) == x && before.receipts[x] == rs[k];
                assert(receipt_hash(rs[k]) == receipt_hash(rs[j - 1]));
            }
        }
        commit_keeps_votes_backed(before, r, depth);
    } else {
        assert(rs.subrange(0, 0) =~= Seq::<ReceiptView>::empty());
    }
}

/// Vote integrity over a dispatch: where every vote is backed by a stored
/// receipt and no content hash of the bundle collides, every vote is backed
/// after the bundle's receipts are committed.
pub proof fn dispatch_keeps_votes_backed(s: State, rs: Seq<ReceiptView>, depth: u32)
    requires
        votes_backed(s),
        collision_free(s, rs),
    ensures
        votes_backed(commit_all(s, rs, depth)),
        forall|h: H256, r: H256| #[trigger]
            commit_all(s, rs, depth).votes.contains_key((h, r)) ==> commit_all(
                s,
                rs,
                depth,
            ).receipts.contains_key(r),
{
    lemma_prefix_keeps_votes_backed(s, rs, depth, rs.len() as int);
    assert(rs.subrange(0, rs.len() as int) =~= rs);
}

} // verus!
