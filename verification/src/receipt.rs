use vstd::prelude::*;
use crate::hash::H256;
use sp_runtime::traits::BlakeTwo256;

verus! {

/// A commitment to the state trace of one secondary block.
#[derive(Debug, PartialEq, Eq)]
pub struct ExecutionReceipt {
    /// Height of the primary block that the receipt pertains to.
    pub primary_number: u32,
    /// Hash of that primary block.
    pub primary_hash: H256,
    /// Hash of the resulting secondary block.
    pub secondary_hash: H256,
    /// Intermediate state roots, in order.
    pub trace: Vec<H256>,
    /// Commitment over `trace`.
    pub trace_root: H256,
}

/// What a receipt holds, as a mathematical value.
pub struct ReceiptView {
    pub primary_number: u32,
    pub primary_hash: H256,
    pub secondary_hash: H256,
    pub trace: Seq<H256>,
    pub trace_root: H256,
}

impl View for ExecutionReceipt {
    type V = ReceiptView;

    open spec fn view(&self) -> ReceiptView {
        ReceiptView {
            primary_number: self.primary_number,
            primary_hash: self.primary_hash,
            secondary_hash: self.secondary_hash,
            trace: self.trace@,
            trace_root: self.trace_root,
        }
    }
}

/// The bytes of each hash of a sequence.
pub open spec fn bytes_of_each(hashes: Seq<H256>) -> Seq<Seq<u8>> {
    hashes.map_values(|h: H256| h.bytes@)
}

/// The 32-byte BLAKE2b-256 digest of the SCALE encoding of a receipt's five
/// fields, taken in declaration order.
pub uninterp spec fn receipt_digest(
    primary_number: u32,
    primary_hash: Seq<u8>,
    secondary_hash: Seq<u8>,
    trace: Seq<Seq<u8>>,
    trace_root: Seq<u8>,
) -> Seq<u8>;

/// The content hash of a receipt, its canonical identifier.
pub open spec fn receipt_hash(r: ReceiptView) -> H256 {
    H256::of_seq(
        receipt_digest(
            r.primary_number,
            r.primary_hash.bytes@,
            r.secondary_hash.bytes@,
            bytes_of_each(r.trace),
            r.trace_root.bytes@,
        ),
    )
}

/// Calls `sp_runtime::traits::BlakeTwo256::hash_of` on the tuple of the five
/// fields. The contract only gives the result its name: the digest is a
/// function of the fields alone.
#[verifier::external_body]
fn blake2_256_of_fields(
    primary_number: u32,
    primary_hash: &H256,
    secondary_hash: &H256,
    trace: &Vec<H256>,
    trace_root: &H256,
) -> (h: H256)
    ensures
        h.bytes@ == receipt_digest(
            primary_number,
            primary_hash.bytes@,
            secondary_hash.bytes@,
            bytes_of_each(trace@),
            trace_root.bytes@,
        ),
{
    let roots: Vec<[u8; 32]> = trace.iter().map(|t| t.bytes).collect();
    let fields = (primary_number, primary_hash.bytes, secondary_hash.bytes, roots, trace_root.bytes);
    H256 { bytes: <BlakeTwo256 as sp_runtime::traits::Hash>::hash_of(&fields).0 }
}

impl ExecutionReceipt {
    /// The receipt installed for the genesis block: height 0, an empty trace and
    /// default hashes but for the block's own.
    pub open spec fn spec_genesis(genesis_hash: H256) -> ReceiptView {
        ReceiptView {
            primary_number: 0,
            primary_hash: genesis_hash,
            secondary_hash: H256::spec_zero(),
            trace: Seq::empty(),
            trace_root: H256::spec_zero(),
        }
    }

    /// The receipt of the genesis block with the hash `genesis_hash`.
    pub fn genesis(genesis_hash: H256) -> (r: ExecutionReceipt)
        ensures
            r@ == ExecutionReceipt::spec_genesis(genesis_hash),
    {
        ExecutionReceipt {
            primary_number: 0,
            primary_hash: genesis_hash,
            secondary_hash: H256::zero(),
            trace: Vec::new(),
            trace_root: H256::zero(),
        }
    }

    /// The content hash of the receipt.
    pub fn hash(&self) -> (h: H256)
        ensures
            h == receipt_hash(self@),
    {
        let h = blake2_256_of_fields(
            self.primary_number,
            &self.primary_hash,
            &self.secondary_hash,
            &self.trace,
            &self.trace_root,
        );
        proof {
            H256::lemma_of_seq(h);
        }
        h
    }

    /// A copy of the receipt.
    pub fn duplicate(&self) -> (r: ExecutionReceipt)
        ensures
            r@ == self@,
    {
        let mut trace: Vec<H256> = Vec::new();
        let mut i: usize = 0;
        while i < self.trace.len()
            invariant
                i <= self.trace@.len(),
                trace@ == self.trace@.subrange(0, i as int),
            decreases self.trace@.len() - i,
        {
            trace.push(self.trace[i]);
            assert(trace@ =~= self.trace@.subrange(0, i + 1));
            i += 1;
        }
        assert(trace@ =~= self.trace@);
        ExecutionReceipt {
            primary_number: self.primary_number,
            primary_hash: self.primary_hash,
            secondary_hash: self.secondary_hash,
            trace,
            trace_root: self.trace_root,
        }
    }
}

} // verus!
