use vstd::prelude::*;

verus! {

/// A key of an association table: a copyable value with a decidable equality
/// that agrees with mathematical equality.
pub trait Key: Copy {
    fn same(&self, other: &Self) -> (b: bool)
        ensures
            b == (*self == *other),
    ;
}

/// A 256-bit hash.
#[derive(Clone, Copy, Debug, PartialEq, Eq)]
pub struct H256 {
    pub bytes: [u8; 32],
}

/// Thirty-two zero bytes.
pub open spec fn zero_bytes() -> Seq<u8> {
    Seq::new(32, |i: int| 0u8)
}

impl H256 {
    /// The hash whose bytes are the given sequence (of length 32).
    pub open spec fn of_seq(s: Seq<u8>) -> H256 {
        choose|h: H256| h.bytes@ == s
    }

    /// The all-zero hash.
    pub open spec fn spec_zero() -> H256 {
        H256::of_seq(zero_bytes())
    }

    /// Two hashes with the same bytes are the same hash.
    pub proof fn lemma_bytes_determine(a: H256, b: H256)
        requires
            a.bytes@ == b.bytes@,
        ensures
            a == b,
    {
        assert(a.bytes =~= b.bytes);
    }

    /// A hash is the hash of its own bytes.
    pub proof fn lemma_of_seq(h: H256)
        ensures
            H256::of_seq(h.bytes@) == h,
    {
        let c = H256::of_seq(h.bytes@);
        assert(c.bytes@ == h.bytes@);
        H256::lemma_bytes_determine(c, h);
    }

    /// The all-zero hash, which is the default of the hash type.
    pub fn zero() -> (h: H256)
        ensures
            h == H256::spec_zero(),
            h.bytes@ == zero_bytes(),
    {
        let h = H256 { bytes: [0u8; 32] };
        proof {
            assert(h.bytes@ =~= zero_bytes());
            H256::lemma_of_seq(h);
        }
        h
    }
}

/// Calls `parity_scale_codec::Encode::encode` on the byte array of the hash.
/// The encoding of a fixed-size byte array is its bytes, with no length in
/// front.
#[verifier::external_body]
fn scale_encode_bytes(h: &H256) -> (encoded: Vec<u8>)
    ensures
        encoded@ == h.bytes@,
{
    parity_scale_codec::Encode::encode(&h.bytes)
}

/// Calls `parity_scale_codec::Decode::decode` for a 32-byte array on the input.
/// It fails where the input holds fewer than 32 bytes; else it yields the first
/// 32 bytes and leaves the rest unread.
#[verifier::external_body]
fn scale_decode_bytes(input: &Vec<u8>) -> (decoded: Option<H256>)
    ensures
        input@.len() < 32 ==> decoded.is_none(),
        input@.len() >= 32 ==> decoded.is_some() && decoded.unwrap().bytes@ == input@.subrange(0, 32),
{
    match <[u8; 32] as parity_scale_codec::Decode>::decode(&mut input.as_slice()) {
        Ok(bytes) => Some(H256 { bytes }),
        Err(_) => None,
    }
}

impl H256 {
    /// What decoding a byte sequence as a hash gives.
    pub open spec fn spec_decode(input: Seq<u8>) -> Option<H256> {
        if input.len() >= 32 {
            Some(H256::of_seq(input.subrange(0, 32)))
        } else {
            None
        }
    }

    /// The encoding of the hash: its 32 bytes.
    pub fn encode(&self) -> (encoded: Vec<u8>)
        ensures
            encoded@ == self.bytes@,
            encoded@.len() == 32,
            H256::spec_decode(encoded@) == Some(*self),
    {
        let encoded = scale_encode_bytes(self);
        proof {
            assert(encoded@.subrange(0, 32) =~= self.bytes@);
            H256::lemma_of_seq(*self);
        }
        encoded
    }

    /// Decodes a hash from the first 32 bytes of the input; `None` where the
    /// input is shorter.
    pub fn decode(input: &Vec<u8>) -> (decoded: Option<H256>)
        ensures
            decoded == H256::spec_decode(input@),
    {
        let decoded = scale_decode_bytes(input);
        proof {
            if input@.len() >= 32 {
                H256::lemma_of_seq(decoded.unwrap());
            }
        }
        decoded
    }
}

impl Key for H256 {
    fn same(&self, other: &Self) -> (b: bool) {
        let mut i: usize = 0;
        while i < 32
            invariant
                i <= 32,
                forall|j: int| 0 <= j < i ==> self.bytes@[j] == other.bytes@[j],
            decreases 32 - i,
        {
            if self.bytes[i] != other.bytes[i] {
                return false;
            }
            i += 1;
        }
        proof {
            assert(self.bytes@ =~= other.bytes@);
            H256::lemma_bytes_determine(*self, *other);
        }
        true
    }
}

impl Key for u32 {
    fn same(&self, other: &Self) -> (b: bool) {
        *self == *other
    }
}

} // verus!
