//! Content addressing: 256-bit digests of byte strings.

use vstd::prelude::*;
use vstd::std_specs::cmp::PartialEqSpecImpl;

verus! {

/// Number of bytes in a digest.
pub const DIGEST_LEN: usize = 32;

/// Byte strings of this length or longer are refused by [`H256::digest`] and by
/// the signature functions: the bit length of what is hashed has to stay
/// within 64 bits, with room for the few bytes that a signature scheme puts
/// in front of the message.
pub const MAX_INPUT_LEN: u64 = 0x1000_0000_0000_0000;

/// The SHA-256 digest of `data`, as the sequence of its bytes.
pub uninterp spec fn sha256(data: Seq<u8>) -> Seq<u8>;

/// A 256-bit digest, the identity of a block or a transaction.
#[derive(Clone, Copy, Debug, Hash)]
pub struct H256(pub [u8; 32]);

impl View for H256 {
    type V = Seq<u8>;

    open spec fn view(&self) -> Seq<u8> {
        self.0@
    }
}

impl PartialEq for H256 {
    fn eq(&self, other: &H256) -> (equal: bool) {
        let mut i: usize = 0;
        while i < 32
            invariant
                i <= 32,
                forall|j: int| 0 <= j < i ==> self.0@[j] == other.0@[j],
            decreases 32 - i,
        {
            if self.0[i] != other.0[i] {
                return false;
            }
            i += 1;
        }
        assert(self.0@ =~= other.0@);
        true
    }
}

impl Eq for H256 {

}

impl PartialEqSpecImpl for H256 {
    open spec fn obeys_eq_spec() -> bool {
        true
    }

    open spec fn eq_spec(&self, other: &H256) -> bool {
        self@ == other@
    }
}

/// Calls `ring::digest::digest` with the algorithm `ring::digest::SHA256` and
/// copies the digest's bytes out. The contract names those bytes `sha256` of
/// the input and says that there are 32 of them, the algorithm's output
/// length. The outside function panics on an input whose bit length does not
/// fit in 64 bits; `MAX_INPUT_LEN` leaves those out.
#[verifier::external_body]
fn ring_sha256(data: &[u8]) -> (out: Vec<u8>)
    requires
        data@.len() < MAX_INPUT_LEN,
    ensures
        out@ == sha256(data@),
        out@.len() == 32,
{
    ring::digest::digest(&ring::digest::SHA256, data).as_ref().to_vec()
}

impl H256 {
    /// The digest whose bytes are all zero. No block is expected to hash to
    /// it; the genesis block names it as its parent.
    pub fn zero() -> (h: H256)
        ensures
            h@ == Seq::new(32, |i: int| 0u8),
    {
        H256([0u8; 32])
    }

    /// The digest with the given bytes.
    pub fn from_bytes(bytes: [u8; 32]) -> (h: H256)
        ensures
            h@ == bytes@,
    {
        H256(bytes)
    }

    /// The bytes of the digest.
    pub fn as_bytes(&self) -> (bytes: &[u8; 32])
        ensures
            bytes@ == self@,
    {
        &self.0
    }

    /// Hashes `data` with SHA-256. Returns `None` exactly when `data` is
    /// `MAX_INPUT_LEN` bytes long or longer.
    pub fn digest(data: &[u8]) -> (r: Option<H256>)
        ensures
            r is Some <==> data@.len() < MAX_INPUT_LEN,
            r matches Some(h) ==> h@ == sha256(data@),
    {
        if data.len() as u64 >= MAX_INPUT_LEN {
            return None;
        }
        let out = ring_sha256(data);
        let mut bytes = [0u8; 32];
        let mut i: usize = 0;
        while i < 32
            invariant
                i <= 32,
                out@.len() == 32,
                forall|j: int| 0 <= j < i ==> bytes@[j] == out@[j],
            decreases 32 - i,
        {
            bytes[i] = out[i];
            i += 1;
        }
        Some(H256(bytes))
    }
}

/// The digests of a vector as byte sequences, in order.
pub open spec fn digest_views(digests: Seq<H256>) -> Seq<Seq<u8>> {
    digests.map_values(|h: H256| h@)
}

/// A digest always has `DIGEST_LEN` bytes.
pub proof fn lemma_digest_len(h: H256)
    ensures
        h@.len() == DIGEST_LEN,
{
}

} // verus!
