//! Content hashing through BLAKE3.  The digest itself is computed by the
//! outside hasher; the library names its result and accounts for the bytes
//! fed in.

use vstd::prelude::*;

verus! {

/// The lowercase hex digest BLAKE3 assigns to a byte string; a function of
/// the bytes alone.
pub uninterp spec fn blake3_hex_of(data: Seq<u8>) -> Seq<char>;

/// Relies on `blake3::hash` and `blake3::Hash::to_hex`: a 32-byte digest
/// of the input, rendered as 64 lowercase hex characters, depending on the
/// input bytes alone.
#[verifier::external_body]
pub fn hash_bytes(data: &[u8]) -> (r: String)
    ensures
        r@ == blake3_hex_of(data@),
        r@.len() == 64,
{
    blake3::hash(data).to_hex().to_string()
}

/// A hasher fed incrementally.  The bytes are buffered and digested in one
/// pass when the digest is asked for; the digest of the concatenation of
/// everything fed equals the digest of feeding it in one piece.
pub struct IncrementalHasher {
    buf: Vec<u8>,
}

impl IncrementalHasher {
    /// Everything fed since the last reset.
    pub closed spec fn fed(self) -> Seq<u8> {
        self.buf@
    }

    pub fn new() -> (h: IncrementalHasher)
        ensures
            h.fed().len() == 0,
    {
        IncrementalHasher { buf: Vec::new() }
    }

    pub fn update(&mut self, data: &[u8])
        requires
            old(self).fed().len() + data@.len() <= usize::MAX,
        ensures
            final(self).fed() == old(self).fed() + data@,
    {
        self.buf.extend_from_slice(data);
    }

    /// The digest of everything fed so far.
    pub fn finalize(&self) -> (r: String)
        ensures
            r@ == blake3_hex_of(self.fed()),
            r@.len() == 64,
    {
        hash_bytes(self.buf.as_slice())
    }

    /// The digest of everything fed so far; the hasher starts over.
    pub fn finalize_reset(&mut self) -> (r: String)
        ensures
            r@ == blake3_hex_of(old(self).fed()),
            r@.len() == 64,
            final(self).fed().len() == 0,
    {
        let r = hash_bytes(self.buf.as_slice());
        self.buf.clear();
        r
    }

    pub fn bytes_hashed(&self) -> (n: u64)
        ensures
            n == self.fed().len(),
    {
        self.buf.len() as u64
    }

    pub fn reset(&mut self)
        ensures
            final(self).fed().len() == 0,
    {
        self.buf.clear();
    }
}

impl Default for IncrementalHasher {
    fn default() -> (h: IncrementalHasher)
        ensures
            h.fed().len() == 0,
    {
        IncrementalHasher::new()
    }
}

} // verus!
