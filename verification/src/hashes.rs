//! The Hash160 fingerprint: RIPEMD160 of SHA-256.
//!
//! The digest itself is computed by the `bitcoin` crate; this module gives
//! its result a name and verifies the byte accumulation around it.

use vstd::prelude::*;

use crate::bytes::extend_bytes;

verus! {

/// The Hash160 digest of a byte sequence: `RIPEMD160(SHA-256(x))`.
/// Deterministic and pure; always 20 bytes (stated by the wrapper below).
pub uninterp spec fn hash160_of(data: Seq<u8>) -> Seq<u8>;

/// Relies on `bitcoin::hashes::hash160::Hash::hash`: the digest depends on
/// the input bytes alone, and is always 20 bytes long.
#[verifier::external_body]
pub(crate) fn hash160(data: &[u8]) -> (r: Vec<u8>)
    ensures
        r@ == hash160_of(data@),
        r@.len() == 20,
{
    let h = <bitcoin::hashes::hash160::Hash as bitcoin::hashes::Hash>::hash(data);
    <bitcoin::hashes::hash160::Hash as bitcoin::hashes::Hash>::to_byte_array(h).to_vec()
}

/// An incremental Hash160: bytes are folded in with [`Hash160::chain_update`]
/// and the digest of everything folded in, in order, comes out of
/// [`Hash160::fingerprint`].
pub struct Hash160 {
    data: Vec<u8>,
}

impl View for Hash160 {
    type V = Seq<u8>;

    closed spec fn view(&self) -> Seq<u8> {
        self.data@
    }
}

impl Default for Hash160 {
    /// An engine that has absorbed nothing.
    fn default() -> (r: Self)
        ensures
            r@ == Seq::<u8>::empty(),
    {
        Hash160 { data: Vec::new() }
    }
}

impl Hash160 {
    /// Absorbs `bytes` after everything absorbed so far.
    pub fn chain_update(self, bytes: &[u8]) -> (r: Self)
        ensures
            r@ == self@ + bytes@,
    {
        let mut data = self.data;
        extend_bytes(&mut data, bytes);
        Hash160 { data }
    }

    /// The 20-byte digest of the absorbed input.
    pub fn fingerprint(self) -> (r: Vec<u8>)
        ensures
            r@ == hash160_of(self@),
            r@.len() == 20,
    {
        hash160(self.data.as_slice())
    }

    /// Hash160 of a single byte slice.
    pub fn digest(data: &[u8]) -> (r: Vec<u8>)
        ensures
            r@ == hash160_of(data@),
            r@.len() == 20,
    {
        hash160(data)
    }
}

} // verus!
