//! Namespace identifiers: `Nsid(name, owner) = Hash160(name || owner)`.
//!
//! The namespace identifier is the sole join key between the on-chain and
//! off-chain universes.

use vstd::prelude::*;

use crate::bytes::bytes_of;
use crate::error::NomenError;
use crate::hashes::hash160;
use crate::hashes::hash160_of;
use crate::name::is_valid_name;
use crate::name::validate_name;

verus! {

/// A 20-byte namespace identifier.
#[derive(Debug)]
pub struct Nsid {
    bytes: Vec<u8>,
}

impl View for Nsid {
    type V = Seq<u8>;

    closed spec fn view(&self) -> Seq<u8> {
        self.bytes@
    }
}

impl Nsid {
    #[verifier::type_invariant]
    closed spec fn inv(&self) -> bool {
        self.bytes@.len() == 20
    }

    /// Takes 20 raw bytes as an identifier; anything else is malformed.
    pub fn from_bytes(bytes: Vec<u8>) -> (r: Result<Nsid, NomenError>)
        ensures
            r is Ok <==> bytes@.len() == 20,
            r matches Ok(n) ==> n@ == bytes@,
            r matches Err(e) ==> e == NomenError::MalformedPayload,
    {
        if bytes.len() == 20 {
            Ok(Nsid { bytes })
        } else {
            Err(NomenError::MalformedPayload)
        }
    }

    /// The identifier's bytes; always 20 of them.
    pub fn as_bytes(&self) -> (r: &[u8])
        ensures
            r@ == self@,
            self@.len() == 20,
    {
        proof {
            use_type_invariant(self);
        }
        self.bytes.as_slice()
    }

    /// A fresh copy of the identifier's bytes.
    pub fn to_vec(&self) -> (r: Vec<u8>)
        ensures
            r@ == self@,
            self@.len() == 20,
    {
        bytes_of(self.as_bytes())
    }
}

/// Builds an [`Nsid`] from a name and an owner key, optionally folding in
/// child pairs in insertion order. With no children the result equals
/// `Hash160(name || owner)`.
pub struct NsidBuilder {
    data: Vec<u8>,
}

impl View for NsidBuilder {
    type V = Seq<u8>;

    closed spec fn view(&self) -> Seq<u8> {
        self.data@
    }
}

impl NsidBuilder {
    /// Starts from the root `(name, owner_pubkey)` pair. The name must obey
    /// the charset and length rules; the key must be 32 bytes.
    pub fn new(name: &[u8], pubkey: &[u8]) -> (r: Result<NsidBuilder, NomenError>)
        ensures
            r is Ok <==> is_valid_name(name@) && pubkey@.len() == 32,
            r matches Ok(b) ==> b@ == name@ + pubkey@,
            r matches Err(e) ==> (e == NomenError::InvalidName <==> !is_valid_name(name@)) && (e
                == NomenError::InvalidKey <==> is_valid_name(name@) && pubkey@.len() != 32),
    {
        if !validate_name(name) {
            return Err(NomenError::InvalidName);
        }
        if pubkey.len() != 32 {
            return Err(NomenError::InvalidKey);
        }
        let mut data = bytes_of(name);
        crate::bytes::extend_bytes(&mut data, pubkey);
        Ok(NsidBuilder { data })
    }

    /// Folds a child `(name, pubkey)` pair into the hash input, after
    /// everything folded so far.
    pub fn update_child(self, name: &[u8], pubkey: &[u8]) -> (r: Result<NsidBuilder, NomenError>)
        ensures
            r is Ok <==> is_valid_name(name@) && pubkey@.len() == 32,
            r matches Ok(b) ==> b@ == self@ + name@ + pubkey@,
            r matches Err(e) ==> (e == NomenError::InvalidName <==> !is_valid_name(name@)) && (e
                == NomenError::InvalidKey <==> is_valid_name(name@) && pubkey@.len() != 32),
    {
        if !validate_name(name) {
            return Err(NomenError::InvalidName);
        }
        if pubkey.len() != 32 {
            return Err(NomenError::InvalidKey);
        }
        let mut data = self.data;
        crate::bytes::extend_bytes(&mut data, name);
        crate::bytes::extend_bytes(&mut data, pubkey);
        Ok(NsidBuilder { data })
    }

    /// Emits the 20-byte identifier: the Hash160 of the folded input.
    pub fn finalize(self) -> (r: Nsid)
        ensures
            r@ == hash160_of(self@),
            r@.len() == 20,
    {
        let digest = hash160(self.data.as_slice());
        match Nsid::from_bytes(digest) {
            Ok(n) => n,
            Err(_) => {
                proof {
                    assert(false);
                }
                Nsid { bytes: Vec::new() }
            },
        }
    }
}

/// The identifier of a top-level name: `Hash160(name || owner)`, 20 bytes.
pub fn nsid_for(name: &[u8], pubkey: &[u8]) -> (r: Result<Nsid, NomenError>)
    ensures
        r is Ok <==> is_valid_name(name@) && pubkey@.len() == 32,
        r matches Ok(n) ==> n@ == hash160_of(name@ + pubkey@) && n@.len() == 20,
{
    let b = NsidBuilder::new(name, pubkey)?;
    Ok(b.finalize())
}

} // verus!
