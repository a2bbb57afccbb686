//! The OP_RETURN payload codec.
//!
//! On the wire a payload is exactly 25 bytes: the magic `"NOM" 0x00`, one
//! kind byte (`0x00` create, `0x01` transfer), and 20 bytes of identifier.
//! Outputs that do not match exactly are ignored.

use vstd::prelude::*;
use vstd::slice::slice_subrange;

use crate::bytes::bytes_of;
use crate::error::NomenError;
use crate::kinds::NomenKind;
use crate::nsid::Nsid;

verus! {

/// The four magic bytes `"NOM" 0x00` that open every payload.
pub open spec fn nomen_magic() -> Seq<u8> {
    seq![0x4eu8, 0x4fu8, 0x4du8, 0x00u8]
}

/// Whether `d` is a well-formed payload: 25 bytes, the magic, a known kind.
pub open spec fn is_nomen_payload(d: Seq<u8>) -> bool {
    &&& d.len() == 25
    &&& d.subrange(0, 4) == nomen_magic()
    &&& (d[4] == 0 || d[4] == 1)
}

/// The kind a well-formed payload declares.
pub open spec fn payload_kind(d: Seq<u8>) -> NomenKind
    recommends
        is_nomen_payload(d),
{
    if d[4] == 0 {
        NomenKind::Create
    } else {
        NomenKind::Transfer
    }
}

/// The 20 identifier bytes of a well-formed payload.
pub open spec fn payload_nsid(d: Seq<u8>) -> Seq<u8>
    recommends
        is_nomen_payload(d),
{
    d.subrange(5, 25)
}

/// The payload announcing `nsid` with `kind`.
pub open spec fn op_return_of(nsid: Seq<u8>, kind: NomenKind) -> Seq<u8> {
    nomen_magic() + seq![kind.spec_byte()] + nsid
}

/// Encodes the 25-byte OP_RETURN payload for an identifier and a kind.
pub fn op_return(nsid: &Nsid, kind: NomenKind) -> (r: Vec<u8>)
    ensures
        r@ == op_return_of(nsid@, kind),
        r@.len() == 25,
        is_nomen_payload(r@),
        payload_kind(r@) == kind,
        payload_nsid(r@) == nsid@,
{
    let mut v: Vec<u8> = Vec::new();
    v.push(0x4e);
    v.push(0x4f);
    v.push(0x4d);
    v.push(0x00);
    v.push(kind.byte());
    crate::bytes::extend_bytes(&mut v, nsid.as_bytes());
    proof {
        assert(v@ =~= op_return_of(nsid@, kind));
        assert(v@.subrange(0, 4) =~= nomen_magic());
        assert(v@.subrange(5, 25) =~= nsid@);
    }
    v
}

/// Decodes an OP_RETURN payload. Returns the kind and identifier exactly
/// when the payload is 25 bytes, opens with the magic, and declares a known
/// kind; everything else is rejected.
pub fn parse_op_return(d: &[u8]) -> (r: Option<(NomenKind, Nsid)>)
    ensures
        r is Some <==> is_nomen_payload(d@),
        r matches Some(p) ==> p.0 == payload_kind(d@) && p.1@ == payload_nsid(d@) && p.1@.len()
            == 20,
{
    if d.len() != 25 {
        return None;
    }
    if !(d[0] == 0x4e && d[1] == 0x4f && d[2] == 0x4d && d[3] == 0x00) {
        proof {
            assert(d@.subrange(0, 4) != nomen_magic()) by {
                if d@.subrange(0, 4) == nomen_magic() {
                    assert(d@[0] == nomen_magic()[0]);
                    assert(d@[1] == nomen_magic()[1]);
                    assert(d@[2] == nomen_magic()[2]);
                    assert(d@[3] == nomen_magic()[3]);
                }
            }
        }
        return None;
    }
    proof {
        assert(d@.subrange(0, 4) =~= nomen_magic());
    }
    let kind = if d[4] == 0 {
        NomenKind::Create
    } else if d[4] == 1 {
        NomenKind::Transfer
    } else {
        return None;
    };
    let nsid_bytes = bytes_of(slice_subrange(d, 5, 25));
    match Nsid::from_bytes(nsid_bytes) {
        Ok(n) => Some((kind, n)),
        Err(_) => {
            proof {
                assert(false);
            }
            None
        },
    }
}

/// Encoding then decoding is the identity on the `(kind, nsid)` pair, for
/// every 20-byte identifier.
pub proof fn lemma_op_return_round_trip(nsid: Seq<u8>, kind: NomenKind)
    requires
        nsid.len() == 20,
    ensures
        is_nomen_payload(op_return_of(nsid, kind)),
        payload_kind(op_return_of(nsid, kind)) == kind,
        payload_nsid(op_return_of(nsid, kind)) == nsid,
{
    let d = op_return_of(nsid, kind);
    assert(d.subrange(0, 4) =~= nomen_magic());
    assert(d.subrange(5, 25) =~= nsid);
}

/// The data bytes of an OP_RETURN script: present exactly when the script
/// opens with the OP_RETURN opcode `0x6a` and a push opcode, which together
/// occupy the first two bytes.
pub fn op_return_payload(script: &[u8]) -> (r: Option<Vec<u8>>)
    ensures
        r is Some <==> script@.len() >= 2 && script@[0] == 0x6a,
        r matches Some(v) ==> v@ == script@.subrange(2, script@.len() as int),
{
    if script.len() >= 2 && script[0] == 0x6a {
        Some(bytes_of(slice_subrange(script, 2, script.len())))
    } else {
        None
    }
}

/// Parses the body of a legacy payload, after its three-byte prefix: one
/// version byte and one kind byte, both zero, then the data. Retained for
/// the earlier wire format; the indexer itself accepts only the current one.
pub fn parse_gun_output(data: &[u8]) -> (r: Result<Vec<u8>, NomenError>)
    ensures
        r is Ok <==> data@.len() >= 2 && data@[0] == 0 && data@[1] == 0,
        r matches Ok(v) ==> v@ == data@.subrange(2, data@.len() as int),
        r matches Err(e) ==> e == NomenError::MalformedPayload,
{
    if data.len() >= 2 && data[0] == 0 && data[1] == 0 {
        Ok(bytes_of(slice_subrange(data, 2, data.len())))
    } else {
        Err(NomenError::MalformedPayload)
    }
}

} // verus!
