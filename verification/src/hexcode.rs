//! Lowercase hex encoding and decoding, as the `hex` crate computes them.
//!
//! The contracts state the encoding exactly, so that the round trip between
//! them is provable.

use vstd::prelude::*;

verus! {

/// The lowercase ASCII digit for a value below 16.
pub open spec fn hex_digit_byte(n: u8) -> u8
    recommends
        n < 16,
{
    if n < 10 {
        (48 + n) as u8
    } else {
        (87 + n) as u8
    }
}

/// The lowercase hex encoding of `data`: two digits per byte, high nibble
/// first, in input order.
pub open spec fn hex_bytes_of(data: Seq<u8>) -> Seq<u8> {
    Seq::new(
        2 * data.len(),
        |i: int|
            if i % 2 == 0 {
                hex_digit_byte(data[i / 2] / 16)
            } else {
                hex_digit_byte(data[i / 2] % 16)
            },
    )
}

/// Whether `b` is an ASCII hex digit, either case.
pub open spec fn is_hex_digit(b: u8) -> bool {
    (48 <= b <= 57) || (97 <= b <= 102) || (65 <= b <= 70)
}

/// The value of a hex digit.
pub open spec fn hex_val(b: u8) -> u8
    recommends
        is_hex_digit(b),
{
    if 48 <= b <= 57 {
        (b - 48) as u8
    } else if 97 <= b <= 102 {
        (b - 87) as u8
    } else {
        (b - 55) as u8
    }
}

/// Whether `s` decodes as hex: even length, every byte a digit.
pub open spec fn is_hex_seq(s: Seq<u8>) -> bool {
    &&& s.len() % 2 == 0
    &&& forall|i: int| 0 <= i < s.len() ==> is_hex_digit(s[i])
}

/// The bytes a well-formed hex sequence decodes to.
pub open spec fn hex_decode_of(s: Seq<u8>) -> Seq<u8>
    recommends
        is_hex_seq(s),
{
    Seq::new(s.len() / 2, |i: int| (hex_val(s[2 * i]) * 16 + hex_val(s[2 * i + 1])) as u8)
}

/// Relies on `hex::encode`: lowercase, two digits per byte, in input order.
#[verifier::external_body]
pub(crate) fn hex_encode(data: &[u8]) -> (r: Vec<u8>)
    ensures
        r@ == hex_bytes_of(data@),
{
    hex::encode(data).into_bytes()
}

/// Relies on `hex::decode`: succeeds exactly on even-length digit strings
/// (either case), pairing digits high nibble first.
#[verifier::external_body]
pub(crate) fn hex_decode(s: &[u8]) -> (r: Option<Vec<u8>>)
    ensures
        r is Some <==> is_hex_seq(s@),
        r matches Some(v) ==> v@ == hex_decode_of(s@),
{
    match hex::decode(s) {
        Ok(v) => Some(v),
        Err(_) => None,
    }
}

/// Decoding undoes encoding: the two contracts above cohere.
pub proof fn lemma_hex_round_trip(data: Seq<u8>)
    ensures
        is_hex_seq(hex_bytes_of(data)),
        hex_decode_of(hex_bytes_of(data)) =~= data,
{
    let h = hex_bytes_of(data);
    assert forall|i: int| 0 <= i < h.len() implies is_hex_digit(h[i]) by {
        assert(data[i / 2] / 16 < 16);
        assert(data[i / 2] % 16 < 16);
    }
    assert forall|i: int| 0 <= i < data.len() implies hex_decode_of(h)[i] == data[i] by {
        assert(h[2 * i] == hex_digit_byte(data[i] / 16));
        assert(h[2 * i + 1] == hex_digit_byte(data[i] % 16));
        assert(hex_val(hex_digit_byte(data[i] / 16)) == data[i] / 16);
        assert(hex_val(hex_digit_byte(data[i] % 16)) == data[i] % 16);
        assert(data[i] / 16 * 16 + data[i] % 16 == data[i]);
    }
}

} // verus!
