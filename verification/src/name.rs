//! Names: byte sequences over `[a-z0-9-]`, between 3 and 43 bytes long.

use vstd::prelude::*;

use crate::error::NomenError;

verus! {

/// Whether `b` is a byte the name charset allows: `a`..`z`, `0`..`9` or `-`.
pub open spec fn is_name_byte(b: u8) -> bool {
    b == 45 || (48 <= b <= 57) || (97 <= b <= 122)
}

/// Whether `s` is a well-formed name: charset and length bounds.
pub open spec fn is_valid_name(s: Seq<u8>) -> bool {
    &&& 3 <= s.len() <= 43
    &&& forall|i: int| 0 <= i < s.len() ==> is_name_byte(s[i])
}

/// Checks the name rules on a raw byte slice.
pub fn validate_name(s: &[u8]) -> (r: bool)
    ensures
        r == is_valid_name(s@),
{
    let n = s.len();
    if n < 3 || n > 43 {
        return false;
    }
    let mut i: usize = 0;
    while i < n
        invariant
            n == s@.len(),
            3 <= n <= 43,
            i <= n,
            forall|j: int| 0 <= j < i ==> is_name_byte(s@[j]),
        decreases n - i,
    {
        let b = s[i];
        if !(b == 45 || (48 <= b && b <= 57) || (97 <= b && b <= 122)) {
            return false;
        }
        i = i + 1;
    }
    true
}

/// A validated name. Values of this type always satisfy [`is_valid_name`].
#[derive(Debug)]
pub struct Name {
    bytes: Vec<u8>,
}

impl View for Name {
    type V = Seq<u8>;

    closed spec fn view(&self) -> Seq<u8> {
        self.bytes@
    }
}

impl Name {
    #[verifier::type_invariant]
    closed spec fn inv(&self) -> bool {
        is_valid_name(self.bytes@)
    }

    /// Validates `s` and takes it as a name; rejects anything outside the
    /// charset or the length bounds.
    pub fn parse(s: Vec<u8>) -> (r: Result<Name, NomenError>)
        ensures
            r is Ok <==> is_valid_name(s@),
            r matches Ok(n) ==> n@ == s@,
            r matches Err(e) ==> e == NomenError::InvalidName,
    {
        if validate_name(s.as_slice()) {
            Ok(Name { bytes: s })
        } else {
            Err(NomenError::InvalidName)
        }
    }

    /// The name's bytes.
    pub fn as_bytes(&self) -> (r: &[u8])
        ensures
            r@ == self@,
            is_valid_name(self@),
    {
        proof {
            use_type_invariant(self);
        }
        self.bytes.as_slice()
    }

}

} // verus!
