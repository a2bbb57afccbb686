//! Error kinds the core distinguishes.

use vstd::prelude::*;

verus! {

/// Data-level failures of the core. Infrastructure failures (transport,
/// schema, configuration) never arise in the verified functions: they belong
/// to the adapters around the library.
#[derive(Clone, Copy, Debug, PartialEq, Eq, Structural)]
pub enum NomenError {
    /// A name outside the `[a-z0-9-]` charset or the 3..=43 length bounds.
    InvalidName,
    /// An owner public key that is not exactly 32 bytes.
    InvalidKey,
    /// An OP_RETURN or event payload that failed structural parsing.
    MalformedPayload,
    /// A structurally sound event that failed validation.
    InvalidEvent,
    /// A lookup that matched nothing.
    NotFound,
}

impl NomenError {
    /// A short stable description, for the adapters' logs.
    pub fn describe(&self) -> (s: &'static str)
        ensures
            s@ == self.spec_describe(),
    {
        match self {
            NomenError::InvalidName => "invalid name",
            NomenError::InvalidKey => "invalid key",
            NomenError::MalformedPayload => "malformed payload",
            NomenError::InvalidEvent => "invalid event",
            NomenError::NotFound => "not found",
        }
    }

    pub open spec fn spec_describe(&self) -> Seq<char> {
        match self {
            NomenError::InvalidName => "invalid name"@,
            NomenError::InvalidKey => "invalid key"@,
            NomenError::MalformedPayload => "malformed payload"@,
            NomenError::InvalidEvent => "invalid event"@,
            NomenError::NotFound => "not found"@,
        }
    }
}


/// Maps an empty lookup to [`NomenError::NotFound`], the error the HTTP
/// boundary surfaces as 404.
pub fn require_found<T>(o: Option<T>) -> (r: Result<T, NomenError>)
    ensures
        o matches Some(v) ==> (r matches Ok(x) && x == v),
        o is None ==> (r matches Err(e) && e == NomenError::NotFound),
{
    match o {
        Some(v) => Ok(v),
        None => Err(NomenError::NotFound),
    }
}

} // verus!
