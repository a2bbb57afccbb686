//! Protocol constants: OP_RETURN kinds, Nostr event kinds, and networks.

use vstd::prelude::*;

verus! {

/// The kind byte of an OP_RETURN payload: a fresh claim or a transfer.
#[derive(Clone, Copy, Debug, PartialEq, Eq, Structural)]
pub enum NomenKind {
    Create,
    Transfer,
}

impl NomenKind {
    /// The wire byte for this kind, at offset 4 of the payload.
    pub fn byte(&self) -> (b: u8)
        ensures
            b == self.spec_byte(),
    {
        match self {
            NomenKind::Create => 0x00,
            NomenKind::Transfer => 0x01,
        }
    }

    pub open spec fn spec_byte(&self) -> u8 {
        match self {
            NomenKind::Create => 0x00,
            NomenKind::Transfer => 0x01,
        }
    }
}

/// The Nostr event kinds the indexer consumes.
#[derive(Clone, Copy, Debug, PartialEq, Eq, Structural)]
pub enum NameKind {
    /// A create event declaring a name/owner pair.
    Name,
    /// A records event carrying key/value records for a name.
    Record,
    /// A transfer event (reserved).
    Transfer,
}

impl NameKind {
    /// The numeric Nostr kind used in relay filters.
    pub fn kind_number(&self) -> (k: u64)
        ensures
            k == self.spec_kind_number(),
    {
        match self {
            NameKind::Name => 38300,
            NameKind::Record => 38301,
            NameKind::Transfer => 38302,
        }
    }

    pub open spec fn spec_kind_number(&self) -> u64 {
        match self {
            NameKind::Name => 38300,
            NameKind::Record => 38301,
            NameKind::Transfer => 38302,
        }
    }
}

/// The Bitcoin networks the indexer recognizes.
#[derive(Clone, Copy, Debug, PartialEq, Eq, Structural)]
pub enum Network {
    Bitcoin,
    Testnet,
    Signet,
    Regtest,
}

impl Network {
    /// The block height at which the indexer starts when the store is empty.
    pub fn starting_block_height(&self) -> (h: u64)
        ensures
            h == self.spec_starting_block_height(),
    {
        match self {
            Network::Bitcoin => 790500,
            Network::Signet => 143500,
            _ => 0,
        }
    }

    pub open spec fn spec_starting_block_height(&self) -> u64 {
        match self {
            Network::Bitcoin => 790500,
            Network::Signet => 143500,
            _ => 0,
        }
    }
}

/// Decides the log level for a height announcement: every tenth block is
/// reported at the louder level.
pub fn log_height(height: u64) -> (loud: bool)
    ensures
        loud == (height % 10 == 0),
{
    height % 10 == 0
}

} // verus!
