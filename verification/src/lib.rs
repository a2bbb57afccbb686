//! Indexing and resolution core for the Nomen naming protocol.
//!
//! Nomen binds human-readable names to public keys through two substrates:
//! the Bitcoin blockchain, whose OP_RETURN outputs anchor first-seen
//! ownership of a namespace identifier, and Nostr relays, whose events carry
//! the name and record payloads. This crate holds the verified core of the
//! indexer: the identifier algebra, the OP_RETURN codec, event validation,
//! the relational store with its first-writer-wins and newest-wins rules,
//! and the resolution views that serve queries.

pub mod bytes;
pub mod config;
pub mod documents;
pub mod error;
pub mod event;
pub mod hashes;
pub mod hexcode;
pub mod indexer;
pub mod kinds;
pub mod laws;
pub mod name;
pub mod nsid;
pub mod opreturn;
pub mod records;
pub mod store;
pub mod view;
