//! Read-only keys: hierarchical scoped read keys, signed multi-recipient envelopes.
pub mod error;
pub mod text;
pub mod keys;
pub mod crypto;
pub mod bytes;
pub mod derive;
pub mod sign;
pub mod encrypt;
pub mod envelope;
pub mod encoding;
pub mod sectioned;
pub mod keyring;
pub mod sdk;
pub mod pq;
pub mod mcp;
pub mod proto;
pub mod commands;
