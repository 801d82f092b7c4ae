//! A local password-vault engine: master-password authentication, per-entry
//! key derivation, authenticated encryption of entry passwords, and the bulk
//! encrypt/decrypt path used for export and import.
//!
//! The engine is pure: every operation is a function of its explicit inputs.
//! Storage and interactive prompting are external callers that hand in plain
//! byte strings and identifiers and receive records or cleartext back.

pub mod cipher;
pub mod entries;
pub mod errors;
pub mod kdf;
pub mod master;
pub mod rng;
pub mod transfer;
