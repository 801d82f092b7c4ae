//! Error taxonomy of the vault engine.
//!
//! No error ever carries secret material: payloads are identifiers and row
//! indices only, never passwords, keys or plaintext.

use vstd::prelude::*;

verus! {

/// Key derivation could not run.
#[derive(Clone, Copy, Debug, PartialEq, Eq)]
pub enum DerivationError {
    /// The supplied salt is shorter than the derivation function accepts.
    SaltTooShort,
    /// The derivation function could not obtain its working memory.
    ResourceExhausted,
}

/// Creating a master record failed.
#[derive(Clone, Copy, Debug, PartialEq, Eq)]
pub enum CreationError {
    /// The entropy source would not yield the random salt.
    Entropy,
    /// Deriving the master key from the fresh salt failed.
    Derivation,
}

/// Authenticating against a master record failed.
///
/// A wrong password is reported generically: nothing distinguishes
/// "no such master" from "wrong password", and nothing says which
/// part of the comparison differed.
#[derive(Clone, Copy, Debug, PartialEq, Eq)]
pub enum AuthError {
    /// The supplied password does not match the stored verifier.
    InvalidPassword,
    /// The key could not be re-derived (resource exhaustion, not wrongness).
    Derivation,
}

/// Encrypting an entry password failed.
#[derive(Clone, Copy, Debug, PartialEq, Eq)]
pub enum EncryptionError {
    /// The entropy source would not yield a fresh nonce.
    Entropy,
}

/// Decrypting an entry password failed.
///
/// This single variant covers a wrong master key, a tampered blob, and a
/// blob bound to a different entry or master: the caller learns only that
/// authentication of the ciphertext failed, never which byte was wrong.
#[derive(Clone, Copy, Debug, PartialEq, Eq)]
pub enum DecryptionError {
    AuthenticationFailed,
}

/// A bulk export failed.
#[derive(Clone, Debug, PartialEq, Eq)]
pub enum TransferError {
    /// One entry's blob would not decrypt; carries that entry's identifier.
    PartialFailure(Vec<u8>),
}

} // verus!
