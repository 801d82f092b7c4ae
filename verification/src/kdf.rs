//! Key derivation: master password to master key, master key to per-entry
//! key, master key to stored verifier.
//!
//! The derivation from a password is deliberately slow and memory-hard
//! (Argon2id), so a stolen vault file resists offline brute force. The
//! per-entry expansion and the verifier are fast keyed derivations over the
//! already-strong master key.

use vstd::prelude::*;

use crate::errors::DerivationError;
use sha2::Digest;

verus! {

/// Shortest salt the password derivation accepts, in bytes.
pub const MIN_SALT_LEN: usize = 8;

/// Length of every derived key and of the stored verifier, in bytes.
pub const KEY_LEN: usize = 32;

/// The master key that Argon2id (default parameters, 32-byte output)
/// derives from a password and a salt. The result is a function of the
/// two arguments alone: the same pair always yields the same key.
pub uninterp spec fn kdf_of(password: Seq<u8>, salt: Seq<u8>) -> Seq<u8>;

/// The per-context key that HKDF-SHA-256 (no extract salt, 32-byte output)
/// expands from a key and a context string; a function of the two
/// arguments alone.
pub uninterp spec fn expand_of(key: Seq<u8>, context: Seq<u8>) -> Seq<u8>;

/// The SHA-256 digest of a key, stored as the master verifier; a function
/// of the key alone, and one-way: it never reveals the key.
pub uninterp spec fn verifier_of(key: Seq<u8>) -> Seq<u8>;

/// Relies on argon2's `Argon2::hash_password_into` (Argon2id, default
/// parameters): the hash is deterministic in `(password, salt)`, and a salt
/// shorter than `MIN_SALT_LEN` is rejected with `SaltTooShort`.
#[verifier::external_body]
fn argon2_derive(password: &Vec<u8>, salt: &Vec<u8>) -> (r: Result<Vec<u8>, ()>)
    ensures
        r matches Ok(k) ==> k@ == kdf_of(password@, salt@) && k@.len() == KEY_LEN,
        salt@.len() < MIN_SALT_LEN ==> r is Err,
{
    let mut out = [0u8; 32];
    match argon2::Argon2::default().hash_password_into(password, salt, &mut out) {
        Ok(()) => Ok(out.to_vec()),
        Err(_) => Err(()),
    }
}

/// Relies on hkdf's `Hkdf::<Sha256>::expand`: deterministic in the key and
/// the context, and a 32-byte output never exceeds its length limit.
#[verifier::external_body]
pub(crate) fn hkdf_expand(key: &Vec<u8>, context: &Vec<u8>) -> (r: Vec<u8>)
    ensures
        r@ == expand_of(key@, context@),
        r@.len() == KEY_LEN,
{
    let hk = hkdf::Hkdf::<sha2::Sha256>::new(None, key);
    let mut okm = [0u8; 32];
    hk.expand(context, &mut okm)
        .expect("a 32-byte output is within the HKDF limit");
    okm.to_vec()
}

/// Relies on sha2's `Sha256::digest`: deterministic in its input, and
/// 32 bytes long.
#[verifier::external_body]
pub(crate) fn sha256_verifier(key: &Vec<u8>) -> (r: Vec<u8>)
    ensures
        r@ == verifier_of(key@),
        r@.len() == KEY_LEN,
{
    sha2::Sha256::digest(key).to_vec()
}

/// Derives the master key from a master password and a stored salt.
///
/// Pure and deterministic: the key is re-derived on every authentication,
/// never cached. A malformed salt is rejected; wrongness of the password is
/// never detectable here, only downstream at the verifier or a ciphertext.
pub fn derive_master_key(password: &Vec<u8>, salt: &Vec<u8>) -> (r: Result<
    Vec<u8>,
    DerivationError,
>)
    ensures
        r matches Ok(k) ==> k@ == kdf_of(password@, salt@) && k@.len() == KEY_LEN,
        r matches Err(e) && e == DerivationError::SaltTooShort <==> salt@.len() < MIN_SALT_LEN,
{
    if salt.len() < MIN_SALT_LEN {
        return Err(DerivationError::SaltTooShort);
    }
    match argon2_derive(password, salt) {
        Ok(k) => Ok(k),
        Err(_) => Err(DerivationError::ResourceExhausted),
    }
}

} // verus!
