//! Randomness, behind one trusted call.
//!
//! Nothing is assumed of the values drawn, only of their count: a fresh
//! draw may equal an earlier one as far as any proof here is concerned.

use vstd::prelude::*;

verus! {

/// Relies on getrandom's `fill`: on success the buffer is filled with
/// operating-system entropy, so the result has exactly the requested
/// length. Nothing is promised about the bytes themselves.
#[verifier::external_body]
pub(crate) fn random_bytes(n: usize) -> (r: Result<Vec<u8>, ()>)
    ensures
        r matches Ok(v) ==> v@.len() == n,
{
    let mut buf = vec![0u8; n];
    match getrandom::fill(&mut buf) {
        Ok(()) => Ok(buf),
        Err(_) => Err(()),
    }
}

} // verus!
