//! The master record and master-password authentication.
//!
//! A master record stores a random salt and a one-way verifier of the
//! derived key — never the password and never the key. Authentication
//! re-derives the key from the supplied password and compares verifiers in
//! constant time; on success the derived key itself is handed back, and it
//! is that key, not the password, that the rest of the engine consumes.

use vstd::prelude::*;

use crate::errors::{AuthError, CreationError};
use crate::kdf::{derive_master_key, kdf_of, sha256_verifier, verifier_of, KEY_LEN};
use crate::rng::random_bytes;

verus! {

/// Length of the random salt stored in every master record, in bytes.
pub const SALT_LEN: usize = 16;

/// One master record per vault: an opaque identifier, the random salt the
/// key is derived with, and the one-way verifier of that key.
#[derive(Clone, Debug)]
pub struct Master {
    pub id: Vec<u8>,
    pub salt: Vec<u8>,
    pub verifier: Vec<u8>,
}

impl Master {
    /// Well-formedness: the salt and verifier have the lengths that
    /// creation establishes.
    pub open spec fn wf(&self) -> bool {
        self.salt@.len() == SALT_LEN && self.verifier@.len() == KEY_LEN
    }

    /// The record was made for this password: its stored verifier is the
    /// one-way image of the key that the password and the stored salt
    /// derive.
    pub open spec fn matches_password(&self, password: Seq<u8>) -> bool {
        self.verifier@ == verifier_of(kdf_of(password, self.salt@))
    }
}

/// A validated session: the master record together with the key that a
/// successful authentication derived. The key lives only in memory, for
/// the span of the session.
pub struct AuthenticatedMaster {
    pub master: Master,
    pub key: Vec<u8>,
}

impl AuthenticatedMaster {
    pub fn new(master: Master, key: Vec<u8>) -> (r: AuthenticatedMaster)
        ensures
            r.master == master,
            r.key == key,
    {
        AuthenticatedMaster { master, key }
    }
}

/// Constant-time byte comparison: the work done does not depend on where
/// the first difference lies, so the comparison leaks nothing through
/// timing beyond the (public) lengths.
pub fn ct_eq(a: &Vec<u8>, b: &Vec<u8>) -> (r: bool)
    ensures
        r == (a@ == b@),
{
    if a.len() != b.len() {
        assert(a@ != b@);
        return false;
    }
    let n = a.len();
    let mut diff: u8 = 0;
    let mut i: usize = 0;
    proof {
        assert(a@.subrange(0, 0) =~= b@.subrange(0, 0));
    }
    while i < n
        invariant
            n == a@.len(),
            n == b@.len(),
            i <= n,
            (diff == 0) <==> a@.subrange(0, i as int) == b@.subrange(0, i as int),
        decreases n - i,
    {
        let x = a[i];
        let y = b[i];
        let d = x ^ y;
        proof {
            assert((d == 0) == (x == y)) by (bit_vector)
                requires
                    d == x ^ y,
            ;
            assert(((diff | d) == 0) == (diff == 0 && d == 0)) by (bit_vector);
            assert(a@.subrange(0, i + 1) == a@.subrange(0, i as int).push(a@[i as int]));
            assert(b@.subrange(0, i + 1) == b@.subrange(0, i as int).push(b@[i as int]));
            if a@.subrange(0, i as int) == b@.subrange(0, i as int) && x == y {
                assert(a@.subrange(0, i + 1) == b@.subrange(0, i + 1));
            }
            if a@.subrange(0, i + 1) == b@.subrange(0, i + 1) {
                assert(a@.subrange(0, i as int) =~= b@.subrange(0, i as int));
                assert(a@[i as int] == a@.subrange(0, i + 1)[i as int]);
                assert(b@[i as int] == b@.subrange(0, i + 1)[i as int]);
            }
        }
        diff = diff | d;
        i = i + 1;
    }
    proof {
        assert(a@.subrange(0, n as int) =~= a@);
        assert(b@.subrange(0, n as int) =~= b@);
    }
    diff == 0
}

/// Creates a fresh master record for a password, under an identifier the
/// storage collaborator minted.
///
/// A fresh random salt is drawn, the master key derived from it, and only
/// the salt and the one-way verifier of that key are kept: the record never
/// holds the password or the key. Fails with `Entropy` when the random salt
/// cannot be drawn, and with `Derivation` when the (resource-hungry)
/// derivation cannot run; a failure never depends on the password's value.
pub fn create_master(password: &Vec<u8>, id: Vec<u8>) -> (r: Result<Master, CreationError>)
    ensures
        r matches Ok(m) ==> m.wf() && m.id@ == id@ && m.matches_password(password@),
{
    let salt = match random_bytes(SALT_LEN) {
        Ok(s) => s,
        Err(_) => {
            return Err(CreationError::Entropy);
        },
    };
    let key = match derive_master_key(password, &salt) {
        Ok(k) => k,
        Err(_) => {
            return Err(CreationError::Derivation);
        },
    };
    let verifier = sha256_verifier(&key);
    Ok(Master { id, salt, verifier })
}

/// Authenticates a password against a master record.
///
/// The key is re-derived from the stored salt, its verifier recomputed and
/// compared in constant time with the stored one. On a match the derived
/// key is returned — the secret material every later operation consumes.
/// On a mismatch the error is the generic `InvalidPassword`: nothing
/// distinguishes a wrong password from a record this password never made.
pub fn authenticate(password: &Vec<u8>, master: &Master) -> (r: Result<Vec<u8>, AuthError>)
    requires
        master.wf(),
    ensures
        r matches Ok(k) ==> k@ == kdf_of(password@, master.salt@) && k@.len() == KEY_LEN
            && master.matches_password(password@),
        r matches Err(e) && e == AuthError::InvalidPassword ==> !master.matches_password(
            password@,
        ),
        master.matches_password(password@) ==> !(r matches Err(e) && e
            == AuthError::InvalidPassword),
{
    let key = match derive_master_key(password, &master.salt) {
        Ok(k) => k,
        Err(_) => {
            return Err(AuthError::Derivation);
        },
    };
    let check = sha256_verifier(&key);
    if ct_eq(&check, &master.verifier) {
        Ok(key)
    } else {
        Err(AuthError::InvalidPassword)
    }
}

} // verus!
