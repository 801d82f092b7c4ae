//! Authenticated encryption of one entry's password under a per-entry key.
//!
//! The per-entry key is expanded from the master key with the entry and
//! master identifiers as context, so key material is never shared between
//! entries or vaults. Each encryption draws a fresh random nonce, and the
//! identifiers are bound into the authentication tag as associated data:
//! a blob moved to another entry or another vault fails authentication
//! instead of decrypting.

use vstd::prelude::*;

use crate::errors::{DecryptionError, EncryptionError};
use crate::kdf::{expand_of, hkdf_expand, KEY_LEN};
use crate::rng::random_bytes;
use chacha20poly1305::aead::{Aead, Payload};
use chacha20poly1305::{ChaCha20Poly1305, KeyInit};

verus! {

/// Length of the random nonce leading every blob, in bytes.
pub const NONCE_LEN: usize = 12;

/// Length of the authentication tag trailing every blob, in bytes.
pub const TAG_LEN: usize = 16;

/// Longest entry password accepted for encryption, in bytes.
pub const MAX_PLAINTEXT_LEN: usize = 0xFFFF_FFFF;

/// Longest identifier bound into a ciphertext, in bytes.
pub const MAX_ID_LEN: usize = 0xFFFF;

/// What chacha20poly1305's `Aead::encrypt` returns: the ciphertext of the
/// plaintext followed by the 16-byte tag, a function of key, nonce,
/// associated data and plaintext alone.
pub uninterp spec fn seal_of(key: Seq<u8>, nonce: Seq<u8>, aad: Seq<u8>, plaintext: Seq<u8>) -> Seq<
    u8,
>;

/// What chacha20poly1305's `Aead::decrypt` returns: `Some` plaintext when
/// the tag authenticates the ciphertext under this key, nonce and
/// associated data, `None` otherwise; a function of its arguments alone.
pub uninterp spec fn open_of(key: Seq<u8>, nonce: Seq<u8>, aad: Seq<u8>, sealed: Seq<u8>) -> Option<
    Seq<u8>,
>;

/// Relies on chacha20poly1305's `Aead::encrypt` (ChaCha20-Poly1305):
/// deterministic in its four inputs, output one tag longer than the
/// plaintext, within the cipher's size limits it never fails, and
/// `Aead::decrypt` under the same key, nonce and associated data inverts it.
#[verifier::external_body]
fn aead_seal(key: &Vec<u8>, nonce: &Vec<u8>, aad: &Vec<u8>, plaintext: &Vec<u8>) -> (r: Vec<u8>)
    requires
        key@.len() == KEY_LEN,
        nonce@.len() == NONCE_LEN,
        plaintext@.len() <= MAX_PLAINTEXT_LEN,
        aad@.len() <= MAX_PLAINTEXT_LEN,
    ensures
        r@ == seal_of(key@, nonce@, aad@, plaintext@),
        r@.len() == plaintext@.len() + TAG_LEN,
        open_of(key@, nonce@, aad@, r@) == Some(plaintext@),
{
    let cipher = ChaCha20Poly1305::new_from_slice(key).expect("the key is 32 bytes");
    let arr: [u8; 12] = nonce.as_slice().try_into().expect("the nonce is 12 bytes");
    let nonce_a = chacha20poly1305::aead::Nonce::<ChaCha20Poly1305>::from(arr);
    cipher
        .encrypt(&nonce_a, Payload { msg: plaintext, aad })
        .expect("the message and associated data are within the cipher's limits")
}

/// Relies on chacha20poly1305's `Aead::decrypt` (ChaCha20-Poly1305): it
/// returns the plaintext exactly when the tag authenticates the ciphertext
/// under this key, nonce and associated data, and fails otherwise.
#[verifier::external_body]
fn aead_open(key: &Vec<u8>, nonce: &Vec<u8>, aad: &Vec<u8>, sealed: &Vec<u8>) -> (r: Result<
    Vec<u8>,
    (),
>)
    requires
        key@.len() == KEY_LEN,
        nonce@.len() == NONCE_LEN,
    ensures
        r matches Ok(p) ==> open_of(key@, nonce@, aad@, sealed@) == Some(p@) && sealed@.len()
            == p@.len() + TAG_LEN,
        r is Err ==> open_of(key@, nonce@, aad@, sealed@) is None,
{
    let cipher = ChaCha20Poly1305::new_from_slice(key).expect("the key is 32 bytes");
    let arr: [u8; 12] = nonce.as_slice().try_into().expect("the nonce is 12 bytes");
    let nonce_a = chacha20poly1305::aead::Nonce::<ChaCha20Poly1305>::from(arr);
    cipher
        .decrypt(&nonce_a, Payload { msg: sealed, aad })
        .map_err(|_| ())
}

/// The context string that binds a ciphertext to one `(entry, master)`
/// pair: the entry identifier, length-prefixed so the split of the pair is
/// unambiguous, followed by the master identifier.
pub open spec fn context_of(entry_id: Seq<u8>, master_id: Seq<u8>) -> Seq<u8> {
    seq![
        (entry_id.len() % 256) as u8,
        ((entry_id.len() / 256) % 256) as u8,
        ((entry_id.len() / 65536) % 256) as u8,
        ((entry_id.len() / 16777216) % 256) as u8,
    ] + entry_id + master_id
}

/// The key one entry's password is sealed under: an expansion of the
/// master key with the pair's context, never the master key itself.
pub open spec fn entry_key_of(master_key: Seq<u8>, entry_id: Seq<u8>, master_id: Seq<u8>) -> Seq<
    u8,
> {
    expand_of(master_key, context_of(entry_id, master_id))
}

/// What a blob yields when opened under a master key and an identifier
/// pair: `Some` plaintext when its leading nonce, trailing tag and bound
/// context all check out, `None` otherwise.
pub open spec fn open_blob(
    master_key: Seq<u8>,
    entry_id: Seq<u8>,
    master_id: Seq<u8>,
    blob: Seq<u8>,
) -> Option<Seq<u8>> {
    if blob.len() >= NONCE_LEN + TAG_LEN {
        open_of(
            entry_key_of(master_key, entry_id, master_id),
            blob.subrange(0, NONCE_LEN as int),
            context_of(entry_id, master_id),
            blob.subrange(NONCE_LEN as int, blob.len() as int),
        )
    } else {
        None
    }
}

/// Builds the context string for an identifier pair.
pub fn build_context(entry_id: &Vec<u8>, master_id: &Vec<u8>) -> (r: Vec<u8>)
    requires
        entry_id@.len() <= MAX_ID_LEN,
        master_id@.len() <= MAX_ID_LEN,
    ensures
        r@ == context_of(entry_id@, master_id@),
        r@.len() == 4 + entry_id@.len() + master_id@.len(),
{
    let n = entry_id.len();
    let mut out: Vec<u8> = Vec::new();
    out.push((n % 256) as u8);
    out.push(((n / 256) % 256) as u8);
    out.push(((n / 65536) % 256) as u8);
    out.push(((n / 16777216) % 256) as u8);
    let ghost pfx = out@;
    let mut i: usize = 0;
    while i < entry_id.len()
        invariant
            i <= entry_id@.len(),
            out@ == pfx + entry_id@.subrange(0, i as int),
        decreases entry_id@.len() - i,
    {
        out.push(entry_id[i]);
        proof {
            assert(entry_id@.subrange(0, i + 1) == entry_id@.subrange(0, i as int).push(
                entry_id@[i as int],
            ));
        }
        i = i + 1;
    }
    proof {
        assert(entry_id@.subrange(0, entry_id@.len() as int) =~= entry_id@);
    }
    let ghost pfx2 = out@;
    let mut j: usize = 0;
    while j < master_id.len()
        invariant
            j <= master_id@.len(),
            out@ == pfx2 + master_id@.subrange(0, j as int),
        decreases master_id@.len() - j,
    {
        out.push(master_id[j]);
        proof {
            assert(master_id@.subrange(0, j + 1) == master_id@.subrange(0, j as int).push(
                master_id@[j as int],
            ));
        }
        j = j + 1;
    }
    proof {
        assert(master_id@.subrange(0, master_id@.len() as int) =~= master_id@);
        assert(out@ =~= context_of(entry_id@, master_id@));
    }
    out
}

/// Encrypts one entry password under the master key, bound to the
/// `(entry, master)` identifier pair.
///
/// A fresh random nonce is drawn on every call, so two encryptions of the
/// same plaintext yield different blobs; the blob is the nonce, the
/// ciphertext and the tag, and it opens only under the same key and the
/// same identifier pair. Fails only when the entropy source yields no
/// nonce.
pub fn encrypt_password(
    master_key: &Vec<u8>,
    entry_id: &Vec<u8>,
    master_id: &Vec<u8>,
    plaintext: &Vec<u8>,
) -> (r: Result<Vec<u8>, EncryptionError>)
    requires
        master_key@.len() == KEY_LEN,
        entry_id@.len() <= MAX_ID_LEN,
        master_id@.len() <= MAX_ID_LEN,
        plaintext@.len() <= MAX_PLAINTEXT_LEN,
    ensures
        r matches Ok(b) ==> open_blob(master_key@, entry_id@, master_id@, b@) == Some(plaintext@)
            && b@.len() == NONCE_LEN + plaintext@.len() + TAG_LEN,
        r matches Err(e) ==> e == EncryptionError::Entropy,
{
    let context = build_context(entry_id, master_id);
    let entry_key = hkdf_expand(master_key, &context);
    let nonce = match random_bytes(NONCE_LEN) {
        Ok(n) => n,
        Err(_) => {
            return Err(EncryptionError::Entropy);
        },
    };
    let sealed = aead_seal(&entry_key, &nonce, &context, plaintext);
    let mut blob = nonce;
    let ghost nonce_seq = blob@;
    let mut i: usize = 0;
    while i < sealed.len()
        invariant
            i <= sealed@.len(),
            blob@ == nonce_seq + sealed@.subrange(0, i as int),
        decreases sealed@.len() - i,
    {
        blob.push(sealed[i]);
        proof {
            assert(sealed@.subrange(0, i + 1) == sealed@.subrange(0, i as int).push(
                sealed@[i as int],
            ));
        }
        i = i + 1;
    }
    proof {
        assert(sealed@.subrange(0, sealed@.len() as int) =~= sealed@);
        assert(blob@.subrange(0, NONCE_LEN as int) =~= nonce_seq);
        assert(blob@.subrange(NONCE_LEN as int, blob@.len() as int) =~= sealed@);
    }
    Ok(blob)
}

/// Decrypts one entry password under the master key and the identifier
/// pair the blob claims to belong to.
///
/// The per-entry key is re-derived identically, the nonce and sealed part
/// parsed from the blob, and the tag verified with the identifier pair as
/// associated data. The one failure is `AuthenticationFailed`: a wrong
/// master key, a tampered blob, a truncated blob and a blob bound to a
/// different pair are indistinguishable here.
pub fn decrypt_password(
    master_key: &Vec<u8>,
    entry_id: &Vec<u8>,
    master_id: &Vec<u8>,
    blob: &Vec<u8>,
) -> (r: Result<Vec<u8>, DecryptionError>)
    requires
        master_key@.len() == KEY_LEN,
        entry_id@.len() <= MAX_ID_LEN,
        master_id@.len() <= MAX_ID_LEN,
    ensures
        r matches Ok(p) ==> open_blob(master_key@, entry_id@, master_id@, blob@) == Some(p@),
        r matches Err(e) ==> e == DecryptionError::AuthenticationFailed && open_blob(
            master_key@,
            entry_id@,
            master_id@,
            blob@,
        ) is None,
{
    if blob.len() < NONCE_LEN + TAG_LEN {
        return Err(DecryptionError::AuthenticationFailed);
    }
    let context = build_context(entry_id, master_id);
    let entry_key = hkdf_expand(master_key, &context);
    let mut nonce: Vec<u8> = Vec::new();
    let mut i: usize = 0;
    while i < NONCE_LEN
        invariant
            i <= NONCE_LEN,
            blob@.len() >= NONCE_LEN + TAG_LEN,
            nonce@ == blob@.subrange(0, i as int),
        decreases NONCE_LEN - i,
    {
        nonce.push(blob[i]);
        proof {
            assert(blob@.subrange(0, i + 1) == blob@.subrange(0, i as int).push(blob@[i as int]));
        }
        i = i + 1;
    }
    let mut sealed: Vec<u8> = Vec::new();
    let mut j: usize = NONCE_LEN;
    while j < blob.len()
        invariant
            NONCE_LEN <= j <= blob@.len(),
            blob@.len() >= NONCE_LEN + TAG_LEN,
            sealed@ == blob@.subrange(NONCE_LEN as int, j as int),
        decreases blob@.len() - j,
    {
        sealed.push(blob[j]);
        proof {
            assert(blob@.subrange(NONCE_LEN as int, j + 1) == blob@.subrange(
                NONCE_LEN as int,
                j as int,
            ).push(blob@[j as int]));
        }
        j = j + 1;
    }
    match aead_open(&entry_key, &nonce, &context, &sealed) {
        Ok(p) => Ok(p),
        Err(_) => Err(DecryptionError::AuthenticationFailed),
    }
}

/// The context string determines the identifier pair: two different
/// `(entry, master)` pairs never share a context, so a per-entry key and
/// the associated data bound into a tag belong to exactly one pair. This
/// is what makes the binding well-defined; that the cipher then rejects a
/// blob under any other pair's context is the cipher's guarantee.
pub proof fn lemma_context_injective(e1: Seq<u8>, m1: Seq<u8>, e2: Seq<u8>, m2: Seq<u8>)
    requires
        e1.len() <= MAX_ID_LEN,
        e2.len() <= MAX_ID_LEN,
        context_of(e1, m1) == context_of(e2, m2),
    ensures
        e1 == e2,
        m1 == m2,
{
    let c1 = context_of(e1, m1);
    let c2 = context_of(e2, m2);
    let l1 = e1.len();
    let l2 = e2.len();
    assert(c1[0] == (l1 % 256) as u8);
    assert(c1[1] == ((l1 / 256) % 256) as u8);
    assert(c2[0] == (l2 % 256) as u8);
    assert(c2[1] == ((l2 / 256) % 256) as u8);
    assert(l1 % 256 == l2 % 256);
    assert(l1 / 256 == l2 / 256) by {
        assert(l1 / 256 < 256);
        assert(l2 / 256 < 256);
        assert((l1 / 256) % 256 == l1 / 256);
        assert((l2 / 256) % 256 == l2 / 256);
    }
    assert(l1 == l2) by {
        assert(l1 == 256 * (l1 / 256) + l1 % 256) by (nonlinear_arith);
        assert(l2 == 256 * (l2 / 256) + l2 % 256) by (nonlinear_arith);
    }
    assert(c1.len() == 4 + l1 + m1.len());
    assert(c2.len() == 4 + l2 + m2.len());
    assert(m1.len() == m2.len());
    assert forall|i: int| 0 <= i < l1 implies e1[i] == e2[i] by {
        assert(c1[4 + i] == e1[i]);
        assert(c2[4 + i] == e2[i]);
    }
    assert(e1 =~= e2);
    assert forall|i: int| 0 <= i < m1.len() implies m1[i] == m2[i] by {
        assert(c1[4 + l1 + i] == m1[i]);
        assert(c2[4 + l2 + i] == m2[i]);
    }
    assert(m1 =~= m2);
}

/// Two blobs whose leading nonces differ are different blobs, whatever
/// they encrypt: with a fresh nonce on every call, repeated encryption of
/// one plaintext never repeats a blob.
pub proof fn lemma_distinct_nonce_distinct_blob(b1: Seq<u8>, b2: Seq<u8>)
    requires
        b1.len() >= NONCE_LEN,
        b2.len() >= NONCE_LEN,
        b1.subrange(0, NONCE_LEN as int) != b2.subrange(0, NONCE_LEN as int),
    ensures
        b1 != b2,
{
    if b1 == b2 {
        assert(b1.subrange(0, NONCE_LEN as int) == b2.subrange(0, NONCE_LEN as int));
    }
}

} // verus!
