//! Credential entries and the operations that create and change them.
//!
//! An entry's plaintext fields travel as plain byte strings; its password
//! exists only as the blob the cipher produced for this exact
//! `(entry, master)` pair. Updating non-password fields never touches the
//! blob; a new password is re-encrypted under a fresh nonce.

use vstd::prelude::*;

use crate::cipher::{encrypt_password, open_blob, MAX_ID_LEN, MAX_PLAINTEXT_LEN};
use crate::errors::EncryptionError;
use crate::kdf::KEY_LEN;

verus! {

/// The mathematical value of an [`Entry`]: each field as a byte sequence.
pub struct EntryV {
    pub id: Seq<u8>,
    pub master_id: Seq<u8>,
    pub name: Seq<u8>,
    pub description: Seq<u8>,
    pub username: Seq<u8>,
    pub url: Seq<u8>,
    pub password_blob: Seq<u8>,
}

/// One stored credential: its identifier, the identifier of the owning
/// master, plaintext fields, and the opaque blob holding the encrypted
/// password. Only the name is meaningful to require; the other plaintext
/// fields may be empty.
#[derive(Debug)]
pub struct Entry {
    pub id: Vec<u8>,
    pub master_id: Vec<u8>,
    pub name: Vec<u8>,
    pub description: Vec<u8>,
    pub username: Vec<u8>,
    pub url: Vec<u8>,
    pub password_blob: Vec<u8>,
}

impl View for Entry {
    type V = EntryV;

    open spec fn view(&self) -> EntryV {
        EntryV {
            id: self.id@,
            master_id: self.master_id@,
            name: self.name@,
            description: self.description@,
            username: self.username@,
            url: self.url@,
            password_blob: self.password_blob@,
        }
    }
}

impl Entry {
    /// Well-formedness: the identifiers fit what the cipher binds.
    pub open spec fn wf(&self) -> bool {
        self.id@.len() <= MAX_ID_LEN && self.master_id@.len() <= MAX_ID_LEN
    }
}

/// An exact copy of a byte string.
pub(crate) fn clone_bytes(v: &Vec<u8>) -> (r: Vec<u8>)
    ensures
        r@ == v@,
{
    let mut r: Vec<u8> = Vec::new();
    let mut i: usize = 0;
    while i < v.len()
        invariant
            i <= v@.len(),
            r@ == v@.subrange(0, i as int),
        decreases v@.len() - i,
    {
        r.push(v[i]);
        proof {
            assert(v@.subrange(0, i + 1) == v@.subrange(0, i as int).push(v@[i as int]));
        }
        i = i + 1;
    }
    proof {
        assert(v@.subrange(0, v@.len() as int) =~= v@);
    }
    r
}

/// Creates a new entry under an identifier the storage collaborator
/// minted, encrypting its initial password bound to `(entry_id,
/// master_id)`.
///
/// Fails only when the entropy source yields no nonce for the encryption.
pub fn create_entry(
    master_key: &Vec<u8>,
    master_id: &Vec<u8>,
    entry_id: &Vec<u8>,
    name: Vec<u8>,
    description: Vec<u8>,
    username: Vec<u8>,
    url: Vec<u8>,
    password: &Vec<u8>,
) -> (r: Result<Entry, EncryptionError>)
    requires
        master_key@.len() == KEY_LEN,
        entry_id@.len() <= MAX_ID_LEN,
        master_id@.len() <= MAX_ID_LEN,
        password@.len() <= MAX_PLAINTEXT_LEN,
    ensures
        r matches Ok(e) ==> e.wf() && e@.id == entry_id@ && e@.master_id == master_id@ && e@.name
            == name@ && e@.description == description@ && e@.username == username@ && e@.url
            == url@ && open_blob(master_key@, entry_id@, master_id@, e@.password_blob) == Some(
            password@,
        ),
        r matches Err(er) ==> er == EncryptionError::Entropy,
{
    let blob = match encrypt_password(master_key, entry_id, master_id, password) {
        Ok(b) => b,
        Err(e) => {
            return Err(e);
        },
    };
    Ok(
        Entry {
            id: clone_bytes(entry_id),
            master_id: clone_bytes(master_id),
            name,
            description,
            username,
            url,
            password_blob: blob,
        },
    )
}

/// Updates an entry: each plaintext field is replaced where a new value is
/// supplied and kept where none is, and the password blob is re-encrypted
/// (fresh nonce, same binding) exactly when a new password is supplied —
/// otherwise the existing blob is left untouched, byte for byte.
///
/// The identifiers never change. Fails only when a new password is given
/// and the entropy source yields no nonce.
pub fn update_entry(
    master_key: &Vec<u8>,
    entry: &Entry,
    name: Option<Vec<u8>>,
    description: Option<Vec<u8>>,
    username: Option<Vec<u8>>,
    url: Option<Vec<u8>>,
    new_password: Option<&Vec<u8>>,
) -> (r: Result<Entry, EncryptionError>)
    requires
        master_key@.len() == KEY_LEN,
        entry.wf(),
        new_password matches Some(p) ==> p@.len() <= MAX_PLAINTEXT_LEN,
    ensures
        r matches Ok(e) ==> e.wf() && e@.id == entry@.id && e@.master_id == entry@.master_id,
        r matches Ok(e) ==> e@.name == (match name {
            Some(n) => n@,
            None => entry@.name,
        }),
        r matches Ok(e) ==> e@.description == (match description {
            Some(d) => d@,
            None => entry@.description,
        }),
        r matches Ok(e) ==> e@.username == (match username {
            Some(u) => u@,
            None => entry@.username,
        }),
        r matches Ok(e) ==> e@.url == (match url {
            Some(u) => u@,
            None => entry@.url,
        }),
        r matches Ok(e) ==> (match new_password {
            Some(p) => open_blob(master_key@, entry@.id, entry@.master_id, e@.password_blob)
                == Some(p@),
            None => e@.password_blob == entry@.password_blob,
        }),
        r matches Err(er) ==> er == EncryptionError::Entropy && new_password is Some,
{
    let blob = match new_password {
        Some(p) => {
            match encrypt_password(master_key, &entry.id, &entry.master_id, p) {
                Ok(b) => b,
                Err(e) => {
                    return Err(e);
                },
            }
        },
        None => clone_bytes(&entry.password_blob),
    };
    Ok(
        Entry {
            id: clone_bytes(&entry.id),
            master_id: clone_bytes(&entry.master_id),
            name: match name {
                Some(n) => n,
                None => clone_bytes(&entry.name),
            },
            description: match description {
                Some(d) => d,
                None => clone_bytes(&entry.description),
            },
            username: match username {
                Some(u) => u,
                None => clone_bytes(&entry.username),
            },
            url: match url {
                Some(u) => u,
                None => clone_bytes(&entry.url),
            },
            password_blob: blob,
        },
    )
}

/// Selects an entry by its ordinal, counted from one, as a listing shows
/// them. Fails exactly when the ordinal is zero or past the end.
pub fn entry_by_number(entries: &Vec<Entry>, number: usize) -> (r: Result<Entry, ()>)
    ensures
        r is Ok <==> 1 <= number <= entries@.len(),
        r matches Ok(e) ==> e@ == entries@[number - 1]@,
{
    if number == 0 || number > entries.len() {
        return Err(());
    }
    let e = &entries[number - 1];
    Ok(
        Entry {
            id: clone_bytes(&e.id),
            master_id: clone_bytes(&e.master_id),
            name: clone_bytes(&e.name),
            description: clone_bytes(&e.description),
            username: clone_bytes(&e.username),
            url: clone_bytes(&e.url),
            password_blob: clone_bytes(&e.password_blob),
        },
    )
}

} // verus!
