use vault_core::cipher::{decrypt_password, encrypt_password};
use vault_core::entries::{create_entry, entry_by_number, update_entry, Entry};
use vault_core::errors::{AuthError, DecryptionError, DerivationError, TransferError};
use vault_core::kdf::derive_master_key;
use vault_core::master::{authenticate, create_master, ct_eq, AuthenticatedMaster};
use vault_core::transfer::{count_rows, export_entries, import_entries};

fn v(s: &str) -> Vec<u8> {
    s.as_bytes().to_vec()
}

fn test_key() -> Vec<u8> {
    vec![7u8; 32]
}

#[test]
fn encrypt_decrypt_round_trip() {
    let key = test_key();
    let blob = encrypt_password(&key, &v("e1"), &v("m1"), &v("hunter2")).unwrap();
    // nonce, ciphertext and tag: the blob is strictly larger than the plaintext
    assert_eq!(blob.len(), 12 + "hunter2".len() + 16);
    assert!(!blob.windows(7).any(|w| w == "hunter2".as_bytes()));
    let back = decrypt_password(&key, &v("e1"), &v("m1"), &blob).unwrap();
    assert_eq!(back, v("hunter2"));
}

#[test]
fn encrypt_decrypt_round_trip_empty_and_odd_bytes() {
    let key = test_key();
    for pw in [v(""), v("with,comma"), v("line\nbreak"), vec![0u8, 255, 92, 10, 13, 44]] {
        let blob = encrypt_password(&key, &v("id"), &v("mid"), &pw).unwrap();
        assert_eq!(decrypt_password(&key, &v("id"), &v("mid"), &blob).unwrap(), pw);
    }
}

#[test]
fn authentication_correctness() {
    let master = create_master(&v("correct horse"), v("master-1")).unwrap();
    assert_eq!(master.salt.len(), 16);
    assert_eq!(master.verifier.len(), 32);
    let key = authenticate(&v("correct horse"), &master).unwrap();
    assert_eq!(key.len(), 32);
    // the stored verifier is a one-way image of the key, never the key
    assert_ne!(key, master.verifier);

    let wrong = authenticate(&v("battery staple"), &master);
    assert!(matches!(wrong, Err(AuthError::InvalidPassword)));

    let blob = encrypt_password(&key, &v("e1"), &master.id, &v("secret")).unwrap();
    assert_eq!(
        decrypt_password(&key, &v("e1"), &master.id, &blob).unwrap(),
        v("secret")
    );
}

#[test]
fn ciphertext_binding_rejects_other_entry() {
    let key = test_key();
    let blob = encrypt_password(&key, &v("entry-a"), &v("master-m"), &v("pw")).unwrap();
    let r = decrypt_password(&key, &v("entry-b"), &v("master-m"), &blob);
    assert!(matches!(r, Err(DecryptionError::AuthenticationFailed)));
}

#[test]
fn ciphertext_binding_rejects_other_master() {
    let key = test_key();
    let blob = encrypt_password(&key, &v("entry-a"), &v("master-m"), &v("pw")).unwrap();
    let r = decrypt_password(&key, &v("entry-a"), &v("master-n"), &blob);
    assert!(matches!(r, Err(DecryptionError::AuthenticationFailed)));
}

#[test]
fn ciphertext_binding_rejects_shifted_id_boundary() {
    // same concatenation of the two identifiers, split differently
    let key = test_key();
    let blob = encrypt_password(&key, &v("ab"), &v("c"), &v("pw")).unwrap();
    let r = decrypt_password(&key, &v("a"), &v("bc"), &blob);
    assert!(matches!(r, Err(DecryptionError::AuthenticationFailed)));
}

#[test]
fn tampered_or_truncated_blob_rejected() {
    let key = test_key();
    let mut blob = encrypt_password(&key, &v("e"), &v("m"), &v("pw")).unwrap();
    let last = blob.len() - 1;
    blob[last] ^= 1;
    assert!(matches!(
        decrypt_password(&key, &v("e"), &v("m"), &blob),
        Err(DecryptionError::AuthenticationFailed)
    ));
    let short = vec![0u8; 5];
    assert!(matches!(
        decrypt_password(&key, &v("e"), &v("m"), &short),
        Err(DecryptionError::AuthenticationFailed)
    ));
}

#[test]
fn ciphertext_is_fresh_each_call() {
    let key = test_key();
    let b1 = encrypt_password(&key, &v("e"), &v("m"), &v("same")).unwrap();
    let b2 = encrypt_password(&key, &v("e"), &v("m"), &v("same")).unwrap();
    assert_ne!(b1, b2);
    assert_eq!(decrypt_password(&key, &v("e"), &v("m"), &b1).unwrap(), v("same"));
    assert_eq!(decrypt_password(&key, &v("e"), &v("m"), &b2).unwrap(), v("same"));
}

#[test]
fn create_then_authenticate_always_succeeds() {
    let master = create_master(&v("a password"), v("m")).unwrap();
    assert!(authenticate(&v("a password"), &master).is_ok());
}

#[test]
fn repeated_create_yields_distinct_salts_and_verifiers() {
    let m1 = create_master(&v("same password"), v("m1")).unwrap();
    let m2 = create_master(&v("same password"), v("m2")).unwrap();
    assert_ne!(m1.salt, m2.salt);
    assert_ne!(m1.verifier, m2.verifier);
}

#[test]
fn concrete_scenario() {
    let master = create_master(&v("Tr0ub4dor&3"), v("master-id")).unwrap();
    let setup_key = authenticate(&v("Tr0ub4dor&3"), &master).unwrap();
    let entry = create_entry(
        &setup_key,
        &master.id,
        &v("entry-id"),
        v("github"),
        v(""),
        v(""),
        v(""),
        &v("hunter2"),
    )
    .unwrap();

    let k = authenticate(&v("Tr0ub4dor&3"), &master).unwrap();
    let pw = decrypt_password(&k, &entry.id, &master.id, &entry.password_blob).unwrap();
    assert_eq!(pw, v("hunter2"));

    assert!(matches!(
        authenticate(&v("wrongpass"), &master),
        Err(AuthError::InvalidPassword)
    ));
}

#[test]
fn export_import_round_trip() {
    let master = create_master(&v("pass"), v("m-old")).unwrap();
    let key = authenticate(&v("pass"), &master).unwrap();
    let passwords = [v("alpha"), v("beta,with\ncontrol\\bytes"), v("gamma")];
    let mut entries: Vec<Entry> = Vec::new();
    for (i, pw) in passwords.iter().enumerate() {
        let id = v(&format!("old-{}", i));
        entries.push(
            create_entry(&key, &master.id, &id, v(&format!("name-{}", i)), v("d"), v("u"), v("w"), pw)
                .unwrap(),
        );
    }
    let data = export_entries(&key, &entries).unwrap();

    let fresh = create_master(&v("pass"), v("m-new")).unwrap();
    let fresh_key = authenticate(&v("pass"), &fresh).unwrap();
    let n = count_rows(&data);
    assert_eq!(n, 3);
    let ids: Vec<Vec<u8>> = (0..n).map(|i| v(&format!("new-{}", i))).collect();
    let report = import_entries(&fresh_key, &fresh.id, &data, &ids);
    assert_eq!(report.created.len(), 3);
    assert_eq!(report.created_rows, vec![0usize, 1, 2]);
    assert!(report.failed_rows.is_empty());
    for (j, e) in report.created.iter().enumerate() {
        assert_eq!(e.id, ids[j]);
        assert_ne!(e.id, entries[j].id);
        assert_eq!(e.master_id, fresh.id);
        assert_eq!(e.name, entries[j].name);
        let pw = decrypt_password(&fresh_key, &e.id, &fresh.id, &e.password_blob).unwrap();
        assert_eq!(pw, passwords[j]);
    }
}

#[test]
fn export_import_of_empty_vault() {
    let master = create_master(&v("pass"), v("m")).unwrap();
    let key = authenticate(&v("pass"), &master).unwrap();
    let data = export_entries(&key, &Vec::new()).unwrap();
    assert!(data.is_empty());
    assert_eq!(count_rows(&data), 0);
    let report = import_entries(&key, &master.id, &data, &Vec::new());
    assert!(report.created.is_empty());
    assert!(report.created_rows.is_empty());
    assert!(report.failed_rows.is_empty());
}

#[test]
fn import_partial_failure_reports_exact_rows() {
    let master = create_master(&v("pass"), v("m")).unwrap();
    let key = authenticate(&v("pass"), &master).unwrap();
    // five rows; the third (ordinal 2) has too few columns
    let data = v("a,,u,p1,\nb,,u,p2,\nmalformed row\nc,,u,p4,\nd,,u,p5,");
    let n = count_rows(&data);
    assert_eq!(n, 5);
    let ids: Vec<Vec<u8>> = (0..n).map(|i| v(&format!("id-{}", i))).collect();
    let report = import_entries(&key, &master.id, &data, &ids);
    assert_eq!(report.created_rows, vec![0usize, 1, 3, 4]);
    assert_eq!(report.failed_rows, vec![2usize]);
    assert_eq!(report.created.len(), 4);
    let expected = [v("p1"), v("p2"), v("p4"), v("p5")];
    for (j, e) in report.created.iter().enumerate() {
        let pw = decrypt_password(&key, &e.id, &master.id, &e.password_blob).unwrap();
        assert_eq!(pw, expected[j]);
    }
}

#[test]
fn export_fails_whole_on_one_bad_blob() {
    let master = create_master(&v("pass"), v("m")).unwrap();
    let key = authenticate(&v("pass"), &master).unwrap();
    let good = create_entry(&key, &master.id, &v("good"), v("g"), v(""), v(""), v(""), &v("pw"))
        .unwrap();
    let bad = Entry {
        id: v("bad"),
        master_id: master.id.clone(),
        name: v("b"),
        description: v(""),
        username: v(""),
        url: v(""),
        password_blob: vec![1, 2, 3],
    };
    let r = export_entries(&key, &vec![good, bad]);
    match r {
        Err(TransferError::PartialFailure(id)) => assert_eq!(id, v("bad")),
        _ => panic!("export of a vault with an unopenable blob must fail"),
    }
}

#[test]
fn derive_master_key_rejects_short_salt() {
    let r = derive_master_key(&v("pw"), &v("short"));
    assert!(matches!(r, Err(DerivationError::SaltTooShort)));
    let r2 = derive_master_key(&v("pw"), &v("exactly-8"));
    assert!(r2.is_ok());
}

#[test]
fn derive_master_key_is_deterministic() {
    let salt = v("0123456789abcdef");
    let k1 = derive_master_key(&v("pw"), &salt).unwrap();
    let k2 = derive_master_key(&v("pw"), &salt).unwrap();
    assert_eq!(k1, k2);
    assert_eq!(k1.len(), 32);
    let k3 = derive_master_key(&v("other"), &salt).unwrap();
    assert_ne!(k1, k3);
    let k4 = derive_master_key(&v("pw"), &v("fedcba9876543210")).unwrap();
    assert_ne!(k1, k4);
}

#[test]
fn constant_time_compare() {
    assert!(ct_eq(&v("abc"), &v("abc")));
    assert!(!ct_eq(&v("abc"), &v("abd")));
    assert!(!ct_eq(&v("abc"), &v("ab")));
    assert!(ct_eq(&v(""), &v("")));
}

#[test]
fn authenticated_master_carries_record_and_key() {
    let master = create_master(&v("pw"), v("m")).unwrap();
    let key = authenticate(&v("pw"), &master).unwrap();
    let session = AuthenticatedMaster::new(master, key.clone());
    assert_eq!(session.key, key);
    assert_eq!(session.master.id, v("m"));
}

#[test]
fn update_entry_without_password_keeps_blob() {
    let key = test_key();
    let e = create_entry(&key, &v("m"), &v("e"), v("old"), v(""), v(""), v(""), &v("pw")).unwrap();
    let e2 = update_entry(&key, &e, Some(v("new name")), None, Some(v("user")), None, None)
        .unwrap();
    assert_eq!(e2.password_blob, e.password_blob);
    assert_eq!(e2.name, v("new name"));
    assert_eq!(e2.username, v("user"));
    assert_eq!(e2.description, e.description);
    assert_eq!(e2.url, e.url);
    assert_eq!(e2.id, e.id);
    assert_eq!(e2.master_id, e.master_id);
}

#[test]
fn update_entry_with_password_reencrypts() {
    let key = test_key();
    let e = create_entry(&key, &v("m"), &v("e"), v("n"), v(""), v(""), v(""), &v("old-pw"))
        .unwrap();
    let e2 = update_entry(&key, &e, None, None, None, None, Some(&v("new-pw"))).unwrap();
    assert_ne!(e2.password_blob, e.password_blob);
    assert_eq!(
        decrypt_password(&key, &e2.id, &e2.master_id, &e2.password_blob).unwrap(),
        v("new-pw")
    );
}

#[test]
fn entry_by_number_selects_one_based() {
    let key = test_key();
    let e1 = create_entry(&key, &v("m"), &v("e1"), v("first"), v(""), v(""), v(""), &v("p1"))
        .unwrap();
    let e2 = create_entry(&key, &v("m"), &v("e2"), v("second"), v(""), v(""), v(""), &v("p2"))
        .unwrap();
    let list = vec![e1, e2];
    assert!(entry_by_number(&list, 0).is_err());
    assert!(entry_by_number(&list, 3).is_err());
    assert_eq!(entry_by_number(&list, 1).unwrap().name, v("first"));
    assert_eq!(entry_by_number(&list, 2).unwrap().name, v("second"));
}
