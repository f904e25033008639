use base64::Engine;
use passkeeper::cipher::Crypto;
use passkeeper::store::{Storage, VaultError};

#[test]
fn unlock_add_lock_unlock_reads_the_record_back() {
    let mut vault = Storage::new();
    vault.unlock("hunter2", None).unwrap();
    let (_, file) = vault.add_password(None, "Bank".to_string(), "alice".to_string(), "p@ss".to_string(), None, None).unwrap();
    vault.lock();
    assert!(!vault.is_unlocked());

    vault.unlock("hunter2", Some(&file)).unwrap();
    let all = vault.get_all_passwords(Some(&file)).unwrap();
    assert_eq!(all.len(), 1);
    assert_eq!(all[0].title, "Bank");
    assert_eq!(all[0].username, "alice");
    assert_eq!(all[0].password, "p@ss");

    let mut other = Storage::new();
    other.unlock("wrong", Some(&file)).unwrap();
    assert!(other.is_unlocked());
    assert_eq!(other.get_all_passwords(Some(&file)).unwrap_err(), VaultError::WrongMasterPassword);
}

#[test]
fn locked_vault_refuses_every_record_operation() {
    let vault = Storage::new();
    assert!(!vault.is_unlocked());
    assert_eq!(vault.get_all_passwords(None).unwrap_err(), VaultError::VaultLocked);
    assert_eq!(vault.add_password(None, "a".to_string(), "b".to_string(), "c".to_string(), None, None).unwrap_err(), VaultError::VaultLocked);
    assert_eq!(vault.get_password(None, "x").unwrap_err(), VaultError::VaultLocked);
    assert_eq!(vault.delete_password(None, "x").unwrap_err(), VaultError::VaultLocked);
    assert_eq!(vault.search_passwords(None, "x").unwrap_err(), VaultError::VaultLocked);
    assert_eq!(
        vault
            .update_password(None, "x", "t".to_string(), "u".to_string(), "p".to_string(), None, None)
            .unwrap_err(),
        VaultError::VaultLocked
    );
    assert_eq!(vault.save_passwords(&Vec::new()).unwrap_err(), VaultError::VaultLocked);
}

#[test]
fn lock_is_idempotent() {
    let mut vault = Storage::new();
    vault.lock();
    vault.unlock("k", None).unwrap();
    vault.lock();
    vault.lock();
    assert!(!vault.is_unlocked());
}

#[test]
fn no_file_and_empty_file_hold_no_records() {
    let mut vault = Storage::new();
    vault.unlock("k", None).unwrap();
    assert!(vault.get_all_passwords(None).unwrap().is_empty());
    assert!(vault.get_all_passwords(Some("")).unwrap().is_empty());
}

#[test]
fn add_then_get_returns_the_added_record() {
    let mut vault = Storage::new();
    vault.unlock("k", None).unwrap();
    let (added, file) = vault.add_password(None, "Mail".to_string(), "me".to_string(), "pw".to_string(), None, None).unwrap();
    assert_eq!(added.created_at, added.updated_at);
    let got = vault.get_password(Some(&file), &added.id).unwrap().unwrap();
    assert_eq!(got.id, added.id);
    assert_eq!(got.title, "Mail");
    assert_eq!(got.created_at, added.created_at);
    assert_eq!(got.updated_at, added.updated_at);
    assert!(vault.get_password(Some(&file), "no-such-id").unwrap().is_none());
}

#[test]
fn records_keep_insertion_order_and_optional_fields() {
    let mut vault = Storage::new();
    vault.unlock("k", None).unwrap();
    let (_, file) = vault
        .add_password(
            None,
            "One".to_string(),
            "u1".to_string(),
            "pw1".to_string(),
            Some("https://one.example".to_string()),
            Some("line \"quoted\"\nnext".to_string()),
        )
        .unwrap();
    let (_, file) = vault.add_password(Some(&file), "Two".to_string(), "u2".to_string(), "pw2".to_string(), None, None).unwrap();
    let all = vault.get_all_passwords(Some(&file)).unwrap();
    assert_eq!(all.len(), 2);
    assert_eq!(all[0].title, "One");
    assert_eq!(all[0].url, Some("https://one.example".to_string()));
    assert_eq!(all[0].notes, Some("line \"quoted\"\nnext".to_string()));
    assert_eq!(all[1].title, "Two");
    assert_eq!(all[1].url, None);
}

#[test]
fn update_changes_fields_and_keeps_identity() {
    let mut vault = Storage::new();
    vault.unlock("k", None).unwrap();
    let (added, file) = vault.add_password(None, "Old".to_string(), "old".to_string(), "oldpw".to_string(), None, None).unwrap();
    let (updated, file) = vault
        .update_password(
            Some(&file),
            &added.id,
            "New".to_string(),
            "new".to_string(),
            "newpw".to_string(),
            Some("https://new.example".to_string()),
            Some("notes".to_string()),
        )
        .unwrap();
    assert_eq!(updated.id, added.id);
    assert_eq!(updated.created_at, added.created_at);
    assert!(updated.updated_at >= added.updated_at);
    let got = vault.get_password(Some(&file), &added.id).unwrap().unwrap();
    assert_eq!(got.title, "New");
    assert_eq!(got.username, "new");
    assert_eq!(got.password, "newpw");
    assert_eq!(got.url, Some("https://new.example".to_string()));
    assert_eq!(got.notes, Some("notes".to_string()));
}

#[test]
fn update_of_an_unknown_id_is_not_found() {
    let mut vault = Storage::new();
    vault.unlock("k", None).unwrap();
    let (_, file) = vault.add_password(None, "A".to_string(), "a".to_string(), "a".to_string(), None, None).unwrap();
    let r = vault.update_password(Some(&file), "missing", "t".to_string(), "u".to_string(), "p".to_string(), None, None);
    assert_eq!(r.unwrap_err(), VaultError::NotFound);
}

#[test]
fn delete_then_get_finds_nothing_and_absent_delete_is_no_error() {
    let mut vault = Storage::new();
    vault.unlock("k", None).unwrap();
    let (a, file) = vault.add_password(None, "A".to_string(), "a".to_string(), "a".to_string(), None, None).unwrap();
    let (_, file) = vault.add_password(Some(&file), "B".to_string(), "b".to_string(), "b".to_string(), None, None).unwrap();
    let file = vault.delete_password(Some(&file), &a.id).unwrap();
    assert!(vault.get_password(Some(&file), &a.id).unwrap().is_none());
    let file = vault.delete_password(Some(&file), "never-there").unwrap();
    let all = vault.get_all_passwords(Some(&file)).unwrap();
    assert_eq!(all.len(), 1);
    assert_eq!(all[0].title, "B");
}

#[test]
fn search_finds_gmail_in_any_case() {
    let mut vault = Storage::new();
    vault.unlock("k", None).unwrap();
    let (_, file) = vault.add_password(None, "My Gmail Account".to_string(), "me".to_string(), "pw".to_string(), None, None).unwrap();
    let (_, file) = vault.add_password(Some(&file), "Bank".to_string(), "alice".to_string(), "pw".to_string(), None, None).unwrap();
    let hits = vault.search_passwords(Some(&file), "gmail").unwrap();
    assert_eq!(hits.len(), 1);
    assert_eq!(hits[0].title, "My Gmail Account");
    assert_eq!(vault.search_passwords(Some(&file), "GMAIL").unwrap().len(), 1);
}

#[test]
fn damaged_files_are_corrupt_data() {
    let mut vault = Storage::new();
    vault.unlock("k", None).unwrap();
    assert_eq!(vault.get_all_passwords(Some("no line break")).unwrap_err(), VaultError::CorruptData);
    assert_eq!(vault.get_all_passwords(Some("AAAA\n***")).unwrap_err(), VaultError::CorruptData);
}

#[test]
fn sealed_text_that_is_not_a_record_set_is_corrupt_data() {
    let mut vault = Storage::new();
    vault.unlock("k", None).unwrap();
    let (_, file) = vault.add_password(None, "A".to_string(), "a".to_string(), "a".to_string(), None, None).unwrap();
    let salt_line = file.split('\n').next().unwrap().to_string();
    let mut again = Storage::new();
    again.unlock("k", Some(&file)).unwrap();
    // The same key seals a text that is not JSON rows.
    let salt: Vec<u8> = base64::engine::general_purpose::STANDARD.decode(&salt_line).unwrap();
    let crypto = Crypto::with_salt("k", &salt);
    let forged = format!("{}\n{}", salt_line, crypto.encrypt("not json").unwrap());
    assert_eq!(again.get_all_passwords(Some(&forged)).unwrap_err(), VaultError::CorruptData);
}

#[test]
fn unlock_reuses_the_salt_of_the_file() {
    let mut vault = Storage::new();
    vault.unlock("k", None).unwrap();
    let (_, file) = vault.add_password(None, "A".to_string(), "a".to_string(), "a".to_string(), None, None).unwrap();
    let mut again = Storage::new();
    again.unlock("k", Some(&file)).unwrap();
    let file2 = again.save_passwords(&Vec::new()).unwrap();
    assert_eq!(file.split('\n').next(), file2.split('\n').next());
    assert!(vault.get_all_passwords(Some(&file2)).unwrap().is_empty());
}

#[test]
fn record_updated_before_it_was_created_is_corrupt_data() {
    let mut vault = Storage::new();
    vault.unlock("k", None).unwrap();
    let bad = passkeeper::record::Password {
        id: "x".to_string(),
        title: "t".to_string(),
        username: "u".to_string(),
        password: "p".to_string(),
        url: None,
        notes: None,
        created_at: 200,
        updated_at: 100,
    };
    let file = vault.save_passwords(&vec![bad]).unwrap();
    assert_eq!(vault.get_all_passwords(Some(&file)).unwrap_err(), VaultError::CorruptData);
}

#[test]
fn append_refuses_an_id_already_stored() {
    let mut vault = Storage::new();
    vault.unlock("k", None).unwrap();
    let first = passkeeper::record::Password::new("A".to_string(), "a".to_string(), "a".to_string(), None, None).unwrap();
    let again = first.duplicate();
    let (stored, file) = vault.append_record(Vec::new(), first).unwrap();
    let records = vault.get_all_passwords(Some(&file)).unwrap();
    assert_eq!(records.len(), 1);
    assert_eq!(records[0].id, stored.id);
    assert_eq!(vault.append_record(records, again).unwrap_err(), VaultError::RandomnessUnavailable);
}
