use passkeeper::record::Password;
use passkeeper::record_set::{contains_folded, find_by_id, index_of, remove_id, search};

#[test]
fn test_password_creation() {
    let pwd = Password::new(
        "Gmail".to_string(),
        "user@example.com".to_string(),
        "secret123".to_string(),
        Some("https://gmail.com".to_string()),
        Some("Personal email".to_string()),
    )
    .unwrap();

    assert_eq!(pwd.title, "Gmail");
    assert_eq!(pwd.username, "user@example.com");
    assert_eq!(pwd.password, "secret123");
    assert_eq!(pwd.url, Some("https://gmail.com".to_string()));
    assert_eq!(pwd.notes, Some("Personal email".to_string()));
    assert!(!pwd.id.is_empty());
    assert!(pwd.created_at > 0);
    assert_eq!(pwd.created_at, pwd.updated_at);
}

#[test]
fn test_password_unique_ids() {
    let pwd1 = Password::new(
        "Test1".to_string(),
        "user1".to_string(),
        "pass1".to_string(),
        None,
        None,
    )
    .unwrap();

    let pwd2 = Password::new(
        "Test2".to_string(),
        "user2".to_string(),
        "pass2".to_string(),
        None,
        None,
    )
    .unwrap();

    assert_ne!(pwd1.id, pwd2.id);
}

fn record(id: &str, title: &str, username: &str, url: Option<&str>) -> Password {
    Password {
        id: id.to_string(),
        title: title.to_string(),
        username: username.to_string(),
        password: "pw".to_string(),
        url: url.map(|u| u.to_string()),
        notes: None,
        created_at: 100,
        updated_at: 100,
    }
}

#[test]
fn update_keeps_identity_and_stamps_the_later_time() {
    let mut pwd = record("id-1", "Old Title", "old@example.com", None);
    pwd.apply_update(
        "New Title".to_string(),
        "new@example.com".to_string(),
        "newpass".to_string(),
        Some("https://example.com".to_string()),
        Some("Updated notes".to_string()),
        160,
    );
    assert_eq!(pwd.id, "id-1");
    assert_eq!(pwd.title, "New Title");
    assert_eq!(pwd.username, "new@example.com");
    assert_eq!(pwd.password, "newpass");
    assert_eq!(pwd.url, Some("https://example.com".to_string()));
    assert_eq!(pwd.notes, Some("Updated notes".to_string()));
    assert_eq!(pwd.created_at, 100);
    assert_eq!(pwd.updated_at, 160);
}

#[test]
fn update_with_a_clock_behind_creation_keeps_the_creation_time() {
    let mut pwd = record("id-1", "T", "u", None);
    pwd.apply_update("T2".to_string(), "u2".to_string(), "pw2".to_string(), None, None, 40);
    assert_eq!(pwd.updated_at, 100);
    assert_eq!(pwd.title, "T2");
}

#[test]
fn update_by_the_clock_keeps_id_and_creation_time() {
    let mut pwd = Password::new("A".to_string(), "b".to_string(), "c".to_string(), None, None).unwrap();
    let id = pwd.id.clone();
    let created = pwd.created_at;
    pwd.update("X".to_string(), "y".to_string(), "z".to_string(), None, Some("n".to_string()));
    assert_eq!(pwd.id, id);
    assert_eq!(pwd.created_at, created);
    assert!(pwd.updated_at >= created);
    assert_eq!(pwd.title, "X");
    assert_eq!(pwd.notes, Some("n".to_string()));
}

#[test]
fn duplicate_equals_its_source() {
    let pwd = record("id-9", "T", "u", Some("https://x"));
    let copy = pwd.duplicate();
    assert_eq!(copy.id, pwd.id);
    assert_eq!(copy.url, pwd.url);
    assert_eq!(copy.updated_at, pwd.updated_at);
}

#[test]
fn lookup_finds_the_first_record_with_the_id() {
    let records = vec![
        record("a", "First", "u", None),
        record("b", "Second", "u", None),
        record("b", "Third", "u", None),
    ];
    assert_eq!(index_of(&records, "b"), Some(1));
    assert_eq!(index_of(&records, "z"), None);
    assert_eq!(find_by_id(&records, "b").unwrap().title, "Second");
    assert!(find_by_id(&records, "z").is_none());
}

#[test]
fn removing_an_id_drops_every_record_with_it() {
    let records = vec![
        record("a", "First", "u", None),
        record("b", "Second", "u", None),
        record("b", "Third", "u", None),
        record("c", "Fourth", "u", None),
    ];
    let kept = remove_id(&records, "b");
    let titles: Vec<&str> = kept.iter().map(|p| p.title.as_str()).collect();
    assert_eq!(titles, vec!["First", "Fourth"]);
    assert_eq!(remove_id(&records, "z").len(), 4);
}

#[test]
fn search_ignores_case_and_keeps_order() {
    let records = vec![
        record("1", "My Gmail Account", "me", None),
        record("2", "Bank", "alice", Some("https://bank.example")),
        record("3", "Work", "GMAIL-admin", None),
        record("4", "Other", "bob", Some("https://mail.GMAIL.com")),
        record("5", "Nothing", "x", None),
    ];
    let found: Vec<String> = search(&records, "gmail").into_iter().map(|p| p.id).collect();
    assert_eq!(found, vec!["1", "3", "4"]);
    let upper: Vec<String> = search(&records, "GMail").into_iter().map(|p| p.id).collect();
    assert_eq!(upper, vec!["1", "3", "4"]);
    assert_eq!(search(&records, "bank").len(), 1);
    assert_eq!(search(&records, "").len(), 5);
    assert!(search(&records, "zzz").is_empty());
}

#[test]
fn contains_folded_matches_runs_of_characters() {
    assert!(contains_folded("my gmail account", "gmail"));
    assert!(contains_folded("abc", ""));
    assert!(contains_folded("abc", "abc"));
    assert!(!contains_folded("abc", "abcd"));
    assert!(!contains_folded("my gmail account", "Gmail"));
    assert!(contains_folded("ünïcode text", "ïco"));
}

#[test]
fn new_record_id_is_a_version_four_uuid() {
    let pwd = Password::new("A".to_string(), "b".to_string(), "c".to_string(), None, None).unwrap();
    assert_eq!(pwd.id.len(), 36);
    assert_eq!(pwd.id.chars().nth(14), Some('4'));
    assert_eq!(pwd.id.chars().filter(|c| *c == '-').count(), 4);
}

#[test]
fn update_never_moves_the_stamp_back() {
    let mut pwd = record("id-2", "T", "u", None);
    pwd.updated_at = 150;
    pwd.apply_update("T2".to_string(), "u2".to_string(), "pw2".to_string(), None, None, 120);
    assert_eq!(pwd.updated_at, 150);
    pwd.apply_update("T3".to_string(), "u3".to_string(), "pw3".to_string(), None, None, 151);
    assert_eq!(pwd.updated_at, 151);
}

#[test]
fn new_record_id_is_lowercase_hex_with_hyphens() {
    let pwd = Password::new("A".to_string(), "b".to_string(), "c".to_string(), None, None).unwrap();
    for (i, c) in pwd.id.chars().enumerate() {
        if i == 8 || i == 13 || i == 18 || i == 23 {
            assert_eq!(c, '-');
        } else {
            assert!(c.is_ascii_digit() || ('a'..='f').contains(&c));
        }
    }
}
