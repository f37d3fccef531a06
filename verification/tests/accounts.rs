use conlang_studio::db::{create_user, get_password_hash, get_user_by_username, Database};
use conlang_studio::models::Failure;

#[test]
fn first_account_gets_id_one() {
    let mut db = Database::new();
    assert_eq!(create_user(&mut db, "alice", "hash-a"), Ok(1));
    assert_eq!(create_user(&mut db, "bob", "hash-b"), Ok(2));
    assert_eq!(create_user(&mut db, "carol", "hash-c"), Ok(3));
}

#[test]
fn username_is_taken_once() {
    let mut db = Database::new();
    assert_eq!(create_user(&mut db, "alice", "hash-1"), Ok(1));
    assert_eq!(create_user(&mut db, "alice", "hash-2"), Err(Failure::DuplicateUsername));
    assert_eq!(create_user(&mut db, "alice", "hash-1"), Err(Failure::DuplicateUsername));
    // the refused account left nothing behind
    assert_eq!(create_user(&mut db, "bob", "hash-b"), Ok(2));
    assert_eq!(get_password_hash(&db, 1).unwrap(), "hash-1");
}

#[test]
fn usernames_differ_by_case_and_space() {
    let mut db = Database::new();
    assert_eq!(create_user(&mut db, "alice", "h"), Ok(1));
    assert_eq!(create_user(&mut db, "Alice", "h"), Ok(2));
    assert_eq!(create_user(&mut db, "alice ", "h"), Ok(3));
    assert_eq!(create_user(&mut db, "", "h"), Ok(4));
    assert_eq!(create_user(&mut db, "", "h"), Err(Failure::DuplicateUsername));
}

#[test]
fn lookup_by_username() {
    let mut db = Database::new();
    create_user(&mut db, "alice", "hash-a").unwrap();
    create_user(&mut db, "bob", "hash-b").unwrap();
    let bob = get_user_by_username(&db, "bob").unwrap();
    assert_eq!(bob.id, 2);
    assert_eq!(bob.username, "bob");
    let alice = get_user_by_username(&db, "alice").unwrap();
    assert_eq!(alice.id, 1);
    assert_eq!(alice.username, "alice");
}

#[test]
fn lookup_of_unknown_username() {
    let mut db = Database::new();
    assert_eq!(get_user_by_username(&db, "alice").unwrap_err(), Failure::NotFound);
    create_user(&mut db, "alice", "hash-a").unwrap();
    assert_eq!(get_user_by_username(&db, "alic").unwrap_err(), Failure::NotFound);
    assert_eq!(get_user_by_username(&db, "alice2").unwrap_err(), Failure::NotFound);
}

#[test]
fn stored_hash_by_id() {
    let mut db = Database::new();
    create_user(&mut db, "alice", "hash-a").unwrap();
    create_user(&mut db, "bob", "hash-b").unwrap();
    assert_eq!(get_password_hash(&db, 1).unwrap(), "hash-a");
    assert_eq!(get_password_hash(&db, 2).unwrap(), "hash-b");
    assert_eq!(get_password_hash(&db, 0).unwrap_err(), Failure::NotFound);
    assert_eq!(get_password_hash(&db, 3).unwrap_err(), Failure::NotFound);
    assert_eq!(get_password_hash(&db, -1).unwrap_err(), Failure::NotFound);
    assert_eq!(get_password_hash(&db, i64::MAX).unwrap_err(), Failure::NotFound);
    assert_eq!(get_password_hash(&db, i64::MIN).unwrap_err(), Failure::NotFound);
}
