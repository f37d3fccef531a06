use conlang_studio::db::{get_password_hash, get_user_by_username, Database};
use conlang_studio::models::{AuthPayload, Failure};
use conlang_studio::service::{complete_registration, identify, login, register};
use conlang_studio::sessions::SessionStore;

const SALT: &str = "c29tZXNhbHRzb21lc2FsdA";
const OTHER_SALT: &str = "b3RoZXJzYWx0b3RoZXJzYQ";

fn payload(username: &str, password: &str) -> AuthPayload {
    AuthPayload { username: username.to_string(), password: password.to_string() }
}

#[test]
fn register_alice_then_alice_again() {
    let mut db = Database::new();
    let mut sessions = SessionStore::new();
    let first = register(&mut db, &mut sessions, &payload("alice", "pw1"), SALT, "t1", 10);
    assert_eq!(first, Ok("t1".to_string()));
    let second = register(&mut db, &mut sessions, &payload("alice", "pw2"), OTHER_SALT, "t2", 11);
    assert_eq!(second, Err(Failure::DuplicateUsername));
    assert!(identify(&mut sessions, Some("t2"), 11).is_none());
    let who = identify(&mut sessions, Some("t1"), 11).unwrap();
    assert_eq!((who.id, who.username.as_str()), (1, "alice"));
}

#[test]
fn register_stores_a_hash_and_not_the_password() {
    let mut db = Database::new();
    let mut sessions = SessionStore::new();
    register(&mut db, &mut sessions, &payload("alice", "pw1"), SALT, "t1", 10).unwrap();
    let hash = get_password_hash(&db, 1).unwrap();
    assert_ne!(hash, "pw1");
    assert!(!hash.contains("pw1"));
    assert!(hash.starts_with("$argon2id$v=19$m=19456,t=2,p=1$c29tZXNhbHRzb21lc2FsdA$"));
    // the digest is thirty-two bytes, written in base 64 without padding
    assert_eq!(hash.rsplit('$').next().unwrap().len(), 43);
}

#[test]
fn hash_goes_by_password_and_salt() {
    let mut db = Database::new();
    let mut sessions = SessionStore::new();
    register(&mut db, &mut sessions, &payload("a", "pw1"), SALT, "t1", 10).unwrap();
    register(&mut db, &mut sessions, &payload("b", "pw1"), SALT, "t2", 10).unwrap();
    register(&mut db, &mut sessions, &payload("c", "pw1"), OTHER_SALT, "t3", 10).unwrap();
    register(&mut db, &mut sessions, &payload("d", "pw2"), SALT, "t4", 10).unwrap();
    let a = get_password_hash(&db, 1).unwrap();
    let b = get_password_hash(&db, 2).unwrap();
    let c = get_password_hash(&db, 3).unwrap();
    let d = get_password_hash(&db, 4).unwrap();
    assert_eq!(a, b);
    assert_ne!(a, c);
    assert_ne!(a, d);
}

#[test]
fn login_with_the_password_of_the_registration() {
    let mut db = Database::new();
    let mut sessions = SessionStore::new();
    register(&mut db, &mut sessions, &payload("alice", "pw1"), SALT, "t1", 10).unwrap();
    let r = login(&db, &mut sessions, &payload("alice", "pw1"), "t2", 20);
    assert_eq!(r, Ok("t2".to_string()));
    let who = identify(&mut sessions, Some("t2"), 20).unwrap();
    assert_eq!((who.id, who.username.as_str()), (1, "alice"));
}

#[test]
fn login_with_wrong_password_or_unknown_name() {
    let mut db = Database::new();
    let mut sessions = SessionStore::new();
    register(&mut db, &mut sessions, &payload("alice", "pw1"), SALT, "t1", 10).unwrap();
    let wrong = login(&db, &mut sessions, &payload("alice", "wrongpw"), "t2", 20);
    assert_eq!(wrong, Err(Failure::InvalidCredentials));
    let unknown = login(&db, &mut sessions, &payload("nonexistent", "anything"), "t3", 20);
    assert_eq!(unknown, Err(Failure::InvalidCredentials));
    assert_eq!(wrong, unknown);
    assert!(!sessions.contains("t2"));
    assert!(!sessions.contains("t3"));
}

#[test]
fn passwords_are_told_apart_exactly() {
    let mut db = Database::new();
    let mut sessions = SessionStore::new();
    register(&mut db, &mut sessions, &payload("alice", "pw1"), SALT, "t1", 10).unwrap();
    for wrong in ["", "pw", "pw11", "PW1", " pw1", "pw1 ", "pw2"] {
        let r = login(&db, &mut sessions, &payload("alice", wrong), "t2", 20);
        assert_eq!(r, Err(Failure::InvalidCredentials));
    }
}

#[test]
fn password_of_one_account_does_not_open_another() {
    let mut db = Database::new();
    let mut sessions = SessionStore::new();
    register(&mut db, &mut sessions, &payload("alice", "pw-a"), SALT, "t1", 10).unwrap();
    register(&mut db, &mut sessions, &payload("bob", "pw-b"), OTHER_SALT, "t2", 10).unwrap();
    let r = login(&db, &mut sessions, &payload("bob", "pw-a"), "t3", 20);
    assert_eq!(r, Err(Failure::InvalidCredentials));
    let r = login(&db, &mut sessions, &payload("bob", "pw-b"), "t3", 20);
    assert_eq!(r, Ok("t3".to_string()));
    assert_eq!(identify(&mut sessions, Some("t3"), 20).unwrap().id, 2);
}

#[test]
fn stored_text_that_is_no_hash_matches_nothing() {
    let mut db = Database::new();
    let mut sessions = SessionStore::new();
    let alice = payload("alice", "pw1");
    complete_registration(&mut db, &mut sessions, &alice, "pw1", "t1", 10).unwrap();
    let empty = payload("eve", "");
    complete_registration(&mut db, &mut sessions, &empty, "", "t2", 10).unwrap();
    assert_eq!(login(&db, &mut sessions, &alice, "t3", 20), Err(Failure::InvalidCredentials));
    assert_eq!(login(&db, &mut sessions, &empty, "t3", 20), Err(Failure::InvalidCredentials));
}

#[test]
fn login_with_a_taken_token() {
    let mut db = Database::new();
    let mut sessions = SessionStore::new();
    register(&mut db, &mut sessions, &payload("alice", "pw1"), SALT, "t1", 10).unwrap();
    let r = login(&db, &mut sessions, &payload("alice", "pw1"), "t1", 20);
    assert_eq!(r, Err(Failure::TokenInUse));
}

#[test]
fn salt_that_is_no_salt_fails_the_hashing() {
    let mut db = Database::new();
    let mut sessions = SessionStore::new();
    // too short to be one, not base 64, and base 64 of seven bytes
    for salt in ["", "abc", "not a salt, not base 64!", "c2V2ZW5ieQ"] {
        let r = register(&mut db, &mut sessions, &payload("alice", "pw1"), salt, "t1", 10);
        assert_eq!(r, Err(Failure::Hashing));
    }
    assert_eq!(get_user_by_username(&db, "alice").unwrap_err(), Failure::NotFound);
    assert!(!sessions.contains("t1"));
    // eight bytes are enough
    let r = register(&mut db, &mut sessions, &payload("alice", "pw1"), "c29tZXNhbHQ", "t1", 10);
    assert_eq!(r, Ok("t1".to_string()));
}

#[test]
fn long_and_odd_passwords() {
    let mut db = Database::new();
    let mut sessions = SessionStore::new();
    let long = "x".repeat(200);
    register(&mut db, &mut sessions, &payload("a", &long), SALT, "t1", 10).unwrap();
    register(&mut db, &mut sessions, &payload("b", "pä\u{0}ss 🔑"), SALT, "t2", 10).unwrap();
    register(&mut db, &mut sessions, &payload("c", ""), SALT, "t3", 10).unwrap();
    assert!(login(&db, &mut sessions, &payload("a", &long), "u1", 20).is_ok());
    assert!(login(&db, &mut sessions, &payload("a", &long[..199]), "u2", 20).is_err());
    assert!(login(&db, &mut sessions, &payload("b", "pä\u{0}ss 🔑"), "u3", 20).is_ok());
    assert!(login(&db, &mut sessions, &payload("b", "pä"), "u4", 20).is_err());
    assert!(login(&db, &mut sessions, &payload("c", ""), "u5", 20).is_ok());
}
