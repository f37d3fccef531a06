use conlang_studio::models::Failure;
use conlang_studio::sessions::{expiry, session_ttl, SessionStore, SESSION_HOURS};

#[test]
fn a_session_lasts_a_day() {
    assert_eq!(SESSION_HOURS, 24);
    assert_eq!(session_ttl(), 86_400);
}

#[test]
fn expiry_is_a_day_after_use() {
    assert_eq!(expiry(0), 86_400);
    assert_eq!(expiry(1_700_000_000), 1_700_086_400);
    assert_eq!(expiry(-86_400), 0);
    assert_eq!(expiry(i64::MIN), i64::MIN + 86_400);
}

#[test]
fn expiry_stops_at_the_largest_time() {
    assert_eq!(expiry(i64::MAX), i64::MAX);
    assert_eq!(expiry(i64::MAX - 86_400), i64::MAX);
    assert_eq!(expiry(i64::MAX - 86_399), i64::MAX);
    assert_eq!(expiry(i64::MAX - 86_401), i64::MAX - 1);
}

#[test]
fn resolve_after_create_gives_the_account() {
    let mut store = SessionStore::new();
    assert_eq!(store.create("tok-1", 7, "alice", 1_000), Ok(()));
    let who = store.resolve("tok-1", 1_000).unwrap();
    assert_eq!(who.id, 7);
    assert_eq!(who.username, "alice");
}

#[test]
fn resolve_after_destroy_gives_nobody() {
    let mut store = SessionStore::new();
    store.create("tok-1", 7, "alice", 1_000).unwrap();
    store.destroy("tok-1");
    assert!(store.resolve("tok-1", 1_000).is_none());
    assert!(!store.contains("tok-1"));
}

#[test]
fn unknown_token_is_nobody() {
    let mut store = SessionStore::new();
    assert!(store.resolve("tok-1", 0).is_none());
    store.create("tok-1", 7, "alice", 0).unwrap();
    assert!(store.resolve("tok-2", 0).is_none());
    assert!(store.resolve("", 0).is_none());
    assert!(store.resolve("tok-", 0).is_none());
    assert!(store.contains("tok-1"));
}

#[test]
fn token_in_use_is_refused() {
    let mut store = SessionStore::new();
    assert_eq!(store.create("tok-1", 7, "alice", 0), Ok(()));
    assert_eq!(store.create("tok-1", 8, "bob", 0), Err(Failure::TokenInUse));
    let who = store.resolve("tok-1", 1).unwrap();
    assert_eq!((who.id, who.username.as_str()), (7, "alice"));
}

#[test]
fn session_runs_out_after_a_day_without_use() {
    let mut store = SessionStore::new();
    store.create("tok-1", 7, "alice", 1_000).unwrap();
    store.create("tok-2", 7, "alice", 1_000).unwrap();
    assert!(store.resolve("tok-1", 1_000 + 86_399).is_some());
    // the last moment of the second session is one second before its end
    assert!(store.resolve("tok-2", 1_000 + 86_400).is_none());
    // and it does not come back when the clock is set back
    assert!(!store.contains("tok-2"));
    assert!(store.resolve("tok-2", 1_000).is_none());
}

#[test]
fn each_use_renews_the_session() {
    let mut store = SessionStore::new();
    store.create("tok-1", 7, "alice", 0).unwrap();
    assert!(store.resolve("tok-1", 80_000).is_some());
    assert!(store.resolve("tok-1", 160_000).is_some());
    assert!(store.resolve("tok-1", 160_000 + 86_399).is_some());
    assert!(store.resolve("tok-1", 160_000 + 86_399 + 86_400).is_none());
}

#[test]
fn looking_a_token_up_does_not_renew() {
    let mut store = SessionStore::new();
    store.create("tok-1", 7, "alice", 0).unwrap();
    assert!(store.contains("tok-1"));
    assert!(store.resolve("tok-1", 86_400).is_none());
}

#[test]
fn destroy_is_idempotent_and_local() {
    let mut store = SessionStore::new();
    store.create("tok-1", 7, "alice", 0).unwrap();
    store.create("tok-2", 7, "alice", 0).unwrap();
    store.create("tok-3", 8, "bob", 0).unwrap();
    store.destroy("tok-1");
    store.destroy("tok-1");
    store.destroy("never-there");
    assert!(store.resolve("tok-1", 1).is_none());
    let second = store.resolve("tok-2", 1).unwrap();
    assert_eq!((second.id, second.username.as_str()), (7, "alice"));
    let third = store.resolve("tok-3", 1).unwrap();
    assert_eq!((third.id, third.username.as_str()), (8, "bob"));
}

#[test]
fn a_closed_token_can_be_used_again() {
    let mut store = SessionStore::new();
    store.create("tok-1", 7, "alice", 0).unwrap();
    store.destroy("tok-1");
    assert_eq!(store.create("tok-1", 8, "bob", 5), Ok(()));
    assert_eq!(store.resolve("tok-1", 5).unwrap().id, 8);
}

#[test]
fn session_at_the_end_of_time_is_born_dead() {
    let mut store = SessionStore::new();
    store.create("tok-1", 7, "alice", i64::MAX).unwrap();
    assert!(store.resolve("tok-1", i64::MAX).is_none());
    store.create("tok-2", 7, "alice", i64::MAX - 1).unwrap();
    assert!(store.resolve("tok-2", i64::MAX - 1).is_some());
}
