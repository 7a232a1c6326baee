use std::collections::HashSet;

use qinpel_srv::auth::{Access, User};
use qinpel_srv::session::{CLEAN_INTERVAL, Tokens, enter};

fn plain_user(name: &str, pass: &str) -> User {
    User {
        name: name.to_owned(),
        pass: pass.to_owned(),
        home: format!("/home/{}", name),
        lang: "en".to_owned(),
        master: false,
        access: Vec::new(),
    }
}

#[test]
fn token_round_trip() {
    let users = vec![plain_user("alice", "secret")];
    let mut tokens = Tokens::new(1000);
    let logged = enter(&users, &mut tokens, "alice", "secret", 1000).unwrap();
    assert_eq!(logged.lang, "en");
    let authed = tokens.resolve(logged.token.as_str()).unwrap();
    assert_eq!(authed.user, "alice");
    assert_eq!(authed.from, 1000);
}

#[test]
fn wrong_credentials_are_denied() {
    let users = vec![plain_user("alice", "secret")];
    let mut tokens = Tokens::new(0);
    assert!(enter(&users, &mut tokens, "alice", "wrong", 0).is_err());
    assert!(enter(&users, &mut tokens, "bob", "secret", 0).is_err());
    assert_eq!(tokens.entries.len(), 0);
}

#[test]
fn tokens_are_long_random_and_distinct() {
    let mut seen: HashSet<String> = HashSet::new();
    for _ in 0..10_000 {
        let mut tokens = Tokens::new(0);
        let token = tokens.issue("alice".to_owned(), 0);
        assert_eq!(token.chars().count(), 36);
        assert!(token.chars().all(|c| c.is_ascii_alphanumeric()));
        assert!(seen.insert(token), "token issued twice");
    }
    // All tokens share one length, so none can be a proper prefix of
    // another; distinctness rules out the improper case.
}

#[test]
fn expiry_window() {
    let issued: u64 = 5000;
    let mut tokens = Tokens::new(issued);
    tokens.insert("tok".to_owned(), "alice".to_owned(), issued);

    // Still resolvable one second before the interval has fully passed.
    let mut just_before = Tokens::new(issued);
    just_before.insert("tok".to_owned(), "alice".to_owned(), issued);
    just_before.sweep(issued + CLEAN_INTERVAL - 1);
    assert!(just_before.resolve("tok").is_some());

    // A sweep at the interval boundary removes it.
    tokens.sweep(issued + CLEAN_INTERVAL);
    assert!(tokens.resolve("tok").is_none());
}

#[test]
fn lazy_sweep_runs_on_issue() {
    let mut tokens = Tokens::new(0);
    tokens.insert("old".to_owned(), "alice".to_owned(), 0);
    // More than a full interval after the last sweep: issuing triggers the
    // sweep, which evicts the stale session but keeps the fresh one.
    let now = CLEAN_INTERVAL + 1;
    let fresh = tokens.issue("bob".to_owned(), now);
    assert!(tokens.resolve("old").is_none());
    assert!(tokens.resolve(fresh.as_str()).is_some());
    assert_eq!(tokens.last_clean, now);
}

#[test]
fn sweep_not_due_changes_nothing() {
    let mut tokens = Tokens::new(0);
    tokens.insert("tok".to_owned(), "alice".to_owned(), 0);
    tokens.try_sweep(CLEAN_INTERVAL);
    assert!(tokens.resolve("tok").is_some());
    assert_eq!(tokens.last_clean, 0);
}

#[test]
fn revoke_is_idempotent() {
    let mut tokens = Tokens::new(0);
    tokens.insert("tok".to_owned(), "alice".to_owned(), 0);
    tokens.revoke("tok");
    assert!(tokens.resolve("tok").is_none());
    tokens.revoke("tok");
    assert!(tokens.resolve("tok").is_none());
    tokens.revoke("never-there");
}

#[test]
fn insert_replaces_same_token() {
    let mut tokens = Tokens::new(0);
    tokens.insert("tok".to_owned(), "alice".to_owned(), 1);
    tokens.insert("tok".to_owned(), "bob".to_owned(), 2);
    let authed = tokens.resolve("tok").unwrap();
    assert_eq!(authed.user, "bob");
    assert_eq!(authed.from, 2);
    assert_eq!(tokens.entries.len(), 1);
}

#[test]
fn enter_picks_first_matching_user() {
    let mut second = plain_user("alice", "secret");
    second.lang = "pt".to_owned();
    let users = vec![plain_user("alice", "secret"), second];
    let mut tokens = Tokens::new(0);
    let logged = enter(&users, &mut tokens, "alice", "secret", 0).unwrap();
    assert_eq!(logged.lang, "en");
}

#[test]
fn enter_with_grants_keeps_them_out_of_session() {
    let mut user = plain_user("carol", "pw");
    user.access.push(Access::DIR { path: "/home/carol".to_owned(), can_write: true });
    let users = vec![user];
    let mut tokens = Tokens::new(0);
    let logged = enter(&users, &mut tokens, "carol", "pw", 7).unwrap();
    let authed = tokens.resolve(logged.token.as_str()).unwrap();
    assert_eq!(authed.user, "carol");
    assert_eq!(authed.from, 7);
}
