use relay_hub::{AuthError, AuthStore, TOKEN_LEN};

#[test]
fn authorize_levels() {
    let mut store = AuthStore::new("ADMIN".to_string());
    assert_eq!(store.mint("ADMIN", "user1".to_string()), Ok("user1".to_string()));
    assert!(store.authorize("ADMIN", true));
    assert!(store.authorize("ADMIN", false));
    assert!(!store.authorize("user1", true));
    assert!(store.authorize("user1", false));
    assert!(!store.authorize("nobody", false));
    assert!(!store.authorize("nobody", true));
}

#[test]
fn mint_by_non_admin_is_unauthorized_and_inserts_nothing() {
    let mut store = AuthStore::new("ADMIN".to_string());
    store.mint("ADMIN", "user1".to_string()).unwrap();
    assert_eq!(store.mint("user1", "user2".to_string()), Err(AuthError::Unauthorized));
    assert!(!store.authorize("user2", false));
    assert_eq!(store.mint("unknown", "user3".to_string()), Err(AuthError::Unauthorized));
    assert!(!store.authorize("user3", false));
}

#[test]
fn mint_of_existing_code_is_refused() {
    let mut store = AuthStore::new("ADMIN".to_string());
    assert_eq!(store.mint("ADMIN", "ADMIN".to_string()), Err(AuthError::CodeInUse));
    assert!(store.authorize("ADMIN", true));
    store.mint("ADMIN", "u".to_string()).unwrap();
    assert_eq!(store.mint("ADMIN", "u".to_string()), Err(AuthError::CodeInUse));
}

#[test]
fn mint_random_draws_alphanumeric_code() {
    let mut store = AuthStore::new("ADMIN".to_string());
    let code = store.mint_random("ADMIN").unwrap();
    assert_eq!(code.chars().count(), TOKEN_LEN);
    assert!(code.chars().all(|c| c.is_ascii_alphanumeric()));
    assert!(store.authorize(&code, false));
    assert!(!store.authorize(&code, true));
    assert_eq!(store.mint_random(&code), Err(AuthError::Unauthorized));
}

#[test]
fn new_random_admin_code() {
    let store = AuthStore::new_random();
    let admin = store.admin().clone();
    assert_eq!(admin.chars().count(), TOKEN_LEN);
    assert!(admin.chars().all(|c| c.is_ascii_alphanumeric()));
    assert!(store.authorize(&admin, true));
}

#[test]
fn revoke_removes_only_non_admin_tokens() {
    let mut store = AuthStore::new("ADMIN".to_string());
    store.mint("ADMIN", "a".to_string()).unwrap();
    store.mint("ADMIN", "b".to_string()).unwrap();
    assert_eq!(store.revoke_non_admin("a"), Err(AuthError::Unauthorized));
    assert!(store.authorize("a", false));
    assert_eq!(store.revoke_non_admin("ADMIN"), Ok(()));
    assert!(!store.authorize("a", false));
    assert!(!store.authorize("b", false));
    assert!(store.authorize("ADMIN", true));
}
