use auth_core::models::{HashError, User, HASH_COST};

fn user(email: &str, password: &str) -> User {
    User { email: email.to_string(), password: password.to_string() }
}

#[test]
fn a_hashed_password_verifies_and_another_does_not() {
    let mut account = user("a@x.com", "pw1");
    assert!(account.hash_password().is_ok());
    assert_eq!(account.email, "a@x.com");
    assert_ne!(account.password, "pw1");
    assert_eq!(account.password.len(), 60);
    assert!(account.password.starts_with("$2b$12$"));
    assert!(account.verify_password("pw1"));
    assert!(!account.verify_password("pw2"));
}

#[test]
fn two_hashes_of_one_password_differ() {
    let mut one = user("a@x.com", "pw1");
    let mut other = user("a@x.com", "pw1");
    assert!(one.hash_password().is_ok());
    assert!(other.hash_password().is_ok());
    assert_ne!(one.password, other.password);
}

#[test]
fn a_known_hash_verifies() {
    let account = user("a@x.com", "$2a$04$UuTkLRZZ6QofpDOlMz32MuuxEHA43WOemOYHPz6.SjsVsyO1tDU96");
    assert!(account.verify_password("password"));
    assert!(!account.verify_password("Password"));
    assert!(!account.verify_password(""));
}

#[test]
fn a_stored_password_that_is_no_hash_matches_nothing() {
    assert!(!user("a@x.com", "pw1").verify_password("pw1"));
    assert!(!user("a@x.com", "").verify_password(""));
    assert!(!user("a@x.com", "$2b$12$tooshort").verify_password("pw1"));
    let bad_cost = "$2b$99$L6Bc/AlTQHyd9liGgGEZyOFLPHNgyxeEPfgYfBCVxJ7JIlwxyVU3u";
    assert!(!user("a@x.com", bad_cost).verify_password("pw1"));
    let not_ascii = "$2b$12$L6Bc/AlTQHyd9liGgGEZyOFLPHNgyxeEPfgYfBCVxJ7JIlwxyVUé";
    assert!(!user("a@x.com", not_ascii).verify_password("pw1"));
}

#[test]
fn passwords_are_hashed_at_cost_twelve() {
    assert_eq!(HASH_COST, 12);
}

#[test]
fn a_hash_that_was_made_takes_the_place_of_the_password() {
    let mut account = user("a@x.com", "pw1");
    assert_eq!(account.keep_hash(Ok("$2b$12$made".to_string())), Ok(()));
    assert_eq!(account.email, "a@x.com");
    assert_eq!(account.password, "$2b$12$made");
}

#[test]
fn a_hash_that_could_not_be_made_leaves_the_record_alone() {
    let mut account = user("a@x.com", "pw1");
    assert_eq!(account.keep_hash(Err(HashError::Unavailable)), Err(HashError::Unavailable));
    assert_eq!(account.email, "a@x.com");
    assert_eq!(account.password, "pw1");
}
