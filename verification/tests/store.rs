use auth_core::models::User;
use auth_core::repository::{InMemoryUserRepo, RepoError, UserRepo};

fn user(email: &str, password: &str) -> User {
    User { email: email.to_string(), password: password.to_string() }
}

#[test]
fn a_new_store_is_empty() {
    let repo = InMemoryUserRepo::new();
    assert!(!repo.user_exists("a@x.com"));
    assert_eq!(repo.get_user("a@x.com").unwrap_err(), RepoError::NotFound);
}

#[test]
fn an_added_record_is_found() {
    let mut repo = InMemoryUserRepo::new();
    assert_eq!(repo.add_user(user("a@x.com", "hash-a")), Ok(()));
    assert!(repo.user_exists("a@x.com"));
    let found = repo.get_user("a@x.com").unwrap();
    assert_eq!(found.email, "a@x.com");
    assert_eq!(found.password, "hash-a");
}

#[test]
fn the_second_record_with_an_email_is_refused() {
    let mut repo = InMemoryUserRepo::new();
    assert_eq!(repo.add_user(user("a@x.com", "first")), Ok(()));
    assert_eq!(repo.add_user(user("a@x.com", "second")), Err(RepoError::AlreadyExists));
    assert_eq!(repo.get_user("a@x.com").unwrap().password, "first");
}

#[test]
fn whichever_comes_first_wins_the_email() {
    let mut repo = InMemoryUserRepo::new();
    assert_eq!(repo.add_user(user("a@x.com", "second")), Ok(()));
    assert_eq!(repo.add_user(user("a@x.com", "first")), Err(RepoError::AlreadyExists));
    assert_eq!(repo.get_user("a@x.com").unwrap().password, "second");
}

#[test]
fn records_with_different_emails_do_not_meet() {
    let mut one = InMemoryUserRepo::new();
    assert_eq!(one.add_user(user("a@x.com", "hash-a")), Ok(()));
    assert_eq!(one.add_user(user("b@x.com", "hash-b")), Ok(()));
    let mut other = InMemoryUserRepo::new();
    assert_eq!(other.add_user(user("b@x.com", "hash-b")), Ok(()));
    assert_eq!(other.add_user(user("a@x.com", "hash-a")), Ok(()));
    for repo in [&one, &other] {
        assert_eq!(repo.get_user("a@x.com").unwrap().password, "hash-a");
        assert_eq!(repo.get_user("b@x.com").unwrap().password, "hash-b");
        assert!(!repo.user_exists("c@x.com"));
    }
}

#[test]
fn emails_are_told_apart_by_case() {
    let mut repo = InMemoryUserRepo::new();
    assert_eq!(repo.add_user(user("a@x.com", "lower")), Ok(()));
    assert!(!repo.user_exists("A@x.com"));
    assert_eq!(repo.add_user(user("A@x.com", "upper")), Ok(()));
    assert_eq!(repo.get_user("a@x.com").unwrap().password, "lower");
    assert_eq!(repo.get_user("A@x.com").unwrap().password, "upper");
}

#[test]
fn a_copy_handed_out_does_not_reach_the_store() {
    let mut repo = InMemoryUserRepo::new();
    assert_eq!(repo.add_user(user("a@x.com", "hash-a")), Ok(()));
    let mut copy = repo.get_user("a@x.com").unwrap();
    copy.password.push_str("-changed");
    copy.email.clear();
    assert_eq!(repo.get_user("a@x.com").unwrap().password, "hash-a");
}

#[test]
fn a_clone_of_a_user_holds_the_same_text() {
    let account = user("a@x.com", "pw1");
    let copy = account.clone();
    assert_eq!(copy.email, "a@x.com");
    assert_eq!(copy.password, "pw1");
}
