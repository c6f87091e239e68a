use auth_core::auth::{AuthError, BasicAuth, Status};
use auth_core::models::User;
use auth_core::repository::{InMemoryUserRepo, RepoError, UserRepo};
use auth_core::routes::{authenticated, login, signup, signup_reply};

fn user(email: &str, password: &str) -> User {
    User { email: email.to_string(), password: password.to_string() }
}

#[test]
fn signup_then_the_same_email_again_is_a_conflict() {
    let mut repo = InMemoryUserRepo::new();
    let confirmed = signup(user("a@x.com", "pw1"), &mut repo).unwrap();
    let stored = repo.get_user("a@x.com").unwrap();
    assert_ne!(stored.password, "pw1");
    assert!(stored.verify_password("pw1"));
    assert_eq!(
        confirmed,
        format!("Signed up user: a@x.com\nWith password: {}", stored.password)
    );
    let refused = signup(user("a@x.com", "other"), &mut repo).unwrap_err();
    assert_eq!(refused.status, Status::Conflict);
    assert_eq!(refused.status.code(), 409);
    assert_eq!(refused.message, "User with email a@x.com already exists!");
    assert_eq!(repo.get_user("a@x.com").unwrap().password, stored.password);
}

#[test]
fn login_after_signup_with_a_wrong_password_is_401() {
    let mut repo = InMemoryUserRepo::new();
    assert!(signup(user("a@x.com", "pw1"), &mut repo).is_ok());
    let refused = login(user("a@x.com", "wrong"), &repo, &BasicAuth).unwrap_err();
    assert_eq!(refused.status, Status::Unauthorized);
    assert_eq!(refused.status.code(), 401);
}

#[test]
fn login_after_signup_opens_the_protected_resource() {
    let mut repo = InMemoryUserRepo::new();
    assert!(signup(user("a@x.com", "pw1"), &mut repo).is_ok());
    let welcome = login(user("a@x.com", "pw1"), &repo, &BasicAuth).unwrap();
    assert_eq!(welcome.status, Status::Success);
    assert_eq!(welcome.status.code(), 200);
    assert_eq!(welcome.message, "Welcome back, a@x.com!");
    assert_eq!(welcome.auth_header, "Basic YUB4LmNvbTpwdzE=");
    let known = User::from_request(Some(&BasicAuth), Some(&welcome.auth_header), &repo).unwrap();
    assert_eq!(known.email, "a@x.com");
    assert_eq!(known.password, "pw1");
    assert_eq!(authenticated(known), "You are authenticated!");
}

#[test]
fn the_protected_resource_is_closed_without_a_good_header() {
    let mut repo = InMemoryUserRepo::new();
    assert!(signup(user("a@x.com", "pw1"), &mut repo).is_ok());
    assert_eq!(
        User::from_request(Some(&BasicAuth), None, &repo).unwrap_err(),
        (Status::Unauthorized, AuthError::MissingCredential)
    );
    assert_eq!(
        User::from_request(Some(&BasicAuth), Some("Basic bm90YmFzZTY0"), &repo).unwrap_err(),
        (Status::Unauthorized, AuthError::MalformedCredential)
    );
    assert_eq!(Status::Unauthorized.code(), 401);
}

#[test]
fn a_token_for_an_email_never_signed_up_is_turned_away() {
    let mut repo = InMemoryUserRepo::new();
    assert!(signup(user("a@x.com", "pw1"), &mut repo).is_ok());
    assert_eq!(
        User::from_request(Some(&BasicAuth), Some("Basic Z2hvc3RAeC5jb206cHcx"), &repo)
            .unwrap_err(),
        (Status::Unauthorized, AuthError::Unauthenticated)
    );
}

#[test]
fn login_with_an_unknown_email_is_404() {
    let repo = InMemoryUserRepo::new();
    let refused = login(user("a@x.com", "pw1"), &repo, &BasicAuth).unwrap_err();
    assert_eq!(refused.status.code(), 404);
    assert_eq!(refused.message, "Error logging in: User with email a@x.com not found!");
}

#[test]
fn signup_refuses_an_email_with_a_colon() {
    let mut repo = InMemoryUserRepo::new();
    let refused = signup(user("a:b@x.com", "pw1"), &mut repo).unwrap_err();
    assert_eq!(refused.status, Status::BadRequest);
    assert_eq!(refused.status.code(), 400);
    assert_eq!(refused.message, "Email must not contain a colon!");
    assert!(!repo.user_exists("a:b@x.com"));
}

#[test]
fn signup_takes_a_password_with_a_colon() {
    let mut repo = InMemoryUserRepo::new();
    assert!(signup(user("a@x.com", "p:w"), &mut repo).is_ok());
    assert!(repo.get_user("a@x.com").unwrap().verify_password("p:w"));
}

#[test]
fn signup_reply_words_each_answer_of_the_store() {
    let hashed = user("a@x.com", "$2b$12$hash");
    assert_eq!(
        signup_reply(&hashed, Ok(())).unwrap(),
        "Signed up user: a@x.com\nWith password: $2b$12$hash"
    );
    let taken = signup_reply(&hashed, Err(RepoError::AlreadyExists)).unwrap_err();
    assert_eq!(taken.status, Status::Conflict);
    assert_eq!(taken.message, "User with email a@x.com already exists!");
    let failed = signup_reply(&hashed, Err(RepoError::StoreFailure)).unwrap_err();
    assert_eq!(failed.status, Status::InternalServerError);
    assert_eq!(failed.status.code(), 500);
    assert_eq!(failed.message, "Error creating user: the record could not be stored!");
    let odd = signup_reply(&hashed, Err(RepoError::NotFound)).unwrap_err();
    assert_eq!(odd.status, Status::InternalServerError);
}
