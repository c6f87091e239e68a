//! What the three endpoints decide: signup, login, and the protected
//! resource.

use crate::auth::{
    basic_login_outcome, AuthResponse, Authenticator, Rejection, RejectionView, Status,
};
use crate::codec::SEPARATOR;
use crate::models::{password_matches, User, UserView};
use crate::repository::{after_add, RepoError, UserRepo};
use crate::text::{compose, find_byte, free_of_char, lemma_free_of_ascii};
use vstd::prelude::*;
use vstd::string::*;

verus! {

/// The confirmation for a new account, which shows the hash that was stored.
pub open spec fn signed_up_message(email: Seq<char>, hash: Seq<char>) -> Seq<char> {
    "Signed up user: "@ + email + "\nWith password: "@ + hash
}

/// The refusal of an email that holds a colon: such an email could never be
/// told apart from the password inside a token.
pub open spec fn invalid_email() -> RejectionView {
    RejectionView { status: Status::BadRequest, message: "Email must not contain a colon!"@ }
}

/// The refusal of a password that could not be hashed.
pub open spec fn hashing_failed() -> RejectionView {
    RejectionView {
        status: Status::InternalServerError,
        message: "Error creating user: the password could not be hashed!"@,
    }
}

/// The refusal of an email that is taken.
pub open spec fn email_taken(email: Seq<char>) -> RejectionView {
    RejectionView {
        status: Status::Conflict,
        message: "User with email "@ + email + " already exists!"@,
    }
}

/// The refusal after a write that the store could not carry out.
pub open spec fn store_failed() -> RejectionView {
    RejectionView {
        status: Status::InternalServerError,
        message: "Error creating user: the record could not be stored!"@,
    }
}

/// The reply to a signup once the store has answered: a confirmation after a
/// write, a conflict for a taken email, a server fault for anything else.
pub open spec fn signup_outcome(user: UserView, answer: Result<(), RepoError>) -> Result<
    Seq<char>,
    RejectionView,
> {
    match answer {
        Ok(_) => Ok(signed_up_message(user.email, user.password)),
        Err(RepoError::AlreadyExists) => Err(email_taken(user.email)),
        Err(_) => Err(store_failed()),
    }
}

/// A reply to a signup, as text.
pub open spec fn reply_view(r: Result<String, Rejection>) -> Result<Seq<char>, RejectionView> {
    match r {
        Ok(message) => Ok(message@),
        Err(rejection) => Err(rejection@),
    }
}

/// Words the reply to a signup from what the store answered to the attempt
/// to add `user`, whose password is hashed by now.
pub fn signup_reply(user: &User, answer: Result<(), RepoError>) -> (r: Result<String, Rejection>)
    ensures
        reply_view(r) == signup_outcome(user@, answer),
{
    match answer {
        Ok(_) => {
            let mut message = compose("Signed up user: ", user.email.as_str(), "\nWith password: ");
            message.append(user.password.as_str());
            Ok(message)
        },
        Err(RepoError::AlreadyExists) => Err(
            Rejection {
                status: Status::Conflict,
                message: compose("User with email ", user.email.as_str(), " already exists!"),
            },
        ),
        Err(_) => Err(
            Rejection {
                status: Status::InternalServerError,
                message: String::from_str("Error creating user: the record could not be stored!"),
            },
        ),
    }
}

/// Creates an account: the password is hashed and the record is stored
/// under the email.
///
/// An email with a colon in it is refused before anything else. Hashing
/// draws on the system's randomness and the store may fail to write, so a
/// server fault can come back for any other input; short of that, a free
/// email is confirmed and a taken one is a conflict. Only a confirmed signup
/// changes the store, and the record it adds holds a hash that the password
/// verifies against.
pub fn signup<R: UserRepo>(user: User, db_repo: &mut R) -> (r: Result<String, Rejection>)
    ensures
        !free_of_char(user.email@, ':') ==> reply_view(r) == Err::<Seq<char>, RejectionView>(
            invalid_email(),
        ),
        match r {
            Ok(message) => {
                let stored = final(db_repo).users()[user.email@];
                &&& free_of_char(user.email@, ':')
                &&& stored.email == user.email@
                &&& password_matches(user.password@, stored.password)
                &&& !old(db_repo).users().contains_key(user.email@)
                &&& final(db_repo).users() == old(db_repo).users().insert(user.email@, stored)
                &&& message@ == signed_up_message(user.email@, stored.password)
            },
            Err(rejection) => {
                &&& final(db_repo).users() == old(db_repo).users()
                &&& free_of_char(user.email@, ':') ==> {
                    ||| rejection@ == hashing_failed()
                    ||| rejection@ == store_failed() && !old(db_repo).users().contains_key(
                        user.email@,
                    )
                    ||| rejection@ == email_taken(user.email@) && old(db_repo).users().contains_key(
                        user.email@,
                    )
                }
            },
        },
{
    let mut new_user = user;
    let found = find_byte(new_user.email.as_str().as_bytes(), 0, SEPARATOR);
    proof {
        let bytes = vstd::utf8::encode_utf8(new_user.email@);
        assert(bytes.subrange(0, bytes.len() as int) =~= bytes);
        lemma_free_of_ascii(new_user.email@, SEPARATOR);
    }
    if found.is_some() {
        return Err(
            Rejection {
                status: Status::BadRequest,
                message: String::from_str("Email must not contain a colon!"),
            },
        );
    }
    if new_user.hash_password().is_err() {
        return Err(
            Rejection {
                status: Status::InternalServerError,
                message: String::from_str(
                    "Error creating user: the password could not be hashed!",
                ),
            },
        );
    }
    if db_repo.user_exists(new_user.email.as_str()) {
        return Err(
            Rejection {
                status: Status::Conflict,
                message: compose("User with email ", new_user.email.as_str(), " already exists!"),
            },
        );
    }
    let answer = db_repo.add_user(new_user.clone());
    signup_reply(&new_user, answer)
}

/// Answers a login with the strategy of the process.
pub fn login<R: UserRepo, A: Authenticator>(user: User, db_repo: &R, auth: &A) -> (r: Result<
    AuthResponse,
    Rejection,
>)
    ensures
        crate::auth::login_view(r) == auth.login_outcome(user@, db_repo.users()),
{
    auth.authenticate(user, db_repo)
}

/// The body of the protected resource, for a user who passed the guard.
pub fn authenticated(_user: User) -> (r: &'static str)
    ensures
        r@ == "You are authenticated!"@,
{
    "You are authenticated!"
}

/// Whoever holds a record whose hash their password verifies against is let
/// in by `BasicAuth`: a login right after a confirmed signup with the same
/// email and password succeeds.
pub proof fn law_login_after_signup(user: UserView, users: Map<Seq<char>, UserView>)
    requires
        users.contains_key(user.email),
        password_matches(user.password, users[user.email].password),
    ensures
        basic_login_outcome(user, users) is Ok,
        basic_login_outcome(user, users)->Ok_0.status == Status::Success,
{
}

/// A second signup with an email that was just confirmed is a conflict, as
/// far as the store is asked at all.
pub proof fn law_second_signup_conflicts(
    users: Map<Seq<char>, UserView>,
    first: UserView,
    second: UserView,
)
    requires
        first.email == second.email,
        !users.contains_key(first.email),
    ensures
        signup_outcome(second, crate::repository::add_outcome(after_add(users, first), second))
            == Err::<Seq<char>, RejectionView>(email_taken(second.email)),
{
}

} // verus!
