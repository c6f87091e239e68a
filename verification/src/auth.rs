//! Login and per-request verification.
//!
//! A strategy says how a login is answered and how the credential header of a
//! later request is judged. `BasicAuth` is the one strategy here: it hands the
//! client its own email and password back as a token and checks both again on
//! every request, so nothing about a session is kept.

use crate::codec::{
    credentials_of, decode, encode, is_base64_char, joined, law_decode_inverts_encode, token_of,
    token_reads_back,
};
use crate::header::{
    credential_token, is_space, lemma_field_found, read_header, scheme_name, Credential, Header,
};
use crate::models::{password_matches, User, UserView};
use crate::repository::UserRepo;
use crate::text::{compose, free_of_char, lemma_encode_joined};
use vstd::prelude::*;
use vstd::string::*;
use vstd::utf8::*;

verus! {

/// The transport statuses that this library answers with.
#[derive(Debug, Clone, Copy, PartialEq, Eq, Structural)]
pub enum Status {
    Success,
    BadRequest,
    Unauthorized,
    NotFound,
    Conflict,
    InternalServerError,
}

impl Status {
    /// The number of the status.
    pub open spec fn spec_code(self) -> u16 {
        match self {
            Status::Success => 200,
            Status::BadRequest => 400,
            Status::Unauthorized => 401,
            Status::NotFound => 404,
            Status::Conflict => 409,
            Status::InternalServerError => 500,
        }
    }

    /// The number of the status.
    #[verifier::when_used_as_spec(spec_code)]
    pub fn code(self) -> (r: u16)
        ensures
            r == self.spec_code(),
    {
        match self {
            Status::Success => 200,
            Status::BadRequest => 400,
            Status::Unauthorized => 401,
            Status::NotFound => 404,
            Status::Conflict => 409,
            Status::InternalServerError => 500,
        }
    }
}

/// A refusal: a status and a message for the client.
#[derive(Debug)]
pub struct Rejection {
    pub status: Status,
    pub message: String,
}

/// The text of a [`Rejection`].
pub struct RejectionView {
    pub status: Status,
    pub message: Seq<char>,
}

impl View for Rejection {
    type V = RejectionView;

    open spec fn view(&self) -> RejectionView {
        RejectionView { status: self.status, message: self.message@ }
    }
}

/// The answer to a login that succeeded: a status, a message for the body,
/// and the value of the `Authorization` header, which travels apart from the
/// body.
#[derive(Debug)]
pub struct AuthResponse {
    pub status: Status,
    pub message: String,
    pub auth_header: String,
}

/// The text of an [`AuthResponse`].
pub struct AuthResponseView {
    pub status: Status,
    pub message: Seq<char>,
    pub auth_header: Seq<char>,
}

impl View for AuthResponse {
    type V = AuthResponseView;

    open spec fn view(&self) -> AuthResponseView {
        AuthResponseView {
            status: self.status,
            message: self.message@,
            auth_header: self.auth_header@,
        }
    }
}

/// Why a request was not authenticated.
#[derive(Debug, Clone, Copy, PartialEq, Eq, Structural)]
pub enum AuthError {
    /// The request carries no credential header, or an empty one.
    MissingCredential,
    /// The header is not the word `Basic` and one token, or the token does
    /// not decode to an email and a password.
    MalformedCredential,
    /// No account has this email, or the password does not match.
    Unauthenticated,
    /// No strategy is set up for the process.
    MissingStrategy,
}

impl AuthError {
    /// The status that the failure is answered with.
    pub open spec fn spec_status(self) -> Status {
        match self {
            AuthError::MissingCredential => Status::Unauthorized,
            AuthError::MalformedCredential => Status::Unauthorized,
            AuthError::Unauthenticated => Status::Unauthorized,
            AuthError::MissingStrategy => Status::InternalServerError,
        }
    }

    /// The status that the failure is answered with.
    #[verifier::when_used_as_spec(spec_status)]
    pub fn status(self) -> (r: Status)
        ensures
            r == self.spec_status(),
    {
        match self {
            AuthError::MissingCredential => Status::Unauthorized,
            AuthError::MalformedCredential => Status::Unauthorized,
            AuthError::Unauthenticated => Status::Unauthorized,
            AuthError::MissingStrategy => Status::InternalServerError,
        }
    }
}

/// An answer to a login, as text.
pub open spec fn login_view(r: Result<AuthResponse, Rejection>) -> Result<
    AuthResponseView,
    RejectionView,
> {
    match r {
        Ok(response) => Ok(response@),
        Err(rejection) => Err(rejection@),
    }
}

/// The outcome of judging a request, as text.
pub open spec fn request_view(r: Result<User, AuthError>) -> Result<UserView, AuthError> {
    match r {
        Ok(user) => Ok(user@),
        Err(e) => Err(e),
    }
}

/// A header that may be absent, as text.
pub open spec fn header_view(header: Option<&str>) -> Option<Seq<char>> {
    match header {
        Some(text) => Some(text@),
        None => None,
    }
}

/// The value of the `Authorization` header for a token.
pub open spec fn basic_header(token: Seq<char>) -> Seq<char> {
    "Basic "@ + token
}

/// The message that greets `email` after a login.
pub open spec fn welcome_message(email: Seq<char>) -> Seq<char> {
    "Welcome back, "@ + email + "!"@
}

/// The message for a login with an email that has no account.
pub open spec fn unknown_user_message(email: Seq<char>) -> Seq<char> {
    "Error logging in: User with email "@ + email + " not found!"@
}

/// The message for a login with a password that does not match.
pub open spec fn wrong_password_message() -> Seq<char> {
    "Invalid password!"@
}

/// How `BasicAuth` answers a login: an unknown email is not found, a
/// password that does not match the stored hash is unauthorized, and anyone
/// else is greeted and handed the header that carries the token of the pair.
pub open spec fn basic_login_outcome(user: UserView, users: Map<Seq<char>, UserView>) -> Result<
    AuthResponseView,
    RejectionView,
> {
    if !users.contains_key(user.email) {
        Err(RejectionView { status: Status::NotFound, message: unknown_user_message(user.email) })
    } else if !password_matches(user.password, users[user.email].password) {
        Err(RejectionView { status: Status::Unauthorized, message: wrong_password_message() })
    } else {
        Ok(
            AuthResponseView {
                status: Status::Success,
                message: welcome_message(user.email),
                auth_header: basic_header(token_of(user.email, user.password)),
            },
        )
    }
}

/// The pair that a credential header claims, or why it claims none.
pub open spec fn basic_claim(header: Seq<char>) -> Result<UserView, AuthError> {
    match read_header(encode_utf8(header)) {
        Header::Empty => Err(AuthError::MissingCredential),
        Header::Malformed => Err(AuthError::MalformedCredential),
        Header::Token(token) => match credentials_of(decode_utf8(token)) {
            Some(pair) => Ok(pair),
            None => Err(AuthError::MalformedCredential),
        },
    }
}

/// The judgement on a claimed pair: it stands where the store holds the
/// email and the password matches the stored hash.
pub open spec fn judged(pair: UserView, users: Map<Seq<char>, UserView>) -> Result<
    UserView,
    AuthError,
> {
    if users.contains_key(pair.email) && password_matches(
        pair.password,
        users[pair.email].password,
    ) {
        Ok(pair)
    } else {
        Err(AuthError::Unauthenticated)
    }
}

/// How `BasicAuth` judges the credential header of a request.
pub open spec fn basic_request_outcome(
    header: Option<Seq<char>>,
    users: Map<Seq<char>, UserView>,
) -> Result<UserView, AuthError> {
    match header {
        None => Err(AuthError::MissingCredential),
        Some(text) => match basic_claim(text) {
            Ok(pair) => judged(pair, users),
            Err(e) => Err(e),
        },
    }
}

/// The outcome of the request guard: a missing strategy is a fault of the
/// server, a failure of the strategy goes out with its status, and a user
/// passes.
pub open spec fn guard_outcome(judgement: Option<Result<UserView, AuthError>>) -> Result<
    UserView,
    (Status, AuthError),
> {
    match judgement {
        None => Err((Status::InternalServerError, AuthError::MissingStrategy)),
        Some(Ok(user)) => Ok(user),
        Some(Err(e)) => Err((e.spec_status(), e)),
    }
}

/// The outcome of the guard, as text.
pub open spec fn guard_view(r: Result<User, (Status, AuthError)>) -> Result<
    UserView,
    (Status, AuthError),
> {
    match r {
        Ok(user) => Ok(user@),
        Err(e) => Err(e),
    }
}

/// A way to answer logins and to judge later requests.
pub trait Authenticator {
    /// The answer that this strategy owes to a login of `user` against the
    /// records `users`.
    spec fn login_outcome(&self, user: UserView, users: Map<Seq<char>, UserView>) -> Result<
        AuthResponseView,
        RejectionView,
    >;

    /// The outcome that this strategy owes to a request with this credential
    /// header against the records `users`.
    spec fn request_outcome(
        &self,
        header: Option<Seq<char>>,
        users: Map<Seq<char>, UserView>,
    ) -> Result<UserView, AuthError>;

    /// Answers a login.
    fn authenticate<R: UserRepo>(&self, user: User, db_repo: &R) -> (r: Result<
        AuthResponse,
        Rejection,
    >)
        ensures
            login_view(r) == self.login_outcome(user@, db_repo.users()),
    ;

    /// Judges the credential header of a request.
    fn verify<R: UserRepo>(&self, header: Option<&str>, db_repo: &R) -> (r: Result<
        User,
        AuthError,
    >)
        ensures
            request_view(r) == self.request_outcome(header_view(header), db_repo.users()),
    ;
}

/// The strategy that sends `Basic` and the base64 token of `email:password`.
pub struct BasicAuth;

impl Authenticator for BasicAuth {
    open spec fn login_outcome(&self, user: UserView, users: Map<Seq<char>, UserView>) -> Result<
        AuthResponseView,
        RejectionView,
    > {
        basic_login_outcome(user, users)
    }

    open spec fn request_outcome(
        &self,
        header: Option<Seq<char>>,
        users: Map<Seq<char>, UserView>,
    ) -> Result<UserView, AuthError> {
        basic_request_outcome(header, users)
    }

    /// The token in a header handed out reads back as the pair it was made
    /// of.
    fn authenticate<R: UserRepo>(&self, user: User, db_repo: &R) -> (r: Result<
        AuthResponse,
        Rejection,
    >)
        ensures
            r is Ok ==> token_reads_back(user.email@, user.password@),
    {
        let stored = match db_repo.get_user(user.email.as_str()) {
            Ok(stored) => stored,
            Err(_) => {
                return Err(
                    Rejection {
                        status: Status::NotFound,
                        message: compose(
                            "Error logging in: User with email ",
                            user.email.as_str(),
                            " not found!",
                        ),
                    },
                );
            },
        };
        if !stored.verify_password(user.password.as_str()) {
            return Err(
                Rejection {
                    status: Status::Unauthorized,
                    message: String::from_str("Invalid password!"),
                },
            );
        }
        let token = encode(user.email.as_str(), user.password.as_str());
        let mut auth_header = String::from_str("Basic ");
        auth_header.append(token.as_str());
        Ok(
            AuthResponse {
                status: Status::Success,
                message: compose("Welcome back, ", user.email.as_str(), "!"),
                auth_header,
            },
        )
    }

    fn verify<R: UserRepo>(&self, header: Option<&str>, db_repo: &R) -> (r: Result<
        User,
        AuthError,
    >) {
        let text = match header {
            Some(text) => text,
            None => {
                return Err(AuthError::MissingCredential);
            },
        };
        let token = match credential_token(text) {
            Credential::Token(token) => token,
            Credential::Empty => {
                return Err(AuthError::MissingCredential);
            },
            Credential::Malformed => {
                return Err(AuthError::MalformedCredential);
            },
        };
        proof {
            encode_utf8_decode_utf8(token@);
        }
        let user = match decode(token) {
            Ok(user) => user,
            Err(_) => {
                return Err(AuthError::MalformedCredential);
            },
        };
        let stored = match db_repo.get_user(user.email.as_str()) {
            Ok(stored) => stored,
            Err(_) => {
                return Err(AuthError::Unauthenticated);
            },
        };
        if !stored.verify_password(user.password.as_str()) {
            return Err(AuthError::Unauthenticated);
        }
        Ok(user)
    }
}

/// Text made of the word `Basic`, a space and base64 characters is read as
/// a header with that text as its token.
proof fn lemma_basic_header_is_read(token: Seq<char>)
    requires
        token.len() > 0,
        forall|i: int| 0 <= i < token.len() ==> is_base64_char(#[trigger] token[i]),
    ensures
        read_header(encode_utf8(basic_header(token))) == Header::Token(encode_utf8(token)),
{
    reveal_strlit("Basic ");
    let word = seq!['B', 'a', 's', 'i', 'c'];
    let header = basic_header(token);
    assert(header =~= word + seq![' '] + token);
    lemma_encode_joined(word, 0x20, token);
    let bytes = encode_utf8(header);
    assert(is_ascii_chars(word));
    is_ascii_chars_encode_utf8(word);
    assert(encode_utf8(word) =~= scheme_name());
    assert(is_ascii_chars(token));
    is_ascii_chars_encode_utf8(token);
    let tail = encode_utf8(token);
    assert(bytes == scheme_name() + seq![0x20u8] + tail);
    let end = bytes.len() as int;
    assert forall|i: int| 6 <= i < end implies !is_space(#[trigger] bytes[i]) by {
        assert(bytes[i] == tail[i - 6]);
        assert(tail[i - 6] == token[i - 6] as u8);
        assert(is_base64_char(token[i - 6]));
    }
    assert(is_space(bytes[5]));
    lemma_field_found(bytes, 0, 0, 5);
    lemma_field_found(bytes, 5, 6, end);
    assert(bytes.subrange(0, 5) =~= scheme_name());
    assert(bytes.subrange(6, end) =~= tail);
}

/// The header that `BasicAuth` hands out at a login is accepted on a later
/// request for the same user, as long as the store still holds the record
/// that the login was checked against, provided neither the email nor the
/// password holds a colon and the encoder kept its promise, as it does for
/// every header that `authenticate` hands out.
pub proof fn law_login_header_is_accepted(user: UserView, users: Map<Seq<char>, UserView>)
    requires
        basic_login_outcome(user, users) is Ok,
        token_reads_back(user.email, user.password),
        free_of_char(user.email, ':'),
        free_of_char(user.password, ':'),
    ensures
        basic_request_outcome(Some(basic_login_outcome(user, users)->Ok_0.auth_header), users)
            == Ok::<UserView, AuthError>(user),
{
    let token = token_of(user.email, user.password);
    let pair_bytes = encode_utf8(joined(user.email, user.password));
    assert(joined(user.email, user.password).len() > 0);
    assert(pair_bytes.len() > 0) by {
        encode_utf8_decode_utf8(joined(user.email, user.password));
        if pair_bytes.len() == 0 {
            assert(decode_utf8(pair_bytes).len() == 0);
        }
    }
    assert(token.len() > 0);
    lemma_basic_header_is_read(token);
    encode_utf8_decode_utf8(token);
    law_decode_inverts_encode(user.email, user.password);
}

impl User {
    /// The guard before a protected handler: asks the strategy of the
    /// process, if there is one, to judge the request's credential header,
    /// and pairs a failure with the status it goes out with.
    pub fn from_request<A: Authenticator, R: UserRepo>(
        authenticator: Option<&A>,
        header: Option<&str>,
        db_repo: &R,
    ) -> (r: Result<User, (Status, AuthError)>)
        ensures
            guard_view(r) == guard_outcome(
                match authenticator {
                    Some(strategy) => Some(
                        strategy.request_outcome(header_view(header), db_repo.users()),
                    ),
                    None => None,
                },
            ),
    {
        let strategy = match authenticator {
            Some(strategy) => strategy,
            None => {
                return Err((Status::InternalServerError, AuthError::MissingStrategy));
            },
        };
        match strategy.verify(header, db_repo) {
            Ok(user) => Ok(user),
            Err(e) => Err((e.status(), e)),
        }
    }
}

} // verus!
