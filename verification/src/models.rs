//! The account record and the password hashing it relies on.

use vstd::prelude::*;

verus! {

/// The error type of the `bcrypt` crate, carried through unopened.
#[verifier::external_type_specification]
#[verifier::external_body]
pub struct ExBcryptError(bcrypt::BcryptError);

/// What `bcrypt::verify` answers for a password and a stored hash: `Some(b)`
/// where it returns `Ok(b)`, `None` where it returns an error (the hash is
/// not a well-formed bcrypt string, or names a cost outside the allowed
/// range).
pub uninterp spec fn bcrypt_answer(password: Seq<char>, hash: Seq<char>) -> Option<bool>;

/// Whether `hash` is a bcrypt hash that `password` verifies against.
pub open spec fn password_matches(password: Seq<char>, hash: Seq<char>) -> bool {
    bcrypt_answer(password, hash) == Some(true)
}

/// Calls `bcrypt::hash`. The salt is drawn from the operating system, so the
/// hash differs from call to call and the call fails when no randomness can
/// be had, or when the cost is not allowed. Claimed of every hash that comes
/// back: it is a version `2b` string of 60 characters that names the cost,
/// and `bcrypt::verify`, which repeats the computation, accepts the password.
#[verifier::external_body]
fn bcrypt_hash(password: &str, cost: u32) -> (r: Result<String, bcrypt::BcryptError>)
    ensures
        r matches Ok(h) ==> is_hash_of(password@, h@, cost),
{
    bcrypt::hash(password, cost)
}

/// Calls `bcrypt::verify`, whose result depends on its two arguments alone.
#[verifier::external_body]
fn bcrypt_verify(password: &str, hash: &str) -> (r: Result<bool, bcrypt::BcryptError>)
    ensures
        match r {
            Ok(b) => bcrypt_answer(password@, hash@) == Some(b),
            Err(_) => bcrypt_answer(password@, hash@) is None,
        },
{
    bcrypt::verify(password, hash)
}

/// An account: the email it is known by and its password.
///
/// The password is plaintext only while a request is being handled; a record
/// that is stored holds the bcrypt hash instead.
#[derive(Debug)]
pub struct User {
    pub email: String,
    pub password: String,
}

/// The text of a [`User`].
pub struct UserView {
    pub email: Seq<char>,
    pub password: Seq<char>,
}

impl View for User {
    type V = UserView;

    open spec fn view(&self) -> UserView {
        UserView { email: self.email@, password: self.password@ }
    }
}

impl Clone for User {
    fn clone(&self) -> (r: Self)
        ensures
            r@ == self@,
    {
        User { email: self.email.clone(), password: self.password.clone() }
    }
}

/// Why a password could not be hashed.
#[derive(Debug, Clone, Copy, PartialEq, Eq, Structural)]
pub enum HashError {
    /// The hashing library reported a failure, such as missing randomness.
    Unavailable,
}

impl User {
    /// Replaces the plaintext password by a salted bcrypt hash of it, made at
    /// the cost [`HASH_COST`]. Whether a hash can be made is up to the
    /// system's randomness. With a hash the record is what [`Self::keep_hash`]
    /// makes of it; without one it is left as it was.
    pub fn hash_password(&mut self) -> (r: Result<(), HashError>)
        ensures
            final(self).email@ == old(self).email@,
            r is Ok ==> is_hash_of(old(self).password@, final(self).password@, HASH_COST),
            r is Ok ==> password_matches(old(self).password@, final(self).password@),
            r is Err ==> final(self).password@ == old(self).password@,
            r is Err ==> r == Err::<(), HashError>(HashError::Unavailable),
    {
        let hashed = match bcrypt_hash(self.password.as_str(), HASH_COST) {
            Ok(hash) => Ok(hash),
            Err(_) => Err(HashError::Unavailable),
        };
        self.keep_hash(hashed)
    }

    /// Takes what hashing the password came to: a hash takes the place of
    /// the password, a failure is passed on and leaves the record as it was.
    pub fn keep_hash(&mut self, hashed: Result<String, HashError>) -> (r: Result<(), HashError>)
        ensures
            final(self).email@ == old(self).email@,
            match hashed {
                Ok(hash) => r is Ok && final(self).password@ == hash@,
                Err(e) => r == Err::<(), HashError>(e) && final(self).password@ == old(
                    self,
                ).password@,
            },
    {
        match hashed {
            Ok(hash) => {
                self.password = hash;
                Ok(())
            },
            Err(e) => Err(e),
        }
    }

    /// Checks a plaintext password against the stored hash.
    ///
    /// A stored password that is no well-formed hash matches nothing.
    pub fn verify_password(&self, password: &str) -> (r: bool)
        ensures
            r == password_matches(password@, self.password@),
    {
        match bcrypt_verify(password, self.password.as_str()) {
            Ok(matches) => matches,
            Err(_) => false,
        }
    }
}

/// The cost that passwords are hashed at: bcrypt does two to the power of
/// the cost rounds of key setup.
pub const HASH_COST: u32 = 12;

/// The decimal digit for a number below ten.
pub open spec fn digit_char(d: u32) -> char {
    if d == 0 {
        '0'
    } else if d == 1 {
        '1'
    } else if d == 2 {
        '2'
    } else if d == 3 {
        '3'
    } else if d == 4 {
        '4'
    } else if d == 5 {
        '5'
    } else if d == 6 {
        '6'
    } else if d == 7 {
        '7'
    } else if d == 8 {
        '8'
    } else {
        '9'
    }
}

/// The shape of a hash that bcrypt writes at `cost`: `$2b$`, the cost in two
/// digits, `$`, and 53 characters of salt and digest.
pub open spec fn is_hash_at_cost(hash: Seq<char>, cost: u32) -> bool {
    &&& hash.len() == 60
    &&& hash[0] == '$'
    &&& hash[1] == '2'
    &&& hash[2] == 'b'
    &&& hash[3] == '$'
    &&& hash[4] == digit_char(cost / 10)
    &&& hash[5] == digit_char(cost % 10)
    &&& hash[6] == '$'
}

/// `hash` is what hashing `password` at `cost` can come to: a hash of that
/// shape which the password verifies against.
pub open spec fn is_hash_of(password: Seq<char>, hash: Seq<char>, cost: u32) -> bool {
    &&& is_hash_at_cost(hash, cost)
    &&& bcrypt_answer(password, hash) == Some(true)
}

} // verus!
