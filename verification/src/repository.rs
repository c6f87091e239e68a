//! The user store: one record per email.
//!
//! A store is changed through `&mut self` only, so whoever shares one between
//! requests holds it behind a lock and every `add_user` runs as one critical
//! section: the test for the email and the insertion cannot be parted.

use crate::models::{User, UserView};
use vstd::hash_map::StringHashMap;
use vstd::prelude::*;

verus! {

/// Why the store refused.
#[derive(Debug, Clone, Copy, PartialEq, Eq, Structural)]
pub enum RepoError {
    /// A record with this email is already stored.
    AlreadyExists,
    /// No record with this email is stored.
    NotFound,
    /// The store could not carry out the write.
    StoreFailure,
}

/// The store after an attempt to add `user`: unchanged where the email is
/// taken, else with the record filed under its email.
pub open spec fn after_add(users: Map<Seq<char>, UserView>, user: UserView) -> Map<
    Seq<char>,
    UserView,
> {
    if users.contains_key(user.email) {
        users
    } else {
        users.insert(user.email, user)
    }
}

/// What a store that never fails answers to an attempt to add `user`.
pub open spec fn add_outcome(users: Map<Seq<char>, UserView>, user: UserView) -> Result<
    (),
    RepoError,
> {
    if users.contains_key(user.email) {
        Err(RepoError::AlreadyExists)
    } else {
        Ok(())
    }
}

/// What a store answers to a lookup of `email`.
pub open spec fn get_outcome(users: Map<Seq<char>, UserView>, email: Seq<char>) -> Result<
    UserView,
    RepoError,
> {
    if users.contains_key(email) {
        Ok(users[email])
    } else {
        Err(RepoError::NotFound)
    }
}

/// Every record is filed under its own email.
pub open spec fn filed_by_email(users: Map<Seq<char>, UserView>) -> bool {
    forall|email: Seq<char>| #[trigger] users.contains_key(email) ==> users[email].email == email
}

/// A store of user records keyed by email.
pub trait UserRepo {
    /// The records held, by email.
    spec fn users(&self) -> Map<Seq<char>, UserView>;

    /// Files `user` under its email unless the email is taken.
    ///
    /// A taken email is always answered with `AlreadyExists`. A write that
    /// goes through files exactly this record; a refused or failed write
    /// leaves the store as it was.
    fn add_user(&mut self, user: User) -> (r: Result<(), RepoError>)
        ensures
            match r {
                Ok(_) => add_outcome(old(self).users(), user@) is Ok && final(self).users()
                    == after_add(old(self).users(), user@),
                Err(e) => final(self).users() == old(self).users() && e != RepoError::NotFound && (e
                    == RepoError::AlreadyExists <==> old(self).users().contains_key(user.email@)),
            },
    ;

    /// Hands out a copy of the record stored for `email`.
    fn get_user(&self, email: &str) -> (r: Result<User, RepoError>)
        ensures
            match r {
                Ok(user) => get_outcome(self.users(), email@) == Ok::<UserView, RepoError>(user@),
                Err(e) => get_outcome(self.users(), email@) == Err::<UserView, RepoError>(e),
            },
    ;

    /// Whether a record is stored for `email`.
    fn user_exists(&self, email: &str) -> (r: bool)
        ensures
            r == self.users().contains_key(email@),
    ;
}

/// A store held in memory, lost when the process ends.
pub struct InMemoryUserRepo {
    records: StringHashMap<User>,
}

impl InMemoryUserRepo {
    /// An empty store.
    pub fn new() -> (r: Self)
        ensures
            r.users() == Map::<Seq<char>, UserView>::empty(),
    {
        let r = InMemoryUserRepo { records: StringHashMap::new() };
        assert(r.users() =~= Map::<Seq<char>, UserView>::empty());
        r
    }
}

impl UserRepo for InMemoryUserRepo {
    closed spec fn users(&self) -> Map<Seq<char>, UserView> {
        self.records@.map_values(|user: User| user@)
    }

    /// Never fails but on a taken email.
    fn add_user(&mut self, user: User) -> (r: Result<(), RepoError>)
        ensures
            r == add_outcome(old(self).users(), user@),
            final(self).users() == after_add(old(self).users(), user@),
    {
        if self.records.contains_key(user.email.as_str()) {
            return Err(RepoError::AlreadyExists);
        }
        let ghost before = self.records@;
        let ghost added = user;
        let key = user.email.clone();
        self.records.insert(key, user);
        proof {
            assert(self.records@ == before.insert(added.email@, added));
            assert(self.users() =~= after_add(old(self).users(), added@));
        }
        Ok(())
    }

    fn get_user(&self, email: &str) -> (r: Result<User, RepoError>) {
        match self.records.get(email) {
            Some(user) => Ok(user.clone()),
            None => Err(RepoError::NotFound),
        }
    }

    fn user_exists(&self, email: &str) -> (r: bool) {
        self.records.contains_key(email)
    }
}

/// Of two attempts to add records with one email, made one after the other
/// in either order, the first succeeds exactly where the email was free, the
/// second is always answered with `AlreadyExists` and changes nothing, and
/// the email ends up with the record of whichever came first.
pub proof fn law_same_email_added_once(
    users: Map<Seq<char>, UserView>,
    first: UserView,
    second: UserView,
)
    requires
        first.email == second.email,
    ensures
        add_outcome(users, first) is Ok <==> !users.contains_key(first.email),
        add_outcome(after_add(users, first), second) == Err::<(), RepoError>(
            RepoError::AlreadyExists,
        ),
        after_add(after_add(users, first), second) == after_add(users, first),
        !users.contains_key(first.email) ==> after_add(users, first)[first.email] == first,
        users.dom().finite() && !users.contains_key(first.email) ==> after_add(
            after_add(users, first),
            second,
        ).len() == users.len() + 1,
{
}

/// Attempts to add records with different emails do not touch each other:
/// each is answered as if the other had not been made, and the store ends up
/// the same in either order. Where both emails were free, both succeed and
/// the store holds both records.
pub proof fn law_distinct_emails_independent(
    users: Map<Seq<char>, UserView>,
    a: UserView,
    b: UserView,
)
    requires
        a.email != b.email,
    ensures
        add_outcome(after_add(users, a), b) == add_outcome(users, b),
        add_outcome(after_add(users, b), a) == add_outcome(users, a),
        after_add(after_add(users, a), b) == after_add(after_add(users, b), a),
        !users.contains_key(a.email) && !users.contains_key(b.email) ==> {
            let both = after_add(after_add(users, a), b);
            &&& add_outcome(users, a) is Ok
            &&& add_outcome(after_add(users, a), b) is Ok
            &&& both.contains_key(a.email) && both[a.email] == a
            &&& both.contains_key(b.email) && both[b.email] == b
        },
{
    assert(after_add(after_add(users, a), b) =~= after_add(after_add(users, b), a));
}

/// An empty store files every record under its own email, and adding a
/// record keeps it so.
pub proof fn law_add_keeps_filing(users: Map<Seq<char>, UserView>, user: UserView)
    ensures
        filed_by_email(Map::<Seq<char>, UserView>::empty()),
        filed_by_email(users) ==> filed_by_email(after_add(users, user)),
{
}

} // verus!
