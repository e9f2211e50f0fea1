use vstd::prelude::*;

verus! {

use crate::clock;
use crate::error::{AppError, AppResult};
use crate::models::User;
use crate::strutil::str_eq;

/// No two records carry the same username: the store is the final arbiter
/// of uniqueness.
pub open spec fn usernames_distinct(s: Seq<User>) -> bool {
    forall|i: int, j: int|
        0 <= i < j < s.len() ==> s[i].username@ != s[j].username@
}

/// Some record carries this username.
pub open spec fn contains_username(s: Seq<User>, name: Seq<char>) -> bool {
    exists|i: int| 0 <= i < s.len() && s[i].username@ == name
}

/// Some record carries this identifier.
pub open spec fn contains_id(s: Seq<User>, id: u128) -> bool {
    exists|i: int| 0 <= i < s.len() && s[i].id == id
}

/// The record carrying this username, when one exists.
pub open spec fn user_named(s: Seq<User>, name: Seq<char>) -> User {
    s[choose|i: int| 0 <= i < s.len() && s[i].username@ == name]
}

/// The record carrying this identifier, when one exists.
pub open spec fn user_with_id(s: Seq<User>, id: u128) -> User {
    s[choose|i: int| 0 <= i < s.len() && s[i].id == id]
}

/// The user-record store: lookup and insert by username, lookup by
/// identifier. Usernames are unique; identifiers are generated by the store
/// and never reused.
pub struct UserRepository {
    pub users: Vec<User>,
    pub next_id: u128,
}

impl UserRepository {
    /// The store invariant: unique usernames, unique identifiers, and every
    /// identifier below the generator's next value.
    pub open spec fn wf(self) -> bool {
        &&& usernames_distinct(self.users@)
        &&& forall|i: int, j: int|
            0 <= i < j < self.users@.len() ==> self.users@[i].id != self.users@[j].id
        &&& forall|i: int| 0 <= i < self.users@.len() ==> self.users@[i].id < self.next_id
    }

    /// An empty store.
    pub fn new() -> (r: Self)
        ensures
            r.wf(),
            r.users@.len() == 0,
    {
        UserRepository { users: Vec::new(), next_id: 1 }
    }

    /// Find the record with this username, if any.
    pub fn find_by_username(&self, username: &str) -> (r: Option<User>)
        ensures
            r matches Some(u) ==> self.users@.contains(u) && u.username@ == username@,
            r is Some <==> contains_username(self.users@, username@),
            self.wf() ==> (r matches Some(u) ==> u == user_named(self.users@, username@)),
    {
        let mut i: usize = 0;
        while i < self.users.len()
            invariant
                0 <= i <= self.users@.len(),
                forall|k: int| 0 <= k < i ==> self.users@[k].username@ != username@,
            decreases self.users@.len() - i,
        {
            if str_eq(self.users[i].username.as_str(), username) {
                let u = self.users[i].clone();
                assert(self.users@.contains(self.users@[i as int]));
                proof {
                    if self.wf() {
                        let w = choose|k: int|
                            0 <= k < self.users@.len() && self.users@[k].username@ == username@;
                        assert(w == i as int);
                    }
                }
                return Some(u);
            }
            i += 1;
        }
        None
    }

    /// Find the record with this identifier, if any.
    pub fn find_by_id(&self, id: u128) -> (r: Option<User>)
        ensures
            r matches Some(u) ==> self.users@.contains(u) && u.id == id,
            r is Some <==> contains_id(self.users@, id),
            self.wf() ==> (r matches Some(u) ==> u == user_with_id(self.users@, id)),
    {
        let mut i: usize = 0;
        while i < self.users.len()
            invariant
                0 <= i <= self.users@.len(),
                forall|k: int| 0 <= k < i ==> self.users@[k].id != id,
            decreases self.users@.len() - i,
        {
            if self.users[i].id == id {
                let u = self.users[i].clone();
                assert(self.users@.contains(self.users@[i as int]));
                proof {
                    if self.wf() {
                        let w = choose|k: int|
                            0 <= k < self.users@.len() && self.users@[k].id == id;
                        assert(w == i as int);
                    }
                }
                return Some(u);
            }
            i += 1;
        }
        None
    }

    /// Whether a record with this username exists.
    pub fn exists_by_username(&self, username: &str) -> (r: bool)
        ensures
            r == contains_username(self.users@, username@),
    {
        self.find_by_username(username).is_some()
    }

    /// Insert a new record with a fresh identifier, in one atomic step.
    /// Fails distinguishably, with a conflict, when the username is taken;
    /// nothing is stored on any failure.
    pub fn create(&mut self, username: &str, password_hash: &str) -> (r: AppResult<User>)
        requires
            old(self).wf(),
        ensures
            final(self).wf(),
            r is Err ==> *final(self) == *old(self),
            r matches Err(e) ==> (e matches AppError::Conflict(_) <==> contains_username(
                old(self).users@,
                username@,
            )),
            contains_username(old(self).users@, username@) ==> r is Err,
            r matches Err(e) ==> e matches AppError::Conflict(_) || e matches AppError::Internal(
                _,
            ),
            r matches Ok(u) ==> {
                &&& !contains_username(old(self).users@, username@)
                &&& final(self).users@ == old(self).users@.push(u)
                &&& u.id == old(self).next_id
                &&& u.username@ == username@
                &&& u.password_hash@ == password_hash@
                &&& final(self).next_id == old(self).next_id + 1
            },
            !contains_username(old(self).users@, username@) && old(self).next_id < u128::MAX
                ==> r is Ok,
    {
        if self.exists_by_username(username) {
            return Err(AppError::Conflict("Username already exists".to_owned()));
        }
        if self.next_id == u128::MAX {
            return Err(AppError::Internal("Identifier space exhausted".to_owned()));
        }
        let created_at = clock::now_unix();
        let user = User {
            id: self.next_id,
            username: username.to_owned(),
            password_hash: password_hash.to_owned(),
            created_at,
        };
        let result = user.clone();
        self.users.push(user);
        self.next_id = self.next_id + 1;
        Ok(result)
    }
}

/// A well-formed store holds at most one record per username: any two
/// positions that agree on the username are the same position.
pub proof fn lemma_username_unique(s: Seq<User>, name: Seq<char>, i: int, j: int)
    requires
        usernames_distinct(s),
        0 <= i < s.len(),
        0 <= j < s.len(),
        s[i].username@ == name,
        s[j].username@ == name,
    ensures
        i == j,
{
}

} // verus!
