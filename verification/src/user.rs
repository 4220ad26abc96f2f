//! Users: lookup by name or id, registration with a bcrypt-hashed password,
//! and password authentication.

use vstd::prelude::*;
use crate::directory::{Directory, member_rows, str_eq};
use crate::errors::ShopError;

verus! {

/// Shortest username accepted by [`NewUser::validate`].
pub const MIN_USERNAME_LENGTH: u8 = 5;

/// Shortest password accepted by [`NewUser::validate`].
pub const MIN_PASSWORD_LENGTH: u8 = 8;

/// One user row; `password` holds the bcrypt hash, never the clear text.
#[derive(Debug)]
pub struct User {
    pub id: String,
    pub username: String,
    pub password: String,
}

impl Clone for User {
    fn clone(&self) -> (r: Self)
        ensures
            r == *self,
    {
        User {
            id: self.id.clone(),
            username: self.username.clone(),
            password: self.password.clone(),
        }
    }
}

/// What `bcrypt::verify` decides for a password against a bcrypt hash:
/// `Some(true)` when they match, `Some(false)` when they do not, `None` when
/// the hash cannot be read. The cost and salt sit inside the hash string, so
/// the verdict is a function of the two arguments alone.
pub uninterp spec fn bcrypt_verdict(password: Seq<char>, hashed: Seq<char>) -> Option<bool>;

/// Relies on `bcrypt::verify`: it re-derives the hash from `password` and
/// the cost and salt stored in `hashed` and compares; the error text is the
/// bcrypt error's own message.
#[verifier::external_body]
fn bcrypt_check(password: &str, hashed: &str) -> (r: Result<bool, String>)
    ensures
        r is Ok <==> bcrypt_verdict(password@, hashed@) is Some,
        r is Ok ==> Some(r->Ok_0) == bcrypt_verdict(password@, hashed@),
{
    bcrypt::verify(password, hashed).map_err(|e| e.to_string())
}

/// Relies on `bcrypt::hash` with the crate's default cost: the salt is drawn
/// fresh from the OS, so the hash itself is nondeterministic, but any hash
/// it returns is re-derived by `bcrypt::verify` from the same password, cost
/// and salt, and so verifies as a match.
#[verifier::external_body]
fn bcrypt_hash(password: &str) -> (r: Result<String, String>)
    ensures
        r is Ok ==> bcrypt_verdict(password@, r->Ok_0@) == Some(true),
{
    bcrypt::hash(password, bcrypt::DEFAULT_COST).map_err(|e| e.to_string())
}

impl User {
    /// The user row carrying `username`, or `NotFoundError` when none does.
    pub fn get_by_username(dir: &Directory, username: &str) -> (r: Result<User, ShopError>)
        requires
            dir.wf(),
        ensures
            r is Ok <==> dir.spec_has_username(username@),
            r is Ok ==> r->Ok_0 == dir.spec_user_by_username(username@),
            r is Err ==> r->Err_0 is NotFoundError,
    {
        let n = dir.users.len();
        let mut i: usize = 0;
        while i < n
            invariant
                i <= n,
                n == dir.users@.len(),
                dir.wf(),
                forall|k: int| 0 <= k < i ==> dir.users@[k].username@ != username@,
            decreases n - i,
        {
            if str_eq(dir.users[i].username.as_str(), username) {
                proof {
                    assert(dir.spec_has_username(username@));
                    let j = choose|j: int|
                        0 <= j < dir.users@.len() && dir.users@[j].username@ == username@;
                    assert(j == i as int);
                }
                return Ok(dir.users[i].clone());
            }
            i += 1;
        }
        Err(ShopError::NotFoundError("Record not found".to_owned()))
    }

    /// The username of the user row whose id is `id`, or `NotFoundError`.
    pub fn get_username(dir: &Directory, id: &str) -> (r: Result<String, ShopError>)
        requires
            dir.wf(),
        ensures
            r is Ok <==> dir.spec_has_user_id(id@),
            r is Ok ==> r->Ok_0@ == dir.spec_user_by_id(id@).username@,
            r is Err ==> r->Err_0 is NotFoundError,
    {
        let n = dir.users.len();
        let mut i: usize = 0;
        while i < n
            invariant
                i <= n,
                n == dir.users@.len(),
                dir.wf(),
                forall|k: int| 0 <= k < i ==> dir.users@[k].id@ != id@,
            decreases n - i,
        {
            if str_eq(dir.users[i].id.as_str(), id) {
                proof {
                    assert(dir.spec_has_user_id(id@));
                    let j = choose|j: int| 0 <= j < dir.users@.len() && dir.users@[j].id@ == id@;
                    assert(j == i as int);
                }
                return Ok(dir.users[i].username.clone());
            }
            i += 1;
        }
        Err(ShopError::NotFoundError("Record not found".to_owned()))
    }

    /// Whether no user row carries `username` yet.
    fn is_available_username(dir: &Directory, username: &str) -> (r: bool)
        requires
            dir.wf(),
        ensures
            r == !dir.spec_has_username(username@),
    {
        let result = User::get_by_username(dir, username);
        if result.is_err() {
            return true;
        }
        return false;
    }

    /// Checks the password of the user registered under `username`: the user
    /// row when the stored hash matches, `NotFoundError` when the username
    /// is unknown, `NoPermission` when the password does not match, and
    /// `BcryptError` when the stored hash cannot be read. (Token issuance is
    /// the host's affair.)
    pub fn authenticate(dir: &Directory, username: &str, password: &str) -> (r: Result<
        User,
        ShopError,
    >)
        requires
            dir.wf(),
        ensures
            !dir.spec_has_username(username@) ==> r is Err && r->Err_0 is NotFoundError,
            dir.spec_has_username(username@) ==> (match bcrypt_verdict(
                password@,
                dir.spec_user_by_username(username@).password@,
            ) {
                Some(true) => r is Ok && r->Ok_0 == dir.spec_user_by_username(username@),
                Some(false) => r is Err && r->Err_0 is NoPermission,
                None => r is Err && r->Err_0 is BcryptError,
            }),
    {
        let user = match User::get_by_username(dir, username) {
            Ok(u) => u,
            Err(e) => {
                return Err(e);
            },
        };
        match bcrypt_check(password, user.password.as_str()) {
            Ok(true) => Ok(user),
            Ok(false) => Err(ShopError::NoPermission("No permission for that action".to_owned())),
            Err(e) => Err(ShopError::BcryptError(e)),
        }
    }

    /// Joins this user to the group: inserts one membership row and reports
    /// the number of rows inserted.
    pub fn join_group(&self, dir: &mut Directory, group_id: &str) -> (r: Result<usize, ShopError>)
        requires
            old(dir).wf(),
        ensures
            final(dir).wf(),
            r is Ok && r->Ok_0 == 1,
            final(dir).memberships@.len() == old(dir).memberships@.len() + 1,
            final(dir).memberships@.drop_last() == old(dir).memberships@,
            final(dir).memberships@.last().user_id@ == self.id@,
            final(dir).memberships@.last().group_id@ == group_id@,
            final(dir).users@ == old(dir).users@,
            final(dir).groups@ == old(dir).groups@,
    {
        dir.add_membership(self.id.as_str(), group_id);
        Ok(1)
    }

    /// Whether exactly one membership row joins this user to the group.
    pub fn is_group_owner(&self, dir: &Directory, group_id: &str) -> (r: Result<bool, ShopError>)
        ensures
            r is Ok,
            r->Ok_0 == (member_rows(dir.memberships@, self.id@, group_id@).len() == 1),
    {
        let owner_rows = dir.count_member_rows(self.id.as_str(), group_id);
        if owner_rows != 1 {
            return Ok(false);
        }
        Ok(true)
    }
}

/// A registration request: the clear-text credentials to validate and store.
#[derive(Debug)]
pub struct NewUser {
    pub username: String,
    pub password: String,
}

impl NewUser {
    /// Accepts the request exactly when the username and password are long
    /// enough.
    pub fn validate(&self) -> (r: Result<(), ShopError>)
        ensures
            r is Ok <==> (self.username@.len() >= MIN_USERNAME_LENGTH
                && self.password@.len() >= MIN_PASSWORD_LENGTH),
            r is Err ==> r->Err_0 is ValidationErrors,
    {
        if self.username.as_str().unicode_len() < MIN_USERNAME_LENGTH as usize {
            return Err(ShopError::ValidationErrors("username: too short".to_owned()));
        }
        if self.password.as_str().unicode_len() < MIN_PASSWORD_LENGTH as usize {
            return Err(ShopError::ValidationErrors("password: too short".to_owned()));
        }
        Ok(())
    }

    /// Creates the user row: `AlreadyExistsError` when the username is
    /// taken; otherwise the password is bcrypt-hashed and the row stored
    /// under the fresh `id` the host generated. When hashing itself fails,
    /// nothing is stored and the bcrypt error is reported.
    pub fn create(dir: &mut Directory, id: &str, username: &str, pass: &str) -> (r: Result<
        User,
        ShopError,
    >)
        requires
            old(dir).wf(),
            !old(dir).spec_has_user_id(id@),
        ensures
            final(dir).wf(),
            r is Ok <==> final(dir).users@.len() == old(dir).users@.len() + 1,
            old(dir).spec_has_username(username@) ==> r is Err && r->Err_0 is AlreadyExistsError
                && *final(dir) == *old(dir),
            r is Err ==> *final(dir) == *old(dir),
            !old(dir).spec_has_username(username@) && r is Err ==> r->Err_0 is BcryptError,
            r is Ok ==> final(dir).users@.drop_last() == old(dir).users@
                && final(dir).users@.last() == r->Ok_0 && r->Ok_0.id@ == id@
                && r->Ok_0.username@ == username@
                && bcrypt_verdict(pass@, r->Ok_0.password@) == Some(true),
            final(dir).groups@ == old(dir).groups@,
            final(dir).memberships@ == old(dir).memberships@,
    {
        if !User::is_available_username(dir, username) {
            return Err(ShopError::AlreadyExistsError);
        }
        let hashed = match bcrypt_hash(pass) {
            Ok(h) => h,
            Err(e) => {
                return Err(ShopError::BcryptError(e));
            },
        };
        let user = User { id: id.to_owned(), username: username.to_owned(), password: hashed };
        let stored = user.clone();
        dir.users.push(stored);
        proof {
            assert(dir.users@.drop_last() =~= old(dir).users@);
            assert forall|i: int, j: int|
                0 <= i < j < dir.users@.len() implies dir.users@[i].id@ != dir.users@[j].id@
                && dir.users@[i].username@ != dir.users@[j].username@ by {
                if j == dir.users@.len() - 1 {
                    assert(old(dir).users@[i].id@ != id@);
                    assert(old(dir).users@[i].username@ != username@);
                }
            }
        }
        Ok(user)
    }
}

} // verus!
