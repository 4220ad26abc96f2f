//! Chat groups and the request shapes that create, join and list them.

use vstd::prelude::*;
use crate::directory::{Directory, rows_without_group, groups_without};
use crate::errors::ShopError;
use crate::user::User;

verus! {

/// One chat group.
#[derive(Debug)]
pub struct Group {
    pub id: String,
    pub owner_id: String,
    pub name: String,
}

impl Clone for Group {
    fn clone(&self) -> (r: Self)
        ensures
            r == *self,
    {
        Group { id: self.id.clone(), owner_id: self.owner_id.clone(), name: self.name.clone() }
    }
}

/// A request to create a new group.
#[derive(Debug)]
pub struct NewGroup {
    pub name: String,
}

/// Shortest group name accepted by [`NewGroup::validate`].
pub const MIN_GROUP_NAME_LENGTH: u8 = 3;

impl NewGroup {
    /// Accepts the request exactly when the name is long enough.
    pub fn validate(&self) -> (r: Result<(), ShopError>)
        ensures
            r is Ok <==> self.name@.len() >= MIN_GROUP_NAME_LENGTH,
            r is Err ==> r->Err_0 is ValidationErrors,
    {
        if self.name.as_str().unicode_len() >= MIN_GROUP_NAME_LENGTH as usize {
            Ok(())
        } else {
            Err(ShopError::ValidationErrors("name: too short".to_owned()))
        }
    }
}

/// A validated group row ready to be inserted.
#[derive(Debug)]
pub struct InsertableNewGroup {
    pub name: String,
    pub owner_id: String,
}

/// A request to join an existing group.
#[derive(Debug)]
pub struct JoinableGroup {
    pub id: String,
}

/// A user together with the groups they joined, if any.
#[derive(Debug)]
pub struct UserGroups {
    pub user: User,
    pub groups: Option<Vec<Group>>,
}

impl Group {
    /// Removes every membership row of the group and the group row itself.
    pub fn delete(dir: &mut Directory, group_id: &str) -> (r: Result<(), ShopError>)
        requires
            old(dir).wf(),
        ensures
            final(dir).wf(),
            r is Ok,
            final(dir).memberships@ == rows_without_group(old(dir).memberships@, group_id@),
            final(dir).groups@ == groups_without(old(dir).groups@, group_id@),
            final(dir).users@ == old(dir).users@,
    {
        dir.remove_group_rows(group_id);
        Ok(())
    }
}

} // verus!
