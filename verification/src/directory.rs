//! The in-memory user/group directory the HTTP layer consults: the users
//! table, the groups table and the user-group membership rows. Nothing here
//! outlives the process; durability is out of scope.

use vstd::prelude::*;
use crate::group::Group;
use crate::user::User;

verus! {

/// One user-group membership row.
#[derive(Debug)]
pub struct Membership {
    pub user_id: String,
    pub group_id: String,
}

impl Clone for Membership {
    fn clone(&self) -> (r: Self)
        ensures
            r == *self,
    {
        Membership { user_id: self.user_id.clone(), group_id: self.group_id.clone() }
    }
}

/// The membership rows that join `user_id` to `group_id`, in table order.
pub open spec fn member_rows(
    ms: Seq<Membership>,
    user_id: Seq<char>,
    group_id: Seq<char>,
) -> Seq<Membership> {
    ms.filter(|m: Membership| m.user_id@ == user_id && m.group_id@ == group_id)
}

/// The membership rows left once every row of `group_id` is removed.
pub open spec fn rows_without_group(ms: Seq<Membership>, group_id: Seq<char>) -> Seq<Membership> {
    ms.filter(|m: Membership| m.group_id@ != group_id)
}

/// The group rows left once the group `group_id` is removed.
pub open spec fn groups_without(gs: Seq<Group>, group_id: Seq<char>) -> Seq<Group> {
    gs.filter(|g: Group| g.id@ != group_id)
}

/// One step of walking a table while filtering it.
proof fn lemma_filter_take_step<A>(s: Seq<A>, i: int, pred: spec_fn(A) -> bool)
    requires
        0 <= i < s.len(),
    ensures
        s.take(i + 1).filter(pred) == (if pred(s[i]) {
            s.take(i).filter(pred).push(s[i])
        } else {
            s.take(i).filter(pred)
        }),
{
    reveal(Seq::filter);
    assert(s.take(i + 1).drop_last() =~= s.take(i));
    assert(s.take(i + 1).last() == s[i]);
}

/// The three tables. The id of a user and of a group, and a user's
/// username, identify at most one row each.
pub struct Directory {
    pub users: Vec<User>,
    pub groups: Vec<Group>,
    pub memberships: Vec<Membership>,
}

impl Directory {
    /// Row identities are unique: no two users share an id or a username,
    /// and no two groups share an id.
    pub open spec fn wf(&self) -> bool {
        (forall|i: int, j: int|
            0 <= i < j < self.users@.len() ==> self.users@[i].id@ != self.users@[j].id@)
            && (forall|i: int, j: int|
            0 <= i < j < self.users@.len() ==> self.users@[i].username@
                != self.users@[j].username@) && (forall|i: int, j: int|
            0 <= i < j < self.groups@.len() ==> self.groups@[i].id@ != self.groups@[j].id@)
    }

    pub open spec fn spec_has_username(&self, name: Seq<char>) -> bool {
        exists|i: int| 0 <= i < self.users@.len() && self.users@[i].username@ == name
    }

    /// The one user of that username (meaningful under [`Directory::wf`]).
    pub open spec fn spec_user_by_username(&self, name: Seq<char>) -> User {
        self.users@[choose|i: int| 0 <= i < self.users@.len() && self.users@[i].username@ == name]
    }

    pub open spec fn spec_has_user_id(&self, id: Seq<char>) -> bool {
        exists|i: int| 0 <= i < self.users@.len() && self.users@[i].id@ == id
    }

    /// The one user of that id (meaningful under [`Directory::wf`]).
    pub open spec fn spec_user_by_id(&self, id: Seq<char>) -> User {
        self.users@[choose|i: int| 0 <= i < self.users@.len() && self.users@[i].id@ == id]
    }

    pub open spec fn spec_has_group(&self, id: Seq<char>) -> bool {
        exists|i: int| 0 <= i < self.groups@.len() && self.groups@[i].id@ == id
    }

    /// An empty directory.
    pub fn new() -> (d: Self)
        ensures
            d.wf(),
            d.users@.len() == 0,
            d.groups@.len() == 0,
            d.memberships@.len() == 0,
    {
        Directory { users: Vec::new(), groups: Vec::new(), memberships: Vec::new() }
    }

    /// Whether a group row with this id exists.
    pub fn has_group(&self, group_id: &str) -> (r: bool)
        ensures
            r == self.spec_has_group(group_id@),
    {
        let n = self.groups.len();
        let mut i: usize = 0;
        while i < n
            invariant
                i <= n,
                n == self.groups@.len(),
                forall|k: int| 0 <= k < i ==> self.groups@[k].id@ != group_id@,
            decreases n - i,
        {
            if str_eq(self.groups[i].id.as_str(), group_id) {
                return true;
            }
            i += 1;
        }
        false
    }

    /// How many membership rows join `user_id` to `group_id`.
    pub fn count_member_rows(&self, user_id: &str, group_id: &str) -> (r: usize)
        ensures
            r == member_rows(self.memberships@, user_id@, group_id@).len(),
    {
        let ghost ms = self.memberships@;
        let n = self.memberships.len();
        let mut count: usize = 0;
        let mut i: usize = 0;
        proof {
            assert(ms.take(0int) =~= Seq::<Membership>::empty());
            assert(member_rows(ms.take(0int), user_id@, group_id@) =~= Seq::<
                Membership,
            >::empty());
        }
        while i < n
            invariant
                i <= n,
                n == ms.len(),
                self.memberships@ == ms,
                count <= i,
                count == member_rows(ms.take(i as int), user_id@, group_id@).len(),
            decreases n - i,
        {
            proof {
                lemma_filter_take_step(
                    ms,
                    i as int,
                    |m: Membership| m.user_id@ == user_id@ && m.group_id@ == group_id@,
                );
            }
            let row = &self.memberships[i];
            if str_eq(row.user_id.as_str(), user_id) && str_eq(row.group_id.as_str(), group_id) {
                count += 1;
            }
            i += 1;
        }
        proof {
            assert(ms.take(n as int) =~= ms);
        }
        count
    }

    /// Whether `user_id` already sits in `group_id`.
    pub fn is_member(&self, user_id: &str, group_id: &str) -> (r: bool)
        ensures
            r == (member_rows(self.memberships@, user_id@, group_id@).len() > 0),
    {
        self.count_member_rows(user_id, group_id) > 0
    }

    /// Inserts a new group row. The id comes from the caller (the host
    /// generates it, as the database did) and must be fresh.
    pub fn add_group(&mut self, id: &str, name: &str, owner_id: &str) -> (g: Group)
        requires
            old(self).wf(),
            !old(self).spec_has_group(id@),
        ensures
            final(self).wf(),
            final(self).groups@.len() == old(self).groups@.len() + 1,
            final(self).groups@.drop_last() == old(self).groups@,
            final(self).groups@.last() == g,
            g.id@ == id@ && g.name@ == name@ && g.owner_id@ == owner_id@,
            final(self).users@ == old(self).users@,
            final(self).memberships@ == old(self).memberships@,
    {
        let g = Group { id: id.to_owned(), owner_id: owner_id.to_owned(), name: name.to_owned() };
        let g2 = g.clone();
        self.groups.push(g2);
        proof {
            assert(self.groups@.drop_last() =~= old(self).groups@);
            assert forall|i: int, j: int|
                0 <= i < j < self.groups@.len() implies self.groups@[i].id@
                != self.groups@[j].id@ by {
                if j == self.groups@.len() - 1 {
                    assert(old(self).groups@[i].id@ != id@);
                }
            }
        }
        g
    }

    /// Inserts one membership row joining `user_id` to `group_id`.
    pub fn add_membership(&mut self, user_id: &str, group_id: &str)
        requires
            old(self).wf(),
        ensures
            final(self).wf(),
            final(self).memberships@.len() == old(self).memberships@.len() + 1,
            final(self).memberships@.drop_last() == old(self).memberships@,
            final(self).memberships@.last().user_id@ == user_id@,
            final(self).memberships@.last().group_id@ == group_id@,
            final(self).users@ == old(self).users@,
            final(self).groups@ == old(self).groups@,
    {
        self.memberships.push(
            Membership { user_id: user_id.to_owned(), group_id: group_id.to_owned() },
        );
        proof {
            assert(self.memberships@.drop_last() =~= old(self).memberships@);
        }
    }

    /// Removes every membership row of `group_id` and the group row itself.
    pub fn remove_group_rows(&mut self, group_id: &str)
        requires
            old(self).wf(),
        ensures
            final(self).wf(),
            final(self).memberships@ == rows_without_group(old(self).memberships@, group_id@),
            final(self).groups@ == groups_without(old(self).groups@, group_id@),
            final(self).users@ == old(self).users@,
    {
        let ghost ms = self.memberships@;
        let ghost gs = self.groups@;
        let n = self.memberships.len();
        let mut kept_rows: Vec<Membership> = Vec::new();
        let mut i: usize = 0;
        proof {
            assert(ms.take(0int) =~= Seq::<Membership>::empty());
            assert(rows_without_group(ms.take(0int), group_id@) =~= Seq::<Membership>::empty());
        }
        while i < n
            invariant
                i <= n,
                n == ms.len(),
                self.memberships@ == ms,
                kept_rows@ == rows_without_group(ms.take(i as int), group_id@),
            decreases n - i,
        {
            proof {
                lemma_filter_take_step(ms, i as int, |m: Membership| m.group_id@ != group_id@);
            }
            if !str_eq(self.memberships[i].group_id.as_str(), group_id) {
                kept_rows.push(self.memberships[i].clone());
            }
            i += 1;
        }
        proof {
            assert(ms.take(n as int) =~= ms);
        }
        self.memberships = kept_rows;

        let gn = self.groups.len();
        let mut kept_groups: Vec<Group> = Vec::new();
        let mut j: usize = 0;
        proof {
            assert(gs.take(0int) =~= Seq::<Group>::empty());
            assert(groups_without(gs.take(0int), group_id@) =~= Seq::<Group>::empty());
        }
        while j < gn
            invariant
                j <= gn,
                gn == gs.len(),
                self.groups@ == gs,
                kept_groups@ == groups_without(gs.take(j as int), group_id@),
            decreases gn - j,
        {
            proof {
                lemma_filter_take_step(gs, j as int, |g: Group| g.id@ != group_id@);
            }
            if !str_eq(self.groups[j].id.as_str(), group_id) {
                kept_groups.push(self.groups[j].clone());
            }
            j += 1;
        }
        proof {
            assert(gs.take(gn as int) =~= gs);
        }
        self.groups = kept_groups;
        proof {
            assert forall|i2: int, j2: int|
                0 <= i2 < j2 < self.groups@.len() implies self.groups@[i2].id@
                != self.groups@[j2].id@ by {
                lemma_filter_distinct(gs, group_id@, i2, j2);
            }
        }
    }
}

/// Two distinct positions of a duplicate-free table stay distinct rows after
/// filtering.
proof fn lemma_filter_distinct(gs: Seq<Group>, group_id: Seq<char>, i: int, j: int)
    requires
        forall|i2: int, j2: int| 0 <= i2 < j2 < gs.len() ==> gs[i2].id@ != gs[j2].id@,
        0 <= i < j < groups_without(gs, group_id).len(),
    ensures
        groups_without(gs, group_id)[i].id@ != groups_without(gs, group_id)[j].id@,
    decreases gs.len(),
{
    reveal(Seq::filter);
    if gs.len() > 0 {
        let dl = gs.drop_last();
        assert(forall|i2: int, j2: int| 0 <= i2 < j2 < dl.len() ==> dl[i2].id@ != dl[j2].id@);
        let fdl = groups_without(dl, group_id);
        let f = groups_without(gs, group_id);
        if gs.last().id@ != group_id {
            assert(f == fdl.push(gs.last()));
            if j < f.len() - 1 {
                lemma_filter_distinct(dl, group_id, i, j);
                assert(f[i] == fdl[i] && f[j] == fdl[j]);
            } else {
                // the row at j is the table's last row; the one at i comes
                // from the shorter prefix, where every id differs from it
                lemma_filter_from_prefix(dl, group_id, i);
                let p = choose|p: int| 0 <= p < dl.len() && fdl[i] == dl[p];
                assert(gs[p].id@ != gs[gs.len() - 1].id@);
                assert(f[i] == fdl[i]);
            }
        } else {
            assert(f == fdl);
            lemma_filter_distinct(dl, group_id, i, j);
        }
    }
}

/// Every filtered row comes from the table, with the same id as some row
/// strictly before the last.
proof fn lemma_filter_from_prefix(gs: Seq<Group>, group_id: Seq<char>, i: int)
    requires
        0 <= i < groups_without(gs, group_id).len(),
    ensures
        exists|p: int| 0 <= p < gs.len() && groups_without(gs, group_id)[i] == gs[p],
    decreases gs.len(),
{
    reveal(Seq::filter);
    if gs.len() > 0 {
        let dl = gs.drop_last();
        let fdl = groups_without(dl, group_id);
        let f = groups_without(gs, group_id);
        if gs.last().id@ != group_id {
            if i < f.len() - 1 {
                lemma_filter_from_prefix(dl, group_id, i);
                let p = choose|p: int| 0 <= p < dl.len() && fdl[i] == dl[p];
                assert(f[i] == gs[p]);
            } else {
                assert(f[i] == gs[gs.len() - 1]);
            }
        } else {
            lemma_filter_from_prefix(dl, group_id, i);
            let p = choose|p: int| 0 <= p < dl.len() && fdl[i] == dl[p];
            assert(f[i] == gs[p]);
        }
    }
}

/// Character-for-character string equality.
pub(crate) fn str_eq(a: &str, b: &str) -> (r: bool)
    ensures
        r == (a@ == b@),
{
    let s1: String = a.to_owned();
    let s2: String = b.to_owned();
    s1 == s2
}

} // verus!
