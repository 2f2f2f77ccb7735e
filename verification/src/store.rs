//! Storage of roles: the capability set an access-control list needs, and the
//! in-memory implementation.

use vstd::prelude::*;
use vstd::hash_map::StringHashMap;
use crate::model::{keyed_by_name, with_grant, with_role, PermissionView, RoleView, Roles};
use crate::role::{Permission, Role};

verus! {

/// Failure of a lookup in a store that holds no role at all.
pub const NO_ROLES: &'static str = "roles is not found";

/// Failure of a lookup or an update for a name that is not registered.
pub const NO_SUCH_ROLE: &'static str = "unable to find role";

/// What a backend has to offer to hold the roles of an access-control list.
///
/// Contracts are stated over the map from names to roles that the backend
/// stands for.
pub trait Store: Sized {
    /// The roles held, by name.
    spec fn view(&self) -> Roles;

    /// Validity of the backend's own representation.
    spec fn inv(&self) -> bool;

    /// A valid store files every role under the role's own name, so no two
    /// roles share a name.
    proof fn lemma_keyed_by_name(&self)
        requires
            self.inv(),
        ensures
            keyed_by_name(self@),
    ;

    /// A store without roles.
    fn new() -> (s: Self)
        ensures
            s.inv(),
            s@ == Map::<Seq<char>, RoleView>::empty(),
    ;

    /// Registers `name` with parent `inherits` unless the name is taken; a
    /// taken name keeps its role.  Returns `true` either way.  `inherits` need
    /// not be registered.
    fn add_role(&mut self, name: &str, inherits: &str) -> (done: bool)
        requires
            old(self).inv(),
        ensures
            final(self).inv(),
            final(self)@ == with_role(old(self)@, name@, inherits@),
            done,
    ;

    /// A snapshot of the role `name`, or a failure when no such role is
    /// registered.  The store is left as it was.
    fn get_role(&mut self, name: &str) -> (found: Result<Role, &'static str>)
        requires
            old(self).inv(),
        ensures
            final(self).inv(),
            final(self)@ == old(self)@,
            found is Ok <==> old(self)@.contains_key(name@),
            found matches Ok(role) ==> role@ == old(self)@[name@],
            found matches Err(e) ==> e@ == NO_ROLES@ || e@ == NO_SUCH_ROLE@,
    ;

    /// Appends the grant of `action` on `resource` to the role `name` and
    /// returns `Ok(true)`, or fails and changes nothing when no such role is
    /// registered.
    fn update_permissions(&mut self, name: &str, action: &str, resource: &str) -> (done: Result<
        bool,
        &'static str,
    >)
        requires
            old(self).inv(),
        ensures
            final(self).inv(),
            final(self)@ == with_grant(
                old(self)@,
                name@,
                PermissionView { action: action@, resource: resource@ },
            ),
            done is Ok <==> old(self)@.contains_key(name@),
            done matches Ok(b) ==> b,
            done matches Err(e) ==> e@ == NO_SUCH_ROLE@,
    ;

    /// Whether a role `name` is registered.  The store is left as it was.
    fn has_role(&mut self, name: &str) -> (known: bool)
        requires
            old(self).inv(),
        ensures
            final(self).inv(),
            final(self)@ == old(self)@,
            known == old(self)@.contains_key(name@),
    ;
}

/// Roles kept in memory, in a hash map keyed by role name.
pub struct Mem {
    roles: StringHashMap<Role>,
}

impl Store for Mem {
    closed spec fn view(&self) -> Roles {
        self.roles@.map_values(|r: Role| r@)
    }

    closed spec fn inv(&self) -> bool {
        keyed_by_name(self@)
    }

    proof fn lemma_keyed_by_name(&self) {
    }

    fn new() -> (s: Mem) {
        let s = Mem { roles: StringHashMap::new() };
        assert(s@ =~= Map::<Seq<char>, RoleView>::empty());
        s
    }

    fn add_role(&mut self, name: &str, inherits: &str) -> (done: bool) {
        if !self.roles.contains_key(name) {
            self.roles.insert(name.to_owned(), Role::new(name, inherits));
        }
        assert(self@ =~= with_role(old(self)@, name@, inherits@));
        true
    }

    /// An empty store reports [`NO_ROLES`], any other store [`NO_SUCH_ROLE`].
    fn get_role(&mut self, name: &str) -> (found: Result<Role, &'static str>)
        ensures
            found matches Err(e) ==> e@ == (if old(self)@.is_empty() {
                NO_ROLES@
            } else {
                NO_SUCH_ROLE@
            }),
    {
        assert(self@.dom() =~= self.roles@.dom());
        if self.roles.is_empty() {
            return Err(NO_ROLES);
        }
        match self.roles.get(name) {
            Some(role) => Ok(role.clone()),
            None => Err(NO_SUCH_ROLE),
        }
    }

    fn update_permissions(&mut self, name: &str, action: &str, resource: &str) -> (done: Result<
        bool,
        &'static str,
    >) {
        let updated = match self.roles.get(name) {
            Some(role) => role.with_grant(Permission::new(action, resource)),
            None => { return Err(NO_SUCH_ROLE); },
        };
        self.roles.remove(name);
        self.roles.insert(name.to_owned(), updated);
        assert(self@ =~= with_grant(
            old(self)@,
            name@,
            PermissionView { action: action@, resource: resource@ },
        ));
        Ok(true)
    }

    fn has_role(&mut self, name: &str) -> (known: bool) {
        self.roles.contains_key(name)
    }
}

} // verus!
