//! Roles and permissions as stored and handed out.

use vstd::prelude::*;
use vstd::std_specs::cmp::PartialEqSpecImpl;
use crate::model::{PermissionView, RoleView};

verus! {

/// An immutable grant: `action` is allowed on `resource`.
#[derive(Debug, Eq, Hash)]
pub struct Permission {
    action: String,
    resource: String,
}

impl View for Permission {
    type V = PermissionView;

    closed spec fn view(&self) -> PermissionView {
        PermissionView { action: self.action@, resource: self.resource@ }
    }
}

impl Permission {
    /// The grant of `action` on `resource`.
    pub fn new(action: &str, resource: &str) -> (p: Permission)
        ensures
            p@ == (PermissionView { action: action@, resource: resource@ }),
    {
        Permission { action: action.to_owned(), resource: resource.to_owned() }
    }

    /// The action that is allowed.
    pub fn action(&self) -> (a: &str)
        ensures
            a@ == self@.action,
    {
        self.action.as_str()
    }

    /// The resource the action is allowed on.
    pub fn resource(&self) -> (r: &str)
        ensures
            r@ == self@.resource,
    {
        self.resource.as_str()
    }
}

impl Clone for Permission {
    fn clone(&self) -> (p: Permission)
        ensures
            p@ == self@,
    {
        Permission { action: self.action.clone(), resource: self.resource.clone() }
    }
}

impl PartialEq for Permission {
    /// Two permissions are equal when both fields are.
    fn eq(&self, other: &Permission) -> (r: bool) {
        self.action == other.action && self.resource == other.resource
    }
}

impl PartialEqSpecImpl for Permission {
    open spec fn obeys_eq_spec() -> bool {
        true
    }

    open spec fn eq_spec(&self, other: &Permission) -> bool {
        self@ == other@
    }
}

/// A named role with at most one parent and the grants made to it directly.
///
/// A `Role` handed out by a store is a snapshot: changing the store later does
/// not change it.
#[derive(Debug, Eq, Hash)]
pub struct Role {
    name: String,
    parent: String,
    permissions: Vec<Permission>,
}

impl View for Role {
    type V = RoleView;

    closed spec fn view(&self) -> RoleView {
        RoleView {
            name: self.name@,
            parent: self.parent@,
            permissions: self.permissions@.map_values(|p: Permission| p@),
        }
    }
}

impl Role {
    /// A role without grants.  An empty `parent` means that the role inherits
    /// from nobody.
    pub fn new(name: &str, parent: &str) -> (r: Role)
        ensures
            r@ == RoleView::fresh(name@, parent@),
    {
        let r = Role { name: name.to_owned(), parent: parent.to_owned(), permissions: Vec::new() };
        assert(r@.permissions =~= Seq::empty());
        r
    }

    /// The role's name.
    pub fn name(&self) -> (n: &str)
        ensures
            n@ == self@.name,
    {
        self.name.as_str()
    }

    /// The name of the parent role, empty when there is none.
    pub fn parent(&self) -> (n: &str)
        ensures
            n@ == self@.parent,
    {
        self.parent.as_str()
    }

    /// Whether the role names a parent.
    pub fn has_parent(&self) -> (b: bool)
        ensures
            b == self@.has_parent(),
    {
        !self.parent.as_str().is_empty()
    }

    /// The grants made to this role itself, oldest first.
    pub fn permissions(&self) -> (ps: &[Permission])
        ensures
            ps@.map_values(|p: Permission| p@) == self@.permissions,
    {
        self.permissions.as_slice()
    }

    /// Whether this role itself holds a grant equal to `wanted`.  Parents are
    /// not consulted.
    pub fn grants(&self, wanted: &Permission) -> (found: bool)
        ensures
            found == self@.grants(wanted@),
    {
        let mut i: usize = 0;
        while i < self.permissions.len()
            invariant
                i <= self.permissions.len(),
                forall|j: int| 0 <= j < i ==> self@.permissions[j] != wanted@,
            decreases self.permissions.len() - i,
        {
            if self.permissions[i] == *wanted {
                assert(self@.permissions[i as int] == wanted@);
                return true;
            }
            i += 1;
        }
        false
    }

    /// A copy of this role with `p` appended to its grants.
    pub fn with_grant(&self, p: Permission) -> (r: Role)
        ensures
            r@ == self@.with_grant(p@),
    {
        let mut r = self.clone();
        r.permissions.push(p);
        assert(r@.permissions =~= self@.permissions.push(p@));
        r
    }
}

impl Clone for Role {
    fn clone(&self) -> (r: Role)
        ensures
            r@ == self@,
    {
        let mut permissions: Vec<Permission> = Vec::new();
        let mut i: usize = 0;
        while i < self.permissions.len()
            invariant
                i <= self.permissions.len(),
                permissions.len() == i,
                forall|j: int| 0 <= j < i ==> permissions@[j]@ == self.permissions@[j]@,
            decreases self.permissions.len() - i,
        {
            permissions.push(self.permissions[i].clone());
            i += 1;
        }
        let r = Role { name: self.name.clone(), parent: self.parent.clone(), permissions };
        assert(r@.permissions =~= self@.permissions);
        r
    }
}

impl PartialEq for Role {
    /// Two roles are equal when name, parent and the grants in order are.
    fn eq(&self, other: &Role) -> (r: bool) {
        if self.name != other.name || self.parent != other.parent {
            return false;
        }
        if self.permissions.len() != other.permissions.len() {
            assert(self@.permissions.len() != other@.permissions.len());
            return false;
        }
        let mut i: usize = 0;
        while i < self.permissions.len()
            invariant
                i <= self.permissions.len(),
                self.permissions.len() == other.permissions.len(),
                forall|j: int| 0 <= j < i ==> self@.permissions[j] == other@.permissions[j],
            decreases self.permissions.len() - i,
        {
            if self.permissions[i] != other.permissions[i] {
                assert(self@.permissions[i as int] != other@.permissions[i as int]);
                return false;
            }
            i += 1;
        }
        assert(self@.permissions =~= other@.permissions);
        true
    }
}

impl PartialEqSpecImpl for Role {
    open spec fn obeys_eq_spec() -> bool {
        true
    }

    open spec fn eq_spec(&self, other: &Role) -> bool {
        self@ == other@
    }
}

} // verus!
