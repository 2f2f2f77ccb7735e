//! The access-control list: registering roles, granting permissions and
//! answering queries along the inheritance chain.

use vstd::prelude::*;
use crate::model::{
    granted, keyed_by_name, lemma_granted_none, lemma_granted_push, lemma_permitted_unfold,
    permitted, registered, settles, settles_within, PermissionView, Roles,
};
use crate::role::Permission;
use crate::store::Store;

verus! {

/// Failure of [`Acl::add_role`] for a role without a name.
pub const EMPTY_NAME: &'static str = "string is empty";

/// An access-control list over a store of roles.
pub struct Acl<T: Store> {
    store: T,
}

impl<T: Store> Acl<T> {
    /// The roles of the underlying store, by name.
    pub closed spec fn view(&self) -> Roles {
        self.store@
    }

    /// Validity: the underlying store is valid.
    pub closed spec fn inv(&self) -> bool {
        self.store.inv()
    }

    /// A valid list files every role under the role's own name, so no two
    /// roles share a name.
    pub proof fn lemma_keyed_by_name(&self)
        requires
            self.inv(),
        ensures
            keyed_by_name(self@),
    {
        self.store.lemma_keyed_by_name();
    }

    /// An access-control list over `store`, with the roles that `store` holds.
    pub fn new(store: T) -> (acl: Acl<T>)
        requires
            store.inv(),
        ensures
            acl.inv(),
            acl@ == store@,
    {
        Acl { store: store }
    }

    /// Gives the store back, with the roles as they stand.
    pub fn into_store(self) -> (store: T)
        requires
            self.inv(),
        ensures
            store.inv(),
            store@ == self@,
    {
        self.store
    }

    /// Registers the role `name` with parent `inherits`.
    ///
    /// An empty `name` is rejected with [`EMPTY_NAME`] and nothing is
    /// registered.  A name that is already registered keeps its role, parent
    /// included, and the call still succeeds.  `inherits` need not be
    /// registered; an empty `inherits` means no parent.
    pub fn add_role(&mut self, name: &str, inherits: &str) -> (done: Result<(), &'static str>)
        requires
            old(self).inv(),
        ensures
            final(self).inv(),
            final(self)@ == registered(old(self)@, name@, inherits@),
            done is Err <==> name@.len() == 0,
            done matches Err(e) ==> e@ == EMPTY_NAME@,
    {
        if name.is_empty() {
            return Err(EMPTY_NAME);
        }
        self.store.add_role(name, inherits);
        Ok(())
    }

    /// Grants `action` on `resource` to each of `roles`, all of which must be
    /// registered.  A role named several times receives the grant as often.
    pub fn allow(&mut self, roles: Vec<&str>, action: &str, resource: &str)
        requires
            old(self).inv(),
            forall|i: int| 0 <= i < roles.len() ==> old(self)@.contains_key(#[trigger] roles[i]@),
        ensures
            final(self).inv(),
            final(self)@ == granted(
                old(self)@,
                roles@.map_values(|r: &str| r@),
                PermissionView { action: action@, resource: resource@ },
            ),
    {
        let ghost names = roles@.map_values(|r: &str| r@);
        let ghost p = PermissionView { action: action@, resource: resource@ };
        proof {
            lemma_granted_none(self@, p);
            assert(names.take(0) =~= Seq::empty());
        }
        let mut i: usize = 0;
        while i < roles.len()
            invariant
                i <= roles.len(),
                self.inv(),
                names == roles@.map_values(|r: &str| r@),
                p == (PermissionView { action: action@, resource: resource@ }),
                self@ == granted(old(self)@, names.take(i as int), p),
            decreases roles.len() - i,
        {
            let _ = self.store.update_permissions(roles[i], action, resource);
            proof {
                lemma_granted_push(old(self)@, names.take(i as int), names[i as int], p);
                assert(names.take(i + 1) =~= names.take(i as int).push(names[i as int]));
            }
            i += 1;
        }
        assert(names.take(i as int) =~= names);
    }

    /// Whether `role` may perform `action` on `resource`: whether the role
    /// itself or one of its ancestors holds that grant.
    ///
    /// The search starts at `role` and follows the parent links until it finds
    /// the grant or a role without parent.  Every role it visits must be
    /// registered, and it must not run in a circle: that is what `settles`
    /// asks.  The roles are left as they were.
    pub fn available(&mut self, role: &str, action: &str, resource: &str) -> (allowed: bool)
        requires
            old(self).inv(),
            settles(old(self)@, role@, PermissionView { action: action@, resource: resource@ }),
        ensures
            final(self).inv(),
            final(self)@ == old(self)@,
            allowed == permitted(
                old(self)@,
                role@,
                PermissionView { action: action@, resource: resource@ },
            ),
    {
        let wanted = Permission::new(action, resource);
        let ghost m = self@;
        let ghost mut fuel: nat = choose|n: nat| settles_within(m, role@, wanted@, n);
        let mut current: String = role.to_owned();
        loop
            invariant
                self.inv(),
                self@ == m,
                m == old(self)@,
                wanted@ == (PermissionView { action: action@, resource: resource@ }),
                settles_within(m, current@, wanted@, fuel),
                permitted(m, current@, wanted@) == permitted(m, role@, wanted@),
            decreases fuel,
        {
            proof {
                lemma_permitted_unfold(m, current@, wanted@);
            }
            let found = match self.store.get_role(current.as_str()) {
                Ok(found) => found,
                // A role that cannot be fetched permits nothing.
                Err(_) => { return false; },
            };
            if found.grants(&wanted) {
                return true;
            }
            if !found.has_parent() {
                return false;
            }
            proof {
                fuel = (fuel - 1) as nat;
            }
            current = found.parent().to_owned();
        }
    }
}

} // verus!
