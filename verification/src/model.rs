//! Mathematical model of roles, grants and the inheritance walk.

use vstd::prelude::*;

verus! {

/// A granted pair: `action` is allowed on `resource`.
pub struct PermissionView {
    pub action: Seq<char>,
    pub resource: Seq<char>,
}

/// A role as the contracts see it.
pub struct RoleView {
    pub name: Seq<char>,
    /// Name of the parent role; the empty string means "no parent".
    pub parent: Seq<char>,
    /// Grants in the order they were made; duplicates are kept.
    pub permissions: Seq<PermissionView>,
}

/// The roles of a store, by name.
pub type Roles = Map<Seq<char>, RoleView>;

impl RoleView {
    /// A role as it is right after registration: no grants yet.
    pub open spec fn fresh(name: Seq<char>, parent: Seq<char>) -> RoleView {
        RoleView { name, parent, permissions: Seq::empty() }
    }

    /// The role itself holds the grant `p`.
    pub open spec fn grants(self, p: PermissionView) -> bool {
        self.permissions.contains(p)
    }

    /// The role has a parent to inherit from.
    pub open spec fn has_parent(self) -> bool {
        self.parent.len() > 0
    }

    /// The same role with `p` appended to its grants.
    pub open spec fn with_grant(self, p: PermissionView) -> RoleView {
        RoleView { permissions: self.permissions.push(p), ..self }
    }
}

/// Every role is filed under its own name.
pub open spec fn keyed_by_name(m: Roles) -> bool {
    forall|k: Seq<char>| #[trigger] m.contains_key(k) ==> m[k].name == k
}

/// Registering `name` with parent `parent`: the first registration wins, a
/// later one for the same name changes nothing.
pub open spec fn with_role(m: Roles, name: Seq<char>, parent: Seq<char>) -> Roles {
    if m.contains_key(name) {
        m
    } else {
        m.insert(name, RoleView::fresh(name, parent))
    }
}

/// Appending the grant `p` to the role `name`; nothing happens when no such
/// role is registered.
pub open spec fn with_grant(m: Roles, name: Seq<char>, p: PermissionView) -> Roles {
    if m.contains_key(name) {
        m.insert(name, m[name].with_grant(p))
    } else {
        m
    }
}

/// What registering through the access-control list does: an empty name is
/// rejected and leaves the roles as they are.
pub open spec fn registered(m: Roles, name: Seq<char>, parent: Seq<char>) -> Roles {
    if name.len() == 0 {
        m
    } else {
        with_role(m, name, parent)
    }
}

/// The roles after `p` has been granted to every name in `roles`: a registered
/// role gains one copy of `p` for each time it is named, in addition to what
/// it held; nothing else changes.
pub open spec fn granted(m: Roles, roles: Seq<Seq<char>>, p: PermissionView) -> Roles {
    Map::new(
        |k: Seq<char>| m.contains_key(k),
        |k: Seq<char>|
            RoleView {
                permissions: m[k].permissions + Seq::new(
                    roles.to_multiset().count(k),
                    |i: int| p,
                ),
                ..m[k]
            },
    )
}

/// Following `steps` parent links from `role` leads to `target`, and every
/// role left behind on the way is registered and names a parent.
pub open spec fn reaches(m: Roles, role: Seq<char>, target: Seq<char>, steps: nat) -> bool
    decreases steps,
{
    if steps == 0 {
        role == target
    } else {
        &&& m.contains_key(role)
        &&& m[role].has_parent()
        &&& reaches(m, m[role].parent, target, (steps - 1) as nat)
    }
}

/// `target` lies on the inheritance chain of `role`: it is `role` itself or
/// one of its ancestors.
pub open spec fn inherits_from(m: Roles, role: Seq<char>, target: Seq<char>) -> bool {
    exists|steps: nat| reaches(m, role, target, steps)
}

/// `role` may do `p`: the role itself or one of its ancestors holds the grant.
pub open spec fn permitted(m: Roles, role: Seq<char>, p: PermissionView) -> bool {
    exists|holder: Seq<char>, steps: nat|
        #[trigger] reaches(m, role, holder, steps) && m.contains_key(holder) && m[holder].grants(p)
}

/// Looking for `p` from `role` upwards comes to an answer after at most
/// `steps` parent links: every role visited is registered, and the last one
/// visited holds the grant or has no parent.
pub open spec fn settles_within(m: Roles, role: Seq<char>, p: PermissionView, steps: nat) -> bool
    decreases steps,
{
    &&& m.contains_key(role)
    &&& {
        ||| m[role].grants(p)
        ||| !m[role].has_parent()
        ||| steps > 0 && settles_within(m, m[role].parent, p, (steps - 1) as nat)
    }
}

/// Looking for `p` from `role` upwards comes to an answer: it meets neither
/// an unregistered role nor a cycle before it finds the grant or a role
/// without parent.
pub open spec fn settles(m: Roles, role: Seq<char>, p: PermissionView) -> bool {
    exists|steps: nat| settles_within(m, role, p, steps)
}

/// The chain of `role` ends within `steps` parent links: every role on it is
/// registered, and the last one has no parent.
pub open spec fn rooted_within(m: Roles, role: Seq<char>, steps: nat) -> bool
    decreases steps,
{
    &&& m.contains_key(role)
    &&& (!m[role].has_parent() || (steps > 0 && rooted_within(
        m,
        m[role].parent,
        (steps - 1) as nat,
    )))
}

/// The chain of `role` is complete and free of cycles: following the parent
/// links from `role` meets registered roles only and ends at one without
/// parent.
pub open spec fn rooted(m: Roles, role: Seq<char>) -> bool {
    exists|steps: nat| rooted_within(m, role, steps)
}

/// A role that holds the grant is permitted, and otherwise a role is
/// permitted exactly when it has a parent that is.
pub proof fn lemma_permitted_unfold(m: Roles, role: Seq<char>, p: PermissionView)
    ensures
        permitted(m, role, p) <==> m.contains_key(role) && (m[role].grants(p) || (
        m[role].has_parent() && permitted(m, m[role].parent, p))),
{
    if permitted(m, role, p) {
        let (holder, steps) = choose|holder: Seq<char>, steps: nat|
            #[trigger] reaches(m, role, holder, steps) && m.contains_key(holder)
                && m[holder].grants(p);
        if steps > 0 {
            assert(reaches(m, m[role].parent, holder, (steps - 1) as nat));
        }
    }
    if m.contains_key(role) && m[role].grants(p) {
        assert(reaches(m, role, role, 0));
    }
    if m.contains_key(role) && m[role].has_parent() && permitted(m, m[role].parent, p) {
        let (holder, steps) = choose|holder: Seq<char>, steps: nat|
            #[trigger] reaches(m, m[role].parent, holder, steps) && m.contains_key(holder)
                && m[holder].grants(p);
        assert(reaches(m, role, holder, steps + 1));
    }
}

/// The search settles at a registered role that holds the grant or has no
/// parent, and otherwise exactly when it settles from the parent.
pub proof fn lemma_settles_unfold(m: Roles, role: Seq<char>, p: PermissionView)
    ensures
        settles(m, role, p) <==> m.contains_key(role) && (m[role].grants(p)
            || !m[role].has_parent() || settles(m, m[role].parent, p)),
{
    if settles(m, role, p) {
        let steps = choose|steps: nat| settles_within(m, role, p, steps);
        if !m[role].grants(p) && m[role].has_parent() {
            assert(settles_within(m, m[role].parent, p, (steps - 1) as nat));
        }
    }
    if m.contains_key(role) {
        if m[role].grants(p) || !m[role].has_parent() {
            assert(settles_within(m, role, p, 0));
        } else if settles(m, m[role].parent, p) {
            let steps = choose|steps: nat| settles_within(m, m[role].parent, p, steps);
            assert(settles_within(m, role, p, steps + 1));
        }
    }
}

/// Granting to nobody changes nothing.
pub proof fn lemma_granted_none(m: Roles, p: PermissionView)
    ensures
        granted(m, Seq::empty(), p) == m,
{
    let g = granted(m, Seq::empty(), p);
    assert forall|k: Seq<char>| m.contains_key(k) implies g[k] == m[k] by {
        Seq::<Seq<char>>::empty().to_multiset_ensures();
        assert(!Seq::<Seq<char>>::empty().contains(k));
        assert(g[k].permissions =~= m[k].permissions);
    }
    assert(g =~= m);
}

/// Granting to one name more is granting to the others and then appending
/// the grant to that one role.
pub proof fn lemma_granted_push(m: Roles, roles: Seq<Seq<char>>, name: Seq<char>, p: PermissionView)
    ensures
        granted(m, roles.push(name), p) == with_grant(granted(m, roles, p), name, p),
{
    broadcast use vstd::seq_lib::to_multiset_build;

    let before = granted(m, roles, p);
    let after = granted(m, roles.push(name), p);
    let stepped = with_grant(before, name, p);
    assert forall|k: Seq<char>| m.contains_key(k) implies after[k] == stepped[k] by {
        assert(after[k].permissions =~= stepped[k].permissions);
    }
    assert(after =~= stepped);
}

} // verus!
