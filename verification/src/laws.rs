//! What holds of registering, granting and querying, proved over the model.

use vstd::prelude::*;
use crate::model::{
    granted, inherits_from, lemma_permitted_unfold, lemma_settles_unfold, permitted, reaches,
    registered, rooted, rooted_within, settles, settles_within, PermissionView, Roles,
};

verus! {

/// Granting touches only the grants: every role stays registered under its
/// name and parent, and it holds a grant afterwards exactly when it held it
/// before or it is the new grant and the role was named.
pub proof fn lemma_granted_role(m: Roles, roles: Seq<Seq<char>>, p: PermissionView, k: Seq<char>)
    ensures
        granted(m, roles, p).contains_key(k) == m.contains_key(k),
        m.contains_key(k) ==> granted(m, roles, p)[k].name == m[k].name,
        m.contains_key(k) ==> granted(m, roles, p)[k].parent == m[k].parent,
        forall|q: PermissionView|
            m.contains_key(k) ==> (#[trigger] granted(m, roles, p)[k].grants(q) <==> m[k].grants(q)
                || (q == p && roles.contains(k))),
{
    if m.contains_key(k) {
        let old_ps = m[k].permissions;
        let n = roles.to_multiset().count(k);
        let added = Seq::new(n, |i: int| p);
        let new_ps = granted(m, roles, p)[k].permissions;
        roles.to_multiset_ensures();
        assert(new_ps == old_ps + added);
        assert forall|q: PermissionView| new_ps.contains(q) <==> old_ps.contains(q) || (q == p
            && roles.contains(k)) by {
            if old_ps.contains(q) {
                let i = choose|i: int| 0 <= i < old_ps.len() && old_ps[i] == q;
                assert(new_ps[i] == q);
            }
            if q == p && roles.contains(k) {
                assert(new_ps[old_ps.len() as int] == p);
            }
            if new_ps.contains(q) {
                let i = choose|i: int| 0 <= i < new_ps.len() && new_ps[i] == q;
                if i < old_ps.len() {
                    assert(old_ps[i] == q);
                } else {
                    assert(added[i - old_ps.len()] == p);
                }
            }
        }
    }
}

/// Granting leaves the inheritance chains as they are.
pub proof fn lemma_granted_reaches(
    m: Roles,
    roles: Seq<Seq<char>>,
    p: PermissionView,
    role: Seq<char>,
    target: Seq<char>,
    steps: nat,
)
    ensures
        reaches(granted(m, roles, p), role, target, steps) == reaches(m, role, target, steps),
    decreases steps,
{
    if steps > 0 {
        lemma_granted_role(m, roles, p, role);
        if m.contains_key(role) {
            lemma_granted_reaches(m, roles, p, m[role].parent, target, (steps - 1) as nat);
        }
    }
}

/// A role on the chain of the parent is on the chain of the child.
pub proof fn lemma_inherits_through_parent(m: Roles, role: Seq<char>, target: Seq<char>)
    requires
        m.contains_key(role),
        m[role].has_parent(),
        inherits_from(m, m[role].parent, target),
    ensures
        inherits_from(m, role, target),
{
    let steps = choose|steps: nat| reaches(m, m[role].parent, target, steps);
    assert(reaches(m, role, target, steps + 1));
}

/// A grant is seen from a role only if it was made to a role on its chain:
/// where none of `roles` is the role `from` or one of its ancestors, granting
/// to them changes no answer for `from`, nor whether the search for one
/// settles.
pub proof fn law_grant_confined_to_chain(
    m: Roles,
    roles: Seq<Seq<char>>,
    p: PermissionView,
    from: Seq<char>,
    q: PermissionView,
)
    requires
        forall|i: int| 0 <= i < roles.len() ==> !inherits_from(m, from, #[trigger] roles[i]),
    ensures
        permitted(granted(m, roles, p), from, q) == permitted(m, from, q),
        settles(granted(m, roles, p), from, q) == settles(m, from, q),
{
    let g = granted(m, roles, p);
    assert forall|holder: Seq<char>, steps: nat|
        (#[trigger] reaches(g, from, holder, steps) && g.contains_key(holder) && g[holder].grants(
            q,
        )) == (reaches(m, from, holder, steps) && m.contains_key(holder) && m[holder].grants(
            q,
        )) by {
        lemma_granted_reaches(m, roles, p, from, holder, steps);
        lemma_granted_role(m, roles, p, holder);
        if reaches(m, from, holder, steps) && roles.contains(holder) {
            let i = choose|i: int| 0 <= i < roles.len() && roles[i] == holder;
            assert(inherits_from(m, from, roles[i]));
        }
    }
    if permitted(g, from, q) {
        let (holder, steps) = choose|holder: Seq<char>, steps: nat|
            #[trigger] reaches(g, from, holder, steps) && g.contains_key(holder)
                && g[holder].grants(q);
        assert(reaches(m, from, holder, steps));
    }
    if permitted(m, from, q) {
        let (holder, steps) = choose|holder: Seq<char>, steps: nat|
            #[trigger] reaches(m, from, holder, steps) && m.contains_key(holder)
                && m[holder].grants(q);
        assert(reaches(g, from, holder, steps));
    }
    assert forall|steps: nat|
        settles_within(g, from, q, steps) == settles_within(m, from, q, steps) by {
        lemma_confined_settles_within(m, roles, p, from, q, steps);
    }
}

proof fn lemma_confined_settles_within(
    m: Roles,
    roles: Seq<Seq<char>>,
    p: PermissionView,
    from: Seq<char>,
    q: PermissionView,
    steps: nat,
)
    requires
        forall|i: int| 0 <= i < roles.len() ==> !inherits_from(m, from, #[trigger] roles[i]),
    ensures
        settles_within(granted(m, roles, p), from, q, steps) == settles_within(m, from, q, steps),
    decreases steps,
{
    lemma_granted_role(m, roles, p, from);
    if m.contains_key(from) {
        if roles.contains(from) {
            let i = choose|i: int| 0 <= i < roles.len() && roles[i] == from;
            assert(reaches(m, from, roles[i], 0));
        }
        if steps > 0 && m[from].has_parent() {
            assert forall|i: int| 0 <= i < roles.len() implies !inherits_from(
                m,
                m[from].parent,
                #[trigger] roles[i],
            ) by {
                if inherits_from(m, m[from].parent, roles[i]) {
                    lemma_inherits_through_parent(m, from, roles[i]);
                }
            }
            lemma_confined_settles_within(m, roles, p, m[from].parent, q, (steps - 1) as nat);
        }
    }
}

/// A grant answers for itself alone: granting `p` changes no answer about
/// another permission `q`, nor whether the search for `q` settles.
pub proof fn law_grant_is_specific(
    m: Roles,
    roles: Seq<Seq<char>>,
    p: PermissionView,
    from: Seq<char>,
    q: PermissionView,
)
    requires
        q != p,
    ensures
        permitted(granted(m, roles, p), from, q) == permitted(m, from, q),
        settles(granted(m, roles, p), from, q) == settles(m, from, q),
{
    let g = granted(m, roles, p);
    assert forall|holder: Seq<char>, steps: nat|
        (#[trigger] reaches(g, from, holder, steps) && g.contains_key(holder) && g[holder].grants(
            q,
        )) == (reaches(m, from, holder, steps) && m.contains_key(holder) && m[holder].grants(
            q,
        )) by {
        lemma_granted_reaches(m, roles, p, from, holder, steps);
        lemma_granted_role(m, roles, p, holder);
    }
    if permitted(g, from, q) {
        let (holder, steps) = choose|holder: Seq<char>, steps: nat|
            #[trigger] reaches(g, from, holder, steps) && g.contains_key(holder)
                && g[holder].grants(q);
        assert(reaches(m, from, holder, steps));
    }
    if permitted(m, from, q) {
        let (holder, steps) = choose|holder: Seq<char>, steps: nat|
            #[trigger] reaches(m, from, holder, steps) && m.contains_key(holder)
                && m[holder].grants(q);
        assert(reaches(g, from, holder, steps));
    }
    assert forall|steps: nat|
        settles_within(g, from, q, steps) == settles_within(m, from, q, steps) by {
        lemma_specific_settles_within(m, roles, p, from, q, steps);
    }
}

proof fn lemma_specific_settles_within(
    m: Roles,
    roles: Seq<Seq<char>>,
    p: PermissionView,
    from: Seq<char>,
    q: PermissionView,
    steps: nat,
)
    requires
        q != p,
    ensures
        settles_within(granted(m, roles, p), from, q, steps) == settles_within(m, from, q, steps),
    decreases steps,
{
    lemma_granted_role(m, roles, p, from);
    if m.contains_key(from) && steps > 0 {
        lemma_specific_settles_within(m, roles, p, m[from].parent, q, (steps - 1) as nat);
    }
}

/// A grant made to a role is seen from every role that inherits from it,
/// however long the chain between them, and the search for it settles.
pub proof fn law_grant_reaches_descendants(
    m: Roles,
    roles: Seq<Seq<char>>,
    p: PermissionView,
    from: Seq<char>,
    holder: Seq<char>,
)
    requires
        m.contains_key(holder),
        roles.contains(holder),
        inherits_from(m, from, holder),
    ensures
        settles(granted(m, roles, p), from, p),
        permitted(granted(m, roles, p), from, p),
{
    let g = granted(m, roles, p);
    let steps = choose|steps: nat| reaches(m, from, holder, steps);
    lemma_granted_reaches(m, roles, p, from, holder, steps);
    lemma_granted_role(m, roles, p, holder);
    assert(reaches(g, from, holder, steps));
    lemma_holder_settles(g, from, holder, p, steps);
}

/// Where a role on the chain holds the grant, the search settles.
proof fn lemma_holder_settles(
    m: Roles,
    from: Seq<char>,
    holder: Seq<char>,
    p: PermissionView,
    steps: nat,
)
    requires
        reaches(m, from, holder, steps),
        m.contains_key(holder),
        m[holder].grants(p),
    ensures
        settles_within(m, from, p, steps),
    decreases steps,
{
    if steps > 0 {
        lemma_holder_settles(m, m[from].parent, holder, p, (steps - 1) as nat);
    }
}

/// Whoever is permitted gets an answer: where a role or one of its ancestors
/// holds the grant, the search for it settles.
pub proof fn law_permitted_settles(m: Roles, from: Seq<char>, p: PermissionView)
    requires
        permitted(m, from, p),
    ensures
        settles(m, from, p),
{
    let (holder, steps) = choose|holder: Seq<char>, steps: nat|
        #[trigger] reaches(m, from, holder, steps) && m.contains_key(holder) && m[holder].grants(
            p,
        );
    lemma_holder_settles(m, from, holder, p, steps);
}

/// Direct grant: once a role is registered and granted `action` on
/// `resource`, it is permitted just that.
pub proof fn law_direct_grant(
    m: Roles,
    role: Seq<char>,
    action: Seq<char>,
    resource: Seq<char>,
)
    requires
        registered(m, role, Seq::empty()).contains_key(role),
    ensures
        ({
            let p = PermissionView { action, resource };
            let after = granted(registered(m, role, Seq::empty()), seq![role], p);
            settles(after, role, p) && permitted(after, role, p)
        }),
{
    let p = PermissionView { action, resource };
    let before = registered(m, role, Seq::empty());
    assert(seq![role][0] == role);
    assert(reaches(before, role, role, 0));
    law_grant_reaches_descendants(before, seq![role], p, role, role);
}

/// Direct grant, the other half: a role that is registered without parent
/// and granted `action` on `resource` is not thereby permitted the action on
/// any other resource.  This is stated for a role that was not registered
/// before, or was not permitted the other resource before.
pub proof fn law_direct_grant_only(
    m: Roles,
    role: Seq<char>,
    action: Seq<char>,
    resource: Seq<char>,
    other: Seq<char>,
)
    requires
        registered(m, role, Seq::empty()).contains_key(role),
        other != resource,
        m.contains_key(role) ==> settles(m, role, PermissionView { action, resource: other })
            && !permitted(m, role, PermissionView { action, resource: other }),
    ensures
        ({
            let p = PermissionView { action, resource };
            let q = PermissionView { action, resource: other };
            let after = granted(registered(m, role, Seq::empty()), seq![role], p);
            settles(after, role, q) && !permitted(after, role, q)
        }),
{
    let p = PermissionView { action, resource };
    let q = PermissionView { action, resource: other };
    let before = registered(m, role, Seq::empty());
    law_grant_is_specific(before, seq![role], p, role, q);
    if !m.contains_key(role) {
        lemma_permitted_unfold(before, role, q);
        lemma_settles_unfold(before, role, q);
        assert(!before[role].has_parent());
        assert(!before[role].grants(q));
    }
}

/// Inheritance: a child registered under a parent is permitted what is
/// granted to the parent.  This is stated for a child that was not registered
/// before under another parent, since a registered role keeps its parent.
pub proof fn law_child_inherits(
    m: Roles,
    parent: Seq<char>,
    child: Seq<char>,
    action: Seq<char>,
    resource: Seq<char>,
)
    requires
        parent.len() > 0,
        child.len() > 0,
        m.contains_key(child) ==> m[child].parent == parent,
    ensures
        ({
            let p = PermissionView { action, resource };
            let before = registered(registered(m, parent, Seq::empty()), child, parent);
            let after = granted(before, seq![parent], p);
            settles(after, child, p) && permitted(after, child, p)
        }),
{
    let p = PermissionView { action, resource };
    let before = registered(registered(m, parent, Seq::empty()), child, parent);
    assert(seq![parent][0] == parent);
    if child == parent {
        assert(reaches(before, child, parent, 0));
    } else {
        assert(before[child].parent == parent);
        assert(reaches(before, parent, parent, 0));
        assert(reaches(before, child, parent, 1));
    }
    law_grant_reaches_descendants(before, seq![parent], p, child, parent);
}

/// Three levels: where `child` names `parent` and `parent` names
/// `grandparent`, a grant made to `grandparent` alone is seen from `child`.
pub proof fn law_grandchild_inherits(
    m: Roles,
    grandparent: Seq<char>,
    parent: Seq<char>,
    child: Seq<char>,
    p: PermissionView,
)
    requires
        m.contains_key(grandparent),
        m.contains_key(parent),
        m.contains_key(child),
        m[child].has_parent(),
        m[child].parent == parent,
        m[parent].has_parent(),
        m[parent].parent == grandparent,
    ensures
        settles(granted(m, seq![grandparent], p), child, p),
        permitted(granted(m, seq![grandparent], p), child, p),
{
    assert(seq![grandparent][0] == grandparent);
    assert(reaches(m, grandparent, grandparent, 0));
    assert(reaches(m, parent, grandparent, 1));
    assert(reaches(m, child, grandparent, 2));
    law_grant_reaches_descendants(m, seq![grandparent], p, child, grandparent);
}

/// Registering a name again changes nothing: the role keeps the parent it was
/// first registered with.
pub proof fn law_first_registration_wins(
    m: Roles,
    name: Seq<char>,
    first: Seq<char>,
    second: Seq<char>,
)
    ensures
        registered(registered(m, name, first), name, second) == registered(m, name, first),
        name.len() > 0 && !m.contains_key(name) ==> registered(
            registered(m, name, first),
            name,
            second,
        )[name].parent == first,
{
}

/// A role without a name is never registered by way of the list.
pub proof fn law_empty_name_rejected(m: Roles, parent: Seq<char>)
    ensures
        registered(m, Seq::empty(), parent) == m,
{
}

/// On a chain that is complete and free of cycles every search settles,
/// whatever it looks for.
pub proof fn law_rooted_settles(m: Roles, role: Seq<char>, p: PermissionView)
    requires
        rooted(m, role),
    ensures
        settles(m, role, p),
{
    let steps = choose|steps: nat| rooted_within(m, role, steps);
    lemma_rooted_settles_within(m, role, p, steps);
}

proof fn lemma_rooted_settles_within(m: Roles, role: Seq<char>, p: PermissionView, steps: nat)
    requires
        rooted_within(m, role, steps),
    ensures
        settles_within(m, role, p, steps),
    decreases steps,
{
    if steps > 0 && m[role].has_parent() {
        lemma_rooted_settles_within(m, m[role].parent, p, (steps - 1) as nat);
    }
}

} // verus!
