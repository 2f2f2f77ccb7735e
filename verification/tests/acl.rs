use rbac::{Acl, Mem, Store, EMPTY_NAME};

fn fresh() -> Acl<Mem> {
    Acl::new(Mem::new())
}

#[test]
fn direct_grant_is_available() {
    let mut acl = fresh();
    assert_eq!(acl.add_role("r", ""), Ok(()));
    acl.allow(vec!["r"], "read", "doc");
    assert!(acl.available("r", "read", "doc"));
}

#[test]
fn direct_grant_covers_no_other_resource() {
    let mut acl = fresh();
    assert_eq!(acl.add_role("r", ""), Ok(()));
    acl.allow(vec!["r"], "read", "doc");
    assert!(!acl.available("r", "read", "other"));
    assert!(!acl.available("r", "read", ""));
    assert!(!acl.available("r", "read", "doc2"));
}

#[test]
fn direct_grant_covers_no_other_action() {
    let mut acl = fresh();
    assert_eq!(acl.add_role("r", ""), Ok(()));
    acl.allow(vec!["r"], "read", "doc");
    assert!(!acl.available("r", "write", "doc"));
    assert!(!acl.available("r", "doc", "read"));
}

#[test]
fn role_without_grants_is_denied() {
    let mut acl = fresh();
    assert_eq!(acl.add_role("r", ""), Ok(()));
    assert!(!acl.available("r", "read", "doc"));
}

#[test]
fn child_inherits_from_parent() {
    let mut acl = fresh();
    assert_eq!(acl.add_role("parent", ""), Ok(()));
    assert_eq!(acl.add_role("child", "parent"), Ok(()));
    acl.allow(vec!["parent"], "read", "doc");
    assert!(acl.available("child", "read", "doc"));
    assert!(acl.available("parent", "read", "doc"));
}

#[test]
fn parent_does_not_inherit_from_child() {
    let mut acl = fresh();
    assert_eq!(acl.add_role("parent", ""), Ok(()));
    assert_eq!(acl.add_role("child", "parent"), Ok(()));
    acl.allow(vec!["child"], "read", "doc");
    assert!(acl.available("child", "read", "doc"));
    assert!(!acl.available("parent", "read", "doc"));
}

#[test]
fn grant_is_not_seen_from_unrelated_role() {
    let mut acl = fresh();
    assert_eq!(acl.add_role("a", ""), Ok(()));
    assert_eq!(acl.add_role("b", ""), Ok(()));
    acl.allow(vec!["a"], "read", "doc");
    assert!(acl.available("a", "read", "doc"));
    assert!(!acl.available("b", "read", "doc"));
}

#[test]
fn grant_is_not_seen_from_sibling() {
    let mut acl = fresh();
    assert_eq!(acl.add_role("root", ""), Ok(()));
    assert_eq!(acl.add_role("a", "root"), Ok(()));
    assert_eq!(acl.add_role("b", "root"), Ok(()));
    acl.allow(vec!["a"], "read", "doc");
    assert!(!acl.available("b", "read", "doc"));
    assert!(!acl.available("root", "read", "doc"));
}

#[test]
fn grandchild_inherits_from_grandparent() {
    let mut acl = fresh();
    assert_eq!(acl.add_role("grandparent", ""), Ok(()));
    assert_eq!(acl.add_role("parent", "grandparent"), Ok(()));
    assert_eq!(acl.add_role("child", "parent"), Ok(()));
    acl.allow(vec!["grandparent"], "read", "doc");
    assert!(acl.available("child", "read", "doc"));
    assert!(acl.available("parent", "read", "doc"));
    assert!(acl.available("grandparent", "read", "doc"));
    assert!(!acl.available("child", "read", "other"));
}

#[test]
fn parent_may_be_registered_after_child() {
    let mut acl = fresh();
    assert_eq!(acl.add_role("child", "parent"), Ok(()));
    assert_eq!(acl.add_role("parent", ""), Ok(()));
    acl.allow(vec!["parent"], "read", "doc");
    assert!(acl.available("child", "read", "doc"));
}

#[test]
fn direct_grant_is_found_before_an_unregistered_parent() {
    let mut acl = fresh();
    assert_eq!(acl.add_role("child", "nobody"), Ok(()));
    acl.allow(vec!["child"], "read", "doc");
    assert!(acl.available("child", "read", "doc"));
}

#[test]
fn direct_grant_is_found_on_a_cycle() {
    let mut acl = fresh();
    assert_eq!(acl.add_role("a", "b"), Ok(()));
    assert_eq!(acl.add_role("b", "a"), Ok(()));
    acl.allow(vec!["b"], "read", "doc");
    assert!(acl.available("a", "read", "doc"));
    assert!(acl.available("b", "read", "doc"));
}

#[test]
fn empty_name_is_rejected() {
    let mut acl = fresh();
    assert_eq!(acl.add_role("", "x"), Err(EMPTY_NAME));
    assert_eq!(acl.add_role("", "x"), Err("string is empty"));
    let mut store = acl.into_store();
    assert!(!store.has_role(""));
    assert!(!store.has_role("x"));
    assert_eq!(store.get_role(""), Err("roles is not found"));
}

#[test]
fn empty_name_leaves_other_roles_alone() {
    let mut acl = fresh();
    assert_eq!(acl.add_role("r", ""), Ok(()));
    acl.allow(vec!["r"], "read", "doc");
    assert_eq!(acl.add_role("", "r"), Err(EMPTY_NAME));
    assert!(acl.available("r", "read", "doc"));
    let mut store = acl.into_store();
    assert!(store.has_role("r"));
    assert!(!store.has_role(""));
}

#[test]
fn second_registration_keeps_first_parent() {
    let mut acl = fresh();
    assert_eq!(acl.add_role("first", ""), Ok(()));
    assert_eq!(acl.add_role("second", ""), Ok(()));
    assert_eq!(acl.add_role("r", "first"), Ok(()));
    assert_eq!(acl.add_role("r", "second"), Ok(()));
    acl.allow(vec!["first"], "read", "one");
    acl.allow(vec!["second"], "read", "two");
    assert!(acl.available("r", "read", "one"));
    assert!(!acl.available("r", "read", "two"));
    let mut store = acl.into_store();
    let role = store.get_role("r").unwrap();
    assert_eq!(role.parent(), "first");
}

#[test]
fn second_registration_keeps_grants() {
    let mut acl = fresh();
    assert_eq!(acl.add_role("r", ""), Ok(()));
    acl.allow(vec!["r"], "read", "doc");
    assert_eq!(acl.add_role("r", "elsewhere"), Ok(()));
    assert!(acl.available("r", "read", "doc"));
    assert!(!acl.available("r", "read", "other"));
}

#[test]
fn allow_grants_to_every_role_named() {
    let mut acl = fresh();
    assert_eq!(acl.add_role("a", ""), Ok(()));
    assert_eq!(acl.add_role("b", ""), Ok(()));
    assert_eq!(acl.add_role("c", ""), Ok(()));
    acl.allow(vec!["a", "b"], "read", "doc");
    assert!(acl.available("a", "read", "doc"));
    assert!(acl.available("b", "read", "doc"));
    assert!(!acl.available("c", "read", "doc"));
}

#[test]
fn allow_appends_once_for_each_time_a_role_is_named() {
    let mut acl = fresh();
    assert_eq!(acl.add_role("a", ""), Ok(()));
    assert_eq!(acl.add_role("b", ""), Ok(()));
    acl.allow(vec!["a", "b", "a"], "read", "doc");
    let mut store = acl.into_store();
    assert_eq!(store.get_role("a").unwrap().permissions().len(), 2);
    assert_eq!(store.get_role("b").unwrap().permissions().len(), 1);
}

#[test]
fn allow_with_no_roles_changes_nothing() {
    let mut acl = fresh();
    assert_eq!(acl.add_role("a", ""), Ok(()));
    acl.allow(vec![], "read", "doc");
    assert!(!acl.available("a", "read", "doc"));
    let mut store = acl.into_store();
    assert_eq!(store.get_role("a").unwrap().permissions().len(), 0);
}

#[test]
fn available_leaves_the_roles_as_they_were() {
    let mut acl = fresh();
    assert_eq!(acl.add_role("guest", ""), Ok(()));
    assert_eq!(acl.add_role("user", "guest"), Ok(()));
    acl.allow(vec!["guest"], "comment", "news");
    assert!(acl.available("user", "comment", "news"));
    assert!(acl.available("user", "comment", "news"));
    let mut store = acl.into_store();
    let user = store.get_role("user").unwrap();
    assert_eq!(user.name(), "user");
    assert_eq!(user.parent(), "guest");
    assert_eq!(user.permissions().len(), 0);
    let guest = store.get_role("guest").unwrap();
    assert_eq!(guest.permissions().len(), 1);
}

#[test]
fn acl_takes_over_the_roles_of_its_store() {
    let mut store = Mem::new();
    assert!(store.add_role("guest", ""));
    assert_eq!(store.update_permissions("guest", "comment", "news"), Ok(true));
    let mut acl = Acl::new(store);
    assert!(acl.available("guest", "comment", "news"));
    assert_eq!(acl.add_role("user", "guest"), Ok(()));
    assert!(acl.available("user", "comment", "news"));
}
