use rbac::{Acl, Mem, Store};

#[test]
fn basic() {
    let store = Mem::new();
    let mut acl = Acl::new(store);
    let _ = acl.add_role("guest", "");
    let _ = acl.add_role("user", "guest");
    acl.allow(vec!["user"], "comment", "foobar");
    acl.allow(vec!["guest"], "comment", "news");
    assert_eq!(acl.available("user", "comment", "foobar"), true);
    assert_eq!(acl.available("user", "comment", "news"), true);
    assert_eq!(acl.available("user", "comment", "foobar2"), false);
}
