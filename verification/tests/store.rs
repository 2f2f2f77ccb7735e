use rbac::{Mem, Permission, Role, Store, NO_ROLES, NO_SUCH_ROLE};

#[test]
fn new_store_is_empty() {
    let mut store = Mem::new();
    assert!(!store.has_role("a"));
    assert!(!store.has_role(""));
}

#[test]
fn lookup_in_empty_store_fails() {
    let mut store = Mem::new();
    assert_eq!(store.get_role("a"), Err(NO_ROLES));
    assert_eq!(store.get_role("a"), Err("roles is not found"));
}

#[test]
fn lookup_of_absent_name_fails() {
    let mut store = Mem::new();
    assert!(store.add_role("a", ""));
    assert_eq!(store.get_role("b"), Err(NO_SUCH_ROLE));
    assert_eq!(store.get_role("b"), Err("unable to find role"));
}

#[test]
fn add_role_registers_a_role_without_grants() {
    let mut store = Mem::new();
    assert!(store.add_role("child", "parent"));
    assert!(store.has_role("child"));
    assert!(!store.has_role("parent"));
    let role = store.get_role("child").unwrap();
    assert_eq!(role.name(), "child");
    assert_eq!(role.parent(), "parent");
    assert!(role.has_parent());
    assert_eq!(role.permissions().len(), 0);
    assert_eq!(role, Role::new("child", "parent"));
}

#[test]
fn add_role_accepts_an_empty_name() {
    let mut store = Mem::new();
    assert!(store.add_role("", "x"));
    assert!(store.has_role(""));
    assert_eq!(store.get_role("").unwrap().parent(), "x");
}

#[test]
fn add_role_twice_keeps_the_first() {
    let mut store = Mem::new();
    assert!(store.add_role("r", "first"));
    assert_eq!(store.update_permissions("r", "read", "doc"), Ok(true));
    assert!(store.add_role("r", "second"));
    let role = store.get_role("r").unwrap();
    assert_eq!(role.parent(), "first");
    assert_eq!(role.permissions().len(), 1);
}

#[test]
fn update_permissions_appends_in_order() {
    let mut store = Mem::new();
    assert!(store.add_role("r", ""));
    assert_eq!(store.update_permissions("r", "read", "doc"), Ok(true));
    assert_eq!(store.update_permissions("r", "write", "doc"), Ok(true));
    assert_eq!(store.update_permissions("r", "read", "doc"), Ok(true));
    let role = store.get_role("r").unwrap();
    let ps = role.permissions();
    assert_eq!(ps.len(), 3);
    assert_eq!(ps[0], Permission::new("read", "doc"));
    assert_eq!(ps[1], Permission::new("write", "doc"));
    assert_eq!(ps[2], Permission::new("read", "doc"));
    assert_eq!(role.name(), "r");
    assert_eq!(role.parent(), "");
}

#[test]
fn update_permissions_touches_one_role_only() {
    let mut store = Mem::new();
    assert!(store.add_role("a", ""));
    assert!(store.add_role("b", "a"));
    assert_eq!(store.update_permissions("a", "read", "doc"), Ok(true));
    let b = store.get_role("b").unwrap();
    assert_eq!(b, Role::new("b", "a"));
    assert!(store.has_role("a"));
    assert!(store.has_role("b"));
}

#[test]
fn update_permissions_of_absent_name_fails() {
    let mut store = Mem::new();
    assert_eq!(store.update_permissions("r", "read", "doc"), Err(NO_SUCH_ROLE));
    assert!(!store.has_role("r"));
    assert!(store.add_role("a", ""));
    assert_eq!(store.update_permissions("r", "read", "doc"), Err("unable to find role"));
    assert!(!store.has_role("r"));
    assert_eq!(store.get_role("a").unwrap().permissions().len(), 0);
}

#[test]
fn snapshot_is_not_changed_by_later_updates() {
    let mut store = Mem::new();
    assert!(store.add_role("r", ""));
    let before = store.get_role("r").unwrap();
    assert_eq!(store.update_permissions("r", "read", "doc"), Ok(true));
    assert_eq!(before.permissions().len(), 0);
    let after = store.get_role("r").unwrap();
    assert_eq!(after.permissions().len(), 1);
    assert_ne!(before, after);
}

#[test]
fn lookups_leave_the_store_as_it_was() {
    let mut store = Mem::new();
    assert!(store.add_role("r", "p"));
    assert_eq!(store.update_permissions("r", "read", "doc"), Ok(true));
    let first = store.get_role("r").unwrap();
    assert!(store.has_role("r"));
    assert!(!store.has_role("p"));
    assert_eq!(store.get_role("p"), Err(NO_SUCH_ROLE));
    let second = store.get_role("r").unwrap();
    assert_eq!(first, second);
}
