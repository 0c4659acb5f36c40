use oneshare::acl::{
    can_access, display_path_for, resolve_virtual, sanitize_path, user_has_root_read, user_shares,
    Permission,
};
use oneshare::rows::{AclEntryRow, UserRow};

fn user(id: i64) -> UserRow {
    UserRow {
        id,
        oidc_sub: format!("sub-{id}"),
        display_name: format!("user-{id}"),
        email: None,
        is_admin: 0,
    }
}

fn acl(id: i64, path: &str, group_id: i64, permission: &str) -> AclEntryRow {
    AclEntryRow {
        id,
        path: path.to_string(),
        user_id: None,
        group_id: Some(group_id),
        permission: permission.to_string(),
    }
}

#[test]
fn write_access_implies_read_access() {
    let entries = vec![acl(1, "docs", 10, "write"), acl(2, "docs/private", 20, "admin")];
    for path in ["docs", "docs/a", "docs/private/x", "elsewhere"] {
        for groups in [vec![10], vec![20], vec![10, 20], vec![]] {
            let u = user(1);
            if can_access(&u, &groups, &entries, path, &Permission::Admin) {
                assert!(can_access(&u, &groups, &entries, path, &Permission::Write));
            }
            if can_access(&u, &groups, &entries, path, &Permission::Write) {
                assert!(can_access(&u, &groups, &entries, path, &Permission::Read));
            }
        }
    }
}

#[test]
fn sanitizing_twice_changes_nothing() {
    for p in ["/a//b/", "a/b/c.txt", "", "x/", "//"] {
        let once = sanitize_path(p).unwrap();
        assert!(!once.starts_with('/') && !once.ends_with('/'));
        assert_eq!(sanitize_path(&once).as_deref(), Some(once.as_str()));
    }
}

#[test]
fn display_then_resolve_gives_the_real_path_back() {
    let u = user(1);
    let entries = vec![acl(1, "a/data", 10, "read"), acl(2, "b/data", 10, "read"), acl(3, "docs", 10, "read")];
    let shares = user_shares(&u, &[10], &entries);
    for real in ["a/data/x.txt", "b/data", "b/data/y/z", "docs/readme.md"] {
        let shown = display_path_for(&u, &[10], &entries, real).unwrap();
        assert_eq!(resolve_virtual(&shown, &shares).as_deref(), Some(real));
    }
    // A leaf that looks like a numbered name does not clash either.
    let clash = vec![acl(1, "a/data", 10, "read"), acl(2, "b/data", 10, "read"), acl(3, "c/data-2", 10, "read")];
    let shares = user_shares(&u, &[10], &clash);
    let shown = display_path_for(&u, &[10], &clash, "c/data-2/f").unwrap();
    assert_eq!(shown, "data-2-2/f");
    for real in ["a/data/f", "b/data/f", "c/data-2/f"] {
        let shown = display_path_for(&u, &[10], &clash, real).unwrap();
        assert_eq!(resolve_virtual(&shown, &shares).as_deref(), Some(real));
    }
}

#[test]
fn root_read_is_the_access_decision_at_the_root() {
    let u = user(1);
    let cases = vec![
        vec![],
        vec![acl(1, "docs", 10, "admin")],
        vec![acl(1, "/", 10, "read")],
        vec![acl(1, "", 20, "write"), acl(2, "docs", 10, "read")],
        vec![acl(1, "//", 10, "bogus")],
    ];
    for entries in &cases {
        for groups in [vec![10], vec![20], vec![]] {
            assert_eq!(
                user_has_root_read(&u, &groups, entries),
                can_access(&u, &groups, entries, "", &Permission::Read)
            );
        }
    }
    assert!(user_has_root_read(&u, &[10], &cases[2]));
    assert!(!user_has_root_read(&u, &[10], &cases[3]));
}
