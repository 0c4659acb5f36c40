use oneshare::acl::{
    can_access, display_path_for, resolve_virtual, sanitize_path, user_shares, Permission, Share,
};
use oneshare::rows::{AclEntryRow, UserRow};

fn user(id: i64, is_admin: bool) -> UserRow {
    UserRow {
        id,
        oidc_sub: format!("sub-{id}"),
        display_name: format!("user-{id}"),
        email: None,
        is_admin: if is_admin { 1 } else { 0 },
    }
}

fn acl(id: i64, path: &str, user_id: Option<i64>, group_id: Option<i64>, permission: &str) -> AclEntryRow {
    AclEntryRow {
        id,
        path: path.to_string(),
        user_id,
        group_id,
        permission: permission.to_string(),
    }
}

fn check(user: &UserRow, groups: &[i64], entries: &[AclEntryRow], path: &str, required: Permission) -> bool {
    can_access(user, groups, entries, path, &required)
}

#[test]
fn admin_bypasses_acl() {
    let entries = vec![acl(1, "secret", None, Some(1), "read")];
    assert!(check(&user(1, true), &[], &entries, "secret", Permission::Write));
}

#[test]
fn no_acl_default_deny() {
    assert!(!check(&user(1, false), &[], &[], "anything", Permission::Read));
    assert!(!check(&user(1, false), &[], &[], "anything", Permission::Write));
    let entries = vec![acl(1, "public", None, Some(10), "read")];
    assert!(!check(&user(1, false), &[10], &entries, "secret", Permission::Read));
}

#[test]
fn default_group_grants_unassigned_users() {
    let entries = vec![acl(1, "public", None, Some(99), "read")];
    let default_only = vec![99];
    assert!(check(&user(1, false), &default_only, &entries, "public", Permission::Read));
    assert!(!check(&user(1, false), &default_only, &entries, "public", Permission::Write));
    assert!(!check(&user(1, false), &[10], &entries, "public", Permission::Read));
}

#[test]
fn shares_are_acl_leaf_names() {
    let entries = vec![
        acl(1, "public", None, Some(10), "read"),
        acl(2, "private", None, Some(10), "write"),
        acl(3, "nested/public2", None, Some(10), "read"),
    ];
    let shares = user_shares(&user(1, false), &[10], &entries);
    let names: Vec<&str> = shares.iter().map(|s| s.virtual_name.as_str()).collect();
    assert_eq!(names, vec!["public", "private", "public2"]);
    let p2 = shares.iter().find(|s| s.virtual_name == "public2").unwrap();
    assert_eq!(p2.real_path, "nested/public2");
}

#[test]
fn shares_ignore_entries_that_do_not_match() {
    let entries = vec![
        acl(1, "public", None, Some(10), "read"),
        acl(2, "private", None, Some(20), "read"),
    ];
    let shares = user_shares(&user(1, false), &[10], &entries);
    assert_eq!(shares.len(), 1);
    assert_eq!(shares[0].virtual_name, "public");
}

#[test]
fn shares_collisions_disambiguated() {
    let entries = vec![
        acl(1, "a/data", None, Some(10), "read"),
        acl(2, "b/data", None, Some(10), "read"),
    ];
    let shares = user_shares(&user(1, false), &[10], &entries);
    let names: Vec<&str> = shares.iter().map(|s| s.virtual_name.as_str()).collect();
    assert_eq!(names, vec!["data", "data-2"]);
}

#[test]
fn share_names_never_repeat() {
    let entries = vec![
        acl(1, "x/data-2", None, Some(10), "read"),
        acl(2, "a/data", None, Some(10), "read"),
        acl(3, "b/data", None, Some(10), "read"),
        acl(4, "c/data", None, Some(10), "read"),
    ];
    let shares = user_shares(&user(1, false), &[10], &entries);
    let names: Vec<&str> = shares.iter().map(|s| s.virtual_name.as_str()).collect();
    assert_eq!(names, vec!["data-2", "data", "data-3", "data-4"]);
}

#[test]
fn admin_sees_all_acl_shares() {
    let entries = vec![
        acl(1, "public", None, Some(10), "read"),
        acl(2, "private", None, Some(20), "write"),
    ];
    let shares = user_shares(&user(1, true), &[], &entries);
    assert_eq!(shares.len(), 2);
}

#[test]
fn resolve_virtual_maps_to_real() {
    let shares = vec![
        Share { virtual_name: "public".into(), real_path: "public".into() },
        Share { virtual_name: "public2".into(), real_path: "nested/public2".into() },
    ];
    assert_eq!(resolve_virtual("", &shares), None);
    assert_eq!(resolve_virtual("public", &shares), Some("public".to_string()));
    assert_eq!(
        resolve_virtual("public2/sub/deep.txt", &shares),
        Some("nested/public2/sub/deep.txt".to_string())
    );
    assert_eq!(resolve_virtual("unknown", &shares), None);
}

#[test]
fn exact_and_ancestor_match() {
    let entries = vec![acl(1, "project", None, Some(10), "read")];
    let groups = [10];
    assert!(check(&user(1, false), &groups, &entries, "project", Permission::Read));
    assert!(check(&user(1, false), &groups, &entries, "project/sub/file.txt", Permission::Read));
    assert!(!check(&user(2, false), &[], &entries, "project", Permission::Read));
}

#[test]
fn sibling_prefix_does_not_leak() {
    let entries = vec![acl(1, "project", None, Some(10), "read")];
    let groups = [10];
    assert!(!check(&user(1, false), &groups, &entries, "project-secret", Permission::Write));
    let entries2 = vec![
        acl(1, "project", None, Some(10), "read"),
        acl(2, "project-secret", None, Some(20), "read"),
    ];
    assert!(!check(&user(1, false), &[10], &entries2, "project-secret", Permission::Read));
    assert!(check(&user(2, false), &[20], &entries2, "project-secret", Permission::Read));
}

#[test]
fn leading_slash_normalized() {
    let entries = vec![acl(1, "/project", None, Some(10), "read")];
    let groups = [10];
    assert!(check(&user(1, false), &groups, &entries, "project", Permission::Read));
    assert!(check(&user(1, false), &groups, &entries, "project/sub", Permission::Read));
    let entries2 = vec![acl(1, "project", None, Some(10), "read")];
    assert!(check(&user(1, false), &groups, &entries2, "/project", Permission::Read));
}

#[test]
fn root_acl_applies_to_all() {
    let entries = vec![acl(1, "", None, Some(10), "read")];
    let groups = [10];
    assert!(check(&user(1, false), &groups, &entries, "", Permission::Read));
    assert!(check(&user(1, false), &groups, &entries, "deep/nested/file", Permission::Read));
    assert!(!check(&user(2, false), &[], &entries, "deep/nested/file", Permission::Read));
}

#[test]
fn most_specific_entry_wins() {
    let entries = vec![
        acl(1, "secret", Some(5), None, "read"),
        acl(2, "secret/sub", None, Some(10), "write"),
    ];
    assert!(check(&user(1, false), &[10], &entries, "secret/sub", Permission::Write));
    assert!(!check(&user(5, false), &[], &entries, "secret/sub", Permission::Write));
    assert!(check(&user(5, false), &[], &entries, "secret/sub", Permission::Read));
}

#[test]
fn permission_hierarchy() {
    assert!(Permission::Read.covers(&Permission::Read));
    assert!(!Permission::Read.covers(&Permission::Write));
    assert!(Permission::Write.covers(&Permission::Read));
    assert!(Permission::Write.covers(&Permission::Write));
    assert!(Permission::Admin.covers(&Permission::Read));
    assert!(Permission::Admin.covers(&Permission::Write));
}

#[test]
fn sanitize_rejects_traversal() {
    assert_eq!(sanitize_path("a/b/c.txt").as_deref(), Some("a/b/c.txt"));
    assert_eq!(sanitize_path("").as_deref(), Some(""));
    assert_eq!(sanitize_path("/a//b/").as_deref(), Some("a/b"));
    assert_eq!(sanitize_path("a/../b"), None);
    assert_eq!(sanitize_path("../secret"), None);
    assert_eq!(sanitize_path("a\\..\\b"), None);
    assert_eq!(sanitize_path("a/./b"), None);
    assert_eq!(sanitize_path("a/\0/b"), None);
}

#[test]
fn resolve_virtual_blocks_traversal_escape() {
    let shares = vec![Share { virtual_name: "public2".into(), real_path: "nested/public2".into() }];
    assert_eq!(
        resolve_virtual("public2/sub/file.txt", &shares),
        Some("nested/public2/sub/file.txt".to_string())
    );
    assert_eq!(resolve_virtual("public2/../../secret", &shares), None);
    assert_eq!(resolve_virtual("public2/..", &shares), None);
    assert_eq!(resolve_virtual("public2/./x", &shares), None);
    assert_eq!(resolve_virtual("public2/..\\secret", &shares), None);
    assert_eq!(resolve_virtual("public2/..\\..\\etc", &shares), None);
}

#[test]
fn traversal_does_not_grant_access() {
    let entries = vec![acl(1, "nested/public2", None, Some(10), "read")];
    let groups = [10];
    let shares = user_shares(&user(1, false), &groups, &entries);
    assert_eq!(resolve_virtual("public2/../../secret", &shares), None);
    assert_eq!(resolve_virtual("public2/..", &shares), None);
}

#[test]
fn display_path_roundtrips_shares() {
    let u = user(1, false);
    let entries = vec![
        acl(1, "nested/public2", Some(1), None, "read"),
        acl(2, "docs", Some(1), None, "read"),
    ];
    let shares = user_shares(&u, &[], &entries);
    assert_eq!(resolve_virtual("public2/a.txt", &shares).as_deref(), Some("nested/public2/a.txt"));
    assert_eq!(resolve_virtual("docs/sub/b.md", &shares).as_deref(), Some("docs/sub/b.md"));
    assert_eq!(display_path_for(&u, &[], &entries, "nested/public2/a.txt").as_deref(), Some("public2/a.txt"));
    assert_eq!(display_path_for(&u, &[], &entries, "nested/public2").as_deref(), Some("public2"));
    assert_eq!(display_path_for(&u, &[], &entries, "docs/sub/b.md").as_deref(), Some("docs/sub/b.md"));
    assert_eq!(display_path_for(&u, &[], &entries, "elsewhere/x"), None);
    let entries2 = vec![
        acl(1, "nested/public2", Some(1), None, "read"),
        acl(2, "nested/public2/deep", Some(1), None, "read"),
    ];
    assert_eq!(
        display_path_for(&u, &[], &entries2, "nested/public2/deep/f.txt").as_deref(),
        Some("deep/f.txt")
    );
    assert_eq!(display_path_for(&user(2, true), &[], &entries, "nested/public2/a.txt").as_deref(), Some("nested/public2/a.txt"));
}
