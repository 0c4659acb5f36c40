use oneshare::legacy_acl::{check_permission, Permission};
use oneshare::rows::{AclEntryRow, UserRow};
use oneshare::statics::{static_version, versioned_html};

fn user(id: i64, is_admin: bool) -> UserRow {
    UserRow {
        id,
        oidc_sub: format!("sub-{id}"),
        display_name: format!("user-{id}"),
        email: None,
        is_admin: if is_admin { 1 } else { 0 },
    }
}

fn rule(id: i64, user_id: Option<i64>, group_id: Option<i64>, permission: &str) -> AclEntryRow {
    AclEntryRow { id, path: "p".to_string(), user_id, group_id, permission: permission.to_string() }
}

#[test]
fn legacy_rules_allow_reading_unconfigured_paths() {
    assert!(check_permission(&user(1, false), &[], &[], Permission::Read));
    assert!(!check_permission(&user(1, false), &[], &[], Permission::Write));
    assert!(check_permission(&user(1, true), &[rule(1, Some(9), None, "read")], &[], Permission::Admin));
    let rules = vec![rule(1, None, Some(5), "write"), rule(2, Some(1), None, "read")];
    assert!(check_permission(&user(1, false), &rules, &[5], Permission::Write));
    assert!(!check_permission(&user(1, false), &rules, &[], Permission::Write));
    assert!(check_permission(&user(1, false), &rules, &[], Permission::Read));
    assert!(!check_permission(&user(2, false), &rules, &[], Permission::Read));
    assert_eq!(Permission::from_str("admin"), Some(Permission::Admin));
    assert_eq!(Permission::from_str("Admin"), None);
    assert!(Permission::Write.covers(&Permission::Read));
    assert!(!Permission::Read.covers(&Permission::Admin));
}

#[test]
fn asset_urls_carry_the_bundle_version() {
    assert_eq!(static_version(None), "");
    let html = r#"<script src="js/api.js"></script><link href="./css/main.css"><script src="config.js"></script>"#;
    assert_eq!(
        versioned_html(html, "abc"),
        r#"<script src="js/api.js?v=abc"></script><link href="./css/main.css?v=abc"><script src="config.js"></script>"#
    );
}
