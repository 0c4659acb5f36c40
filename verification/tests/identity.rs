use oneshare::rows::{AclEntryRow, UserRow};
use oneshare::session::{identity_step, IdentityAction, IdentityEvent, IdentityStage, RequestUser};

fn member(sub: &str) -> UserRow {
    UserRow {
        id: 7,
        oidc_sub: sub.to_string(),
        display_name: "Ann".to_string(),
        email: None,
        is_admin: 0,
    }
}

fn resolved(action: IdentityAction) -> RequestUser {
    match action {
        IdentityAction::Resolved(ru) => ru,
        _ => panic!("expected a resolved identity"),
    }
}

#[test]
fn no_cookie_makes_a_guest() {
    let (stage, action) = identity_step(IdentityStage::Cookie, IdentityEvent::Cookie(None));
    assert!(matches!(action, IdentityAction::FetchGuestGroup));
    let (_, action) = identity_step(stage, IdentityEvent::GuestGroup(Some(3)));
    let ru = resolved(action);
    assert_eq!(ru.user.id, -1);
    assert_eq!(ru.user.oidc_sub, "guest");
    assert_eq!(ru.groups, vec![3]);
    assert!(ru.share_entries.is_empty());
}

#[test]
fn a_live_share_cookie_makes_a_share_visitor() {
    let cookie = Some("share:tok123".to_string());
    let (stage, action) = identity_step(IdentityStage::Cookie, IdentityEvent::Cookie(cookie));
    assert!(matches!(&action, IdentityAction::FetchShareLink(t) if t == "tok123"));
    let (stage, action) = identity_step(stage, IdentityEvent::ShareLink(Some("Docs".to_string())));
    assert!(matches!(&action, IdentityAction::FetchShareEntries(t) if t == "tok123"));
    let rule = AclEntryRow {
        id: -1,
        path: "docs".to_string(),
        user_id: Some(-2),
        group_id: None,
        permission: "read".to_string(),
    };
    let (_, action) = identity_step(stage, IdentityEvent::ShareEntries(vec![rule]));
    let ru = resolved(action);
    assert_eq!(ru.user.id, -2);
    assert_eq!(ru.user.oidc_sub, "share:tok123");
    assert_eq!(ru.user.display_name, "Docs");
    assert!(ru.groups.is_empty());
    assert_eq!(ru.share_entries.len(), 1);
}

#[test]
fn a_dead_share_or_unknown_session_falls_back_to_the_guest() {
    let (stage, _) = identity_step(IdentityStage::Cookie, IdentityEvent::Cookie(Some("share:gone".to_string())));
    let (_, action) = identity_step(stage, IdentityEvent::ShareLink(None));
    assert!(matches!(action, IdentityAction::FetchGuestGroup));
    let (stage, action) = identity_step(IdentityStage::Cookie, IdentityEvent::Cookie(Some("abc-uuid".to_string())));
    assert!(matches!(&action, IdentityAction::FetchSessionUser(id) if id == "abc-uuid"));
    let (_, action) = identity_step(stage, IdentityEvent::SessionUser(None));
    assert!(matches!(action, IdentityAction::FetchGuestGroup));
}

#[test]
fn a_session_user_is_a_member_with_their_groups() {
    let (stage, _) = identity_step(IdentityStage::Cookie, IdentityEvent::Cookie(Some("abc-uuid".to_string())));
    let (stage, action) = identity_step(stage, IdentityEvent::SessionUser(Some(member("oidc|ann"))));
    assert!(matches!(action, IdentityAction::FetchGroups(7)));
    let (_, action) = identity_step(stage, IdentityEvent::Groups(vec![1, 2]));
    let ru = resolved(action);
    assert_eq!(ru.user.display_name, "Ann");
    assert_eq!(ru.groups, vec![1, 2]);
    assert!(ru.share_entries.is_empty());
    // A stored user with a share subject is treated as a share visitor.
    let (_, action) = identity_step(IdentityStage::SessionUser, IdentityEvent::SessionUser(Some(member("share:t9"))));
    assert!(matches!(&action, IdentityAction::FetchShareEntries(t) if t == "t9"));
}
