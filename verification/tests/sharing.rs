use oneshare::gateway::{
    is_libfw_temp, prefix_route, share_cookie_header, share_proxy_target, FreshPathParams,
    PrefixRoute, PrefixStripLayer, ProxyRefusal,
};
use oneshare::models::ShareItemInfo;
use oneshare::rows::{AclEntryRow, ShareLinkRow, UserRow};
use oneshare::session::{
    audit_actor, classify_cookie, effective_groups, guest_user, is_share_user, session_cookie,
    share_token_of, share_user, RequestUser, SessionCookie, SessionManager, GUEST_USER_ID,
    SHARE_USER_ID,
};
use oneshare::share::{
    check_share_request, collection_name, expiry_detail, may_revoke, prepare_item, share_header,
    share_index_target, share_list_owner, share_row_info, share_summary, share_url,
};
use oneshare::status::Refusal;

fn member(id: i64, admin: bool) -> UserRow {
    UserRow {
        id,
        oidc_sub: format!("sub-{id}"),
        display_name: format!("user-{id}"),
        email: None,
        is_admin: if admin { 1 } else { 0 },
    }
}

#[test]
fn guest_and_share_identities() {
    let _ = SessionManager::new();
    let g = guest_user();
    assert_eq!(g.id, GUEST_USER_ID);
    assert_eq!(g.oidc_sub, "guest");
    assert_eq!(g.display_name, "Guest");
    assert_eq!(g.is_admin, 0);
    let s = share_user("tok", "Holiday photos");
    assert_eq!(s.id, SHARE_USER_ID);
    assert_eq!(s.display_name, "Holiday photos");
    assert!(is_share_user(&s));
    assert!(!is_share_user(&g));
    assert_eq!(share_token_of(&s).as_deref(), Some("tok"));
    assert_eq!(share_token_of(&member(3, false)), None);
    assert_eq!(session_cookie(), "fh_session");
}

#[test]
fn cookies_and_groups() {
    assert_eq!(classify_cookie("share:abc"), SessionCookie::Share("abc".to_string()));
    assert_eq!(classify_cookie("0b8c-uuid"), SessionCookie::Session("0b8c-uuid".to_string()));
    assert_eq!(effective_groups(vec![3, 4], Some(9)), vec![3, 4]);
    assert_eq!(effective_groups(vec![], Some(9)), vec![9]);
    assert_eq!(effective_groups(vec![], None), Vec::<i64>::new());
    let guest = RequestUser::for_guest(Some(7));
    assert_eq!(guest.groups, vec![7]);
    assert_eq!(guest.user.id, GUEST_USER_ID);
    assert!(RequestUser::for_guest(None).groups.is_empty());
    assert_eq!(audit_actor(&guest_user()), (None, "guest".to_string()));
    assert_eq!(audit_actor(&member(5, false)), (Some(5), "user-5".to_string()));
}

#[test]
fn share_visitors_see_their_extra_rules() {
    let global = vec![AclEntryRow {
        id: 1,
        path: "public".to_string(),
        user_id: None,
        group_id: Some(1),
        permission: "read".to_string(),
    }];
    let extra = vec![AclEntryRow {
        id: -1,
        path: "pub".to_string(),
        user_id: Some(SHARE_USER_ID),
        group_id: None,
        permission: "read".to_string(),
    }];
    let visitor = RequestUser::for_share(share_user("tok", "pub"), extra);
    assert!(visitor.groups.is_empty());
    let all = visitor.acl_entries(&global);
    assert_eq!(all.len(), 2);
    assert_eq!(all[0].path, "public");
    assert_eq!(all[1].path, "pub");
    assert_eq!(
        oneshare::acl::display_path_for(&visitor.user, &visitor.groups, &all, "pub/a.txt").as_deref(),
        Some("pub/a.txt")
    );
    assert_eq!(
        oneshare::acl::display_path_for(&visitor.user, &visitor.groups, &global, "pub/a.txt"),
        None
    );
    let m = RequestUser::for_member(member(2, false), vec![1]);
    assert_eq!(m.acl_entries(&global).len(), 1);
}

#[test]
fn share_creation_rules() {
    assert_eq!(check_share_request(&guest_user(), 1), Err(Refusal::Unauthorized));
    assert_eq!(check_share_request(&share_user("t", "x"), 1), Err(Refusal::Forbidden));
    assert_eq!(check_share_request(&member(1, false), 0), Err(Refusal::BadRequest));
    assert_eq!(check_share_request(&member(1, false), 51), Err(Refusal::BadRequest));
    assert_eq!(check_share_request(&member(1, false), 50), Ok(()));
    let a = prepare_item("docs/a.txt".to_string(), "docs/a.txt".to_string(), false);
    let b = prepare_item("pics".to_string(), "pics".to_string(), true);
    assert_eq!(a.name, "a.txt");
    let items = vec![a.clone(), b];
    assert_eq!(share_summary(&items), "2 items: docs/a.txt, pics");
    assert_eq!(share_summary(&vec![a.clone()]), "docs/a.txt");
    let h = share_header(&items);
    assert_eq!(h.name, "2 个项目");
    assert!(h.is_dir && h.real_path.is_empty());
    let single = share_header(&vec![a]);
    assert_eq!(single.real_path, "docs/a.txt");
    assert!(!single.is_dir);
    assert_eq!(collection_name(3), "3 个项目");
    assert_eq!(expiry_detail(&None), "never expires");
    assert_eq!(expiry_detail(&Some("2030-01-01 00:00:00".to_string())), "expires: 2030-01-01 00:00:00");
}

#[test]
fn share_listing_and_revocation() {
    assert_eq!(share_url("abc"), "/s/abc");
    assert_eq!(share_index_target("/oneshare", "abc"), "/oneshare/s/abc/");
    assert_eq!(share_list_owner(&member(1, true)), None);
    assert_eq!(share_list_owner(&member(4, false)), Some(4));
    assert!(may_revoke(4, &member(4, false)));
    assert!(may_revoke(4, &member(1, true)));
    assert!(!may_revoke(4, &member(5, false)));
    let row = ShareLinkRow {
        token: "tok".to_string(),
        real_path: String::new(),
        display_path: String::new(),
        name: "2 个项目".to_string(),
        is_dir: true,
        created_by: 4,
        creator: "user-4".to_string(),
        expires_at: None,
    };
    let info = share_row_info(
        &row,
        vec![ShareItemInfo { name: "a".to_string(), path: "a".to_string(), is_dir: false }],
    );
    assert_eq!(info.url, "/s/tok");
    assert_eq!(info.items.len(), 1);
    assert_eq!(info.creator, "user-4");
}

#[test]
fn share_proxy_routes() {
    let t = share_proxy_target("/s/tok/api/files/list", Some("path=x")).unwrap();
    assert_eq!(t.token, "tok");
    assert_eq!(t.path_and_query, "/api/files/list?path=x");
    let t = share_proxy_target("/s/tok/js/app.js", None).unwrap();
    assert_eq!(t.path_and_query, "/js/app.js");
    assert_eq!(share_proxy_target("/s/tok/", Some("v=1")), Err(ProxyRefusal::NotAvailable));
    assert_eq!(share_proxy_target("/s/tok/api/admin/users", None), Err(ProxyRefusal::NotAvailable));
    assert_eq!(share_proxy_target("/s/tok/api/files/delete", None), Err(ProxyRefusal::NotAvailable));
    assert_eq!(share_proxy_target("/s/tok/auth/login", None), Err(ProxyRefusal::NotAvailable));
    assert_eq!(share_proxy_target("/s//api/me", None), Err(ProxyRefusal::NotAShareUrl));
    assert_eq!(share_proxy_target("/x/tok/api/me", None), Err(ProxyRefusal::NotAShareUrl));
    let t = share_proxy_target("/s/tok/file/v1.abc/def", None).unwrap();
    assert_eq!(t.path_and_query, "/file/v1.abc/def");
}

#[test]
fn share_cookie_swaps_the_session() {
    assert_eq!(share_cookie_header(None, "tok"), "fh_session=share:tok");
    assert_eq!(
        share_cookie_header(Some("a=1; fh_session=old ;  ; b=2"), "tok"),
        "a=1; b=2; fh_session=share:tok"
    );
    assert!(is_libfw_temp("docs/.libfw-sess-123"));
    assert!(!is_libfw_temp(".libfw-dir/real.txt"));
}

#[test]
fn prefix_routing() {
    let layer = PrefixStripLayer::new("/oneshare");
    assert_eq!(layer.prefix_with_slash, "/oneshare/");
    let _ = FreshPathParams::new(());
    assert_eq!(prefix_route("", "/anything", None), PrefixRoute::PassThrough);
    assert_eq!(
        prefix_route("/oneshare", "/oneshare", Some("a=1")),
        PrefixRoute::Redirect("/oneshare/?a=1".to_string())
    );
    assert_eq!(
        prefix_route("/oneshare", "/oneshare/css/style.css", None),
        PrefixRoute::Forward("/css/style.css".to_string())
    );
    assert_eq!(
        prefix_route("/oneshare", "/oneshare/api/me", Some("x=y")),
        PrefixRoute::Forward("/api/me?x=y".to_string())
    );
    assert_eq!(prefix_route("/oneshare", "/other", None), PrefixRoute::NotFound);
    assert_eq!(prefix_route("/oneshare", "/oneshare-x/a", None), PrefixRoute::NotFound);
}
