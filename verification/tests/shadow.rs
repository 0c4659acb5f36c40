use oneshare::acl::{can_access, display_path_for, Permission};
use oneshare::admin::{role_group_ids, stored_admin_flag};
use oneshare::config::hmac_secret_is_strong;
use oneshare::files::{entry_mime, listing_current_path};
use oneshare::oidc::{discovery_url, id_token_signature, jwt_segment_bytes, IdTokenError};
use oneshare::rows::{AclEntryRow, GroupRow, ShareItemRow, ShareLinkRow, UserRow};
use oneshare::session::{share_user, RequestUser, SHARE_USER_ID};
use oneshare::shadow::{decoded_claims, display_names, listing_keeps, token_real_path, ShadowCodec};
use oneshare::share::share_grants;
use oneshare::status::Refusal;
use oneshare::token::{
    issue_token, validate_transfer, Denial, Grant, OneshareTokenVerifier, TokenError, TokenPayload,
};

const KEY_HEX: &str = "000102030405060708090a0b0c0d0e0f101112131415161718191a1b1c1d1e1f";

fn codec() -> ShadowCodec {
    ShadowCodec::from_hex(KEY_HEX).unwrap()
}

fn user(id: i64, is_admin: bool) -> UserRow {
    UserRow {
        id,
        oidc_sub: format!("sub-{id}"),
        display_name: format!("user-{id}"),
        email: None,
        is_admin: if is_admin { 1 } else { 0 },
    }
}

fn acl(id: i64, path: &str, user_id: Option<i64>, permission: &str) -> AclEntryRow {
    AclEntryRow { id, path: path.to_string(), user_id, group_id: None, permission: permission.to_string() }
}

fn share_row(token: &str, real_path: &str, name: &str, is_dir: bool) -> ShareLinkRow {
    ShareLinkRow {
        token: token.to_string(),
        real_path: real_path.to_string(),
        display_path: real_path.to_string(),
        name: name.to_string(),
        is_dir,
        created_by: 1,
        creator: "tester".to_string(),
        expires_at: None,
    }
}

#[test]
fn shadows_round_trip_and_hide_the_real_path() {
    let c = codec();
    let shadow = c.encode("docs/机密/plan.pdf");
    assert_ne!(shadow, "docs/机密/plan.pdf");
    assert!(shadow.starts_with("v1."));
    assert_eq!(c.decode(&shadow).as_deref(), Some("docs/机密/plan.pdf"));
    // Every encoding uses a fresh nonce.
    assert_ne!(c.encode("docs/机密/plan.pdf"), shadow);
    assert_eq!(c.decode("docs/plain"), None);
}

#[test]
fn malformed_path_keys_are_refused() {
    let err = ShadowCodec::from_hex("abc").err().unwrap();
    assert_eq!(
        err,
        "[libfw] path_key: invalid shadow path: LIBFW_PATH_KEY must be 64 hex chars (32 bytes)"
    );
    assert!(ShadowCodec::from_hex(&"zz".repeat(32)).is_err());
    assert!(ShadowCodec::from_hex(&format!("  {KEY_HEX}\n")).is_ok());
}

#[test]
fn non_ascii_path_keys_are_refused_not_panicked_on() {
    let expected =
        "[libfw] path_key: invalid shadow path: LIBFW_PATH_KEY must be 64 hex chars (32 bytes)";
    // 31 hex pairs plus one two-byte character: 64 bytes, 63 characters.
    let key = format!("{}é", &KEY_HEX[..62]);
    assert_eq!(key.len(), 64);
    assert_eq!(ShadowCodec::from_hex(&key).err().unwrap(), expected);
    assert_eq!(ShadowCodec::from_hex(&"é".repeat(32)).err().unwrap(), expected);
    // Unicode whitespace around a valid key is trimmed away.
    assert!(ShadowCodec::from_hex(&format!("\u{3000}{KEY_HEX}\u{a0}")).is_ok());
}

#[test]
fn compound_shadows_resolve_through_their_longest_decodable_prefix() {
    let c = codec();
    let docs = c.encode("docs");
    let compound = format!("{docs}/sub/deep/file.txt");
    assert_eq!(c.resolve(&compound).as_deref(), Some("docs/sub/deep/file.txt"));
    let sub = c.encode("docs/sub");
    assert_eq!(c.resolve(&format!("{sub}/deep/file.txt")).as_deref(), Some("docs/sub/deep/file.txt"));
    assert_eq!(c.resolve(&docs).as_deref(), Some("docs"));
    assert_eq!(c.resolve("other/deep/file.txt"), None);
    let root = c.encode("");
    assert_eq!(c.resolve(&format!("{root}/a.txt")).as_deref(), Some("a.txt"));
}

#[test]
fn transfer_listings_hide_upload_temps() {
    let c = codec();
    assert!(!listing_keeps(&c, &c.encode("a/.libfw-sess-1")));
    assert!(!listing_keeps(&c, &c.encode(".libfw-sess-2.blocks")));
    assert!(listing_keeps(&c, &c.encode("a/report.txt")));
    assert!(listing_keeps(&c, "not-a-shadow"));
}

#[test]
fn token_claims_are_decoded_or_kept_literal() {
    let c = codec();
    let claims = vec![c.encode("docs"), "legacy/plain".to_string()];
    assert_eq!(decoded_claims(&c, &claims), vec!["docs".to_string(), "legacy/plain".to_string()]);
}

#[test]
fn token_targets_gate_decoded_shadows_on_the_acl() {
    let c = codec();
    let u = user(5, false);
    let entries = vec![acl(1, "pub", Some(5), "read")];
    let ok = c.encode("pub/a.txt");
    assert_eq!(
        token_real_path(&c, &u, &[], &entries, &ok, &Permission::Read),
        Ok("pub/a.txt".to_string())
    );
    assert_eq!(
        token_real_path(&c, &u, &[], &entries, &ok, &Permission::Write),
        Err(Refusal::Forbidden)
    );
    let secret = c.encode("secret/x");
    assert_eq!(
        token_real_path(&c, &u, &[], &entries, &secret, &Permission::Read),
        Err(Refusal::Forbidden)
    );
    // A display path of the user's share resolves through the ACL layer.
    assert_eq!(
        token_real_path(&c, &u, &[], &entries, "pub/a.txt", &Permission::Read),
        Ok("pub/a.txt".to_string())
    );
}

#[test]
fn shadow_batches_map_to_display_names() {
    let c = codec();
    let admin = user(1, true);
    let a = c.encode("docs/a.txt");
    let b = c.encode("docs");
    let names = display_names(&c, &admin, &[], &[], &vec![a.clone(), format!("{b}/new.txt")]).unwrap();
    assert_eq!(names, vec![(a, "docs/a.txt".to_string()), (format!("{b}/new.txt"), "docs/new.txt".to_string())]);
    assert_eq!(display_names(&c, &admin, &[], &[], &vec!["junk".to_string()]), Err(Refusal::BadRequest));
    let stranger = user(9, false);
    assert_eq!(
        display_names(&c, &stranger, &[], &[], &vec![c.encode("docs/a.txt")]),
        Err(Refusal::Forbidden)
    );
}

#[test]
fn share_visitor_resolves_names_through_share_grants() {
    let row = share_row("tok", "pub", "pub", true);
    let grants = share_grants(&row, &Vec::new());
    assert_eq!(grants.len(), 1);
    assert_eq!(grants[0].path, "pub");
    assert_eq!(grants[0].user_id, Some(SHARE_USER_ID));
    assert_eq!(grants[0].permission, "read");
    let ru = RequestUser::for_share(share_user("tok", "pub"), grants);
    let entries = ru.acl_entries(&[]);
    assert_eq!(
        display_path_for(&ru.user, &ru.groups, &entries, "pub/a.txt").as_deref(),
        Some("pub/a.txt")
    );
    // The global rules alone grant the visitor nothing.
    assert_eq!(display_path_for(&ru.user, &ru.groups, &[], "pub/a.txt"), None);
}

#[test]
fn collection_shares_grant_each_item() {
    let row = share_row("tok", "", "2 个项目", true);
    let items = vec![
        ShareItemRow { real_path: "a/x.txt".into(), display_path: "x.txt".into(), name: "x.txt".into(), is_dir: false },
        ShareItemRow { real_path: "b".into(), display_path: "b".into(), name: "b".into(), is_dir: true },
    ];
    let grants = share_grants(&row, &items);
    let paths: Vec<&str> = grants.iter().map(|g| g.path.as_str()).collect();
    assert_eq!(paths, vec!["a/x.txt", "b"]);
    assert!(grants.iter().all(|g| g.permission == "read" && g.user_id == Some(SHARE_USER_ID)));
}

#[test]
fn the_transfer_verifier_checks_frames_and_expiry() {
    let v = OneshareTokenVerifier { hmac_key: "a-strong-secret-key".to_string() };
    let json = r#"{"sub":"7","path":"v1.x","permissions":["read","bogus"],"iat":10,"exp":100,"jti":"j"}"#;
    let token = issue_token(&v.hmac_key, json);
    assert_eq!(v.frame(&token).unwrap(), json.as_bytes().to_vec());
    let other = OneshareTokenVerifier { hmac_key: "another-secret-key".to_string() };
    assert_eq!(other.frame(&token), Err(TokenError::Signature));
    let payload = TokenPayload {
        sub: "7".into(),
        path: "v1.x".into(),
        permissions: vec!["read".into(), "bogus".into()],
        iat: 10,
        exp: 100,
        jti: "j".into(),
    };
    let claims = v.claims(&payload, 99).ok().unwrap();
    assert_eq!(claims.sub, "7");
    assert_eq!(claims.exp, 100);
    assert_eq!(claims.allowed_paths, vec!["v1.x".to_string()]);
    assert_eq!(claims.grants.len(), 1);
    assert!(matches!(v.claims(&payload, 100), Err(TokenError::Expired)));
}

#[test]
fn jwt_segments_decode_as_base64url() {
    assert_eq!(jwt_segment_bytes("eyJhIjoxfQ"), Some(br#"{"a":1}"#.to_vec()));
    assert_eq!(jwt_segment_bytes("***"), None);
    assert_eq!(id_token_signature("AQID"), Ok(vec![1, 2, 3]));
    assert_eq!(id_token_signature("@@"), Err(IdTokenError::SignatureEncoding));
}

#[test]
fn weak_hmac_secrets_are_refused() {
    assert!(!hmac_secret_is_strong(""));
    assert!(!hmac_secret_is_strong("   "));
    assert!(!hmac_secret_is_strong("change-me-to-a-random-32-byte-secret"));
    assert!(!hmac_secret_is_strong("short-secret"));
    assert!(hmac_secret_is_strong("  0123456789abcdef  "));
    // Sixteen bytes, even in fewer characters.
    assert!(hmac_secret_is_strong("机密机密机密"));
}

#[test]
fn listings_name_mime_types_and_paths() {
    assert_eq!(entry_mime("notes/a.txt", false), "text/plain");
    assert_eq!(entry_mime("photo.PNG", false), "image/png");
    assert_eq!(entry_mime("blob", false), "application/octet-stream");
    assert_eq!(entry_mime("folder", true), "inode/directory");
    assert_eq!(listing_current_path("//a/b"), "a/b");
    assert_eq!(listing_current_path(""), "");
}

#[test]
fn discovery_lives_under_the_issuer() {
    let cfg = oneshare::config::OidcConfig {
        issuer_url: "https://id.example.com//".to_string(),
        client_id: "c".to_string(),
        client_secret: "s".to_string(),
        redirect_uri: "https://app/cb".to_string(),
        authorization_endpoint: None,
        token_endpoint: None,
        userinfo_endpoint: None,
        jwks_uri: None,
    };
    assert_eq!(discovery_url(&cfg), "https://id.example.com/.well-known/openid-configuration");
}

#[test]
fn provider_roles_join_the_groups_they_name() {
    let g = |id: i64, name: &str| GroupRow { id, name: name.to_string(), description: None, member_count: 0 };
    let groups = vec![g(1, "default"), g(2, "ops"), g(3, "staff"), g(4, "guest")];
    let roles = vec!["staff".to_string(), "nobody".to_string(), "ops".to_string()];
    assert_eq!(role_group_ids(&roles, &groups), vec![3, 2]);
    assert_eq!(role_group_ids(&Vec::new(), &groups), Vec::<i64>::new());
}

#[test]
fn token_bound_paths_cover_their_subtree() {
    let allowed = vec!["docs".to_string()];
    let grants = vec![Grant::Read];
    assert_eq!(validate_transfer(Some(100), 10, &grants, Grant::Read, &allowed, "docs", false), Ok(()));
    assert_eq!(validate_transfer(Some(100), 10, &grants, Grant::Read, &allowed, "docs/a/b.txt", false), Ok(()));
    assert_eq!(
        validate_transfer(Some(100), 10, &grants, Grant::Read, &allowed, "docshop/x", false),
        Err(Denial::Forbidden)
    );
    assert_eq!(
        validate_transfer(Some(100), 100, &grants, Grant::Read, &allowed, "docs", false),
        Err(Denial::Expired)
    );
}

#[test]
fn share_visitors_read_only_their_shared_items() {
    let row = share_row("tok", "pub", "pub", true);
    let visitor = share_user("tok", "pub");
    let mut entries = vec![acl(1, "pub", Some(7), "write"), acl(2, "", Some(8), "admin")];
    entries.extend(share_grants(&row, &Vec::new()));
    assert!(can_access(&visitor, &[], &entries, "pub/a.txt", &Permission::Read));
    assert!(!can_access(&visitor, &[], &entries, "pub/a.txt", &Permission::Write));
    assert!(!can_access(&visitor, &[], &entries, "pub", &Permission::Admin));
    assert!(!can_access(&visitor, &[], &entries, "private/b.txt", &Permission::Read));
    assert!(!can_access(&visitor, &[], &entries, "public", &Permission::Read));
}

#[test]
fn the_configured_administrator_is_matched_by_name_or_subject() {
    let u = UserRow {
        id: 3,
        oidc_sub: "sub-3".to_string(),
        display_name: "alice".to_string(),
        email: None,
        is_admin: 1,
    };
    assert_eq!(oneshare::admin::effective_admin_flag(&None, &u), 1);
    assert_eq!(oneshare::admin::effective_admin_flag(&Some("alice".to_string()), &u), 1);
    assert_eq!(oneshare::admin::effective_admin_flag(&Some("sub-3".to_string()), &u), 1);
    assert_eq!(oneshare::admin::effective_admin_flag(&Some("bob".to_string()), &u), 0);
}

#[test]
fn deletions_and_dispositions_are_described() {
    assert_eq!(oneshare::files::permanent_delete_detail(true), "permanently deleted (was in trash)");
    assert_eq!(oneshare::files::permanent_delete_detail(false), "permanently deleted");
    assert_eq!(oneshare::files::disposition_kind(true), "inline");
    assert_eq!(oneshare::files::disposition_kind(false), "attachment");
}

#[test]
fn a_compression_level_without_zrip_is_flagged() {
    let mut cfg = oneshare::config::LibfwConfig::default();
    cfg.compression = "none".to_string();
    cfg.compress_level = " BALANCED ".to_string();
    assert!(!cfg.compress_level_ignored());
    cfg.compress_level = "max".to_string();
    assert!(cfg.compress_level_ignored());
    cfg.compression = "zrip".to_string();
    assert!(!cfg.compress_level_ignored());
}

#[test]
fn only_unconfigured_instances_store_the_first_user_as_admin() {
    assert_eq!(stored_admin_flag(&None, 0), 1);
    assert_eq!(stored_admin_flag(&None, 4), 0);
    assert_eq!(stored_admin_flag(&Some("alice".to_string()), 0), 0);
}
