use oneshare::admin::{
    acl_set_detail, audit_filter, audit_page, check_acl_request, initial_admin_flag,
    is_reserved_group_name, member_change_detail, prunes_audit, require_admin,
};
use oneshare::config::OidcConfig;
use oneshare::oidc::{
    authorize_url, callback_nonce_ok, callback_state, check_algorithm, check_claims,
    current_user_info, discovery_needed, discovery_usable, id_token_segments, identity_from,
    pending_fresh, resolve_endpoints, select_jwk, signing_input, split_roles, token_request_body,
    verify_signature, Audience, Discovery, IdClaims, IdTokenError, IdentityError, Jwk,
    OidcPending, SetupError, UserinfoResponse,
};
use oneshare::rows::UserRow;
use oneshare::status::Refusal;
use oneshare::token::{
    check_expiry, issue_token, path_matches_any, payload_grants, requested_permissions,
    token_payload, validate_transfer, verify_token, Denial, Grant, TokenError,
};

fn member(id: i64, admin: bool) -> UserRow {
    UserRow {
        id,
        oidc_sub: format!("sub-{id}"),
        display_name: format!("user-{id}"),
        email: Some("u@example.com".to_string()),
        is_admin: if admin { 1 } else { 0 },
    }
}

#[test]
fn issued_tokens_verify_and_tampering_is_caught() {
    let json = r#"{"sub":"1","path":"v1.x","permissions":["read"],"iat":1,"exp":2,"jti":"j"}"#;
    let token = issue_token("0123456789abcdef", json);
    assert!(!token.contains('='));
    assert_eq!(verify_token("0123456789abcdef", &token).unwrap(), json.as_bytes().to_vec());
    assert_eq!(verify_token("another-key-entirely", &token), Err(TokenError::Signature));
    let (p, s) = token.split_once('.').unwrap();
    let forged = format!("{}A.{}", p, s);
    assert_eq!(verify_token("0123456789abcdef", &forged), Err(TokenError::Signature));
    assert_eq!(verify_token("k", "no-dot-here"), Err(TokenError::Format));
    assert_eq!(TokenError::Expired.message(), "Token expired");
}

#[test]
fn token_payload_and_expiry() {
    let perms = requested_permissions("write");
    assert_eq!(perms, vec!["read".to_string(), "write".to_string()]);
    assert_eq!(requested_permissions("read"), vec!["read".to_string()]);
    let p = token_payload("7", "v1.abc", &perms, 1000, 3600, "jti-1".to_string());
    assert_eq!(p.exp, 4600);
    assert_eq!(p.iat, 1000);
    assert_eq!(check_expiry(&p, 4599), Ok(()));
    assert_eq!(check_expiry(&p, 4600), Err(TokenError::Expired));
    assert_eq!(payload_grants(&p), vec![Grant::Read, Grant::Write]);
}

#[test]
fn segment_boundary_path_matching() {
    let allowed = vec!["a/b".to_string()];
    assert!(path_matches_any("a/b", &allowed));
    assert!(path_matches_any("/a/b/c", &allowed));
    assert!(!path_matches_any("a/bc", &allowed));
    assert!(path_matches_any("anything", &["/".to_string()]));
    assert!(!path_matches_any("x", &[]));
    let grants = vec![Grant::Read];
    assert_eq!(validate_transfer(Some(10), 5, &grants, Grant::Read, &allowed, "a/b/c", false), Ok(()));
    assert_eq!(validate_transfer(Some(10), 10, &grants, Grant::Read, &allowed, "a/b", false), Err(Denial::Expired));
    assert_eq!(validate_transfer(None, 10, &grants, Grant::Write, &allowed, "a/b", false), Err(Denial::Forbidden));
    assert_eq!(validate_transfer(None, 10, &grants, Grant::Read, &allowed, "a/bc", false), Err(Denial::Forbidden));
    assert_eq!(validate_transfer(None, 10, &grants, Grant::Read, &allowed, "a/bc", true), Ok(()));
}

fn oidc_config() -> OidcConfig {
    OidcConfig {
        issuer_url: "https://id.example.com/".to_string(),
        client_id: "oneshare".to_string(),
        client_secret: "s3cret".to_string(),
        redirect_uri: "http://localhost:3456/auth/callback".to_string(),
        authorization_endpoint: Some("https://id.example.com/auth".to_string()),
        token_endpoint: None,
        userinfo_endpoint: None,
        jwks_uri: None,
    }
}

#[test]
fn endpoints_prefer_configuration_and_check_the_issuer() {
    let cfg = oidc_config();
    assert!(discovery_needed(&cfg));
    let d = Discovery {
        issuer: Some("https://id.example.com".to_string()),
        authorization_endpoint: Some("https://id.example.com/discovered-auth".to_string()),
        token_endpoint: Some("https://id.example.com/token".to_string()),
        userinfo_endpoint: Some("https://id.example.com/userinfo".to_string()),
        jwks_uri: Some("https://id.example.com/jwks".to_string()),
    };
    assert!(discovery_usable(&d));
    let e = resolve_endpoints(&cfg, &Some(d.clone())).unwrap();
    assert_eq!(e.issuer, "https://id.example.com");
    assert_eq!(e.authorization_endpoint, "https://id.example.com/auth");
    assert_eq!(e.token_endpoint, "https://id.example.com/token");
    let evil = Discovery { issuer: Some("https://evil.example.com".to_string()), ..d.clone() };
    assert_eq!(resolve_endpoints(&cfg, &Some(evil)).err(), Some(SetupError::IssuerMismatch));
    assert_eq!(resolve_endpoints(&cfg, &None).err(), Some(SetupError::MissingTokenEndpoint));
    let no_jwks = Discovery { jwks_uri: None, ..d };
    assert_eq!(resolve_endpoints(&cfg, &Some(no_jwks)).err(), Some(SetupError::MissingJwksUri));
}

#[test]
fn login_requests_are_form_encoded() {
    let url = authorize_url("https://id/auth", "one share", "http://x/cb?a=1", "st", "nn");
    assert_eq!(
        url,
        "https://id/auth?client_id=one+share&redirect_uri=http%3A%2F%2Fx%2Fcb%3Fa%3D1&response_type=code&state=st&nonce=nn&scope=openid+profile+email"
    );
    assert_eq!(
        token_request_body("c0de", "cid", "s&t", "http://x/cb"),
        "grant_type=authorization_code&code=c0de&client_id=cid&client_secret=s%26t&redirect_uri=http%3A%2F%2Fx%2Fcb"
    );
}

#[test]
fn identities_from_userinfo() {
    assert_eq!(
        split_roles(&Some("ops, staff ，dev,, ".to_string())),
        vec!["ops".to_string(), "staff".to_string(), "dev".to_string()]
    );
    let ui = UserinfoResponse {
        sub: Some("abc".to_string()),
        name: None,
        email: None,
        preferred_username: Some("alice".to_string()),
        role: Some("ops".to_string()),
    };
    let info = identity_from("abc", &ui).unwrap();
    assert_eq!(info.name, "alice");
    assert_eq!(info.email, "");
    assert_eq!(info.roles, vec!["ops".to_string()]);
    assert_eq!(identity_from("other", &ui).err(), Some(IdentityError::SubjectMismatch));
    let anon = UserinfoResponse { sub: None, name: None, email: None, preferred_username: None, role: None };
    assert_eq!(identity_from("", &anon).err(), Some(IdentityError::MissingSubject));
    assert_eq!(identity_from("xyz", &anon).unwrap().name, "xyz");
}

fn rsa(kid: Option<&str>) -> Jwk {
    Jwk { kty: Some("RSA".to_string()), kid: kid.map(|k| k.to_string()), n: None, e: None }
}

#[test]
fn id_token_structure_and_keys() {
    let (h, p, s) = id_token_segments("aa.bb.cc").unwrap();
    assert_eq!((h.as_str(), p.as_str(), s.as_str()), ("aa", "bb", "cc"));
    assert_eq!(id_token_segments("aa.bb").err(), Some(IdTokenError::Malformed));
    assert_eq!(signing_input("aa", "bb"), "aa.bb");
    assert_eq!(check_algorithm(&Some("RS256".to_string())), Ok(()));
    assert_eq!(check_algorithm(&Some("HS256".to_string())), Err(IdTokenError::UnsupportedAlgorithm));
    let ec = Jwk { kty: Some("EC".to_string()), kid: Some("k1".to_string()), n: None, e: None };
    let keys = vec![ec.clone(), rsa(Some("k1")), rsa(Some("k2"))];
    assert_eq!(select_jwk(&keys, &Some("k2".to_string())), Ok(2));
    assert_eq!(select_jwk(&keys, &Some("k1".to_string())), Ok(1));
    assert_eq!(select_jwk(&keys, &Some("k9".to_string())), Err(IdTokenError::UnknownKeyId));
    assert_eq!(select_jwk(&keys, &None), Err(IdTokenError::AmbiguousKey));
    assert_eq!(select_jwk(&vec![ec.clone(), rsa(None)], &None), Ok(1));
    assert_eq!(select_jwk(&vec![ec], &None), Err(IdTokenError::NoRsaKey));
    assert_eq!(verify_signature(&vec![rsa(None)], &None, "a.b", b"sig"), Err(IdTokenError::BadKey));
    let bogus = Jwk { kty: Some("RSA".to_string()), kid: None, n: Some("AQAB".to_string()), e: Some("AQAB".to_string()) };
    assert_eq!(verify_signature(&vec![bogus], &None, "a.b", b"sig"), Err(IdTokenError::BadSignature));
}

#[test]
fn id_token_claims() {
    let good = IdClaims {
        iss: Some("https://id.example.com/".to_string()),
        aud: Audience::Many(vec![None, Some("oneshare".to_string())]),
        sub: Some("abc".to_string()),
        exp: Some(1000),
        nonce: Some("n1".to_string()),
    };
    assert_eq!(check_claims(&good, "https://id.example.com", "oneshare", 1050, "n1"), Ok(()));
    assert_eq!(check_claims(&good, "https://id.example.com", "oneshare", 1061, "n1"), Err(IdTokenError::Expired));
    assert_eq!(check_claims(&good, "https://id.example.com", "oneshare", 1000, "n2"), Err(IdTokenError::NonceMismatch));
    assert_eq!(check_claims(&good, "https://other", "oneshare", 1000, "n1"), Err(IdTokenError::WrongIssuer));
    assert_eq!(check_claims(&good, "https://id.example.com", "else", 1000, "n1"), Err(IdTokenError::WrongAudience));
    let no_exp = IdClaims { exp: None, aud: Audience::One("oneshare".to_string()), ..good.clone() };
    assert_eq!(check_claims(&no_exp, "https://id.example.com", "oneshare", 1000, "n1"), Err(IdTokenError::MissingExpiry));
}

#[test]
fn callback_checks() {
    assert_eq!(callback_state(&Some(String::new())), None);
    assert_eq!(callback_state(&None), None);
    assert_eq!(callback_state(&Some("s".to_string())).as_deref(), Some("s"));
    let pending = OidcPending { nonce: "n1".to_string(), created_ms: 1000, redirect_uri: "cb".to_string() };
    assert!(pending_fresh(&pending, 1000 + 599_999, 600_000));
    assert!(!pending_fresh(&pending, 1000 + 600_000, 600_000));
    assert!(callback_nonce_ok(&None, &pending));
    assert!(callback_nonce_ok(&Some("n1".to_string()), &pending));
    assert!(!callback_nonce_ok(&Some("n2".to_string()), &pending));
    let info = current_user_info(&member(3, true));
    assert!(info.is_admin);
    assert_eq!(info.display_name, "user-3");
}

#[test]
fn administration_policy() {
    assert_eq!(require_admin(&None), Err(Refusal::Unauthorized));
    assert_eq!(require_admin(&Some(member(1, false))), Err(Refusal::Forbidden));
    assert_eq!(require_admin(&Some(member(1, true))), Ok(()));
    assert!(is_reserved_group_name("default"));
    assert!(is_reserved_group_name("guest"));
    assert!(!is_reserved_group_name("staff"));
    assert_eq!(check_acl_request("write", Some(1), None), Ok(()));
    assert_eq!(check_acl_request("owner", Some(1), None), Err(Refusal::BadRequest));
    assert_eq!(check_acl_request("read", None, None), Err(Refusal::BadRequest));
    assert_eq!(member_change_detail(&Some("alice".to_string()), 1, &None, -7), "alice -> #-7");
    assert_eq!(
        acl_set_detail("read", None, &None, Some(3), &Some("staff".to_string())),
        "permission=read target=group:staff"
    );
    assert_eq!(acl_set_detail("read", Some(2), &None, None, &None), "permission=read target=user:#2");
    assert_eq!(acl_set_detail("read", None, &None, None, &None), "permission=read target=?");
    assert_eq!(audit_page(None, None), (100, 0));
    assert_eq!(audit_page(Some(0), Some(5)), (1, 5));
    assert_eq!(audit_page(Some(9999), None), (500, 0));
    assert_eq!(initial_admin_flag(0), 1);
    assert_eq!(initial_admin_flag(3), 0);
    let f = audit_filter(&Some(String::new()), &Some("  bob ".to_string()));
    assert!(f.action.is_none());
    assert_eq!(f.search.as_deref(), Some("bob"));
    assert!(!prunes_audit(0));
    assert!(prunes_audit(365));
}
