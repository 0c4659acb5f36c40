//! OpenID Connect login: endpoint resolution, request encoding, ID token
//! verification (RS256 signature and claims) and the user identity that
//! results.
use vstd::prelude::*;
use vstd::utf8::encode_utf8;
use crate::config::OidcConfig;
use crate::models::UserInfo;
use crate::rows::UserRow;
use crate::token::{b64url_decoded, base64url_decode};
use crate::text::{
    chars_eq, chars_of, extend_chars, has_char, lemma_split_nonempty, split_chars, split_on,
    string_from_str, string_of, trim_end_char, trim_ws, trim_ws_chars,
};

verus! {

/// The identity the provider vouches for after a successful login.
#[derive(Debug, Clone)]
pub struct OidcUserInfo {
    pub sub: String,
    pub name: String,
    pub email: String,
    /// Roles from the optional `role` claim (comma-separated).
    pub roles: Vec<String>,
}

/// The fields of an OIDC discovery document the login flow uses.
#[derive(Debug, Clone)]
pub struct Discovery {
    pub issuer: Option<String>,
    pub authorization_endpoint: Option<String>,
    pub token_endpoint: Option<String>,
    pub userinfo_endpoint: Option<String>,
    pub jwks_uri: Option<String>,
}

/// The provider endpoints a client talks to, and the issuer it trusts.
#[derive(Debug, Clone)]
pub struct Endpoints {
    pub issuer: String,
    pub authorization_endpoint: String,
    pub token_endpoint: String,
    pub userinfo_endpoint: String,
    pub jwks_uri: String,
}

/// Why a client cannot be set up.
#[derive(Debug, Clone, Copy, PartialEq, Eq, Structural)]
pub enum SetupError {
    /// The discovery document names another issuer.
    IssuerMismatch,
    MissingAuthorizationEndpoint,
    MissingTokenEndpoint,
    MissingUserinfoEndpoint,
    MissingJwksUri,
}

/// Discovery is skipped only when every endpoint is configured.
pub fn discovery_needed(cfg: &OidcConfig) -> (r: bool)
    ensures
        r == !(cfg.authorization_endpoint is Some && cfg.token_endpoint is Some
            && cfg.userinfo_endpoint is Some && cfg.jwks_uri is Some),
{
    !(cfg.authorization_endpoint.is_some() && cfg.token_endpoint.is_some()
        && cfg.userinfo_endpoint.is_some() && cfg.jwks_uri.is_some())
}

/// A discovery document is used only when it names the authorization,
/// token and userinfo endpoints.
pub fn discovery_usable(d: &Discovery) -> (r: bool)
    ensures
        r == (d.authorization_endpoint is Some && d.token_endpoint is Some
            && d.userinfo_endpoint is Some),
{
    d.authorization_endpoint.is_some() && d.token_endpoint.is_some()
        && d.userinfo_endpoint.is_some()
}

/// The configured value, else the discovered one.
pub open spec fn endpoint_of(configured: Option<String>, discovered: Option<Option<String>>) -> Option<
    Seq<char>,
> {
    match configured {
        Some(c) => Some(c@),
        None => match discovered {
            Some(Some(d)) => Some(d@),
            _ => None,
        },
    }
}

fn pick_endpoint(configured: &Option<String>, discovered: Option<&Option<String>>) -> (r: Option<
    String,
>)
    ensures
        match r {
            Some(s) => endpoint_of(
                *configured,
                match discovered {
                    Some(d) => Some(*d),
                    None => None,
                },
            ) == Some(s@),
            None => endpoint_of(
                *configured,
                match discovered {
                    Some(d) => Some(*d),
                    None => None,
                },
            ) is None,
        },
{
    match configured {
        Some(c) => Some(c.clone()),
        None => match discovered {
            Some(Some(d)) => Some(d.clone()),
            _ => None,
        },
    }
}

/// `s.trim_end_matches(c)`.
fn trim_end_chars(s: &Vec<char>, c: char) -> (r: Vec<char>)
    ensures
        r@ == trim_end_char(s@, c),
{
    let mut k: usize = s.len();
    while k > 0 && s[k - 1] == c
        invariant
            k <= s.len(),
            forall|j: int| k <= j < s.len() ==> s@[j] == c,
        decreases k,
    {
        k = k - 1;
    }
    proof {
        crate::text::lemma_trim_end_char_take(s@, c, k as int);
        if k > 0 {
            assert(s@.take(k as int).last() == s@[k - 1]);
        }
    }
    slice_prefix(s, k)
}

fn slice_prefix(s: &Vec<char>, k: usize) -> (r: Vec<char>)
    requires
        k <= s.len(),
    ensures
        r@ == s@.take(k as int),
{
    let r = crate::text::slice_chars(s, 0, k);
    assert(r@ =~= s@.take(k as int));
    r
}

/// Where the provider's discovery document lives: under the issuer URL
/// without its trailing slashes.
pub fn discovery_url(cfg: &OidcConfig) -> (r: String)
    ensures
        r@ == trim_end_char(cfg.issuer_url@, '/') + "/.well-known/openid-configuration"@,
{
    let mut v = trim_end_chars(&chars_of(cfg.issuer_url.as_str()), '/');
    extend_chars(&mut v, &chars_of("/.well-known/openid-configuration"));
    string_of(&v)
}

/// Resolve the provider endpoints: each configured value wins over the
/// discovered one, and a discovery document that names an issuer other
/// than the configured one (trailing slashes aside) is refused.
pub fn resolve_endpoints(cfg: &OidcConfig, discovery: &Option<Discovery>) -> (r: Result<
    Endpoints,
    SetupError,
>)
    ensures
        ({
            let base = trim_end_char(cfg.issuer_url@, '/');
            let mismatch = discovery matches Some(d) && d.issuer matches Some(i) && trim_end_char(
                i@,
                '/',
            ) != base;
            let disc = |f: spec_fn(Discovery) -> Option<String>| match discovery {
                Some(d) => Some(f(*d)),
                None => None,
            };
            match r {
                Ok(e) => !mismatch && e.issuer@ == base && endpoint_of(
                    cfg.authorization_endpoint,
                    disc(|d: Discovery| d.authorization_endpoint),
                ) == Some(e.authorization_endpoint@) && endpoint_of(
                    cfg.token_endpoint,
                    disc(|d: Discovery| d.token_endpoint),
                ) == Some(e.token_endpoint@) && endpoint_of(
                    cfg.userinfo_endpoint,
                    disc(|d: Discovery| d.userinfo_endpoint),
                ) == Some(e.userinfo_endpoint@) && endpoint_of(
                    cfg.jwks_uri,
                    disc(|d: Discovery| d.jwks_uri),
                ) == Some(e.jwks_uri@),
                Err(SetupError::IssuerMismatch) => mismatch,
                Err(SetupError::MissingAuthorizationEndpoint) => !mismatch && endpoint_of(
                    cfg.authorization_endpoint,
                    disc(|d: Discovery| d.authorization_endpoint),
                ) is None,
                Err(SetupError::MissingTokenEndpoint) => !mismatch && endpoint_of(
                    cfg.token_endpoint,
                    disc(|d: Discovery| d.token_endpoint),
                ) is None,
                Err(SetupError::MissingUserinfoEndpoint) => !mismatch && endpoint_of(
                    cfg.userinfo_endpoint,
                    disc(|d: Discovery| d.userinfo_endpoint),
                ) is None,
                Err(SetupError::MissingJwksUri) => !mismatch && endpoint_of(
                    cfg.jwks_uri,
                    disc(|d: Discovery| d.jwks_uri),
                ) is None,
            }
        }),
{
    let base = trim_end_chars(&chars_of(cfg.issuer_url.as_str()), '/');
    match discovery {
        Some(d) => match &d.issuer {
            Some(i) => {
                let di = trim_end_chars(&chars_of(i.as_str()), '/');
                if !chars_eq(&di, &base) {
                    return Err(SetupError::IssuerMismatch);
                }
            },
            None => {},
        },
        None => {},
    }
    let auth = match pick_endpoint(
        &cfg.authorization_endpoint,
        match discovery {
            Some(d) => Some(&d.authorization_endpoint),
            None => None,
        },
    ) {
        Some(e) => e,
        None => return Err(SetupError::MissingAuthorizationEndpoint),
    };
    let token = match pick_endpoint(
        &cfg.token_endpoint,
        match discovery {
            Some(d) => Some(&d.token_endpoint),
            None => None,
        },
    ) {
        Some(e) => e,
        None => return Err(SetupError::MissingTokenEndpoint),
    };
    let userinfo = match pick_endpoint(
        &cfg.userinfo_endpoint,
        match discovery {
            Some(d) => Some(&d.userinfo_endpoint),
            None => None,
        },
    ) {
        Some(e) => e,
        None => return Err(SetupError::MissingUserinfoEndpoint),
    };
    let jwks = match pick_endpoint(
        &cfg.jwks_uri,
        match discovery {
            Some(d) => Some(&d.jwks_uri),
            None => None,
        },
    ) {
        Some(e) => e,
        None => return Err(SetupError::MissingJwksUri),
    };
    Ok(Endpoints {
        issuer: string_of(&base),
        authorization_endpoint: auth,
        token_endpoint: token,
        userinfo_endpoint: userinfo,
        jwks_uri: jwks,
    })
}

/// Bytes the form encoding keeps as they are: `*-._`, digits and letters.
pub open spec fn form_unchanged(b: u8) -> bool {
    b == 0x2A || b == 0x2D || b == 0x2E || (0x30 <= b && b <= 0x39) || (0x41 <= b && b <= 0x5A)
        || b == 0x5F || (0x61 <= b && b <= 0x7A)
}

/// The `application/x-www-form-urlencoded` byte serialization: kept bytes
/// as they are, space as `+`, everything else as `%XX`.
pub open spec fn form_bytes(bs: Seq<u8>) -> Seq<char>
    decreases bs.len(),
{
    if bs.len() == 0 {
        Seq::empty()
    } else {
        let b = bs.last();
        form_bytes(bs.drop_last()) + if form_unchanged(b) {
            seq![b as char]
        } else if b == 0x20 {
            seq!['+']
        } else {
            seq!['%', crate::files::hex_upper((b / 16) as nat), crate::files::hex_upper((b % 16) as nat)]
        }
    }
}

/// `name=value` pairs, each side form-encoded, joined with `&`.
pub open spec fn form_pairs(pairs: Seq<(Seq<char>, Seq<char>)>) -> Seq<char>
    decreases pairs.len(),
{
    if pairs.len() == 0 {
        Seq::empty()
    } else {
        let p = pairs.last();
        let one = form_bytes(encode_utf8(p.0)) + seq!['='] + form_bytes(encode_utf8(p.1));
        if pairs.len() == 1 {
            one
        } else {
            form_pairs(pairs.drop_last()) + seq!['&'] + one
        }
    }
}

/// `url::form_urlencoded::Serializer` over a fresh string: each pair
/// appended as `name=value` with both sides byte-serialized, separated by
/// `&`.
#[verifier::external_body]
fn form_urlencode(pairs: &Vec<(String, String)>) -> (r: String)
    ensures
        r@ == form_pairs(pairs@.map_values(|p: (String, String)| (p.0@, p.1@))),
{
    let mut s = url::form_urlencoded::Serializer::new(String::new());
    for (k, v) in pairs.iter() {
        s.append_pair(k, v);
    }
    s.finish()
}

fn pair(k: &str, v: &str) -> (r: (String, String))
    ensures
        r.0@ == k@,
        r.1@ == v@,
{
    (string_from_str(k), string_from_str(v))
}

/// The authorization URL for a login with the given CSRF state and nonce.
pub open spec fn authorization_url(
    endpoint: Seq<char>,
    client_id: Seq<char>,
    redirect_uri: Seq<char>,
    state: Seq<char>,
    nonce: Seq<char>,
) -> Seq<char> {
    endpoint + seq!['?'] + form_pairs(
        seq![
            ("client_id"@, client_id),
            ("redirect_uri"@, redirect_uri),
            ("response_type"@, "code"@),
            ("state"@, state),
            ("nonce"@, nonce),
            ("scope"@, "openid profile email"@),
        ],
    )
}

/// Build the authorization URL: the `state` guards against login-CSRF, the
/// `nonce` is echoed in the ID token; every parameter is form-encoded.
pub fn authorize_url(
    authorization_endpoint: &str,
    client_id: &str,
    redirect_uri: &str,
    csrf_state: &str,
    nonce: &str,
) -> (r: String)
    ensures
        r@ == authorization_url(
            authorization_endpoint@,
            client_id@,
            redirect_uri@,
            csrf_state@,
            nonce@,
        ),
{
    let mut pairs: Vec<(String, String)> = Vec::new();
    pairs.push(pair("client_id", client_id));
    pairs.push(pair("redirect_uri", redirect_uri));
    pairs.push(pair("response_type", "code"));
    pairs.push(pair("state", csrf_state));
    pairs.push(pair("nonce", nonce));
    pairs.push(pair("scope", "openid profile email"));
    assert(pairs@.map_values(|p: (String, String)| (p.0@, p.1@)) =~= seq![
        ("client_id"@, client_id@),
        ("redirect_uri"@, redirect_uri@),
        ("response_type"@, "code"@),
        ("state"@, csrf_state@),
        ("nonce"@, nonce@),
        ("scope"@, "openid profile email"@),
    ]);
    let q = form_urlencode(&pairs);
    let mut v = chars_of(authorization_endpoint);
    v.push('?');
    extend_chars(&mut v, &chars_of(q.as_str()));
    string_of(&v)
}

/// The form body of the authorization-code exchange.
pub open spec fn token_request(
    code: Seq<char>,
    client_id: Seq<char>,
    client_secret: Seq<char>,
    redirect_uri: Seq<char>,
) -> Seq<char> {
    form_pairs(
        seq![
            ("grant_type"@, "authorization_code"@),
            ("code"@, code),
            ("client_id"@, client_id),
            ("client_secret"@, client_secret),
            ("redirect_uri"@, redirect_uri),
        ],
    )
}

/// The form body posted to the token endpoint for an authorization code.
pub fn token_request_body(code: &str, client_id: &str, client_secret: &str, redirect_uri: &str) -> (r:
    String)
    ensures
        r@ == token_request(code@, client_id@, client_secret@, redirect_uri@),
{
    let mut pairs: Vec<(String, String)> = Vec::new();
    pairs.push(pair("grant_type", "authorization_code"));
    pairs.push(pair("code", code));
    pairs.push(pair("client_id", client_id));
    pairs.push(pair("client_secret", client_secret));
    pairs.push(pair("redirect_uri", redirect_uri));
    assert(pairs@.map_values(|p: (String, String)| (p.0@, p.1@)) =~= seq![
        ("grant_type"@, "authorization_code"@),
        ("code"@, code@),
        ("client_id"@, client_id@),
        ("client_secret"@, client_secret@),
        ("redirect_uri"@, redirect_uri@),
    ]);
    form_urlencode(&pairs)
}

/// The role claim with full-width commas read as commas.
pub open spec fn ascii_commas(s: Seq<char>) -> Seq<char> {
    s.map_values(|c: char| if c == '，' { ',' } else { c })
}

/// The non-empty trimmed pieces, in order.
pub open spec fn nonempty_trimmed(pieces: Seq<Seq<char>>) -> Seq<Seq<char>>
    decreases pieces.len(),
{
    if pieces.len() == 0 {
        Seq::empty()
    } else {
        let prev = nonempty_trimmed(pieces.drop_last());
        let t = trim_ws(pieces.last());
        if t.len() == 0 {
            prev
        } else {
            prev.push(t)
        }
    }
}

/// The roles a `role` claim lists: separated by `,` or `，`, each trimmed,
/// empty ones dropped.
pub open spec fn roles_of(role: Seq<char>) -> Seq<Seq<char>> {
    nonempty_trimmed(split_on(ascii_commas(role), ','))
}

/// Split an optional `role` claim into roles.
pub fn split_roles(role: &Option<String>) -> (r: Vec<String>)
    ensures
        match role {
            Some(s) => r@.map_values(|x: String| x@) == roles_of(s@),
            None => r@.len() == 0,
        },
{
    let s = match role {
        Some(s) => s,
        None => return Vec::new(),
    };
    let raw = chars_of(s.as_str());
    let mut norm: Vec<char> = Vec::new();
    let mut i: usize = 0;
    while i < raw.len()
        invariant
            i <= raw.len(),
            norm@ == ascii_commas(raw@.take(i as int)),
        decreases raw.len() - i,
    {
        let c = raw[i];
        norm.push(if c == '，' { ',' } else { c });
        assert(ascii_commas(raw@.take(i as int + 1)) =~= ascii_commas(raw@.take(i as int)).push(
            if c == '，' { ',' } else { c },
        ));
        i = i + 1;
    }
    assert(raw@.take(raw.len() as int) =~= raw@);
    let pieces = split_chars(&norm, ',');
    let ghost all = split_on(norm@, ',');
    let mut out: Vec<String> = Vec::new();
    let mut k: usize = 0;
    while k < pieces.len()
        invariant
            k <= pieces@.len(),
            pieces@.len() == all.len(),
            forall|j: int| 0 <= j < pieces@.len() ==> #[trigger] pieces@[j]@ == all[j],
            out@.map_values(|x: String| x@) == nonempty_trimmed(all.take(k as int)),
        decreases pieces.len() - k,
    {
        assert(all.take(k as int + 1).drop_last() =~= all.take(k as int));
        assert(all.take(k as int + 1).last() == all[k as int]);
        let t = trim_ws_chars(&pieces[k]);
        if t.len() > 0 {
            let ghost before = out@.map_values(|x: String| x@);
            out.push(string_of(&t));
            assert(out@.map_values(|x: String| x@) =~= before.push(trim_ws(all[k as int])));
        }
        k = k + 1;
    }
    assert(all.take(pieces@.len() as int) =~= all);
    out
}

/// The userinfo endpoint's answer.
#[derive(Debug, Clone)]
pub struct UserinfoResponse {
    pub sub: Option<String>,
    pub name: Option<String>,
    pub email: Option<String>,
    pub preferred_username: Option<String>,
    pub role: Option<String>,
}

/// Why a login is refused after the token exchange.
#[derive(Debug, Clone, Copy, PartialEq, Eq, Structural)]
pub enum IdentityError {
    /// Userinfo names another subject than the verified ID token.
    SubjectMismatch,
    /// The ID token names no subject.
    MissingSubject,
}

/// The identity of a login: the ID token's subject (which userinfo must
/// not contradict), the display name (`name`, else `preferred_username`,
/// else the subject), the email (or empty) and the roles.
pub fn identity_from(id_sub: &str, ui: &UserinfoResponse) -> (r: Result<OidcUserInfo, IdentityError>)
    ensures
        ({
            let mismatch = ui.sub matches Some(s) && s@.len() > 0 && s@ != id_sub@;
            match r {
                Err(IdentityError::SubjectMismatch) => mismatch,
                Err(IdentityError::MissingSubject) => !mismatch && id_sub@.len() == 0,
                Ok(info) => !mismatch && id_sub@.len() > 0 && info.sub@ == id_sub@ && info.name@
                    == (match ui.name {
                    Some(n) => n@,
                    None => match ui.preferred_username {
                        Some(p) => p@,
                        None => id_sub@,
                    },
                }) && info.email@ == (match ui.email {
                    Some(e) => e@,
                    None => Seq::empty(),
                }) && match ui.role {
                    Some(s) => info.roles@.map_values(|x: String| x@) == roles_of(s@),
                    None => info.roles@.len() == 0,
                },
            }
        }),
{
    let sub = chars_of(id_sub);
    match &ui.sub {
        Some(s) => {
            let u = chars_of(s.as_str());
            if u.len() > 0 && !chars_eq(&u, &sub) {
                return Err(IdentityError::SubjectMismatch);
            }
        },
        None => {},
    }
    let name = match &ui.name {
        Some(n) => n.clone(),
        None => match &ui.preferred_username {
            Some(p) => p.clone(),
            None => string_of(&sub),
        },
    };
    let email = match &ui.email {
        Some(e) => e.clone(),
        None => String::new(),
    };
    let roles = split_roles(&ui.role);
    if sub.len() == 0 {
        return Err(IdentityError::MissingSubject);
    }
    Ok(OidcUserInfo { sub: string_of(&sub), name, email, roles })
}

/// Why an ID token is rejected.
#[derive(Debug, Clone, Copy, PartialEq, Eq, Structural)]
pub enum IdTokenError {
    /// Not three dot-separated segments.
    Malformed,
    /// The signature segment is not valid base64.
    SignatureEncoding,
    /// The header names an algorithm other than RS256.
    UnsupportedAlgorithm,
    /// The key set holds no RSA key.
    NoRsaKey,
    /// No RSA key carries the token's key id.
    UnknownKeyId,
    /// No key id, and more than one RSA key to choose from.
    AmbiguousKey,
    /// The chosen key lacks its modulus or exponent, or they do not decode.
    BadKey,
    /// The signature does not verify.
    BadSignature,
    /// The issuer is not the configured one.
    WrongIssuer,
    /// The audience does not include the client id.
    WrongAudience,
    /// The token has expired (beyond a minute of clock skew).
    Expired,
    /// The token carries no expiry.
    MissingExpiry,
    /// The nonce is missing or not the one sent with the login.
    NonceMismatch,
}

/// The three segments of a compact JWT, split on `.`.
pub fn id_token_segments(id_token: &str) -> (r: Result<(String, String, String), IdTokenError>)
    ensures
        match r {
            Ok((h, p, s)) => split_on(id_token@, '.').len() == 3 && h@ == split_on(id_token@, '.')[0]
                && p@ == split_on(id_token@, '.')[1] && s@ == split_on(id_token@, '.')[2],
            Err(e) => e == IdTokenError::Malformed && split_on(id_token@, '.').len() != 3,
        },
{
    let segs = split_chars(&chars_of(id_token), '.');
    if segs.len() != 3 {
        return Err(IdTokenError::Malformed);
    }
    Ok((string_of(&segs[0]), string_of(&segs[1]), string_of(&segs[2])))
}

/// The bytes of a JWT segment (URL-safe base64 without padding), when it
/// decodes.
pub fn jwt_segment_bytes(segment: &str) -> (r: Option<Vec<u8>>)
    ensures
        match r {
            Some(v) => b64url_decoded(segment@) == Some(v@),
            None => b64url_decoded(segment@) is None,
        },
{
    base64url_decode(segment)
}

/// The signature bytes of an ID token's third segment; refused with
/// `SignatureEncoding` when the segment is not valid base64.
pub fn id_token_signature(segment: &str) -> (r: Result<Vec<u8>, IdTokenError>)
    ensures
        match r {
            Ok(v) => b64url_decoded(segment@) == Some(v@),
            Err(e) => e == IdTokenError::SignatureEncoding && b64url_decoded(segment@) is None,
        },
{
    match base64url_decode(segment) {
        Some(v) => Ok(v),
        None => Err(IdTokenError::SignatureEncoding),
    }
}

/// The signed part of a JWT: header and payload segments joined by `.`.
pub fn signing_input(header: &str, payload: &str) -> (r: String)
    ensures
        r@ == header@.push('.') + payload@,
{
    let mut v = chars_of(header);
    v.push('.');
    extend_chars(&mut v, &chars_of(payload));
    string_of(&v)
}

/// Only RS256 ID tokens are accepted.
pub fn check_algorithm(alg: &Option<String>) -> (r: Result<(), IdTokenError>)
    ensures
        r == (if alg matches Some(a) && a@ == "RS256"@ {
            Ok::<(), IdTokenError>(())
        } else {
            Err(IdTokenError::UnsupportedAlgorithm)
        }),
{
    match alg {
        Some(a) => {
            if chars_eq(&chars_of(a.as_str()), &chars_of("RS256")) {
                Ok(())
            } else {
                Err(IdTokenError::UnsupportedAlgorithm)
            }
        },
        None => Err(IdTokenError::UnsupportedAlgorithm),
    }
}

/// One JSON Web Key of the provider's key set.
#[derive(Debug, Clone)]
pub struct Jwk {
    pub kty: Option<String>,
    pub kid: Option<String>,
    pub n: Option<String>,
    pub e: Option<String>,
}

pub open spec fn is_rsa(k: Jwk) -> bool {
    k.kty matches Some(t) && t@ == "RSA"@
}

pub open spec fn has_kid(k: Jwk, kid: Seq<char>) -> bool {
    k.kid matches Some(i) && i@ == kid
}

/// Which key verifies a token: with a key id, the first RSA key carrying
/// it; without one, the only RSA key.
pub open spec fn key_choice(keys: Seq<Jwk>, kid: Option<Seq<char>>, i: int) -> bool {
    0 <= i < keys.len() && is_rsa(keys[i]) && match kid {
        Some(k) => has_kid(keys[i], k) && forall|j: int|
            0 <= j < i ==> !(is_rsa(#[trigger] keys[j]) && has_kid(keys[j], k)),
        None => forall|j: int| 0 <= j < keys.len() && j != i ==> !is_rsa(#[trigger] keys[j]),
    }
}

/// Select the verification key from the key set by key id.
pub fn select_jwk(keys: &Vec<Jwk>, kid: &Option<String>) -> (r: Result<usize, IdTokenError>)
    ensures
        ({
            let k = match kid {
                Some(s) => Some(s@),
                None => None,
            };
            match r {
                Ok(i) => key_choice(keys@, k, i as int),
                Err(IdTokenError::NoRsaKey) => forall|j: int|
                    0 <= j < keys@.len() ==> !is_rsa(#[trigger] keys@[j]),
                Err(IdTokenError::UnknownKeyId) => k is Some && (exists|j: int|
                    0 <= j < keys@.len() && is_rsa(#[trigger] keys@[j])) && forall|j: int|
                    0 <= j < keys@.len() ==> !(is_rsa(#[trigger] keys@[j]) && has_kid(
                        keys@[j],
                        k->0,
                    )),
                Err(IdTokenError::AmbiguousKey) => k is None && exists|a: int, b: int|
                    0 <= a < b < keys@.len() && is_rsa(#[trigger] keys@[a]) && is_rsa(
                        #[trigger] keys@[b],
                    ),
                Err(_) => false,
            }
        }),
{
    let rsa = chars_of("RSA");
    let mut count: usize = 0;
    let mut first: usize = 0;
    let mut second: usize = 0;
    let mut found: Option<usize> = None;
    let mut i: usize = 0;
    while i < keys.len()
        invariant
            i <= keys@.len(),
            rsa@ == "RSA"@,
            count <= i,
            count == 0 ==> forall|j: int| 0 <= j < i ==> !is_rsa(#[trigger] keys@[j]),
            count >= 1 ==> first < i && is_rsa(keys@[first as int]) && forall|j: int|
                0 <= j < i && j != first ==> (count == 1 ==> !is_rsa(#[trigger] keys@[j])),
            count >= 2 ==> second < i && second != first && first < second && is_rsa(
                keys@[second as int],
            ),
            match kid {
                Some(k) => match found {
                    Some(f) => key_choice(keys@, Some(k@), f as int) && f < i,
                    None => forall|j: int|
                        0 <= j < i ==> !(is_rsa(#[trigger] keys@[j]) && has_kid(keys@[j], k@)),
                },
                None => found is None,
            },
        decreases keys.len() - i,
    {
        let is_rsa_key = match &keys[i].kty {
            Some(t) => chars_eq(&chars_of(t.as_str()), &rsa),
            None => false,
        };
        if is_rsa_key {
            if count == 0 {
                first = i;
            } else if count == 1 {
                second = i;
            }
            if count < 2 {
                count = count + 1;
            }
            match kid {
                Some(k) => {
                    if found.is_none() {
                        let matches = match &keys[i].kid {
                            Some(ki) => chars_eq(&chars_of(ki.as_str()), &chars_of(k.as_str())),
                            None => false,
                        };
                        if matches {
                            found = Some(i);
                        }
                    }
                },
                None => {},
            }
        }
        i = i + 1;
    }
    if count == 0 {
        return Err(IdTokenError::NoRsaKey);
    }
    match kid {
        Some(_) => match found {
            Some(f) => Ok(f),
            None => Err(IdTokenError::UnknownKeyId),
        },
        None => {
            if count == 1 {
                Ok(first)
            } else {
                Err(IdTokenError::AmbiguousKey)
            }
        },
    }
}

/// Whether an RS256 signature (PKCS#1 v1.5, SHA-256, 2048–8192-bit key)
/// over `msg` verifies under the RSA key with modulus `n` and exponent `e`.
pub uninterp spec fn rs256_accepts(n: Seq<u8>, e: Seq<u8>, msg: Seq<u8>, sig: Seq<u8>) -> bool;

/// `ring::signature::RsaPublicKeyComponents { n, e }.verify` with
/// `RSA_PKCS1_2048_8192_SHA256`: whether the signature verifies.
#[verifier::external_body]
fn rs256_verify(n: &[u8], e: &[u8], msg: &[u8], sig: &[u8]) -> (r: bool)
    ensures
        r == rs256_accepts(n@, e@, msg@, sig@),
{
    ring::signature::RsaPublicKeyComponents { n, e }.verify(
        &ring::signature::RSA_PKCS1_2048_8192_SHA256,
        msg,
        sig,
    ).is_ok()
}

/// The decoded modulus and exponent of a key, when both are present and
/// decode.
pub open spec fn key_material(k: Jwk) -> Option<(Seq<u8>, Seq<u8>)> {
    match (k.n, k.e) {
        (Some(n), Some(e)) => match (b64url_decoded(n@), b64url_decoded(e@)) {
            (Some(nb), Some(eb)) => Some((nb, eb)),
            _ => None,
        },
        _ => None,
    }
}

/// The key's modulus and exponent decode and the signature verifies
/// under them.
pub open spec fn key_verifies(k: Jwk, msg: Seq<u8>, sig: Seq<u8>) -> bool {
    match key_material(k) {
        Some((nb, eb)) => rs256_accepts(nb, eb, msg, sig),
        None => false,
    }
}

/// An optional string holding exactly `s`.
pub open spec fn holds(o: Option<String>, s: Seq<char>) -> bool {
    match o {
        Some(x) => x@ == s,
        None => false,
    }
}

/// A key id as text.
pub open spec fn kid_view(kid: Option<String>) -> Option<Seq<char>> {
    match kid {
        Some(s) => Some(s@),
        None => None,
    }
}

/// The signature over `input` verifies under the key the key set picks for
/// the token's key id.
pub open spec fn signature_ok(keys: Seq<Jwk>, kid: Option<String>, input: Seq<char>, sig: Seq<u8>) -> bool {
    exists|i: int|
        key_choice(keys, kid_view(kid), i) && #[trigger] key_verifies(keys[i], encode_utf8(input), sig)
}

/// Why a signature check refuses: the chosen key is unusable or does not
/// verify, or the key set offers no key to choose.
pub open spec fn signature_refusal(
    keys: Seq<Jwk>,
    k: Option<Seq<char>>,
    msg: Seq<u8>,
    sig: Seq<u8>,
    e: IdTokenError,
) -> bool {
    match e {
        IdTokenError::BadKey => exists|i: int|
            key_choice(keys, k, i) && #[trigger] key_material(keys[i]) is None,
        IdTokenError::BadSignature => exists|i: int|
            key_choice(keys, k, i) && key_material(keys[i]) is Some && !(#[trigger] key_verifies(
                keys[i],
                msg,
                sig,
            )),
        IdTokenError::NoRsaKey => forall|j: int| 0 <= j < keys.len() ==> !is_rsa(#[trigger] keys[j]),
        IdTokenError::UnknownKeyId => k is Some && (exists|j: int|
            0 <= j < keys.len() && is_rsa(#[trigger] keys[j])) && forall|j: int|
            0 <= j < keys.len() ==> !(is_rsa(#[trigger] keys[j]) && has_kid(keys[j], k->0)),
        IdTokenError::AmbiguousKey => k is None && exists|a: int, b: int|
            0 <= a < b < keys.len() && is_rsa(#[trigger] keys[a]) && is_rsa(#[trigger] keys[b]),
        _ => false,
    }
}

/// At most one key is chosen for a token.
pub proof fn lemma_key_choice_unique(keys: Seq<Jwk>, k: Option<Seq<char>>, i: int, j: int)
    requires
        key_choice(keys, k, i),
        key_choice(keys, k, j),
    ensures
        i == j,
{
    match k {
        Some(id) => {
            if i < j {
                assert(is_rsa(keys[i]) && has_kid(keys[i], id));
            } else if j < i {
                assert(is_rsa(keys[j]) && has_kid(keys[j], id));
            }
        },
        None => {
            if i != j {
                assert(is_rsa(keys[j]));
            }
        },
    }
}

/// A refused signature check is never one that verifies.
pub proof fn lemma_refusal_not_ok(
    keys: Seq<Jwk>,
    kid: Option<String>,
    input: Seq<char>,
    sig: Seq<u8>,
    e: IdTokenError,
)
    requires
        signature_refusal(keys, kid_view(kid), encode_utf8(input), sig, e),
    ensures
        !signature_ok(keys, kid, input, sig),
{
    let k = kid_view(kid);
    let msg = encode_utf8(input);
    if signature_ok(keys, kid, input, sig) {
        let i = choose|i: int| key_choice(keys, k, i) && #[trigger] key_verifies(keys[i], msg, sig);
        match e {
            IdTokenError::BadKey => {
                let c = choose|c: int| key_choice(keys, k, c) && #[trigger] key_material(keys[c]) is None;
                lemma_key_choice_unique(keys, k, i, c);
            },
            IdTokenError::BadSignature => {
                let c = choose|c: int|
                    key_choice(keys, k, c) && key_material(keys[c]) is Some && !(
                    #[trigger] key_verifies(keys[c], msg, sig));
                lemma_key_choice_unique(keys, k, i, c);
            },
            IdTokenError::NoRsaKey => {
                assert(is_rsa(keys[i]));
            },
            IdTokenError::UnknownKeyId => {
                assert(is_rsa(keys[i]) && has_kid(keys[i], k->0));
            },
            IdTokenError::AmbiguousKey => {
                let (a, b) = choose|a: int, b: int|
                    0 <= a < b < keys.len() && is_rsa(#[trigger] keys[a]) && is_rsa(
                        #[trigger] keys[b],
                    );
                if a != i {
                    assert(is_rsa(keys[a]));
                } else {
                    assert(is_rsa(keys[b]));
                }
            },
            _ => {},
        }
    }
}

/// Verify an ID token's RS256 signature against the key set.
pub fn verify_signature(
    keys: &Vec<Jwk>,
    kid: &Option<String>,
    signing_input: &str,
    signature: &[u8],
) -> (r: Result<(), IdTokenError>)
    ensures
        match r {
            Ok(()) => signature_ok(keys@, *kid, signing_input@, signature@),
            Err(e) => signature_refusal(
                keys@,
                kid_view(*kid),
                encode_utf8(signing_input@),
                signature@,
                e,
            ),
        },
{
    let i = select_jwk(keys, kid)?;
    let key = &keys[i];
    assert(key_choice(
        keys@,
        match kid {
            Some(s) => Some(s@),
            None => None,
        },
        i as int,
    ));
    let n = match &key.n {
        Some(n) => n,
        None => {
            assert(key_material(keys@[i as int]) is None);
            return Err(IdTokenError::BadKey);
        },
    };
    let e = match &key.e {
        Some(e) => e,
        None => {
            assert(key_material(keys@[i as int]) is None);
            return Err(IdTokenError::BadKey);
        },
    };
    let nb = match base64url_decode(n.as_str()) {
        Some(b) => b,
        None => {
            assert(key_material(keys@[i as int]) is None);
            return Err(IdTokenError::BadKey);
        },
    };
    let eb = match base64url_decode(e.as_str()) {
        Some(b) => b,
        None => {
            assert(key_material(keys@[i as int]) is None);
            return Err(IdTokenError::BadKey);
        },
    };
    if rs256_verify(nb.as_slice(), eb.as_slice(), signing_input.as_bytes(), signature) {
        assert(key_verifies(keys@[i as int], encode_utf8(signing_input@), signature@));
        Ok(())
    } else {
        assert(key_material(keys@[i as int]) is Some);
        assert(!key_verifies(keys@[i as int], encode_utf8(signing_input@), signature@));
        Err(IdTokenError::BadSignature)
    }
}

/// The audience claim: one client id, a list of values (non-strings as
/// `None`), or something else.
#[derive(Debug, Clone)]
pub enum Audience {
    Missing,
    One(String),
    Many(Vec<Option<String>>),
    Other,
}

/// The claims of an ID token the login checks.
#[derive(Debug, Clone)]
pub struct IdClaims {
    pub iss: Option<String>,
    pub aud: Audience,
    pub sub: Option<String>,
    pub exp: Option<i64>,
    pub nonce: Option<String>,
}

/// Whether the audience includes the client id.
pub open spec fn audience_includes(aud: Audience, client_id: Seq<char>) -> bool {
    match aud {
        Audience::One(s) => s@ == client_id,
        Audience::Many(v) => exists|i: int| 0 <= i < v@.len() && holds(#[trigger] v@[i], client_id),
        _ => false,
    }
}

/// The claim checks of OIDC Core 3.1.3.7, in order: the issuer (trailing
/// slashes aside) is the configured one, the audience includes the client
/// id, the token expires no earlier than a minute ago, and the nonce is the
/// one sent with the login.
pub open spec fn claims_verdict(
    c: IdClaims,
    issuer: Seq<char>,
    client_id: Seq<char>,
    now: i64,
    nonce: Seq<char>,
) -> Result<(), IdTokenError> {
    if !(c.iss matches Some(i) && trim_end_char(i@, '/') == issuer) {
        Err(IdTokenError::WrongIssuer)
    } else if !audience_includes(c.aud, client_id) {
        Err(IdTokenError::WrongAudience)
    } else if c.exp is None {
        Err(IdTokenError::MissingExpiry)
    } else if c.exp->0 < now - 60 {
        Err(IdTokenError::Expired)
    } else if !(c.nonce matches Some(n) && n@ == nonce) {
        Err(IdTokenError::NonceMismatch)
    } else {
        Ok(())
    }
}

/// The claim check accepts exactly the tokens whose issuer (trailing
/// slashes aside) is the configured one, whose audience includes the client
/// id, that carry an expiry no earlier than a minute ago, and that carry
/// the nonce sent with the login: a token without a nonce, or with another
/// one, is refused.
pub proof fn law_claims_accept_only_valid_tokens(
    c: IdClaims,
    issuer: Seq<char>,
    client_id: Seq<char>,
    now: i64,
    nonce: Seq<char>,
)
    ensures
        claims_verdict(c, issuer, client_id, now, nonce) is Ok <==> {
            &&& c.iss is Some && trim_end_char(c.iss->0@, '/') == issuer
            &&& audience_includes(c.aud, client_id)
            &&& c.exp is Some && c.exp->0 >= now - 60
            &&& c.nonce is Some && c.nonce->0@ == nonce
        },
        c.nonce is None ==> claims_verdict(c, issuer, client_id, now, nonce) is Err,
        (c.nonce matches Some(n) && n@ != nonce) ==> claims_verdict(c, issuer, client_id, now, nonce)
            is Err,
{
}

/// Check the claims of a signature-verified ID token.
pub fn check_claims(c: &IdClaims, issuer: &str, client_id: &str, now: i64, expected_nonce: &str) -> (r:
    Result<(), IdTokenError>)
    requires
        now >= i64::MIN + 60,
    ensures
        r == claims_verdict(*c, issuer@, client_id@, now, expected_nonce@),
{
    let iss_ok = match &c.iss {
        Some(i) => chars_eq(&trim_end_chars(&chars_of(i.as_str()), '/'), &chars_of(issuer)),
        None => false,
    };
    if !iss_ok {
        return Err(IdTokenError::WrongIssuer);
    }
    let cid = chars_of(client_id);
    let aud_ok = match &c.aud {
        Audience::One(s) => chars_eq(&chars_of(s.as_str()), &cid),
        Audience::Many(v) => {
            let mut ok = false;
            let mut i: usize = 0;
            while i < v.len()
                invariant
                    i <= v@.len(),
                    cid@ == client_id@,
                    ok == exists|j: int| 0 <= j < i && holds(#[trigger] v@[j], client_id@),
                decreases v.len() - i,
            {
                let m = match &v[i] {
                    Some(s) => chars_eq(&chars_of(s.as_str()), &cid),
                    None => false,
                };
                if m {
                    ok = true;
                }
                i = i + 1;
            }
            ok
        },
        _ => false,
    };
    if !aud_ok {
        return Err(IdTokenError::WrongAudience);
    }
    match c.exp {
        None => return Err(IdTokenError::MissingExpiry),
        Some(exp) => {
            if exp < now - 60 {
                return Err(IdTokenError::Expired);
            }
        },
    }
    match &c.nonce {
        Some(n) => {
            if chars_eq(&chars_of(n.as_str()), &chars_of(expected_nonce)) {
                Ok(())
            } else {
                Err(IdTokenError::NonceMismatch)
            }
        },
        None => Err(IdTokenError::NonceMismatch),
    }
}

/// A login that was started and awaits the provider's callback.
#[derive(Debug, Clone)]
pub struct OidcPending {
    pub nonce: String,
    /// When the login started (milliseconds on a monotonic clock).
    pub created_ms: u64,
    pub redirect_uri: String,
}

/// The CSRF state of a callback, when present and non-empty.
pub fn callback_state(state: &Option<String>) -> (r: Option<String>)
    ensures
        match state {
            Some(s) => if s@.len() > 0 {
                r matches Some(x) && x@ == s@
            } else {
                r is None
            },
            None => r is None,
        },
{
    match state {
        Some(s) => {
            let v = chars_of(s.as_str());
            if v.len() > 0 {
                Some(string_of(&v))
            } else {
                None
            }
        },
        None => None,
    }
}

/// A pending login is honoured only within its time to live.
pub fn pending_fresh(pending: &OidcPending, now_ms: u64, ttl_ms: u64) -> (r: bool)
    ensures
        r == (now_ms >= pending.created_ms && now_ms - pending.created_ms < ttl_ms),
{
    now_ms >= pending.created_ms && now_ms - pending.created_ms < ttl_ms
}

/// A nonce echoed on the callback must be the pending login's; providers
/// that echo none rely on the CSRF state alone.
pub fn callback_nonce_ok(returned: &Option<String>, pending: &OidcPending) -> (r: bool)
    ensures
        r == (match returned {
            Some(n) => n@ == pending.nonce@,
            None => true,
        }),
{
    match returned {
        Some(n) => chars_eq(&chars_of(n.as_str()), &chars_of(pending.nonce.as_str())),
        None => true,
    }
}

/// The current user as reported to the frontend.
pub fn current_user_info(u: &UserRow) -> (r: UserInfo)
    ensures
        r.id == u.id,
        r.display_name@ == u.display_name@,
        r.email == u.email,
        r.is_admin == (u.is_admin == 1),
{
    UserInfo {
        id: u.id,
        display_name: u.display_name.clone(),
        email: u.email.clone(),
        is_admin: u.is_admin == 1,
    }
}

} // verus!
