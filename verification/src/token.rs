//! Transfer tokens: HMAC-signed bearer tokens that bind a user, an opaque
//! path and a set of permissions until an expiry, and the checks the
//! transfer layer applies to them.
use vstd::prelude::*;
use vstd::utf8::encode_utf8;
use hmac::Mac;
use base64::Engine;
use crate::text::{
    chars_eq, chars_of, extend_chars, find_char, first_index_of, has_char, slice_chars,
    starts_with, starts_with_chars, string_from_str, string_of, trim_char, trim_chars,
    trim_start_char, trim_start_chars,
};

verus! {

/// The payload signed inside every token.
#[derive(Debug, Clone)]
pub struct TokenPayload {
    pub sub: String,
    pub path: String,
    pub permissions: Vec<String>,
    pub iat: u64,
    pub exp: u64,
    pub jti: String,
}

/// The claims of a token issued at `now` for `ttl_secs` seconds.
pub fn token_payload(
    sub: &str,
    path: &str,
    permissions: &Vec<String>,
    now: u64,
    ttl_secs: u64,
    jti: String,
) -> (r: TokenPayload)
    requires
        now + ttl_secs <= u64::MAX,
    ensures
        r.sub@ == sub@,
        r.path@ == path@,
        r.permissions@.map_values(|p: String| p@) == permissions@.map_values(|p: String| p@),
        r.iat == now,
        r.exp == now + ttl_secs,
        r.jti@ == jti@,
{
    let mut perms: Vec<String> = Vec::new();
    let mut i: usize = 0;
    while i < permissions.len()
        invariant
            i <= permissions@.len(),
            perms@.map_values(|p: String| p@) == permissions@.take(i as int).map_values(
                |p: String| p@,
            ),
        decreases permissions.len() - i,
    {
        let ghost before = perms@.map_values(|p: String| p@);
        perms.push(permissions[i].clone());
        assert(perms@.map_values(|p: String| p@) =~= before.push(permissions@[i as int]@));
        assert(permissions@.take(i as int + 1).map_values(|p: String| p@) =~= permissions@.take(
            i as int,
        ).map_values(|p: String| p@).push(permissions@[i as int]@));
        i = i + 1;
    }
    assert(permissions@.take(permissions@.len() as int) =~= permissions@);
    TokenPayload {
        sub: string_from_str(sub),
        path: string_from_str(path),
        permissions: perms,
        iat: now,
        exp: now + ttl_secs,
        jti,
    }
}

/// URL-safe base64 without padding of a byte string.
pub uninterp spec fn b64url(bytes: Seq<u8>) -> Seq<char>;

/// The bytes a URL-safe unpadded base64 text decodes to, if it is valid.
pub uninterp spec fn b64url_decoded(text: Seq<char>) -> Option<Seq<u8>>;

/// HMAC-SHA256 of `msg` under `key`.
pub uninterp spec fn hmac_sha256(key: Seq<u8>, msg: Seq<u8>) -> Seq<u8>;

/// A character of the URL-safe base64 alphabet.
pub open spec fn url_safe_char(c: char) -> bool {
    ('A' <= c && c <= 'Z') || ('a' <= c && c <= 'z') || ('0' <= c && c <= '9') || c == '-' || c
        == '_'
}

/// `base64::engine::general_purpose::URL_SAFE_NO_PAD.encode`: the text uses
/// only the URL-safe alphabet, and decoding it gives the input back.
#[verifier::external_body]
fn base64url_encode(bytes: &[u8]) -> (r: String)
    requires
        bytes@.len() <= usize::MAX / 2,
    ensures
        r@ == b64url(bytes@),
        forall|i: int| 0 <= i < r@.len() ==> url_safe_char(#[trigger] r@[i]),
        b64url_decoded(r@) == Some(bytes@),
{
    base64::engine::general_purpose::URL_SAFE_NO_PAD.encode(bytes)
}

/// `base64::engine::general_purpose::URL_SAFE_NO_PAD.decode` of the text's
/// bytes: the decoded bytes, or `None` when the text is not valid.
#[verifier::external_body]
pub(crate) fn base64url_decode(text: &str) -> (r: Option<Vec<u8>>)
    ensures
        match r {
            Some(v) => b64url_decoded(text@) == Some(v@),
            None => b64url_decoded(text@) is None,
        },
{
    base64::engine::general_purpose::URL_SAFE_NO_PAD.decode(text.as_bytes()).ok()
}

/// `hmac::Hmac<sha2::Sha256>` keyed with `key` (any length is accepted)
/// over `msg`: the 32-byte SHA-256 tag.
#[verifier::external_body]
fn hmac_sha256_tag(key: &[u8], msg: &[u8]) -> (r: Vec<u8>)
    ensures
        r@ == hmac_sha256(key@, msg@),
        r@.len() == 32,
{
    let mut mac = <hmac::Hmac<sha2::Sha256> as Mac>::new_from_slice(key).expect(
        "HMAC takes keys of any length",
    );
    mac.update(msg);
    mac.finalize().into_bytes().to_vec()
}

/// The signature part of a token whose payload part is `p`.
pub open spec fn token_signature(key: Seq<char>, p: Seq<char>) -> Seq<char> {
    b64url(hmac_sha256(encode_utf8(key), encode_utf8(p)))
}

/// A token for a serialized payload: `base64url(payload).base64url(tag)`.
pub open spec fn signed_token(key: Seq<char>, payload_json: Seq<char>) -> Seq<char> {
    let p = b64url(encode_utf8(payload_json));
    p.push('.') + token_signature(key, p)
}

/// Issue an HMAC-signed bearer token for a serialized payload. A token
/// verifies under the key it was issued with, giving back the payload; under
/// any key whose signature of the payload part differs, it is refused as a
/// signature mismatch.
pub fn issue_token(hmac_key: &str, payload_json: &str) -> (r: String)
    requires
        encode_utf8(payload_json@).len() <= usize::MAX / 2,
    ensures
        r@ == signed_token(hmac_key@, payload_json@),
        token_frame(hmac_key@, r@) == Ok::<Seq<u8>, TokenError>(encode_utf8(payload_json@)),
        forall|other: Seq<char>|
            token_signature(other, b64url(encode_utf8(payload_json@))) != token_signature(
                hmac_key@,
                b64url(encode_utf8(payload_json@)),
            ) ==> #[trigger] token_frame(other, r@) == Err::<Seq<u8>, TokenError>(
                TokenError::Signature,
            ),
{
    let p = base64url_encode(payload_json.as_bytes());
    let tag = hmac_sha256_tag(hmac_key.as_bytes(), p.as_str().as_bytes());
    let s = base64url_encode(tag.as_slice());
    let mut v = chars_of(p.as_str());
    v.push('.');
    extend_chars(&mut v, &chars_of(s.as_str()));
    proof {
        lemma_issued_token_frame(hmac_key@, hmac_key@, payload_json@);
        assert forall|other: Seq<char>|
            token_signature(other, b64url(encode_utf8(payload_json@))) != token_signature(
                hmac_key@,
                b64url(encode_utf8(payload_json@)),
            ) implies #[trigger] token_frame(other, signed_token(hmac_key@, payload_json@))
            == Err::<Seq<u8>, TokenError>(TokenError::Signature) by {
            lemma_issued_token_frame(hmac_key@, other, payload_json@);
        }
    }
    string_of(&v)
}

/// Why a token is refused.
#[derive(Debug, Clone, Copy, PartialEq, Eq, Structural)]
pub enum TokenError {
    /// No `.` separating payload and signature.
    Format,
    /// The signature does not match the payload.
    Signature,
    /// The payload is not valid base64.
    Encoding,
    /// The payload is not a valid token payload.
    Payload,
    /// The token's expiry has passed.
    Expired,
}

impl TokenError {
    /// The message reported for the refusal.
    pub fn message(&self) -> (r: String)
        ensures
            r@ == token_error_message(*self),
    {
        match self {
            TokenError::Format => string_from_str("Invalid token format"),
            TokenError::Signature => string_from_str("Token signature mismatch"),
            TokenError::Encoding => string_from_str("Base64 decode error"),
            TokenError::Payload => string_from_str("JSON parse error"),
            TokenError::Expired => string_from_str("Token expired"),
        }
    }
}

pub open spec fn token_error_message(e: TokenError) -> Seq<char> {
    match e {
        TokenError::Format => "Invalid token format"@,
        TokenError::Signature => "Token signature mismatch"@,
        TokenError::Encoding => "Base64 decode error"@,
        TokenError::Payload => "JSON parse error"@,
        TokenError::Expired => "Token expired"@,
    }
}

/// What checking a token's frame yields: the serialized payload when the
/// token splits at its first `.` into a payload whose signature matches
/// and which decodes.
pub open spec fn token_frame(key: Seq<char>, token: Seq<char>) -> Result<Seq<u8>, TokenError> {
    if !has_char(token, '.') {
        Err(TokenError::Format)
    } else {
        let i = first_index_of(token, '.');
        let p = token.take(i);
        let s = token.skip(i + 1);
        if s != token_signature(key, p) {
            Err(TokenError::Signature)
        } else {
            match b64url_decoded(p) {
                None => Err(TokenError::Encoding),
                Some(b) => Ok(b),
            }
        }
    }
}

/// Verify a token's signature and return its serialized payload.
pub fn verify_token(hmac_key: &str, token: &str) -> (r: Result<Vec<u8>, TokenError>)
    ensures
        match r {
            Ok(b) => token_frame(hmac_key@, token@) == Ok::<Seq<u8>, TokenError>(b@),
            Err(e) => token_frame(hmac_key@, token@) == Err::<Seq<u8>, TokenError>(e),
        },
{
    let t = chars_of(token);
    let i = match find_char(&t, '.') {
        None => return Err(TokenError::Format),
        Some(i) => i,
    };
    assert(i < t.len());
    let p = string_of(&slice_chars(&t, 0, i));
    let sig = slice_chars(&t, i + 1, t.len());
    assert(p@ =~= token@.take(i as int));
    assert(sig@ =~= token@.skip(i + 1));
    let tag = hmac_sha256_tag(hmac_key.as_bytes(), p.as_str().as_bytes());
    let expected = base64url_encode(tag.as_slice());
    if !chars_eq(&sig, &chars_of(expected.as_str())) {
        return Err(TokenError::Signature);
    }
    match base64url_decode(p.as_str()) {
        None => Err(TokenError::Encoding),
        Some(b) => Ok(b),
    }
}

/// A token's claims are still valid at `now` (seconds since the epoch).
pub fn check_expiry(payload: &TokenPayload, now: u64) -> (r: Result<(), TokenError>)
    ensures
        r == (if now >= payload.exp {
            Err::<(), TokenError>(TokenError::Expired)
        } else {
            Ok(())
        }),
{
    if now >= payload.exp {
        Err(TokenError::Expired)
    } else {
        Ok(())
    }
}

/// The frame of a token issued with `key` yields the serialized payload,
/// given the encoder's alphabet and round trip.
proof fn lemma_issued_token_frame(key: Seq<char>, other: Seq<char>, payload_json: Seq<char>)
    requires
        forall|i: int|
            0 <= i < b64url(encode_utf8(payload_json)).len() ==> url_safe_char(
                #[trigger] b64url(encode_utf8(payload_json))[i],
            ),
        b64url_decoded(b64url(encode_utf8(payload_json))) == Some(encode_utf8(payload_json)),
    ensures
        token_frame(other, signed_token(key, payload_json)) == (if token_signature(
            other,
            b64url(encode_utf8(payload_json)),
        ) == token_signature(key, b64url(encode_utf8(payload_json))) {
            Ok::<Seq<u8>, TokenError>(encode_utf8(payload_json))
        } else {
            Err::<Seq<u8>, TokenError>(TokenError::Signature)
        }),
{
    let p = b64url(encode_utf8(payload_json));
    let t = signed_token(key, payload_json);
    assert(t[p.len() as int] == '.');
    assert forall|j: int| 0 <= j < p.len() implies t[j] != '.' by {
        assert(t[j] == p[j]);
        assert(url_safe_char(p[j]));
    }
    crate::text::lemma_first_index(t, '.', p.len() as int);
    assert(t.take(p.len() as int) =~= p);
    assert(t.skip(p.len() + 1int) =~= token_signature(key, p));
}

/// The transfer permissions a token may carry.
#[derive(Debug, Clone, Copy, PartialEq, Eq, Structural)]
pub enum Grant {
    Read,
    Write,
}

/// The grants named in a payload's permission list: `read` and `write`;
/// other names are ignored.
pub open spec fn grants_of(perms: Seq<Seq<char>>) -> Seq<Grant>
    decreases perms.len(),
{
    if perms.len() == 0 {
        Seq::empty()
    } else {
        let prev = grants_of(perms.drop_last());
        let p = perms.last();
        if p == "read"@ {
            prev.push(Grant::Read)
        } else if p == "write"@ {
            prev.push(Grant::Write)
        } else {
            prev
        }
    }
}

/// The grants of a verified token's payload.
pub fn payload_grants(payload: &TokenPayload) -> (r: Vec<Grant>)
    ensures
        r@ == grants_of(payload.permissions@.map_values(|p: String| p@)),
{
    let ghost perms = payload.permissions@.map_values(|p: String| p@);
    let mut out: Vec<Grant> = Vec::new();
    let mut i: usize = 0;
    while i < payload.permissions.len()
        invariant
            i <= payload.permissions@.len(),
            perms == payload.permissions@.map_values(|p: String| p@),
            out@ == grants_of(perms.take(i as int)),
        decreases payload.permissions.len() - i,
    {
        assert(perms.take(i as int + 1).drop_last() =~= perms.take(i as int));
        assert(perms.take(i as int + 1).last() == perms[i as int]);
        let p = chars_of(payload.permissions[i].as_str());
        if chars_eq(&p, &chars_of("read")) {
            out.push(Grant::Read);
        } else if chars_eq(&p, &chars_of("write")) {
            out.push(Grant::Write);
        }
        i = i + 1;
    }
    assert(perms.take(payload.permissions@.len() as int) =~= perms);
    out
}

/// The permission names a token request asks for: `["read", "write"]` for
/// `write`, `["read"]` otherwise.
pub fn requested_permissions(op: &str) -> (r: Vec<String>)
    ensures
        op@ == "write"@ ==> r@.map_values(|p: String| p@) == seq!["read"@, "write"@],
        op@ != "write"@ ==> r@.map_values(|p: String| p@) == seq!["read"@],
{
    let mut v: Vec<String> = Vec::new();
    v.push(string_from_str("read"));
    if chars_eq(&chars_of(op), &chars_of("write")) {
        v.push(string_from_str("write"));
        assert(v@.map_values(|p: String| p@) =~= seq!["read"@, "write"@]);
    } else {
        assert(v@.map_values(|p: String| p@) =~= seq!["read"@]);
    }
    v
}

/// Segment-boundary prefix matching: with leading slashes dropped from the
/// path and surrounding slashes from each prefix, `a/b` matches `a/b` and
/// `a/b/c` but not `a/bc`; an empty prefix grants the whole tree.
pub open spec fn path_matches(path: Seq<char>, prefix: Seq<char>) -> bool {
    let p = trim_start_char(path, '/');
    let q = trim_char(prefix, '/');
    q.len() == 0 || p == q || (starts_with(p, q) && p.len() > q.len() && p[q.len() as int] == '/')
}

/// Whether `path` lies under any of the allowed prefixes.
pub fn path_matches_any(path: &str, prefixes: &[String]) -> (r: bool)
    ensures
        r == exists|k: int| 0 <= k < prefixes@.len() && path_matches(path@, #[trigger] prefixes@[k]@),
{
    let p = trim_start_chars(&chars_of(path), '/');
    let mut k: usize = 0;
    while k < prefixes.len()
        invariant
            k <= prefixes@.len(),
            p@ == trim_start_char(path@, '/'),
            forall|j: int| 0 <= j < k ==> !path_matches(path@, #[trigger] prefixes@[j]@),
        decreases prefixes.len() - k,
    {
        let q = trim_chars(&chars_of(prefixes[k].as_str()), '/');
        if q.len() == 0 || chars_eq(&p, &q) || (starts_with_chars(&p, &q) && p.len() > q.len()
            && p[q.len()] == '/') {
            assert(path_matches(path@, prefixes@[k as int]@));
            return true;
        }
        k = k + 1;
    }
    false
}

/// Why the transfer layer refuses a request.
#[derive(Debug, Clone, Copy, PartialEq, Eq, Structural)]
pub enum Denial {
    /// The token's expiry has passed.
    Expired,
    /// The token lacks the permission or does not cover the path.
    Forbidden,
}

/// The decision on a transfer request: refused when the claims have
/// expired at `now`, when they lack the required grant, or when the path
/// lies outside every allowed (decoded) path.
pub open spec fn transfer_verdict(
    exp: Option<i64>,
    now: i64,
    grants: Seq<Grant>,
    required: Grant,
    allowed: Seq<Seq<char>>,
    path: Seq<char>,
    raw_prefix_match: bool,
) -> Result<(), Denial> {
    if exp matches Some(e) && now >= e {
        Err(Denial::Expired)
    } else if !grants.contains(required) {
        Err(Denial::Forbidden)
    } else if raw_prefix_match {
        if exists|k: int| 0 <= k < allowed.len() && starts_with(path, #[trigger] allowed[k]) {
            Ok(())
        } else {
            Err(Denial::Forbidden)
        }
    } else if exists|k: int| 0 <= k < allowed.len() && path_matches(path, #[trigger] allowed[k]) {
        Ok(())
    } else {
        Err(Denial::Forbidden)
    }
}

/// Validate a transfer request against a token's claims, whose allowed
/// paths have already been decoded back to real paths.
#[verifier::loop_isolation(false)]
pub fn validate_transfer(
    exp: Option<i64>,
    now: i64,
    grants: &Vec<Grant>,
    required: Grant,
    allowed: &[String],
    path: &str,
    raw_prefix_match: bool,
) -> (r: Result<(), Denial>)
    ensures
        r == transfer_verdict(
            exp,
            now,
            grants@,
            required,
            allowed@.map_values(|s: String| s@),
            path@,
            raw_prefix_match,
        ),
{
    let ghost av = allowed@.map_values(|s: String| s@);
    match exp {
        Some(e) => {
            if now >= e {
                return Err(Denial::Expired);
            }
        },
        None => {},
    }
    let mut granted = false;
    let mut i: usize = 0;
    while i < grants.len()
        invariant
            i <= grants@.len(),
            granted == exists|j: int| 0 <= j < i && grants@[j] == required,
        decreases grants.len() - i,
    {
        if grants[i] == required {
            granted = true;
        }
        i = i + 1;
    }
    if !granted {
        assert(!grants@.contains(required));
        return Err(Denial::Forbidden);
    }
    assert(grants@.contains(required));
    if raw_prefix_match {
        let p = chars_of(path);
        let mut k: usize = 0;
        while k < allowed.len()
            invariant
                k <= allowed@.len(),
                av == allowed@.map_values(|s: String| s@),
                p@ == path@,
                forall|j: int| 0 <= j < k ==> !starts_with(path@, #[trigger] av[j]),
            decreases allowed.len() - k,
        {
            if starts_with_chars(&p, &chars_of(allowed[k].as_str())) {
                assert(starts_with(path@, av[k as int]));
                return Ok(());
            }
            k = k + 1;
        }
        return Err(Denial::Forbidden);
    }
    if path_matches_any(path, allowed) {
        assert(exists|k: int| 0 <= k < av.len() && path_matches(path@, #[trigger] av[k])) by {
            let k = choose|k: int| 0 <= k < allowed@.len() && path_matches(path@, #[trigger] allowed@[k]@);
            assert(av[k] == allowed@[k]@);
        }
        Ok(())
    } else {
        assert(!exists|k: int| 0 <= k < av.len() && path_matches(path@, #[trigger] av[k])) by {
            if exists|k: int| 0 <= k < av.len() && path_matches(path@, #[trigger] av[k]) {
                let k = choose|k: int| 0 <= k < av.len() && path_matches(path@, #[trigger] av[k]);
                assert(av[k] == allowed@[k]@);
            }
        }
        Err(Denial::Forbidden)
    }
}

/// Verifies transfer tokens on behalf of the embedded transfer router.
#[derive(Clone)]
pub struct OneshareTokenVerifier {
    pub hmac_key: String,
}

/// The claims handed to the transfer router for a verified token.
pub struct VerifiedClaims {
    pub sub: String,
    pub exp: u64,
    pub grants: Vec<Grant>,
    pub allowed_paths: Vec<String>,
}

impl OneshareTokenVerifier {
    /// Check the token's frame under this verifier's key.
    pub fn frame(&self, token: &str) -> (r: Result<Vec<u8>, TokenError>)
        ensures
            match r {
                Ok(b) => token_frame(self.hmac_key@, token@) == Ok::<Seq<u8>, TokenError>(b@),
                Err(e) => token_frame(self.hmac_key@, token@) == Err::<Seq<u8>, TokenError>(e),
            },
    {
        verify_token(self.hmac_key.as_str(), token)
    }

    /// The claims of a decoded payload at `now`: refused once expired,
    /// else its subject, expiry, recognised grants and its one path.
    pub fn claims(&self, payload: &TokenPayload, now: u64) -> (r: Result<VerifiedClaims, TokenError>)
        ensures
            now >= payload.exp ==> r == Err::<VerifiedClaims, TokenError>(TokenError::Expired),
            now < payload.exp ==> (r matches Ok(c) && c.sub@ == payload.sub@ && c.exp == payload.exp
                && c.grants@ == grants_of(payload.permissions@.map_values(|p: String| p@))
                && c.allowed_paths@.map_values(|s: String| s@) == seq![payload.path@]),
    {
        if check_expiry(payload, now).is_err() {
            return Err(TokenError::Expired);
        }
        let grants = payload_grants(payload);
        let mut allowed: Vec<String> = Vec::new();
        allowed.push(payload.path.clone());
        assert(allowed@.map_values(|s: String| s@) =~= seq![payload.path@]);
        Ok(VerifiedClaims { sub: payload.sub.clone(), exp: payload.exp, grants, allowed_paths: allowed })
    }
}

/// A transfer token covers the subtree of the path it is bound to: with an
/// unexpired token holding the required grant, its own (canonical) path
/// and everything beneath it are allowed.
pub proof fn law_token_covers_its_subtree(
    exp: i64,
    now: i64,
    grants: Seq<Grant>,
    required: Grant,
    p: Seq<char>,
    rest: Seq<char>,
)
    requires
        now < exp,
        grants.contains(required),
        p.len() == 0 || (p[0] != '/' && p.last() != '/'),
        rest.len() == 0 || rest[0] == '/',
    ensures
        transfer_verdict(Some(exp), now, grants, required, seq![p], p + rest, false) == Ok::<
            (),
            Denial,
        >(()),
{
    crate::text::lemma_trim_noop(p, '/');
    let path = p + rest;
    if p.len() > 0 {
        assert(path[0] == p[0]);
        assert(trim_start_char(path, '/') == path);
        if rest.len() == 0 {
            assert(path =~= p);
        } else {
            assert(path.take(p.len() as int) =~= p);
            assert(path[p.len() as int] == rest[0]);
        }
    }
    assert(path_matches(path, seq![p][0]));
}

} // verus!
