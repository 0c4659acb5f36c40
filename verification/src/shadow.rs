//! Opaque shadow paths: real storage paths encrypted under the transfer
//! layer's path key, so the browser never holds a real path. Everything the
//! application decides about a shadow (whole or compound decoding, which
//! transfer paths a listing shows, what a token is bound to, the names a
//! batch of shadows resolves to) goes through [`ShadowCodec`].
use vstd::prelude::*;
use libfw_core::pathmap::{EncryptedPathCodec, PathCodec};
use crate::acl::{access_allowed, can_access, display_path_for, displayed, Permission};
use crate::files::{
    checked_real, child_of, compose_real, compound_splits, resolve_checked, splits_before,
};
use crate::gateway::is_libfw_temp;
use crate::rows::{AclEntryRow, UserRow};
use crate::status::Refusal;
use crate::text::{
    chars_of, extend_chars, leaf_of, starts_with, string_from_str, string_of, trim_ws,
    trim_ws_chars,
};

verus! {

#[verifier::external_type_specification]
#[verifier::external_body]
pub struct ExEncryptedPathCodec(EncryptedPathCodec);

/// The real path a shadow decrypts to under the key written as `key_hex`,
/// or `None` when the shadow is malformed, tampered with or not valid UTF-8.
pub uninterp spec fn shadow_plain(key_hex: Seq<char>, shadow: Seq<char>) -> Option<Seq<char>>;

pub open spec fn is_hex_digit(c: char) -> bool {
    ('0' <= c && c <= '9') || ('a' <= c && c <= 'f') || ('A' <= c && c <= 'F')
}

/// A two-character byte of the key: hex digits, the first optionally a `+`
/// sign (as `u8::from_str_radix` accepts it).
pub open spec fn hex_pair_ok(a: char, b: char) -> bool {
    (is_hex_digit(a) || a == '+') && is_hex_digit(b)
}

/// A path key that parses: after trimming, 64 characters making 32 bytes.
pub open spec fn key_hex_valid(hex: Seq<char>) -> bool {
    let t = trim_ws(hex);
    t.len() == 64 && forall|i: int| 0 <= i < 32 ==> #[trigger] hex_pair_ok(t[2 * i], t[2 * i + 1])
}

pub open spec fn all_ascii(s: Seq<char>) -> bool {
    forall|i: int| 0 <= i < s.len() ==> (#[trigger] s[i] as u32) < 128
}

/// The text of libfw's refusal of a key that does not parse.
pub open spec fn bad_key_message() -> Seq<char> {
    "invalid shadow path: LIBFW_PATH_KEY must be 64 hex chars (32 bytes)"@
}

/// The prefix of every refusal to build the codec.
pub open spec fn path_key_prefix() -> Seq<char> {
    "[libfw] path_key: "@
}

/// `libfw_core::pathmap::EncryptedPathCodec::from_hex`: the codec for a
/// 64-hex-character key, or the error's text. A key that does not parse is
/// always refused, with libfw's `InvalidShadow` message; a valid one is
/// also refused when the OS offers no secure randomness (so success is not
/// promised, and that refusal's text is not stated). libfw slices the
/// trimmed key by bytes, which panics inside a multi-byte character, so the
/// trimmed key must be ASCII.
#[verifier::external_body]
fn codec_from_hex(key_hex: &str) -> (r: Result<EncryptedPathCodec, String>)
    requires
        all_ascii(trim_ws(key_hex@)),
    ensures
        match r {
            Ok(_) => key_hex_valid(key_hex@),
            Err(m) => !key_hex_valid(key_hex@) ==> m@ == bad_key_message(),
        },
{
    EncryptedPathCodec::from_hex(key_hex).map_err(|e| e.to_string())
}

/// The codec for the transfer layer's path key.
pub struct ShadowCodec {
    key_hex: String,
    codec: EncryptedPathCodec,
}

/// `PathCodec::decode` of `EncryptedPathCodec`: the real path a shadow
/// decrypts to under the codec's key, `None` for any decode error.
#[verifier::external_body]
fn codec_decode(c: &ShadowCodec, shadow: &str) -> (r: Option<String>)
    ensures
        match r {
            Some(p) => shadow_plain(c.key_hex@, shadow@) == Some(p@),
            None => shadow_plain(c.key_hex@, shadow@) is None,
        },
{
    c.codec.decode(shadow).ok()
}

/// `PathCodec::encode` of `EncryptedPathCodec`: a fresh shadow (a random
/// nonce each time, so the text itself is not stated) that decodes back to
/// `real`. libfw aborts the process when the OS randomness source is lost
/// after the codec was built.
#[verifier::external_body]
fn codec_encode(c: &ShadowCodec, plain: &str) -> (r: String)
    ensures
        shadow_plain(c.key_hex@, r@) == Some(plain@),
{
    c.codec.encode(plain)
}

/// Decoding the longest decodable prefix among `splits` (rightmost split
/// first) and appending the literal rest to it.
pub open spec fn compound_decoded(key: Seq<char>, splits: Seq<(Seq<char>, Seq<char>)>) -> Option<
    Seq<char>,
>
    decreases splits.len(),
{
    if splits.len() == 0 {
        None
    } else {
        match shadow_plain(key, splits[0].0) {
            Some(plain) => Some(child_of(plain, splits[0].1)),
            None => compound_decoded(key, splits.drop_first()),
        }
    }
}

/// What a client-supplied shadow stands for: the whole shadow decoded, else
/// the longest decodable `/`-prefix with the literal rest appended
/// (`{dirShadow}/{relative/path}`).
pub open spec fn shadow_resolution(key: Seq<char>, shadow: Seq<char>) -> Option<Seq<char>> {
    match shadow_plain(key, shadow) {
        Some(plain) => Some(plain),
        None => compound_decoded(key, splits_before(shadow, shadow.len() as int)),
    }
}

/// A trimmed key holding a character beyond ASCII cannot parse: every
/// position of a 64-character key lies in a pair that must be hex digits.
proof fn lemma_non_ascii_key_invalid(hex: Seq<char>, i: int)
    requires
        0 <= i < trim_ws(hex).len(),
        (trim_ws(hex)[i] as u32) >= 128,
    ensures
        !key_hex_valid(hex),
{
    let t = trim_ws(hex);
    if t.len() == 64 {
        let j = i / 2;
        assert(0 <= j < 32);
        if hex_pair_ok(t[2 * j], t[2 * j + 1]) {
            assert(i == 2 * j || i == 2 * j + 1);
        }
    }
}

/// libfw's refusal of a key that does not parse.
fn bad_key_text() -> (s: &'static str)
    ensures
        s@ == bad_key_message(),
{
    "invalid shadow path: LIBFW_PATH_KEY must be 64 hex chars (32 bytes)"
}

impl ShadowCodec {
    /// The key the codec was built from.
    pub closed spec fn key(&self) -> Seq<char> {
        self.key_hex@
    }

    /// Build the codec from the configured `path_key`; refused (never an
    /// identity fallback) when the key is missing or malformed.
    pub fn from_hex(key_hex: &str) -> (r: Result<ShadowCodec, String>)
        ensures
            r matches Ok(c) ==> c.key() == key_hex@ && key_hex_valid(key_hex@),
            !key_hex_valid(key_hex@) ==> (r matches Err(m) && m@ == path_key_prefix()
                + bad_key_message()),
            r matches Err(m) ==> starts_with(m@, path_key_prefix()),
    {
        let trimmed = trim_ws_chars(&chars_of(key_hex));
        let mut i: usize = 0;
        while i < trimmed.len()
            invariant
                i <= trimmed.len(),
                trimmed@ == trim_ws(key_hex@),
                forall|j: int| 0 <= j < i ==> (#[trigger] trimmed@[j] as u32) < 128,
            decreases trimmed.len() - i,
        {
            if (trimmed[i] as u32) >= 128 {
                proof {
                    lemma_non_ascii_key_invalid(key_hex@, i as int);
                }
                let mut msg = chars_of("[libfw] path_key: ");
                extend_chars(&mut msg, &chars_of(bad_key_text()));
                assert((path_key_prefix() + bad_key_message()).take(path_key_prefix().len() as int)
                    =~= path_key_prefix());
                return Err(string_of(&msg));
            }
            i = i + 1;
        }
        match codec_from_hex(key_hex) {
            Ok(codec) => Ok(ShadowCodec { key_hex: string_from_str(key_hex), codec }),
            Err(e) => {
                let mut msg = chars_of("[libfw] path_key: ");
                extend_chars(&mut msg, &chars_of(e.as_str()));
                assert(msg@ == path_key_prefix() + e@);
                assert((path_key_prefix() + e@).take(path_key_prefix().len() as int)
                    =~= path_key_prefix());
                Err(string_of(&msg))
            },
        }
    }

    /// A fresh shadow for a real path.
    pub fn encode(&self, plain: &str) -> (r: String)
        ensures
            shadow_plain(self.key(), r@) == Some(plain@),
    {
        codec_encode(self, plain)
    }

    /// The real path of a whole shadow.
    pub fn decode(&self, shadow: &str) -> (r: Option<String>)
        ensures
            match r {
                Some(p) => shadow_plain(self.key(), shadow@) == Some(p@),
                None => shadow_plain(self.key(), shadow@) is None,
            },
    {
        codec_decode(self, shadow)
    }

    /// The real path of a whole or compound shadow.
    pub fn resolve(&self, shadow: &str) -> (r: Option<String>)
        ensures
            match r {
                Some(p) => shadow_resolution(self.key(), shadow@) == Some(p@),
                None => shadow_resolution(self.key(), shadow@) is None,
            },
    {
        match codec_decode(self, shadow) {
            Some(plain) => return Some(plain),
            None => {},
        }
        let splits = compound_splits(shadow);
        let ghost sv = splits@.map_values(|p: (String, String)| (p.0@, p.1@));
        let mut i: usize = 0;
        assert(sv.skip(0) =~= sv);
        while i < splits.len()
            invariant
                i <= splits@.len(),
                sv == splits@.map_values(|p: (String, String)| (p.0@, p.1@)),
                sv == splits_before(shadow@, shadow@.len() as int),
                shadow_plain(self.key(), shadow@) is None,
                compound_decoded(self.key(), sv) == compound_decoded(self.key(), sv.skip(i as int)),
            decreases splits.len() - i,
        {
            assert(sv.skip(i as int).drop_first() =~= sv.skip(i + 1));
            assert(sv.skip(i as int)[0] == sv[i as int]);
            assert(sv[i as int] == (splits@[i as int].0@, splits@[i as int].1@));
            match codec_decode(self, splits[i].0.as_str()) {
                Some(plain) => {
                    return Some(compose_real(plain.as_str(), splits[i].1.as_str()));
                },
                None => {},
            }
            i = i + 1;
        }
        assert(sv.skip(i as int).len() == 0);
        None
    }
}

/// The real path a shadow stands for in a transfer listing entry; an
/// undecodable shadow stands for the empty path.
pub open spec fn listed_real(key: Seq<char>, shadow: Seq<char>) -> Seq<char> {
    match shadow_plain(key, shadow) {
        Some(p) => p,
        None => Seq::empty(),
    }
}

/// Whether a transfer directory listing keeps an entry: libfw's own upload
/// temps (`.libfw-*`, found by decoding the shadow) are dropped.
pub fn listing_keeps(codec: &ShadowCodec, shadow: &str) -> (r: bool)
    ensures
        r == !starts_with(leaf_of(listed_real(codec.key(), shadow@)), ".libfw-"@),
{
    match codec.decode(shadow) {
        Some(plain) => !is_libfw_temp(plain.as_str()),
        None => {
            let none: Vec<char> = Vec::new();
            let empty = string_of(&none);
            assert(empty@ =~= Seq::<char>::empty());
            !is_libfw_temp(empty.as_str())
        },
    }
}

/// A token claim path as the validator matches it: decoded when it is a
/// shadow, literal otherwise (tokens that still carry a plain path).
pub open spec fn claim_real(key: Seq<char>, claim: Seq<char>) -> Seq<char> {
    match shadow_plain(key, claim) {
        Some(p) => p,
        None => claim,
    }
}

/// The real paths of a token's allowed-path claims.
pub fn decoded_claims(codec: &ShadowCodec, claims: &Vec<String>) -> (r: Vec<String>)
    ensures
        r@.len() == claims@.len(),
        forall|i: int| 0 <= i < claims@.len() ==> #[trigger] r@[i]@ == claim_real(codec.key(), claims@[i]@),
{
    let mut out: Vec<String> = Vec::new();
    let mut i: usize = 0;
    while i < claims.len()
        invariant
            i <= claims@.len(),
            out@.len() == i,
            forall|j: int| 0 <= j < i ==> #[trigger] out@[j]@ == claim_real(codec.key(), claims@[j]@),
        decreases claims.len() - i,
    {
        match codec.decode(claims[i].as_str()) {
            Some(plain) => out.push(plain),
            None => out.push(claims[i].clone()),
        }
        i = i + 1;
    }
    out
}

/// The real path a transfer token is bound to: a shadow input is decoded
/// and gated on the ACL (a share may have been revoked since it was
/// listed); anything else is resolved as a display/real path.
pub open spec fn token_target(
    key: Seq<char>,
    user: UserRow,
    groups: Seq<i64>,
    acl: Seq<AclEntryRow>,
    path: Seq<char>,
    required: Permission,
) -> Result<Seq<char>, Refusal> {
    match shadow_plain(key, path) {
        Some(plain) => if access_allowed(user, groups, acl, plain, required) {
            Ok(plain)
        } else {
            Err(Refusal::Forbidden)
        },
        None => checked_real(user, groups, acl, path, required),
    }
}

/// Resolve the path a transfer token is requested for.
pub fn token_real_path(
    codec: &ShadowCodec,
    user: &UserRow,
    user_groups: &[i64],
    acl_entries: &[AclEntryRow],
    path: &str,
    required: &Permission,
) -> (r: Result<String, Refusal>)
    ensures
        match r {
            Ok(s) => token_target(codec.key(), *user, user_groups@, acl_entries@, path@, *required)
                == Ok::<Seq<char>, Refusal>(s@),
            Err(e) => token_target(codec.key(), *user, user_groups@, acl_entries@, path@, *required)
                == Err::<Seq<char>, Refusal>(e),
        },
{
    match codec.decode(path) {
        Some(plain) => {
            if can_access(user, user_groups, acl_entries, plain.as_str(), required) {
                Ok(plain)
            } else {
                Err(Refusal::Forbidden)
            }
        },
        None => resolve_checked(user, user_groups, acl_entries, path, required),
    }
}

/// The display names of a batch of shadows, in order: the first shadow that
/// resolves to nothing refuses the batch (bad request), as does the first
/// one outside the caller's view (forbidden).
pub open spec fn shadow_names(
    key: Seq<char>,
    user: UserRow,
    groups: Seq<i64>,
    acl: Seq<AclEntryRow>,
    shadows: Seq<Seq<char>>,
) -> Result<Seq<(Seq<char>, Seq<char>)>, Refusal>
    decreases shadows.len(),
{
    if shadows.len() == 0 {
        Ok(Seq::empty())
    } else {
        match shadow_names(key, user, groups, acl, shadows.drop_last()) {
            Err(e) => Err(e),
            Ok(prev) => {
                let s = shadows.last();
                match shadow_resolution(key, s) {
                    None => Err(Refusal::BadRequest),
                    Some(plain) => match displayed(user, groups, acl, plain) {
                        None => Err(Refusal::Forbidden),
                        Some(d) => Ok(prev.push((s, d))),
                    },
                }
            },
        }
    }
}

/// Once a prefix of the batch is refused, so is the whole batch, with the
/// same refusal.
proof fn lemma_names_refusal_sticks(
    key: Seq<char>,
    user: UserRow,
    groups: Seq<i64>,
    acl: Seq<AclEntryRow>,
    s: Seq<Seq<char>>,
    k: int,
)
    requires
        0 <= k <= s.len(),
        shadow_names(key, user, groups, acl, s.take(k)) is Err,
    ensures
        shadow_names(key, user, groups, acl, s) == shadow_names(key, user, groups, acl, s.take(k)),
    decreases s.len() - k,
{
    if k == s.len() {
        assert(s.take(k) =~= s);
    } else {
        assert(s.take(k + 1).drop_last() =~= s.take(k));
        lemma_names_refusal_sticks(key, user, groups, acl, s, k + 1);
    }
}

/// Map each shadow of a batch to the display path its caller sees.
pub fn display_names(
    codec: &ShadowCodec,
    user: &UserRow,
    user_groups: &[i64],
    acl_entries: &[AclEntryRow],
    shadows: &Vec<String>,
) -> (r: Result<Vec<(String, String)>, Refusal>)
    ensures
        match r {
            Ok(v) => shadow_names(
                codec.key(),
                *user,
                user_groups@,
                acl_entries@,
                shadows@.map_values(|s: String| s@),
            ) == Ok::<Seq<(Seq<char>, Seq<char>)>, Refusal>(
                v@.map_values(|p: (String, String)| (p.0@, p.1@)),
            ),
            Err(e) => shadow_names(
                codec.key(),
                *user,
                user_groups@,
                acl_entries@,
                shadows@.map_values(|s: String| s@),
            ) == Err::<Seq<(Seq<char>, Seq<char>)>, Refusal>(e),
        },
{
    let ghost sv = shadows@.map_values(|s: String| s@);
    let mut out: Vec<(String, String)> = Vec::new();
    let mut i: usize = 0;
    assert(sv.take(0) =~= Seq::<Seq<char>>::empty());
    assert(out@.map_values(|p: (String, String)| (p.0@, p.1@)) =~= Seq::<(Seq<char>, Seq<char>)>::empty());
    while i < shadows.len()
        invariant
            i <= shadows@.len(),
            out@.len() == i,
            sv == shadows@.map_values(|s: String| s@),
            shadow_names(codec.key(), *user, user_groups@, acl_entries@, sv.take(i as int)) == Ok::<
                Seq<(Seq<char>, Seq<char>)>,
                Refusal,
            >(out@.map_values(|p: (String, String)| (p.0@, p.1@))),
        decreases shadows.len() - i,
    {
        let ghost before = out@.map_values(|p: (String, String)| (p.0@, p.1@));
        assert(sv.take(i as int + 1).drop_last() =~= sv.take(i as int));
        assert(sv.take(i as int + 1).last() == shadows@[i as int]@);
        let plain = match codec.resolve(shadows[i].as_str()) {
            Some(r) => r,
            None => {
                proof {
                    lemma_names_refusal_sticks(
                        codec.key(),
                        *user,
                        user_groups@,
                        acl_entries@,
                        sv,
                        i + 1,
                    );
                }
                return Err(Refusal::BadRequest);
            },
        };
        let shown = match display_path_for(user, user_groups, acl_entries, plain.as_str()) {
            Some(d) => d,
            None => {
                proof {
                    lemma_names_refusal_sticks(
                        codec.key(),
                        *user,
                        user_groups@,
                        acl_entries@,
                        sv,
                        i + 1,
                    );
                }
                return Err(Refusal::Forbidden);
            },
        };
        let name = shadows[i].clone();
        assert(name@ == sv[i as int]);
        let ghost item = (name@, shown@);
        out.push((name, shown));
        assert(out@.map_values(|p: (String, String)| (p.0@, p.1@)) =~= before.push(item));
        i = i + 1;
    }
    assert(sv.take(shadows@.len() as int) =~= sv);
    Ok(out)
}

/// A shadow stands for the path it was issued for wherever it is read
/// back: as a client path, as a token claim and in a transfer listing.
pub proof fn law_shadow_round_trip(key: Seq<char>, plain: Seq<char>, shadow: Seq<char>)
    requires
        shadow_plain(key, shadow) == Some(plain),
    ensures
        shadow_resolution(key, shadow) == Some(plain),
        claim_real(key, shadow) == plain,
        listed_real(key, shadow) == plain,
{
}

} // verus!
