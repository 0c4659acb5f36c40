//! Server configuration: the settings, their defaults and the values
//! derived from them (URL prefix, trash location, compression policy).
use vstd::prelude::*;
use vstd::utf8::encode_utf8;
use crate::text::{
    ascii_lower_chars, ascii_lower_seq, chars_eq, chars_of, parse_i32_chars, parse_i32_spec,
    lemma_trim_ends, string_from_str, string_of, trim_char, trim_chars, trim_ws, trim_ws_chars,
};

verus! {

/// The whole configuration file.
#[derive(Debug, Clone)]
pub struct Config {
    pub server: ServerConfig,
    pub oidc: OidcConfig,
    /// libfw file-transfer configuration; every field has a default.
    pub libfw: LibfwConfig,
}

/// libfw transfer settings: server knobs for the embedded libfw router and
/// client knobs served to the browser.
#[derive(Debug, Clone)]
pub struct LibfwConfig {
    /// Download compression for the embedded server: `"zrip"` or `"none"`.
    pub compression: String,
    /// Client SDK: zrip compression-level policy (`auto`/`fast`/`balanced`/
    /// `max` or a numeric level).
    pub compress_level: String,
    /// Upper bound for a single upload body in bytes.
    pub max_upload_size: u64,
    /// Client SDK: max parallel file transfers.
    pub concurrency: u32,
    /// Client SDK: shared chunk size in bytes.
    pub chunk_size: u64,
    /// Client SDK: chunks of one file in flight at once (uploads).
    pub upload_window: u32,
    /// Client SDK: byte ranges of one file fetched in parallel (downloads).
    pub download_window: u32,
    /// Client SDK: retries per chunk/file before failing.
    pub max_retries: u32,
    /// Client SDK: initial exponential-backoff delay (ms).
    pub base_retry_delay_ms: u64,
    /// Client SDK: backoff ceiling (ms).
    pub max_retry_delay_ms: u64,
    /// Client SDK: per-read (idle) timeout in ms; `0` disables it.
    pub timeout_ms: u64,
    /// Client SDK: enable the adaptive tuning engine.
    pub auto_tune: bool,
    /// Client SDK: chunk-size ceiling advertised to the adaptive engine.
    pub auto_tune_max_chunk_size: u64,
    /// Client SDK: how long a settled tuning result stays usable (ms).
    pub tune_ttl_ms: u64,
    /// AES-256 key (64 hex chars) for the encrypted path codec.
    pub path_key: String,
}

/// The `[server]` table.
#[derive(Debug, Clone)]
pub struct ServerConfig {
    pub listen_addr: String,
    pub listen_port: u16,
    /// Directory whose contents are served.
    pub root_dir: String,
    pub database_url: String,
    pub hmac_secret: String,
    /// Optional URL prefix, e.g. "/oneshare"; empty or "/" is the root.
    pub base_url: String,
    /// Mark the session cookie `Secure` (HTTPS-only).
    pub session_cookie_secure: bool,
    /// Origins allowed to make cross-origin requests; empty = same-origin.
    pub allowed_origins: Vec<String>,
    /// Trash directory for deletions; empty = delete permanently.
    pub trash_dir: String,
    /// Audit-log retention in days; `0` keeps entries forever.
    pub audit_retention_days: u32,
    /// Username (or subject) of the instance administrator, if configured.
    pub admin_user: Option<String>,
}

/// The `[oidc]` table.
#[derive(Debug, Clone)]
pub struct OidcConfig {
    pub issuer_url: String,
    pub client_id: String,
    pub client_secret: String,
    /// Callback URL registered with the provider.
    pub redirect_uri: String,
    /// Authorization endpoint override (else discovered).
    pub authorization_endpoint: Option<String>,
    /// Token endpoint override (else discovered).
    pub token_endpoint: Option<String>,
    /// Userinfo endpoint override (else discovered).
    pub userinfo_endpoint: Option<String>,
    /// JWKS URI override (else discovered).
    pub jwks_uri: Option<String>,
}

pub fn default_compression() -> (r: String)
    ensures
        r@ == "none"@,
{
    string_from_str("none")
}

pub fn default_compress_level() -> (r: String)
    ensures
        r@ == "balanced"@,
{
    string_from_str("balanced")
}

/// 8 MiB — a fast link's "~100 ms of throughput" budget.
pub fn default_auto_tune_max_chunk_size() -> (r: u64)
    ensures
        r == 8 * 1024 * 1024,
{
    8 * 1024 * 1024
}

/// 100 GiB, matching libfw's own default.
pub fn default_max_upload_size() -> (r: u64)
    ensures
        r == 100 * 1024 * 1024 * 1024,
{
    100 * 1024 * 1024 * 1024
}

pub fn default_concurrency() -> (r: u32)
    ensures
        r == 4,
{
    4
}

/// 2 MiB.
pub fn default_chunk_size() -> (r: u64)
    ensures
        r == 2 * 1024 * 1024,
{
    2 * 1024 * 1024
}

/// Matches the default concurrency, so uploads stay bounded.
pub fn default_upload_window() -> (r: u32)
    ensures
        r == 4,
{
    4
}

/// Matches the client SDK's own download window default.
pub fn default_download_window() -> (r: u32)
    ensures
        r == 4,
{
    4
}

pub fn default_max_retries() -> (r: u32)
    ensures
        r == 3,
{
    3
}

pub fn default_base_retry_delay_ms() -> (r: u64)
    ensures
        r == 500,
{
    500
}

pub fn default_max_retry_delay_ms() -> (r: u64)
    ensures
        r == 30_000,
{
    30_000
}

/// 10 min — a generous per-read timeout so active transfers are not aborted.
pub fn default_timeout_ms() -> (r: u64)
    ensures
        r == 600_000,
{
    600_000
}

/// 1 h — matches the client SDK's own tuning TTL default.
pub fn default_tune_ttl_ms() -> (r: u64)
    ensures
        r == 3_600_000,
{
    3_600_000
}

pub fn default_audit_retention_days() -> (r: u32)
    ensures
        r == 365,
{
    365
}

/// The settings a configuration without a `[libfw]` table gets.
pub open spec fn is_default_libfw(c: LibfwConfig) -> bool {
    &&& c.compression@ == "none"@
    &&& c.compress_level@ == "balanced"@
    &&& c.max_upload_size == 100 * 1024 * 1024 * 1024
    &&& c.concurrency == 4
    &&& c.chunk_size == 2 * 1024 * 1024
    &&& c.upload_window == 4
    &&& c.download_window == 4
    &&& c.max_retries == 3
    &&& c.base_retry_delay_ms == 500
    &&& c.max_retry_delay_ms == 30_000
    &&& c.timeout_ms == 600_000
    &&& !c.auto_tune
    &&& c.auto_tune_max_chunk_size == 8 * 1024 * 1024
    &&& c.tune_ttl_ms == 3_600_000
    &&& c.path_key@.len() == 0
}

impl Default for LibfwConfig {
    fn default() -> (r: LibfwConfig)
        ensures
            is_default_libfw(r),
    {
        LibfwConfig {
            compression: default_compression(),
            compress_level: default_compress_level(),
            max_upload_size: default_max_upload_size(),
            concurrency: default_concurrency(),
            chunk_size: default_chunk_size(),
            upload_window: default_upload_window(),
            download_window: default_download_window(),
            max_retries: default_max_retries(),
            base_retry_delay_ms: default_base_retry_delay_ms(),
            max_retry_delay_ms: default_max_retry_delay_ms(),
            timeout_ms: default_timeout_ms(),
            auto_tune: false,
            auto_tune_max_chunk_size: default_auto_tune_max_chunk_size(),
            tune_ttl_ms: default_tune_ttl_ms(),
            path_key: String::new(),
        }
    }
}

/// Download compression of the embedded transfer server.
#[derive(Debug, Clone, Copy, PartialEq, Eq, Structural)]
pub enum Compression {
    /// Bodies pass through verbatim (`identity`).
    Identity,
    /// zstd via the zrip codec.
    Zrip,
}

/// How libfw reads an `x-libfw-compress` value: trimmed and lowercased,
/// `""`/`identity`/`none` mean no compression, `zrip`/`zstd` mean zrip,
/// anything else is not understood.
pub open spec fn compression_header(v: Seq<char>) -> Option<Compression> {
    let l = ascii_lower_seq(trim_ws(v));
    if l == ""@ || l == "identity"@ || l == "none"@ {
        Some(Compression::Identity)
    } else if l == "zrip"@ || l == "zstd"@ {
        Some(Compression::Zrip)
    } else {
        None
    }
}

/// `libfw_core::compress::CompressionFormat::parse_header`: trims and
/// lowercases the value, then maps `""`/`identity`/`none` to no
/// compression and `zrip`/`zstd` to zrip; anything else is `None`.
#[verifier::external_body]
fn parse_compression_header(v: &str) -> (r: Option<Compression>)
    ensures
        r == compression_header(v@),
{
    match libfw_core::compress::CompressionFormat::parse_header(v) {
        Some(libfw_core::compress::CompressionFormat::None) => Some(Compression::Identity),
        Some(libfw_core::compress::CompressionFormat::Zrip) => Some(Compression::Zrip),
        None => None,
    }
}

/// The zrip compression level policy served to the browser.
#[derive(Debug, Clone, PartialEq, Eq)]
pub enum CompressLevel {
    /// A named policy: `auto`, `fast`, `balanced` or `max` (lowercase).
    Named(String),
    /// An explicit numeric level.
    Level(i32),
}

pub open spec fn is_level_policy(l: Seq<char>) -> bool {
    l == "auto"@ || l == "fast"@ || l == "balanced"@ || l == "max"@
}

/// Whether `r` is what a (trimmed) `compress_level` value `raw` denotes:
/// its lowercase form when that names a policy, else the integer it
/// spells, else nothing.
pub open spec fn level_denoted(raw: Seq<char>, r: Option<CompressLevel>) -> bool {
    let lower = ascii_lower_seq(raw);
    match r {
        Some(CompressLevel::Named(n)) => is_level_policy(lower) && n@ == lower,
        Some(CompressLevel::Level(v)) => !is_level_policy(lower) && parse_i32_spec(raw) == Some(v),
        None => !is_level_policy(lower) && parse_i32_spec(raw) is None,
    }
}

/// Map a `compress_level` string to the value `config.js` serves: the
/// lowercase policy name, a numeric zrip level, or `None` when unparseable.
pub fn compress_level_of(raw: &str) -> (r: Option<CompressLevel>)
    ensures
        level_denoted(raw@, r),
{
    let v = chars_of(raw);
    let lower = ascii_lower_chars(&v);
    if chars_eq(&lower, &chars_of("auto")) || chars_eq(&lower, &chars_of("fast")) || chars_eq(
        &lower,
        &chars_of("balanced"),
    ) || chars_eq(&lower, &chars_of("max")) {
        return Some(CompressLevel::Named(string_of(&lower)));
    }
    match parse_i32_chars(&v) {
        Some(level) => Some(CompressLevel::Level(level)),
        None => None,
    }
}

impl LibfwConfig {
    /// Parse `compression` the same way libfw parses its `x-libfw-compress`
    /// header. Anything other than `zrip`/`zstd` falls back to no compression.
    pub fn compression_format(&self) -> (r: Compression)
        ensures
            r == (match compression_header(self.compression@) {
                Some(c) => c,
                None => Compression::Identity,
            }),
    {
        match parse_compression_header(self.compression.as_str()) {
            Some(c) => c,
            None => Compression::Identity,
        }
    }

    /// Whether `compress_level` is a policy libfw-client understands
    /// (`auto`/`fast`/`balanced`/`max`) or a numeric zrip level.
    pub fn compress_level_is_valid(&self) -> (r: bool)
        ensures
            r == (is_level_policy(ascii_lower_seq(trim_ws(self.compress_level@))) || parse_i32_spec(
                trim_ws(self.compress_level@),
            ) is Some),
    {
        let t = string_of(&trim_ws_chars(&chars_of(self.compress_level.as_str())));
        compress_level_of(t.as_str()).is_some()
    }

    /// The `compressLevel` value served to the browser: a named policy, a
    /// numeric level, or `"balanced"` when the configured value is not
    /// recognised (libfw-client falls back to the same default).
    pub fn compress_level_json(&self) -> (r: CompressLevel)
        ensures
            if level_denoted(trim_ws(self.compress_level@), None) {
                (r matches CompressLevel::Named(n) && n@ == "balanced"@)
            } else {
                level_denoted(trim_ws(self.compress_level@), Some(r))
            },
    {
        let t = string_of(&trim_ws_chars(&chars_of(self.compress_level.as_str())));
        match compress_level_of(t.as_str()) {
            Some(l) => l,
            None => CompressLevel::Named(string_from_str("balanced")),
        }
    }
}

/// `base.join(p)` for a relative `p`: appended below `base` with one `/`.
pub open spec fn joined_path(base: Seq<char>, p: Seq<char>) -> Seq<char> {
    if base.len() == 0 {
        p
    } else if base.last() == '/' {
        base + p
    } else {
        base.push('/') + p
    }
}

/// The normalized URL prefix: empty for the root (a value that is blank or
/// only slashes), else `/` followed by the configured value without its
/// surrounding slashes.
pub open spec fn normalized_base_url(configured: Seq<char>) -> Seq<char> {
    let inner = trim_char(trim_ws(configured), '/');
    if inner.len() == 0 {
        Seq::empty()
    } else {
        seq!['/'] + inner
    }
}

impl Config {
    pub fn listen_addr(&self) -> (r: &str)
        ensures
            r@ == self.server.listen_addr@,
    {
        self.server.listen_addr.as_str()
    }

    pub fn listen_port(&self) -> (r: u16)
        ensures
            r == self.server.listen_port,
    {
        self.server.listen_port
    }

    pub fn root_dir(&self) -> (r: &String)
        ensures
            r@ == self.server.root_dir@,
    {
        &self.server.root_dir
    }

    pub fn database_url(&self) -> (r: &str)
        ensures
            r@ == self.server.database_url@,
    {
        self.server.database_url.as_str()
    }

    pub fn hmac_secret(&self) -> (r: &str)
        ensures
            r@ == self.server.hmac_secret@,
    {
        self.server.hmac_secret.as_str()
    }

    /// The resolved trash directory, or `None` when `trash_dir` is empty/blank
    /// (i.e. deletions are permanent). Relative paths resolve against
    /// `root_dir`; absolute paths are used as-is.
    pub fn trash_path(&self) -> (r: Option<String>)
        ensures
            ({
                let t = trim_ws(self.server.trash_dir@);
                match r {
                    None => t.len() == 0,
                    Some(p) => t.len() > 0 && p@ == (if t[0] == '/' {
                        t
                    } else {
                        joined_path(self.server.root_dir@, t)
                    }),
                }
            }),
    {
        let t = trim_ws_chars(&chars_of(self.server.trash_dir.as_str()));
        if t.len() == 0 {
            return None;
        }
        if t[0] == '/' {
            return Some(string_of(&t));
        }
        let mut v = chars_of(self.server.root_dir.as_str());
        if v.len() > 0 && v[v.len() - 1] != '/' {
            v.push('/');
        }
        let mut i: usize = 0;
        let ghost start = v@;
        while i < t.len()
            invariant
                i <= t.len(),
                v@ == start + t@.take(i as int),
            decreases t.len() - i,
        {
            v.push(t[i]);
            assert(start + t@.take(i as int + 1) =~= (start + t@.take(i as int)).push(t@[i as int]));
            i = i + 1;
        }
        assert(t@.take(t.len() as int) =~= t@);
        proof {
            let base = self.server.root_dir@;
            if base.len() > 0 && base.last() != '/' {
                assert(base.last() == base[base.len() - 1]);
            }
            if base.len() == 0 {
                assert(start + t@ =~= t@);
            }
        }
        Some(string_of(&v))
    }

    /// Normalized URL prefix (base path). Empty string (or only slashes)
    /// means the app is served at the domain root; otherwise a leading "/" is
    /// added and any trailing "/" removed, e.g. "/oneshare". Never returns a
    /// trailing slash.
    pub fn base_url(&self) -> (r: String)
        ensures
            r@ == normalized_base_url(self.server.base_url@),
    {
        let b = trim_ws_chars(&chars_of(self.server.base_url.as_str()));
        let inner = trim_chars(&b, '/');
        if inner.len() == 0 {
            return String::new();
        }
        let mut v: Vec<char> = vec!['/'];
        let mut i: usize = 0;
        while i < inner.len()
            invariant
                i <= inner.len(),
                v@ == seq!['/'] + inner@.take(i as int),
            decreases inner.len() - i,
        {
            v.push(inner[i]);
            assert(seq!['/'] + inner@.take(i as int + 1) =~= (seq!['/'] + inner@.take(
                i as int,
            )).push(inner@[i as int]));
            i = i + 1;
        }
        assert(inner@.take(inner.len() as int) =~= inner@);
        string_of(&v)
    }

    /// Absolute path to redirect the browser to after login/logout: "/" at
    /// the root prefix, else the prefix itself, e.g. "/oneshare".
    pub fn redirect_after_auth(&self) -> (r: String)
        ensures
            r@ == (if normalized_base_url(self.server.base_url@).len() == 0 {
                "/"@
            } else {
                normalized_base_url(self.server.base_url@)
            }),
    {
        let base = self.base_url();
        if chars_of(base.as_str()).len() == 0 {
            string_from_str("/")
        } else {
            base
        }
    }
}

/// The URL prefix is empty or starts with `/`, and it never ends with `/`.
pub proof fn law_base_url_shape(configured: Seq<char>)
    ensures
        normalized_base_url(configured).len() == 0 || (normalized_base_url(configured)[0] == '/'
            && normalized_base_url(configured).last() != '/'),
{
    let b = trim_ws(configured);
    lemma_trim_ends(b, '/');
    let inner = trim_char(b, '/');
    if inner.len() > 0 {
        assert((seq!['/'] + inner).last() == inner.last());
    }
}

/// The placeholder secret of the sample configuration.
pub open spec fn sample_secret() -> Seq<char> {
    "change-me-to-a-random-32-byte-secret"@
}

/// Whether the token-signing secret is usable: after trimming it is
/// non-empty, not the sample placeholder, and at least 16 bytes long (a
/// weak secret would let anyone forge transfer tokens).
pub fn hmac_secret_is_strong(secret: &str) -> (r: bool)
    ensures
        r == ({
            let t = trim_ws(secret@);
            t.len() > 0 && t != sample_secret() && encode_utf8(t).len() >= 16
        }),
{
    let tv = trim_ws_chars(&chars_of(secret));
    let t = string_of(&tv);
    let n = t.as_str().as_bytes().len();
    proof {
        reveal_strlit("change-me-to-a-random-32-byte-secret");
    }
    tv.len() > 0 && !chars_eq(&tv, &chars_of("change-me-to-a-random-32-byte-secret")) && n >= 16
}

impl LibfwConfig {
    /// Whether a non-default `compress_level` is configured while the
    /// server does not serve zrip, so the level has no effect.
    pub fn compress_level_ignored(&self) -> (r: bool)
        ensures
            r == (compression_header(self.compression@) != Some(Compression::Zrip)
                && ascii_lower_seq(trim_ws(self.compress_level@)) != "balanced"@),
    {
        let zrip = match self.compression_format() {
            Compression::Zrip => true,
            Compression::Identity => false,
        };
        let lower = ascii_lower_chars(&trim_ws_chars(&chars_of(self.compress_level.as_str())));
        proof {
            reveal_strlit("balanced");
        }
        !zrip && !chars_eq(&lower, &chars_of("balanced"))
    }
}

} // verus!
