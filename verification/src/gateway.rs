//! Request-routing policy in front of the application: the URL prefix, the
//! share-link proxy, and the transfer capabilities advertised to browsers.
use vstd::prelude::*;
use crate::config::LibfwConfig;
use crate::session::share_cookie_prefix;
use crate::text::{
    chars_eq, chars_of, extend_chars, has_char, lemma_split_nonempty, slice_chars, split_chars,
    split_on, starts_with, starts_with_chars, string_of, trim_ws, trim_ws_chars,
};

verus! {

/// The chunk-size ceiling advertised to the adaptive engine.
///
/// With `auto_tune` the client derives every request size from the measured
/// link and clamps it into the advertised range, so the advertised `max` is
/// the ceiling a fast link may reach: the dedicated
/// `auto_tune_max_chunk_size`, never below the fixed `chunk_size`. Without
/// `auto_tune` the fixed `chunk_size` is advertised as min, default and max.
/// Never zero.
pub fn chunk_size_ceiling(cfg: &LibfwConfig) -> (r: u64)
    ensures
        cfg.auto_tune ==> r == max3(cfg.auto_tune_max_chunk_size, cfg.chunk_size, 1),
        !cfg.auto_tune ==> r == max3(cfg.chunk_size, 1, 1),
{
    let c = if cfg.chunk_size > 1 { cfg.chunk_size } else { 1 };
    if cfg.auto_tune {
        if cfg.auto_tune_max_chunk_size > c {
            cfg.auto_tune_max_chunk_size
        } else {
            c
        }
    } else {
        c
    }
}

pub open spec fn max3(a: u64, b: u64, c: u64) -> u64 {
    let ab = if a > b { a } else { b };
    if ab > c {
        ab
    } else {
        c
    }
}

/// The range advertised for one tunable knob.
#[derive(Debug, Clone, Copy, PartialEq, Eq)]
pub struct KnobRange {
    pub default: i64,
    pub min: i64,
    pub max: i64,
}

/// Rewrite a range-based capability knob to the app policy: with autotune
/// the ramp starts at the conservative floor (`min` and `default`) and may
/// grow to the configured ceiling (never below the floor); without it the
/// configured value is advertised as min, default and max alike. The range
/// is never inverted and always holds its default.
pub fn range_knob(configured_max: i64, ramp_floor: i64, auto_tune: bool) -> (r: KnobRange)
    ensures
        auto_tune ==> r.default == ramp_floor && r.min == ramp_floor && r.max == (if configured_max
            > ramp_floor {
            configured_max
        } else {
            ramp_floor
        }),
        !auto_tune ==> r.default == configured_max && r.min == configured_max && r.max
            == configured_max,
        r.min <= r.default <= r.max,
{
    if auto_tune {
        let safe_max = if configured_max > ramp_floor { configured_max } else { ramp_floor };
        KnobRange { default: ramp_floor, min: ramp_floor, max: safe_max }
    } else {
        KnobRange { default: configured_max, min: configured_max, max: configured_max }
    }
}

/// Rewrites libfw's public `/capabilities` advertisement to the app policy,
/// holding the configured ceilings (each at least 1) of the tunable knobs.
#[derive(Clone)]
pub struct CapabilitiesRewrite<S> {
    pub inner: S,
    pub max_concurrency: u32,
    pub max_upload_window: u32,
    pub max_download_window: u32,
    pub max_chunk_size: u64,
    pub max_max_retries: u32,
    pub max_timeout_ms: u64,
    pub max_upload_size: u64,
    pub auto_tune: bool,
}

pub open spec fn at_least_one_u32(v: u32) -> u32 {
    if v > 1 {
        v
    } else {
        1
    }
}

fn max1_u32(v: u32) -> (r: u32)
    ensures
        r == at_least_one_u32(v),
{
    if v > 1 {
        v
    } else {
        1
    }
}

impl<S> CapabilitiesRewrite<S> {
    /// Configured ceilings (floors are applied when rewriting, depending on
    /// whether `auto_tune` is enabled).
    pub fn new(inner: S, cfg: &LibfwConfig) -> (r: Self)
        ensures
            r.inner == inner,
            r.max_concurrency == at_least_one_u32(cfg.concurrency),
            r.max_upload_window == at_least_one_u32(cfg.upload_window),
            r.max_download_window == at_least_one_u32(cfg.download_window),
            cfg.auto_tune ==> r.max_chunk_size == max3(
                cfg.auto_tune_max_chunk_size,
                cfg.chunk_size,
                1,
            ),
            !cfg.auto_tune ==> r.max_chunk_size == max3(cfg.chunk_size, 1, 1),
            r.max_max_retries == cfg.max_retries,
            r.max_timeout_ms == cfg.timeout_ms,
            r.max_upload_size == max3(cfg.max_upload_size, 1, 1),
            r.auto_tune == cfg.auto_tune,
    {
        CapabilitiesRewrite {
            inner,
            max_concurrency: max1_u32(cfg.concurrency),
            max_upload_window: max1_u32(cfg.upload_window),
            max_download_window: max1_u32(cfg.download_window),
            max_chunk_size: chunk_size_ceiling(cfg),
            max_max_retries: cfg.max_retries,
            max_timeout_ms: cfg.timeout_ms,
            max_upload_size: if cfg.max_upload_size > 1 {
                cfg.max_upload_size
            } else {
                1
            },
            auto_tune: cfg.auto_tune,
        }
    }

    /// The values the rewritten advertisement carries.
    pub fn knobs(&self) -> (r: CapabilityKnobs)
        ensures
            r.concurrency == range_knob_spec(self.max_concurrency as i64, 1, self.auto_tune),
            r.upload_window == range_knob_spec(self.max_upload_window as i64, 1, self.auto_tune),
            r.download_window == range_knob_spec(
                self.max_download_window as i64,
                1,
                self.auto_tune,
            ),
            r.chunk_size == range_knob_spec(self.max_chunk_size as i64, 65536i64, self.auto_tune),
            r.max_retries == self.max_max_retries as i64,
            r.timeout_ms == self.max_timeout_ms as i64,
            r.max_upload_size == self.max_upload_size as i64,
    {
        CapabilityKnobs {
            concurrency: range_knob(self.max_concurrency as i64, 1, self.auto_tune),
            upload_window: range_knob(self.max_upload_window as i64, 1, self.auto_tune),
            download_window: range_knob(self.max_download_window as i64, 1, self.auto_tune),
            chunk_size: range_knob(self.max_chunk_size as i64, 64 * 1024, self.auto_tune),
            max_retries: self.max_max_retries as i64,
            timeout_ms: self.max_timeout_ms as i64,
            max_upload_size: self.max_upload_size as i64,
        }
    }
}

/// What [`range_knob`] computes.
pub open spec fn range_knob_spec(configured_max: i64, ramp_floor: i64, auto_tune: bool) -> KnobRange {
    if auto_tune {
        KnobRange {
            default: ramp_floor,
            min: ramp_floor,
            max: if configured_max > ramp_floor {
                configured_max
            } else {
                ramp_floor
            },
        }
    } else {
        KnobRange { default: configured_max, min: configured_max, max: configured_max }
    }
}

/// The rewritten `/capabilities` limits: four range knobs (the chunk-size
/// knob unified, with a 64 KiB floor), two scalar knobs and the upload cap.
#[derive(Debug, Clone, Copy, PartialEq, Eq)]
pub struct CapabilityKnobs {
    pub concurrency: KnobRange,
    pub upload_window: KnobRange,
    pub download_window: KnobRange,
    pub chunk_size: KnobRange,
    pub max_retries: i64,
    pub timeout_ms: i64,
    pub max_upload_size: i64,
}

/// Forwards requests to an inner service with a fresh extension map, so the
/// outer router's captured path parameters never reach the inner router.
#[derive(Clone)]
pub struct FreshPathParams<S> {
    pub inner: S,
}

impl<S> FreshPathParams<S> {
    pub fn new(inner: S) -> (r: Self)
        ensures
            r.inner == inner,
    {
        FreshPathParams { inner }
    }
}

/// Strips the URL prefix from request paths (see [`prefix_route`]).
#[derive(Debug, Clone)]
pub struct PrefixStripLayer {
    pub prefix: String,
    pub prefix_with_slash: String,
}

impl PrefixStripLayer {
    pub fn new(prefix: &str) -> (r: Self)
        ensures
            r.prefix@ == prefix@,
            r.prefix_with_slash@ == prefix@.push('/'),
    {
        let mut v = chars_of(prefix);
        v.push('/');
        PrefixStripLayer { prefix: string_of(&chars_of(prefix)), prefix_with_slash: string_of(&v) }
    }
}

/// What happens to a request under a configured URL prefix.
#[derive(Debug, Clone, PartialEq, Eq)]
pub enum PrefixRoute {
    /// No prefix configured: the request passes through unchanged.
    PassThrough,
    /// The bare prefix: permanent redirect to the trailing-slash form.
    Redirect(String),
    /// Inside the prefix: forward with this path and query.
    Forward(String),
    /// Outside the prefix: 404, leaving the rest of the domain untouched.
    NotFound,
}

/// `?q` for a present query, nothing otherwise.
pub open spec fn query_suffix(query: Option<Seq<char>>) -> Seq<char> {
    match query {
        Some(q) => seq!['?'] + q,
        None => Seq::empty(),
    }
}

/// How the prefix middleware routes `path` (with optional query).
pub open spec fn prefix_route_spec(
    prefix: Seq<char>,
    path: Seq<char>,
    query: Option<Seq<char>>,
) -> (bool, bool, bool, Seq<char>) {
    // (pass through, redirect, forward, target)
    if prefix.len() == 0 {
        (true, false, false, Seq::empty())
    } else if path == prefix {
        (false, true, false, prefix.push('/') + query_suffix(query))
    } else if starts_with(path, prefix.push('/')) {
        let stripped = seq!['/'] + path.skip(prefix.len() + 1int);
        (
            false,
            false,
            true,
            match query {
                Some(q) => if q.len() > 0 {
                    stripped.push('?') + q
                } else {
                    stripped
                },
                None => stripped,
            },
        )
    } else {
        (false, false, false, Seq::empty())
    }
}

/// Route a request through the URL-prefix layer: strip the prefix,
/// redirect the bare prefix to its trailing-slash form (relative asset URLs
/// resolve under it), and refuse paths outside the prefix.
pub fn prefix_route(prefix: &str, path: &str, query: Option<&str>) -> (r: PrefixRoute)
    ensures
        ({
            let (pass, redirect, forward, target) = prefix_route_spec(
                prefix@,
                path@,
                match query {
                    Some(q) => Some(q@),
                    None => None,
                },
            );
            match r {
                PrefixRoute::PassThrough => pass,
                PrefixRoute::Redirect(l) => redirect && l@ == target,
                PrefixRoute::Forward(p) => forward && p@ == target,
                PrefixRoute::NotFound => !pass && !redirect && !forward,
            }
        }),
{
    let pre = chars_of(prefix);
    if pre.len() == 0 {
        return PrefixRoute::PassThrough;
    }
    let p = chars_of(path);
    let mut with_slash = slice_chars(&pre, 0, pre.len());
    with_slash.push('/');
    assert(with_slash@ =~= prefix@.push('/'));
    if chars_eq(&p, &pre) {
        let mut loc = with_slash;
        match query {
            Some(q) => {
                loc.push('?');
                extend_chars(&mut loc, &chars_of(q));
                assert(loc@ =~= prefix@.push('/') + (seq!['?'] + q@));
            },
            None => {
                assert(loc@ =~= prefix@.push('/') + Seq::<char>::empty());
            },
        }
        return PrefixRoute::Redirect(string_of(&loc));
    }
    if !starts_with_chars(&p, &with_slash) {
        return PrefixRoute::NotFound;
    }
    let rest = slice_chars(&p, with_slash.len(), p.len());
    let mut stripped: Vec<char> = vec!['/'];
    extend_chars(&mut stripped, &rest);
    assert(stripped@ =~= seq!['/'] + path@.skip(prefix@.len() + 1int));
    match query {
        Some(q) => {
            let qc = chars_of(q);
            if qc.len() > 0 {
                stripped.push('?');
                extend_chars(&mut stripped, &qc);
            }
        },
        None => {},
    }
    PrefixRoute::Forward(string_of(&stripped))
}

/// `s.splitn(n, '/')`: at most `n` pieces, the last one holding the rest.
pub open spec fn splitn_slash(s: Seq<char>, n: nat) -> Seq<Seq<char>>
    decreases n,
{
    if n <= 1 || !has_char(s, '/') {
        seq![s]
    } else {
        let i = crate::text::first_index_of(s, '/');
        seq![s.take(i)] + splitn_slash(s.skip(i + 1), (n - 1) as nat)
    }
}

/// Piece `k` of a split, or `""` when there are fewer pieces.
pub open spec fn piece_or_empty(pieces: Seq<Seq<char>>, k: int) -> Seq<char> {
    if 0 <= k < pieces.len() {
        pieces[k]
    } else {
        Seq::empty()
    }
}

/// The routes a read-only share visitor may reach: the read-only file
/// APIs, libfw transfers and the app shell's assets.
pub open spec fn share_route_allowed(rest: Seq<char>) -> bool {
    let first = split_on(rest, '/')[0];
    if first == "api"@ {
        let api = if starts_with(rest, "api/"@) { rest.skip(4) } else { Seq::empty() };
        api == "me"@ || api == "files/list"@ || api == "files/token"@ || api == "files/names"@
            || api == "files/raw"@ || api == "files/content"@ || api == "files/size"@
    } else {
        first == "file"@ || first == "dir"@ || first == "capabilities"@ || first == "config.js"@
            || first == "js"@ || first == "css"@ || first == "vendor"@
    }
}

/// Why the share proxy refuses a request (both answered with 404).
#[derive(Debug, Clone, Copy, PartialEq, Eq)]
pub enum ProxyRefusal {
    /// Not of the form `/s/<token>/…`.
    NotAShareUrl,
    /// A route share visitors may not reach.
    NotAvailable,
}

/// A share-link request to forward onto the normal routes.
#[derive(Debug, Clone, PartialEq, Eq)]
pub struct ProxyTarget {
    pub token: String,
    /// The rewritten path and query (`/s/<token>/<rest>` → `/<rest>`).
    pub path_and_query: String,
}

/// The forwarded path and query for `rest` and the original query.
pub open spec fn proxied_path(rest: Seq<char>, query: Option<Seq<char>>) -> Seq<char> {
    match query {
        Some(q) => if rest.len() > 0 {
            seq!['/'] + rest + seq!['?'] + q
        } else {
            seq!['/', '?'] + q
        },
        None => if rest.len() > 0 {
            seq!['/'] + rest
        } else {
            seq!['/']
        },
    }
}

fn is_literal(v: &Vec<char>, lit: &str) -> (r: bool)
    ensures
        r == (v@ == lit@),
{
    chars_eq(v, &chars_of(lit))
}

fn route_allowed(rest: &Vec<char>) -> (r: bool)
    ensures
        r == share_route_allowed(rest@),
{
    let pieces = split_chars(rest, '/');
    proof {
        lemma_split_nonempty(rest@, '/');
    }
    let first = &pieces[0];
    if is_literal(first, "api") {
        let prefix = chars_of("api/");
        proof {
            reveal_strlit("api/");
        }
        assert(prefix@.len() == 4);
        let api = if starts_with_chars(rest, &prefix) {
            let a = slice_chars(rest, 4, rest.len());
            assert(a@ =~= rest@.skip(4));
            a
        } else {
            Vec::new()
        };
        is_literal(&api, "me") || is_literal(&api, "files/list") || is_literal(&api, "files/token")
            || is_literal(&api, "files/names") || is_literal(&api, "files/raw") || is_literal(
            &api,
            "files/content",
        ) || is_literal(&api, "files/size")
    } else {
        is_literal(first, "file") || is_literal(first, "dir") || is_literal(first, "capabilities")
            || is_literal(first, "config.js") || is_literal(first, "js") || is_literal(first, "css")
            || is_literal(first, "vendor")
    }
}

fn splitn_slash_exec(s: &Vec<char>, n: usize) -> (r: Vec<Vec<char>>)
    ensures
        r@.map_values(|x: Vec<char>| x@) == splitn_slash(s@, n as nat),
    decreases n,
{
    let mut i: usize = 0;
    while i < s.len() && s[i] != '/'
        invariant
            i <= s.len(),
            forall|j: int| 0 <= j < i ==> s@[j] != '/',
        decreases s.len() - i,
    {
        i = i + 1;
    }
    if n <= 1 || i == s.len() {
        let mut out: Vec<Vec<char>> = Vec::new();
        out.push(slice_chars(s, 0, s.len()));
        assert(s@.subrange(0, s@.len() as int) =~= s@);
        assert(out@.map_values(|x: Vec<char>| x@) =~= seq![s@]);
        return out;
    }
    proof {
        crate::text::lemma_first_index(s@, '/', i as int);
    }
    let head = slice_chars(s, 0, i);
    let tail = slice_chars(s, i + 1, s.len());
    assert(tail@ =~= s@.skip(i + 1));
    assert(head@ =~= s@.take(i as int));
    let rest = splitn_slash_exec(&tail, n - 1);
    let mut out: Vec<Vec<char>> = Vec::new();
    out.push(head);
    let mut k: usize = 0;
    let ghost rv = rest@.map_values(|x: Vec<char>| x@);
    while k < rest.len()
        invariant
            k <= rest@.len(),
            rv == rest@.map_values(|x: Vec<char>| x@),
            out@.map_values(|x: Vec<char>| x@) == seq![s@.take(i as int)] + rv.take(k as int),
        decreases rest.len() - k,
    {
        let c = slice_chars(&rest[k], 0, rest[k].len());
        assert(c@ =~= rv[k as int]);
        let ghost before = out@.map_values(|x: Vec<char>| x@);
        out.push(c);
        assert(out@.map_values(|x: Vec<char>| x@) =~= before.push(rv[k as int]));
        assert(seq![s@.take(i as int)] + rv.take(k as int + 1) =~= (seq![s@.take(i as int)]
            + rv.take(k as int)).push(rv[k as int]));
        k = k + 1;
    }
    assert(rv.take(rest@.len() as int) =~= rv);
    out
}

fn piece_at(pieces: &Vec<Vec<char>>, k: usize) -> (r: Vec<char>)
    ensures
        r@ == piece_or_empty(pieces@.map_values(|x: Vec<char>| x@), k as int),
{
    if k < pieces.len() {
        let c = slice_chars(&pieces[k], 0, pieces[k].len());
        assert(c@ =~= pieces@[k as int]@);
        c
    } else {
        Vec::new()
    }
}

/// The share proxy's verdict on a request path `/s/<token>/<rest>` (the
/// URL prefix already stripped): it must be a share URL with a token, and
/// `rest` must be a route share visitors may reach.
pub open spec fn share_proxy_verdict(path: Seq<char>, query: Option<Seq<char>>) -> Result<
    (Seq<char>, Seq<char>),
    ProxyRefusal,
> {
    let segs = splitn_slash(path, 4);
    let s = piece_or_empty(segs, 1);
    let token = piece_or_empty(segs, 2);
    let rest = piece_or_empty(segs, 3);
    if s != "s"@ || token.len() == 0 {
        Err(ProxyRefusal::NotAShareUrl)
    } else if !share_route_allowed(rest) {
        Err(ProxyRefusal::NotAvailable)
    } else {
        Ok((token, proxied_path(rest, query)))
    }
}

/// The read-only file APIs a share visitor may call.
pub open spec fn read_only_api(route: Seq<char>) -> bool {
    route == "me"@ || route == "files/list"@ || route == "files/token"@ || route
        == "files/names"@ || route == "files/raw"@ || route == "files/content"@ || route
        == "files/size"@
}

/// A share URL `/s/<token>/<rest>` splits into its token and the rest.
proof fn lemma_share_url_segments(token: Seq<char>, rest: Seq<char>)
    requires
        token.len() > 0,
        !has_char(token, '/'),
    ensures
        splitn_slash(seq!['/', 's', '/'] + token + seq!['/'] + rest, 4) == seq![
            Seq::<char>::empty(),
            seq!['s'],
            token,
            rest,
        ],
{
    let path = seq!['/', 's', '/'] + token + seq!['/'] + rest;
    crate::text::lemma_first_index(path, '/', 0);
    let t1 = path.skip(1);
    assert(t1 =~= seq!['s', '/'] + token + seq!['/'] + rest);
    crate::text::lemma_first_index(t1, '/', 1);
    let t2 = t1.skip(2);
    assert(t2 =~= token + seq!['/'] + rest);
    assert forall|j: int| 0 <= j < token.len() implies t2[j] != '/' by {
        assert(t2[j] == token[j]);
    }
    crate::text::lemma_first_index(t2, '/', token.len() as int);
    assert(t2.take(token.len() as int) =~= token);
    assert(t2.skip(token.len() + 1int) =~= rest);
    assert(t1.take(1) =~= seq!['s']);
    assert(path.take(0) =~= Seq::<char>::empty());
    assert(has_char(path, '/'));
    assert(t1[1] == '/');
    assert(has_char(t1, '/'));
    assert(t2[token.len() as int] == '/');
    assert(has_char(t2, '/'));
    assert(splitn_slash(rest, 1) == seq![rest]);
    assert(splitn_slash(t2, 2) =~= seq![token, rest]);
    assert(splitn_slash(t1, 3) =~= seq![seq!['s'], token, rest]);
}

/// The first `/`-piece of `first + "/" + more` (or of `first` alone) is
/// `first` when it holds no `/`.
proof fn lemma_first_piece(first: Seq<char>, more: Option<Seq<char>>)
    requires
        !has_char(first, '/'),
    ensures
        split_on(
            match more {
                Some(m) => crate::text::concat3(first, '/', m),
                None => first,
            },
            '/',
        )[0] == first,
{
    crate::text::lemma_split_plain(first, '/');
    match more {
        Some(m) => {
            crate::text::lemma_split_concat(first, m, '/');
            crate::text::lemma_split_nonempty(m, '/');
        },
        None => {},
    }
}

/// Every read-only file API is reachable through a share link: for any
/// non-empty token without a `/`, `/s/<token>/api/<route>` is forwarded for
/// that token to `/api/<route>`, with the query kept.
pub proof fn law_share_reaches_read_only_apis(
    token: Seq<char>,
    route: Seq<char>,
    query: Option<Seq<char>>,
)
    requires
        token.len() > 0,
        !has_char(token, '/'),
        read_only_api(route),
    ensures
        share_proxy_verdict(seq!['/', 's', '/'] + token + seq!['/'] + "api/"@ + route, query)
            == Ok::<(Seq<char>, Seq<char>), ProxyRefusal>(
            (
                token,
                match query {
                    Some(q) => "/api/"@ + route + seq!['?'] + q,
                    None => "/api/"@ + route,
                },
            ),
        ),
{
    reveal_strlit("api/");
    reveal_strlit("/api/");
    reveal_strlit("api");
    reveal_strlit("s");
    let rest = "api/"@ + route;
    let path = seq!['/', 's', '/'] + token + seq!['/'] + rest;
    assert(path =~= seq!['/', 's', '/'] + token + seq!['/'] + "api/"@ + route);
    lemma_share_url_segments(token, rest);
    let api_name = "api"@;
    assert(rest =~= crate::text::concat3(api_name, '/', route));
    lemma_first_piece(api_name, Some(route));
    assert(rest.take(4) =~= "api/"@);
    assert(rest.skip(4) =~= route);
    assert(share_route_allowed(rest));
    let segs = splitn_slash(path, 4);
    assert(piece_or_empty(segs, 1) == "s"@);
    assert(piece_or_empty(segs, 2) == token);
    assert(piece_or_empty(segs, 3) == rest);
    match query {
        Some(q) => {
            assert(seq!['/'] + rest + seq!['?'] + q =~= "/api/"@ + route + seq!['?'] + q);
        },
        None => {
            assert(seq!['/'] + rest =~= "/api/"@ + route);
        },
    }
}

/// Any other API under a share link is refused as not available: uploads,
/// deletes, share management, admin and login routes never reach the app.
pub proof fn law_share_refuses_other_apis(
    token: Seq<char>,
    route: Seq<char>,
    query: Option<Seq<char>>,
)
    requires
        token.len() > 0,
        !has_char(token, '/'),
        !read_only_api(route),
    ensures
        share_proxy_verdict(seq!['/', 's', '/'] + token + seq!['/'] + "api/"@ + route, query)
            == Err::<(Seq<char>, Seq<char>), ProxyRefusal>(ProxyRefusal::NotAvailable),
{
    reveal_strlit("api/");
    reveal_strlit("api");
    reveal_strlit("s");
    let rest = "api/"@ + route;
    let path = seq!['/', 's', '/'] + token + seq!['/'] + rest;
    assert(path =~= seq!['/', 's', '/'] + token + seq!['/'] + "api/"@ + route);
    lemma_share_url_segments(token, rest);
    let api_name = "api"@;
    assert(rest =~= crate::text::concat3(api_name, '/', route));
    lemma_first_piece(api_name, Some(route));
    assert(rest.take(4) =~= "api/"@);
    assert(rest.skip(4) =~= route);
    assert(!share_route_allowed(rest));
    let segs = splitn_slash(path, 4);
    assert(piece_or_empty(segs, 1) == "s"@);
    assert(piece_or_empty(segs, 2) == token);
    assert(piece_or_empty(segs, 3) == rest);
}

/// The app shell's routes a share visitor needs (libfw transfers under
/// `file`/`dir`, `capabilities`, `config.js` and the `js`, `css` and
/// `vendor` assets): a share URL whose rest starts with one of them is
/// forwarded for its token to `/<rest>`.
pub proof fn law_share_reaches_shell_routes(
    token: Seq<char>,
    first: Seq<char>,
    more: Option<Seq<char>>,
)
    requires
        token.len() > 0,
        !has_char(token, '/'),
        first == "file"@ || first == "dir"@ || first == "capabilities"@ || first == "config.js"@
            || first == "js"@ || first == "css"@ || first == "vendor"@,
    ensures
        ({
            let rest = match more {
                Some(m) => first + seq!['/'] + m,
                None => first,
            };
            share_proxy_verdict(seq!['/', 's', '/'] + token + seq!['/'] + rest, None)
                == Ok::<(Seq<char>, Seq<char>), ProxyRefusal>((token, seq!['/'] + rest))
        }),
{
    reveal_strlit("api");
    reveal_strlit("s");
    reveal_strlit("file");
    reveal_strlit("dir");
    reveal_strlit("capabilities");
    reveal_strlit("config.js");
    reveal_strlit("js");
    reveal_strlit("css");
    reveal_strlit("vendor");
    let rest = match more {
        Some(m) => first + seq!['/'] + m,
        None => first,
    };
    lemma_share_url_segments(token, rest);
    assert forall|j: int| 0 <= j < first.len() implies first[j] != '/' by {}
    match more {
        Some(m) => {
            assert(rest =~= crate::text::concat3(first, '/', m));
        },
        None => {},
    }
    lemma_first_piece(first, more);
    assert(first[0] != 'a');
    assert(first != "api"@) by {
        if first == "api"@ {
            assert("api"@[0] == 'a');
        }
    }
    assert(share_route_allowed(rest));
    assert(rest.len() > 0);
    let segs = splitn_slash(seq!['/', 's', '/'] + token + seq!['/'] + rest, 4);
    assert(piece_or_empty(segs, 1) == "s"@);
    assert(piece_or_empty(segs, 2) == token);
    assert(piece_or_empty(segs, 3) == rest);
}

/// Decide whether a share-link request is forwarded, and where: a share
/// visitor is a read-only identity, so only the read-only file APIs, libfw
/// transfers and the app shell assets are reachable.
pub fn share_proxy_target(path: &str, query: Option<&str>) -> (r: Result<ProxyTarget, ProxyRefusal>)
    ensures
        ({
            let verdict = share_proxy_verdict(
                path@,
                match query {
                    Some(q) => Some(q@),
                    None => None,
                },
            );
            match r {
                Ok(t) => verdict == Ok::<(Seq<char>, Seq<char>), ProxyRefusal>(
                    (t.token@, t.path_and_query@),
                ),
                Err(e) => verdict == Err::<(Seq<char>, Seq<char>), ProxyRefusal>(e),
            }
        }),
{
    let segs = splitn_slash_exec(&chars_of(path), 4);
    let s = piece_at(&segs, 1);
    let token = piece_at(&segs, 2);
    let rest = piece_at(&segs, 3);
    if !is_literal(&s, "s") || token.len() == 0 {
        return Err(ProxyRefusal::NotAShareUrl);
    }
    if !route_allowed(&rest) {
        return Err(ProxyRefusal::NotAvailable);
    }
    let mut pq: Vec<char> = vec!['/'];
    extend_chars(&mut pq, &rest);
    match query {
        Some(q) => {
            if rest.len() > 0 {
                pq.push('?');
            } else {
                assert(pq@ =~= seq!['/']);
                pq.push('?');
            }
            extend_chars(&mut pq, &chars_of(q));
            proof {
                if rest@.len() > 0 {
                    assert(pq@ =~= seq!['/'] + rest@ + seq!['?'] + q@);
                } else {
                    assert(pq@ =~= seq!['/', '?'] + q@);
                }
            }
        },
        None => {
            assert(pq@ =~= seq!['/'] + rest@);
            proof {
                if rest@.len() == 0 {
                    assert(pq@ =~= seq!['/']);
                }
            }
        },
    }
    Ok(ProxyTarget { token: string_of(&token), path_and_query: string_of(&pq) })
}

/// The cookie pairs of a `Cookie` header that do not belong to the session
/// cookie `name`: each `;`-separated pair trimmed, empty ones dropped.
pub open spec fn kept_cookie_pairs(pairs: Seq<Seq<char>>, name: Seq<char>) -> Seq<Seq<char>>
    decreases pairs.len(),
{
    if pairs.len() == 0 {
        Seq::empty()
    } else {
        let prev = kept_cookie_pairs(pairs.drop_last(), name);
        let p = trim_ws(pairs.last());
        if p.len() == 0 || trim_ws(split_on(p, '=')[0]) == name {
            prev
        } else {
            prev.push(p)
        }
    }
}

/// The pieces joined with `; `.
pub open spec fn join_semicolon(pieces: Seq<Seq<char>>) -> Seq<char>
    decreases pieces.len(),
{
    if pieces.len() == 0 {
        Seq::empty()
    } else if pieces.len() == 1 {
        pieces[0]
    } else {
        join_semicolon(pieces.drop_last()) + "; "@ + pieces.last()
    }
}

/// The `Cookie` header a share visitor's request carries downstream: every
/// cookie but the incoming session (the share URL is a distinct context),
/// then the share identity's session `fh_session=share:<token>`.
pub open spec fn share_cookie_header_spec(existing: Option<Seq<char>>, token: Seq<char>) -> Seq<
    char,
> {
    let kept = match existing {
        Some(h) => kept_cookie_pairs(split_on(h, ';'), "fh_session"@),
        None => Seq::empty(),
    };
    join_semicolon(kept.push("fh_session="@ + share_cookie_prefix() + token))
}

/// Swap the session cookie of a share visitor's request for the share
/// identity's virtual session.
pub fn share_cookie_header(existing: Option<&str>, token: &str) -> (r: String)
    ensures
        r@ == share_cookie_header_spec(
            match existing {
                Some(h) => Some(h@),
                None => None,
            },
            token@,
        ),
{
    let name = chars_of("fh_session");
    let mut kept: Vec<Vec<char>> = Vec::new();
    let ghost mut all: Seq<Seq<char>> = Seq::empty();
    match existing {
        Some(h) => {
            let pairs = split_chars(&chars_of(h), ';');
            proof {
                all = split_on(h@, ';');
            }
            let mut i: usize = 0;
            while i < pairs.len()
                invariant
                    i <= pairs@.len(),
                    pairs@.len() == all.len(),
                    name@ == "fh_session"@,
                    forall|k: int| 0 <= k < pairs@.len() ==> #[trigger] pairs@[k]@ == all[k],
                    kept@.map_values(|x: Vec<char>| x@) == kept_cookie_pairs(
                        all.take(i as int),
                        "fh_session"@,
                    ),
                decreases pairs.len() - i,
            {
                assert(all.take(i as int + 1).drop_last() =~= all.take(i as int));
                assert(all.take(i as int + 1).last() == all[i as int]);
                let p = trim_ws_chars(&pairs[i]);
                if p.len() > 0 {
                    let parts = split_chars(&p, '=');
                    proof {
                        lemma_split_nonempty(p@, '=');
                    }
                    let n = trim_ws_chars(&parts[0]);
                    if !chars_eq(&n, &name) {
                        let ghost before = kept@.map_values(|x: Vec<char>| x@);
                        kept.push(p);
                        assert(kept@.map_values(|x: Vec<char>| x@) =~= before.push(
                            trim_ws(all[i as int]),
                        ));
                    }
                }
                i = i + 1;
            }
            assert(all.take(pairs@.len() as int) =~= all);
        },
        None => {},
    }
    let mut session = chars_of("fh_session=");
    extend_chars(&mut session, &chars_of("share:"));
    extend_chars(&mut session, &chars_of(token));
    let ghost kv = kept@.map_values(|x: Vec<char>| x@);
    let ghost full = kv.push(session@);
    let mut out: Vec<char> = Vec::new();
    let mut j: usize = 0;
    while j < kept.len()
        invariant
            j <= kept@.len(),
            kv == kept@.map_values(|x: Vec<char>| x@),
            out@ == join_semicolon(kv.take(j as int)),
        decreases kept.len() - j,
    {
        assert(kv.take(j as int + 1).drop_last() =~= kv.take(j as int));
        if j > 0 {
            extend_chars(&mut out, &chars_of("; "));
        }
        extend_chars(&mut out, &kept[j]);
        proof {
            if j == 0 {
                assert(out@ =~= kv.take(1)[0]);
            }
        }
        j = j + 1;
    }
    assert(kv.take(kept@.len() as int) =~= kv);
    assert(full.drop_last() =~= kv);
    if kept.len() > 0 {
        extend_chars(&mut out, &chars_of("; "));
    }
    extend_chars(&mut out, &session);
    proof {
        if kv.len() == 0 {
            assert(out@ =~= full[0]);
        }
    }
    string_of(&out)
}

/// Whether a listed real path is one of libfw's own upload-session temps
/// (`.libfw-*`), which listings never show.
pub fn is_libfw_temp(real_path: &str) -> (r: bool)
    ensures
        r == starts_with(crate::text::leaf_of(real_path@), ".libfw-"@),
{
    let pieces = split_chars(&chars_of(real_path), '/');
    proof {
        lemma_split_nonempty(real_path@, '/');
    }
    starts_with_chars(&pieces[pieces.len() - 1], &chars_of(".libfw-"))
}

} // verus!
