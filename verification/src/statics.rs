//! Serving the frontend: the table of embedded assets, their strong
//! content ETags, the bundle version that busts caches, the version
//! rewrite of the page's asset URLs, and the conditional-GET and caching
//! decision.
use vstd::prelude::*;
use vstd::utf8::{decode_utf8, encode_utf8, valid_utf8};
use sha2::Digest;
use crate::files::utf8_text;
use crate::text::{chars_eq, chars_of, digit_char, extend_chars, slice_chars, string_from_str, string_of};

verus! {

/// SHA-256 of a byte string.
pub uninterp spec fn sha256_of(bytes: Seq<u8>) -> Seq<u8>;

/// `sha2::Sha256::digest`: the 32-byte SHA-256 digest of the bytes.
#[verifier::external_body]
fn sha256_digest(bytes: &[u8]) -> (r: Vec<u8>)
    ensures
        r@ == sha256_of(bytes@),
        r@.len() == 32,
{
    sha2::Sha256::digest(bytes).to_vec()
}

/// Lowercase hexadecimal digit for `n < 16`.
pub open spec fn hex_lower(n: nat) -> char {
    if n < 10 {
        digit_char(n)
    } else if n == 10 {
        'a'
    } else if n == 11 {
        'b'
    } else if n == 12 {
        'c'
    } else if n == 13 {
        'd'
    } else if n == 14 {
        'e'
    } else {
        'f'
    }
}

/// Bytes as lowercase hex, two digits per byte (`{:x}` of a digest).
pub open spec fn lower_hex(bytes: Seq<u8>) -> Seq<char>
    decreases bytes.len(),
{
    if bytes.len() == 0 {
        Seq::empty()
    } else {
        let b = bytes.last();
        lower_hex(bytes.drop_last()) + seq![hex_lower((b / 16) as nat), hex_lower((b % 16) as nat)]
    }
}

fn hex_digit(n: u8) -> (c: char)
    requires
        n < 16,
    ensures
        c == hex_lower(n as nat),
{
    if n == 0 { '0' }
    else if n == 1 { '1' }
    else if n == 2 { '2' }
    else if n == 3 { '3' }
    else if n == 4 { '4' }
    else if n == 5 { '5' }
    else if n == 6 { '6' }
    else if n == 7 { '7' }
    else if n == 8 { '8' }
    else if n == 9 { '9' }
    else if n == 10 { 'a' }
    else if n == 11 { 'b' }
    else if n == 12 { 'c' }
    else if n == 13 { 'd' }
    else if n == 14 { 'e' }
    else { 'f' }
}

/// The bytes written as lowercase hex.
pub fn lower_hex_chars(bytes: &[u8]) -> (r: Vec<char>)
    ensures
        r@ == lower_hex(bytes@),
{
    let mut out: Vec<char> = Vec::new();
    let mut i: usize = 0;
    while i < bytes.len()
        invariant
            i <= bytes.len(),
            out@ == lower_hex(bytes@.take(i as int)),
        decreases bytes.len() - i,
    {
        let b = bytes[i];
        assert(bytes@.take(i + 1).drop_last() =~= bytes@.take(i as int));
        assert(bytes@.take(i + 1).last() == b);
        out.push(hex_digit(b / 16));
        out.push(hex_digit(b % 16));
        i = i + 1;
    }
    assert(bytes@.take(bytes.len() as int) =~= bytes@);
    out
}

/// The parts of a bundle one after another.
pub open spec fn joined_bytes(parts: Seq<Seq<u8>>) -> Seq<u8>
    decreases parts.len(),
{
    if parts.len() == 0 {
        Seq::empty()
    } else {
        joined_bytes(parts.drop_last()) + parts.last()
    }
}

/// The files of the embedded frontend bundle.
#[derive(Debug, Clone, Copy, PartialEq, Eq, Hash, Structural)]
pub enum EmbeddedFile {
    IndexHtml,
    MainCss,
    ApiJs,
    IconsJs,
    AuthJs,
    LibfwJs,
    FileExplorerJs,
    AdminJs,
    AppJs,
    LibfwClientJs,
    LibfwClientWasm,
}

/// The bundle's files in the order the bundle version hashes them.
pub open spec fn bundle_order() -> Seq<EmbeddedFile> {
    seq![
        EmbeddedFile::IndexHtml,
        EmbeddedFile::MainCss,
        EmbeddedFile::ApiJs,
        EmbeddedFile::IconsJs,
        EmbeddedFile::AuthJs,
        EmbeddedFile::LibfwJs,
        EmbeddedFile::FileExplorerJs,
        EmbeddedFile::AdminJs,
        EmbeddedFile::AppJs,
        EmbeddedFile::LibfwClientJs,
        EmbeddedFile::LibfwClientWasm,
    ]
}

/// The bundle's files, in hashing order.
pub fn bundle_files() -> (r: Vec<EmbeddedFile>)
    ensures
        r@ == bundle_order(),
{
    let r = vec![
        EmbeddedFile::IndexHtml,
        EmbeddedFile::MainCss,
        EmbeddedFile::ApiJs,
        EmbeddedFile::IconsJs,
        EmbeddedFile::AuthJs,
        EmbeddedFile::LibfwJs,
        EmbeddedFile::FileExplorerJs,
        EmbeddedFile::AdminJs,
        EmbeddedFile::AppJs,
        EmbeddedFile::LibfwClientJs,
        EmbeddedFile::LibfwClientWasm,
    ];
    assert(r@ =~= bundle_order());
    r
}

/// The version of an embedded bundle: the lowercase hex SHA-256 of all its
/// files one after another.
pub open spec fn bundle_version_of(parts: Seq<Seq<u8>>) -> Seq<char> {
    lower_hex(sha256_of(joined_bytes(parts)))
}

/// Content version of the served frontend bundle, used as the `?v=` of
/// every asset URL. An embedded bundle (its files in [`bundle_files`]
/// order) is versioned by its content hash, so a new build busts every
/// cache; the loose frontend directory, revalidated on every load, carries
/// no version.
pub fn static_version(bundle: Option<&Vec<Vec<u8>>>) -> (r: String)
    requires
        bundle matches Some(b) ==> joined_bytes(b@.map_values(|v: Vec<u8>| v@)).len()
            <= usize::MAX,
    ensures
        r@ == match bundle {
            Some(b) => bundle_version_of(b@.map_values(|v: Vec<u8>| v@)),
            None => Seq::<char>::empty(),
        },
{
    match bundle {
        None => {
            proof {
                reveal_strlit("");
            }
            string_from_str("")
        },
        Some(b) => {
            let ghost parts = b@.map_values(|v: Vec<u8>| v@);
            let mut all: Vec<u8> = Vec::new();
            let mut i: usize = 0;
            while i < b.len()
                invariant
                    i <= b.len(),
                    parts == b@.map_values(|v: Vec<u8>| v@),
                    joined_bytes(parts).len() <= usize::MAX,
                    all@ == joined_bytes(parts.take(i as int)),
                decreases b.len() - i,
            {
                assert(parts.take(i + 1).drop_last() =~= parts.take(i as int));
                proof {
                    lemma_joined_prefix_len(parts, i + 1);
                }
                let part = &b[i];
                let mut j: usize = 0;
                let ghost before = all@;
                while j < part.len()
                    invariant
                        j <= part.len(),
                        all@ == before + part@.take(j as int),
                        before.len() + part@.len() <= usize::MAX,
                    decreases part.len() - j,
                {
                    all.push(part[j]);
                    assert(before + part@.take(j + 1) =~= (before + part@.take(j as int)).push(
                        part@[j as int],
                    ));
                    j = j + 1;
                }
                assert(part@.take(part.len() as int) =~= part@);
                i = i + 1;
            }
            assert(parts.take(b.len() as int) =~= parts);
            let digest = sha256_digest(all.as_slice());
            string_of(&lower_hex_chars(digest.as_slice()))
        },
    }
}

/// The joined length of a prefix never exceeds that of the whole.
proof fn lemma_joined_prefix_len(parts: Seq<Seq<u8>>, n: int)
    requires
        0 <= n <= parts.len(),
    ensures
        joined_bytes(parts.take(n)).len() <= joined_bytes(parts).len(),
    decreases parts.len() - n,
{
    if n < parts.len() {
        lemma_joined_prefix_len(parts, n + 1);
        assert(parts.take(n + 1).drop_last() =~= parts.take(n));
    } else {
        assert(parts.take(n) =~= parts);
    }
}

/// The embedded asset served at a request path: its file, content type and
/// whether it is the page itself.
pub open spec fn embedded_asset(path: Seq<char>) -> Option<(EmbeddedFile, Seq<char>, bool)> {
    let js = "application/javascript; charset=utf-8"@;
    if path == "/"@ || path == "/index.html"@ {
        Some((EmbeddedFile::IndexHtml, "text/html; charset=utf-8"@, true))
    } else if path == "/css/main.css"@ {
        Some((EmbeddedFile::MainCss, "text/css; charset=utf-8"@, false))
    } else if path == "/js/api.js"@ {
        Some((EmbeddedFile::ApiJs, js, false))
    } else if path == "/js/icons.js"@ {
        Some((EmbeddedFile::IconsJs, js, false))
    } else if path == "/js/auth.js"@ {
        Some((EmbeddedFile::AuthJs, js, false))
    } else if path == "/js/libfw.js"@ {
        Some((EmbeddedFile::LibfwJs, js, false))
    } else if path == "/js/file-explorer.js"@ {
        Some((EmbeddedFile::FileExplorerJs, js, false))
    } else if path == "/js/admin.js"@ {
        Some((EmbeddedFile::AdminJs, js, false))
    } else if path == "/js/app.js"@ {
        Some((EmbeddedFile::AppJs, js, false))
    } else if path == "/vendor/libfw-client.js"@ {
        Some((EmbeddedFile::LibfwClientJs, js, false))
    } else if path == "/vendor/libfw_client_bg.wasm"@ {
        Some((EmbeddedFile::LibfwClientWasm, "application/wasm"@, false))
    } else {
        None
    }
}

/// An entry of the embedded asset table.
#[derive(Debug, Clone)]
pub struct AssetEntry {
    pub file: EmbeddedFile,
    pub content_type: String,
    pub html: bool,
}

fn path_is(p: &Vec<char>, lit: &str) -> (r: bool)
    ensures
        r == (p@ == lit@),
{
    chars_eq(p, &chars_of(lit))
}

fn entry(file: EmbeddedFile, content_type: &str, html: bool) -> (r: Option<AssetEntry>)
    ensures
        r matches Some(e) && e.file == file && e.content_type@ == content_type@ && e.html == html,
{
    Some(AssetEntry { file, content_type: string_from_str(content_type), html })
}

/// Look up the embedded asset served at a request path.
pub fn asset_for(path: &str) -> (r: Option<AssetEntry>)
    ensures
        match r {
            Some(e) => embedded_asset(path@) == Some((e.file, e.content_type@, e.html)),
            None => embedded_asset(path@) is None,
        },
{
    let p = chars_of(path);
    let js = "application/javascript; charset=utf-8";
    if path_is(&p, "/") || path_is(&p, "/index.html") {
        entry(EmbeddedFile::IndexHtml, "text/html; charset=utf-8", true)
    } else if path_is(&p, "/css/main.css") {
        entry(EmbeddedFile::MainCss, "text/css; charset=utf-8", false)
    } else if path_is(&p, "/js/api.js") {
        entry(EmbeddedFile::ApiJs, js, false)
    } else if path_is(&p, "/js/icons.js") {
        entry(EmbeddedFile::IconsJs, js, false)
    } else if path_is(&p, "/js/auth.js") {
        entry(EmbeddedFile::AuthJs, js, false)
    } else if path_is(&p, "/js/libfw.js") {
        entry(EmbeddedFile::LibfwJs, js, false)
    } else if path_is(&p, "/js/file-explorer.js") {
        entry(EmbeddedFile::FileExplorerJs, js, false)
    } else if path_is(&p, "/js/admin.js") {
        entry(EmbeddedFile::AdminJs, js, false)
    } else if path_is(&p, "/js/app.js") {
        entry(EmbeddedFile::AppJs, js, false)
    } else if path_is(&p, "/vendor/libfw-client.js") {
        entry(EmbeddedFile::LibfwClientJs, js, false)
    } else if path_is(&p, "/vendor/libfw_client_bg.wasm") {
        entry(EmbeddedFile::LibfwClientWasm, "application/wasm", false)
    } else {
        None
    }
}

/// The strong ETag of a served body: its lowercase hex SHA-256 in quotes.
pub open spec fn etag_of(body: Seq<u8>) -> Seq<char> {
    seq!['"'] + lower_hex(sha256_of(body)) + seq!['"']
}

/// The strong content ETag of a served body.
pub fn asset_etag(body: &[u8]) -> (r: String)
    ensures
        r@ == etag_of(body@),
{
    let digest = sha256_digest(body);
    let mut v: Vec<char> = Vec::new();
    v.push('"');
    extend_chars(&mut v, &lower_hex_chars(digest.as_slice()));
    v.push('"');
    assert(v@ =~= etag_of(body@));
    string_of(&v)
}

/// `s.replace(from, to)`: every non-overlapping occurrence of a non-empty
/// `from`, leftmost first, replaced by `to`.
pub open spec fn replaced(s: Seq<char>, from: Seq<char>, to: Seq<char>) -> Seq<char>
    decreases s.len(),
{
    if from.len() == 0 || s.len() < from.len() {
        s
    } else if s.take(from.len() as int) == from {
        to + replaced(s.skip(from.len() as int), from, to)
    } else {
        seq![s[0]] + replaced(s.drop_first(), from, to)
    }
}

/// `str::replace` for a non-empty pattern.
pub fn replace_all(s: &Vec<char>, from: &Vec<char>, to: &Vec<char>) -> (r: Vec<char>)
    requires
        from@.len() > 0,
    ensures
        r@ == replaced(s@, from@, to@),
{
    let mut out: Vec<char> = Vec::new();
    let mut i: usize = 0;
    assert(s@.skip(0) =~= s@);
    assert(out@ + replaced(s@, from@, to@) =~= replaced(s@, from@, to@));
    while i < s.len()
        invariant
            i <= s.len(),
            from@.len() > 0,
            replaced(s@, from@, to@) == out@ + replaced(s@.skip(i as int), from@, to@),
        decreases s.len() - i,
    {
        let ghost rest = s@.skip(i as int);
        if s.len() - i >= from.len() {
            let window = slice_chars(s, i, i + from.len());
            assert(window@ =~= rest.take(from@.len() as int));
            if chars_eq(&window, from) {
                extend_chars(&mut out, to);
                assert(rest.skip(from@.len() as int) =~= s@.skip(i + from@.len()));
                assert(replaced(s@, from@, to@) == out@ + replaced(
                    s@.skip(i + from@.len()),
                    from@,
                    to@,
                ));
                i = i + from.len();
                continue;
            }
        }
        let ghost before = out@;
        out.push(s[i]);
        assert(rest.drop_first() =~= s@.skip(i + 1));
        assert(rest[0] == s@[i as int]);
        assert(out@ =~= before + seq![s@[i as int]]);
        assert(before + (seq![s@[i as int]] + replaced(s@.skip(i + 1), from@, to@)) =~= out@
            + replaced(s@.skip(i + 1), from@, to@));
        i = i + 1;
    }
    assert(s@.skip(i as int).len() == 0);
    assert(out@ + s@.skip(i as int) =~= out@);
    out
}

/// The asset URLs of the page that carry the bundle version.
pub open spec fn versioned_assets() -> Seq<Seq<char>> {
    seq![
        "js/api.js"@,
        "js/icons.js"@,
        "js/auth.js"@,
        "js/libfw.js"@,
        "js/file-explorer.js"@,
        "js/admin.js"@,
        "js/app.js"@,
        "vendor/libfw-client.js"@,
        "./css/main.css"@,
    ]
}

/// The page with the first `n` asset URLs rewritten to `url?v=<version>`.
pub open spec fn versioned_upto(html: Seq<char>, v: Seq<char>, n: nat) -> Seq<char>
    decreases n,
{
    if n == 0 {
        html
    } else {
        let p = versioned_assets()[n - 1];
        replaced(versioned_upto(html, v, (n - 1) as nat), p, p + "?v="@ + v)
    }
}

/// Append `?v=<version>` to every known asset reference of the served page,
/// so long-lived immutable caches are keyed per build. `config.js` and the
/// login route are left untouched.
pub fn versioned_html(html: &str, version: &str) -> (r: String)
    ensures
        r@ == versioned_upto(html@, version@, 9),
{
    let paths: [&str; 9] = [
        "js/api.js",
        "js/icons.js",
        "js/auth.js",
        "js/libfw.js",
        "js/file-explorer.js",
        "js/admin.js",
        "js/app.js",
        "vendor/libfw-client.js",
        "./css/main.css",
    ];
    proof {
        reveal_strlit("js/api.js");
        reveal_strlit("js/icons.js");
        reveal_strlit("js/auth.js");
        reveal_strlit("js/libfw.js");
        reveal_strlit("js/file-explorer.js");
        reveal_strlit("js/admin.js");
        reveal_strlit("js/app.js");
        reveal_strlit("vendor/libfw-client.js");
        reveal_strlit("./css/main.css");
    }
    assert(paths@.map_values(|p: &str| p@) =~= versioned_assets());
    assert(forall|j: int| 0 <= j < 9 ==> (#[trigger] versioned_assets()[j]).len() > 0);
    let vc = chars_of(version);
    let mut out = chars_of(html);
    let mut k: usize = 0;
    while k < 9
        invariant
            k <= 9,
            paths@.map_values(|p: &str| p@) == versioned_assets(),
            paths@.len() == 9,
            out@ == versioned_upto(html@, version@, k as nat),
            vc@ == version@,
            forall|j: int| 0 <= j < 9 ==> (#[trigger] versioned_assets()[j]).len() > 0,
        decreases 9 - k,
    {
        let p = chars_of(paths[k]);
        assert(p@ == versioned_assets()[k as int]);
        assert(p@.len() > 0);
        let mut with_version = chars_of(paths[k]);
        extend_chars(&mut with_version, &chars_of("?v="));
        extend_chars(&mut with_version, &vc);
        out = replace_all(&out, &p, &with_version);
        k = k + 1;
    }
    string_of(&out)
}

/// The body served for an embedded file: the page with its asset URLs
/// versioned (a page that is not UTF-8 reads as empty), any other file as
/// it is.
pub open spec fn served_body(html: bool, content: Seq<u8>, version: Seq<char>) -> Seq<u8> {
    if html {
        encode_utf8(
            versioned_upto(
                if valid_utf8(content) {
                    decode_utf8(content)
                } else {
                    Seq::empty()
                },
                version,
                9,
            ),
        )
    } else {
        content
    }
}

/// One asset ready to serve: its body, strong ETag, content type and
/// whether it is the page.
pub struct EmbeddedAsset {
    pub body: Vec<u8>,
    pub etag: String,
    pub content_type: String,
    pub html: bool,
}

/// Prepare an embedded file for serving under the bundle version.
pub fn embed_asset(entry: AssetEntry, content: Vec<u8>, version: &str) -> (r: EmbeddedAsset)
    ensures
        r.body@ == served_body(entry.html, content@, version@),
        r.etag@ == etag_of(r.body@),
        r.content_type@ == entry.content_type@,
        r.html == entry.html,
{
    let ghost original = content@;
    let body = if entry.html {
        let text = match utf8_text(content) {
            Some(t) => t,
            None => {
                proof {
                    reveal_strlit("");
                }
                string_from_str("")
            },
        };
        assert(text@ == if valid_utf8(original) {
            decode_utf8(original)
        } else {
            Seq::<char>::empty()
        });
        let page = versioned_html(text.as_str(), version);
        vstd::slice::slice_to_vec(page.as_str().as_bytes())
    } else {
        content
    };
    let etag = asset_etag(body.as_slice());
    EmbeddedAsset { body, etag, content_type: entry.content_type, html: entry.html }
}

/// How an asset request is answered.
pub enum AssetReply {
    /// The client's copy is current (`304 Not Modified`).
    NotModified,
    /// Send the body with this `Cache-Control`.
    Serve { cache_control: String },
}

/// The page is revalidated on every load; every other asset is immutable
/// for a build (its URL carries the bundle version).
pub open spec fn cache_policy(html: bool) -> Seq<char> {
    if html {
        "no-cache, must-revalidate"@
    } else {
        "public, max-age=31536000, immutable"@
    }
}

/// Answer a request for an asset: `304` when `If-None-Match` is exactly its
/// ETag, else the body under the asset's caching policy.
pub fn asset_reply(html: bool, etag: &str, if_none_match: Option<&str>) -> (r: AssetReply)
    ensures
        (if_none_match matches Some(t) && t@ == etag@) ==> r is NotModified,
        !(if_none_match matches Some(t) && t@ == etag@) ==> (r matches AssetReply::Serve {
            cache_control,
        } && cache_control@ == cache_policy(html)),
{
    let fresh = match if_none_match {
        Some(t) => chars_eq(&chars_of(t), &chars_of(etag)),
        None => false,
    };
    if fresh {
        AssetReply::NotModified
    } else if html {
        AssetReply::Serve { cache_control: string_from_str("no-cache, must-revalidate") }
    } else {
        AssetReply::Serve { cache_control: string_from_str("public, max-age=31536000, immutable") }
    }
}

} // verus!
