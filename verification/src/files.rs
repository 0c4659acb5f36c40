//! Decisions behind the file endpoints: which real path a request may
//! touch, how a listing is targeted, byte ranges, MIME policy and names.
use vstd::prelude::*;
use crate::acl::{
    access_allowed, can_access, resolve_virtual, resolved, sanitize_path, sanitized, sees_real,
    shares_of, user_has_root_read, user_shares, Permission,
};
use crate::rows::{AclEntryRow, UserRow};
use crate::status::Refusal;
use vstd::utf8::{decode_utf8, encode_utf8, valid_utf8};
use crate::text::{
    chars_eq, chars_of, decimal, decimal_chars, digit_char, extend_chars, find_char, first_index_of, has_char, join_chars, join_with, leaf_of,
    lemma_split_nonempty, parse_u64_chars, parse_u64_spec, slice_chars, split_chars, split_on,
    starts_with, starts_with_chars, string_from_str, string_of, trim_start_char,
    trim_start_chars, trim_ws, trim_ws_chars,
};

verus! {

/// Whether the user sees the real filesystem tree (admins, and any user with a
/// root ACL), i.e. their display paths ARE the real paths and must not be
/// translated through the virtual share root.
pub fn sees_real_tree(user: &UserRow, user_groups: &[i64], acl_entries: &[AclEntryRow]) -> (r:
    bool)
    ensures
        r == sees_real(*user, user_groups@, acl_entries@),
{
    user.is_admin == 1 || user_has_root_read(user, user_groups, acl_entries)
}

/// The real path a frontend path stands for: itself for users who see the
/// real tree, else its resolution through the user's shares; sanitized.
pub open spec fn resolved_for(
    user: UserRow,
    groups: Seq<i64>,
    entries: Seq<AclEntryRow>,
    path: Seq<char>,
) -> Option<Seq<char>> {
    let p = trim_start_char(path, '/');
    let r = if sees_real(user, groups, entries) {
        Some(p)
    } else {
        resolved(p, shares_of(user, groups, entries))
    };
    match r {
        None => None,
        Some(x) => sanitized(x),
    }
}

/// Resolve a path the frontend sent into the real path under `root_dir`.
///
/// - **Admin / root-ACL holder**: the requested path IS the real path (they see
///   the real tree, so they can configure ACLs accurately, unaffected by the
///   virtual root).
/// - **Non-admin**: the requested path is VIRTUAL; it is mapped through the
///   user's shares. `None` means the path is not a share the user can reach.
pub fn resolve_for_user(
    user: &UserRow,
    user_groups: &[i64],
    acl_entries: &[AclEntryRow],
    path: &str,
) -> (r: Option<String>)
    ensures
        match r {
            None => resolved_for(*user, user_groups@, acl_entries@, path@) is None,
            Some(s) => resolved_for(*user, user_groups@, acl_entries@, path@) == Some(s@),
        },
{
    let p = string_of(&trim_start_chars(&chars_of(path), '/'));
    let real_path = if sees_real_tree(user, user_groups, acl_entries) {
        p
    } else {
        let shares = user_shares(user, user_groups, acl_entries);
        match resolve_virtual(p.as_str(), shares.as_slice()) {
            None => return None,
            Some(r) => r,
        }
    };
    sanitize_path(real_path.as_str())
}

/// What a request for `path` with `required` permission may act on: the
/// resolved real path when the user holds the permission there.
pub open spec fn checked_real(
    user: UserRow,
    groups: Seq<i64>,
    entries: Seq<AclEntryRow>,
    path: Seq<char>,
    required: Permission,
) -> Result<Seq<char>, Refusal> {
    match resolved_for(user, groups, entries, path) {
        None => Err(Refusal::Forbidden),
        Some(real_path) => if access_allowed(user, groups, entries, real_path, required) {
            Ok(real_path)
        } else {
            Err(Refusal::Forbidden)
        },
    }
}

/// Resolve a frontend-supplied path to a real path and check `required`
/// permission on it. Paths outside the user's access are refused with 403.
pub fn resolve_checked(
    user: &UserRow,
    user_groups: &[i64],
    acl_entries: &[AclEntryRow],
    path: &str,
    required: &Permission,
) -> (r: Result<String, Refusal>)
    ensures
        match r {
            Ok(s) => checked_real(*user, user_groups@, acl_entries@, path@, *required) == Ok::<
                Seq<char>,
                Refusal,
            >(s@),
            Err(e) => checked_real(*user, user_groups@, acl_entries@, path@, *required) == Err::<
                Seq<char>,
                Refusal,
            >(e),
        },
{
    match resolve_for_user(user, user_groups, acl_entries, path) {
        None => Err(Refusal::Forbidden),
        Some(real_path) => {
            if can_access(user, user_groups, acl_entries, real_path.as_str(), required) {
                Ok(real_path)
            } else {
                Err(Refusal::Forbidden)
            }
        },
    }
}

/// Leaf name of a real (sanitized) relative path.
pub fn leaf_name(leaf_path: &str) -> (r: String)
    ensures
        r@ == leaf_of(leaf_path@),
{
    let pieces = split_chars(&chars_of(leaf_path), '/');
    proof {
        lemma_split_nonempty(leaf_path@, '/');
    }
    string_of(&pieces[pieces.len() - 1])
}

/// The declared MIME types outside `text/` that are previewed as text.
pub open spec fn text_like_mime(m: Seq<char>) -> bool {
    ||| m == "application/json"@
    ||| m == "application/xml"@
    ||| m == "application/xhtml+xml"@
    ||| m == "application/javascript"@
    ||| m == "application/x-javascript"@
    ||| m == "application/yaml"@
    ||| m == "application/x-yaml"@
    ||| m == "application/toml"@
    ||| m == "application/x-sh"@
    ||| m == "application/sql"@
    ||| m == "application/x-httpd-php"@
    ||| m == "application/x-perl"@
    ||| m == "application/x-python"@
    ||| m == "image/svg+xml"@
}

fn is_literal(v: &Vec<char>, lit: &str) -> (r: bool)
    ensures
        r == (v@ == lit@),
{
    chars_eq(v, &chars_of(lit))
}

fn has_prefix_literal(v: &Vec<char>, lit: &str) -> (r: bool)
    ensures
        r == starts_with(v@, lit@),
{
    starts_with_chars(v, &chars_of(lit))
}

/// Whether a MIME type denotes a plain-text family we preview/edit inline.
/// Extension-less text (Makefile, Dockerfile, …) is still caught by the
/// UTF-8/no-NUL sniff of the content.
pub fn is_text_mime(mime: &str) -> (r: bool)
    ensures
        r == (starts_with(mime@, "text/"@) || text_like_mime(mime@)),
{
    let m = chars_of(mime);
    has_prefix_literal(&m, "text/") || is_literal(&m, "application/json") || is_literal(
        &m,
        "application/xml",
    ) || is_literal(&m, "application/xhtml+xml") || is_literal(&m, "application/javascript")
        || is_literal(&m, "application/x-javascript") || is_literal(&m, "application/yaml")
        || is_literal(&m, "application/x-yaml") || is_literal(&m, "application/toml")
        || is_literal(&m, "application/x-sh") || is_literal(&m, "application/sql") || is_literal(
        &m,
        "application/x-httpd-php",
    ) || is_literal(&m, "application/x-perl") || is_literal(&m, "application/x-python")
        || is_literal(&m, "image/svg+xml")
}

/// The media type of a `Content-Type` value: before any `;`, trimmed.
pub open spec fn essence(mime: Seq<char>) -> Seq<char> {
    trim_ws(split_on(mime, ';')[0])
}

/// Browser-safe inline media: images other than SVG, video and audio.
pub open spec fn safe_inline(mime: Seq<char>) -> bool {
    let m = essence(mime);
    (starts_with(m, "image/"@) && m != "image/svg+xml"@) || starts_with(m, "video/"@)
        || starts_with(m, "audio/"@)
}

/// Whether a response body may be served inline (`<img>`/`<video>`/`<audio>`
/// or a browser-visible page). Deliberately limited to browser-safe media:
/// images (never SVG — it can carry scripts, which would be a stored-XSS
/// hole when served same-origin), video and audio. HTML/PDF/etc. are
/// download-only.
pub fn is_safe_inline_mime(mime: &str) -> (r: bool)
    ensures
        r == safe_inline(mime@),
{
    let pieces = split_chars(&chars_of(mime), ';');
    proof {
        lemma_split_nonempty(mime@, ';');
    }
    let m = trim_ws_chars(&pieces[0]);
    (has_prefix_literal(&m, "image/") && !is_literal(&m, "image/svg+xml")) || has_prefix_literal(
        &m,
        "video/",
    ) || has_prefix_literal(&m, "audio/")
}

/// The default transfer operation of a token request.
pub fn default_op() -> (r: String)
    ensures
        r@ == "read"@,
{
    string_from_str("read")
}

/// A name acceptable for a new or renamed entry: non-empty, no `/`, `\` or
/// NUL, and not `.`/`..`.
pub open spec fn valid_entry_name(name: Seq<char>) -> bool {
    name.len() > 0 && !has_char(name, '/') && !has_char(name, '\\') && !has_char(name, '\0')
        && name != "."@ && name != ".."@
}

/// Sanity check on a new file/folder name: no path separators, no `.`/`..`
/// (which would be a traversal escape), no backslashes (Windows separator)
/// or NUL bytes. A name like `a..b` is perfectly valid; only an exact
/// `.`/`..` is rejected.
pub fn is_valid_entry_name(name: &str) -> (r: bool)
    ensures
        r == valid_entry_name(name@),
{
    let v = chars_of(name);
    v.len() > 0 && find_char(&v, '/').is_none() && find_char(&v, '\\').is_none() && find_char(
        &v,
        '\0',
    ).is_none() && !is_literal(&v, ".") && !is_literal(&v, "..")
}

/// `dir/name`, or just `name` at the root.
pub open spec fn child_of(dir: Seq<char>, name: Seq<char>) -> Seq<char> {
    if dir.len() == 0 {
        name
    } else {
        dir.push('/') + name
    }
}

/// The path of `name` inside directory `dir` (the root is `""`).
pub fn join_child(dir: &str, name: &str) -> (r: String)
    ensures
        r@ == child_of(dir@, name@),
{
    let d = chars_of(dir);
    if d.len() == 0 {
        return string_from_str(name);
    }
    let mut v = d;
    v.push('/');
    let n = chars_of(name);
    let mut i: usize = 0;
    while i < n.len()
        invariant
            i <= n.len(),
            v@ == dir@.push('/') + n@.take(i as int),
        decreases n.len() - i,
    {
        v.push(n[i]);
        assert(dir@.push('/') + n@.take(i as int + 1) =~= (dir@.push('/') + n@.take(i as int)).push(
            n@[i as int],
        ));
        i = i + 1;
    }
    assert(n@.take(n.len() as int) =~= n@);
    string_of(&v)
}

/// The parent of a listed directory: none at the root, `""` for a
/// top-level directory, else everything before the last segment.
pub open spec fn parent_of(requested: Seq<char>) -> Option<Seq<char>> {
    if requested.len() == 0 {
        None
    } else {
        Some(join_with(split_on(requested, '/').drop_last(), '/'))
    }
}

/// The parent path shown for a listing of `requested`.
pub fn parent_path(requested: &str) -> (r: Option<String>)
    ensures
        match r {
            None => parent_of(requested@) is None,
            Some(s) => parent_of(requested@) == Some(s@),
        },
{
    let v = chars_of(requested);
    if v.len() == 0 {
        return None;
    }
    let pieces = split_chars(&v, '/');
    proof {
        lemma_split_nonempty(requested@, '/');
    }
    let mut kept: Vec<Vec<char>> = Vec::new();
    let ghost all = split_on(requested@, '/');
    let mut i: usize = 0;
    while i < pieces.len() - 1
        invariant
            pieces@.len() >= 1,
            i + 1 <= pieces@.len(),
            pieces@.len() == all.len(),
            forall|k: int| 0 <= k < pieces@.len() ==> #[trigger] pieces@[k]@ == all[k],
            kept@.map_values(|x: Vec<char>| x@) == all.take(i as int),
        decreases pieces.len() - i,
    {
        let c = slice_chars(&pieces[i], 0, pieces[i].len());
        assert(c@ =~= all[i as int]);
        let ghost before = kept@.map_values(|x: Vec<char>| x@);
        kept.push(c);
        assert(kept@.map_values(|x: Vec<char>| x@) =~= before.push(all[i as int]));
        assert(kept@.map_values(|x: Vec<char>| x@) =~= all.take(i as int + 1));
        i = i + 1;
    }
    assert(all.take(i as int) =~= all.drop_last());
    Some(string_of(&join_chars(&kept, '/')))
}

/// What a directory listing shows.
#[derive(Debug, Clone, PartialEq, Eq)]
pub enum ListTarget {
    /// The virtual share root: one entry per share.
    ShareRoot,
    /// A real directory, and whether the user may write into it.
    Dir { real_path: String, writable: bool },
}

/// The listing a request for `requested` (leading slashes ignored) leads
/// to: users who see the real tree list the sanitized path itself (400 when
/// unsafe); others see the share root at `""` and otherwise the directory
/// a share path resolves to (404 when it resolves nowhere); a real
/// directory needs read permission (403).
pub open spec fn listing_of(
    user: UserRow,
    groups: Seq<i64>,
    entries: Seq<AclEntryRow>,
    requested: Seq<char>,
) -> Result<Option<(Seq<char>, bool)>, Refusal> {
    let req = trim_start_char(requested, '/');
    let real_path: Result<Option<Seq<char>>, Refusal> = if sees_real(user, groups, entries) {
        match sanitized(req) {
            None => Err(Refusal::BadRequest),
            Some(r) => Ok(Some(r)),
        }
    } else if req.len() == 0 {
        Ok(None)
    } else {
        match resolved(req, shares_of(user, groups, entries)) {
            None => Err(Refusal::NotFound),
            Some(r) => Ok(Some(r)),
        }
    };
    match real_path {
        Err(e) => Err(e),
        Ok(None) => Ok(None),
        Ok(Some(r)) => if access_allowed(user, groups, entries, r, Permission::Read) {
            Ok(Some((r, access_allowed(user, groups, entries, r, Permission::Write))))
        } else {
            Err(Refusal::Forbidden)
        },
    }
}

/// Decide what a directory listing request shows (see [`listing_of`]).
pub fn listing_target(
    user: &UserRow,
    user_groups: &[i64],
    acl_entries: &[AclEntryRow],
    requested: &str,
) -> (r: Result<ListTarget, Refusal>)
    ensures
        match r {
            Ok(ListTarget::ShareRoot) => listing_of(
                *user,
                user_groups@,
                acl_entries@,
                requested@,
            ) == Ok::<Option<(Seq<char>, bool)>, Refusal>(None),
            Ok(ListTarget::Dir { real_path, writable }) => listing_of(
                *user,
                user_groups@,
                acl_entries@,
                requested@,
            ) == Ok::<Option<(Seq<char>, bool)>, Refusal>(Some((real_path@, writable))),
            Err(e) => listing_of(*user, user_groups@, acl_entries@, requested@) == Err::<
                Option<(Seq<char>, bool)>,
                Refusal,
            >(e),
        },
{
    let req_chars = trim_start_chars(&chars_of(requested), '/');
    let req = string_of(&req_chars);
    let real_path = if sees_real_tree(user, user_groups, acl_entries) {
        match sanitize_path(req.as_str()) {
            None => return Err(Refusal::BadRequest),
            Some(r) => r,
        }
    } else if req_chars.len() == 0 {
        return Ok(ListTarget::ShareRoot);
    } else {
        let shares = user_shares(user, user_groups, acl_entries);
        match resolve_virtual(req.as_str(), shares.as_slice()) {
            None => return Err(Refusal::NotFound),
            Some(r) => r,
        }
    };
    if !can_access(user, user_groups, acl_entries, real_path.as_str(), &Permission::Read) {
        return Err(Refusal::Forbidden);
    }
    let writable = can_access(user, user_groups, acl_entries, real_path.as_str(), &Permission::Write);
    Ok(ListTarget::Dir { real_path, writable })
}

/// `size.saturating_sub(1)`: the last byte index (0 for an empty body).
pub open spec fn last_index(size: u64) -> u64 {
    if size == 0 {
        0
    } else {
        (size - 1) as u64
    }
}

/// The byte range one `start-end` spec denotes before it is checked
/// against the body: a suffix `-n` (the last `n` bytes, `n > 0`), an open
/// `start-`, or `start-end` with the end clamped to the last byte.
pub open spec fn range_spec(part: Seq<char>, size: u64) -> Result<(u64, u64), ()> {
    if !has_char(part, '-') {
        Err(())
    } else {
        let i = first_index_of(part, '-');
        let start_s = part.take(i);
        let end_s = part.skip(i + 1);
        if start_s.len() == 0 {
            match parse_u64_spec(end_s) {
                None => Err(()),
                Some(suffix) => if suffix == 0 {
                    Err(())
                } else {
                    Ok(
                        (
                            if suffix >= size {
                                0u64
                            } else {
                                (size - suffix) as u64
                            },
                            last_index(size),
                        ),
                    )
                },
            }
        } else {
            match parse_u64_spec(start_s) {
                None => Err(()),
                Some(start) => {
                    let end: Option<u64> = if end_s.len() == 0 {
                        Some(last_index(size))
                    } else {
                        match parse_u64_spec(end_s) {
                            None => None,
                            Some(e) => Some(
                                if e < last_index(size) {
                                    e
                                } else {
                                    last_index(size)
                                },
                            ),
                        }
                    };
                    match end {
                        None => Err(()),
                        Some(e) => if start > e {
                            Err(())
                        } else {
                            Ok((start, e))
                        },
                    }
                },
            }
        }
    }
}

pub open spec fn lit_bytes_unit() -> Seq<char> {
    seq!['b', 'y', 't', 'e', 's', '=']
}

/// The meaning of a `Range` header for a body of `size` bytes: `Ok(None)`
/// (serve everything) unless the trimmed header starts with `bytes=`;
/// otherwise the first comma-separated range, which must be satisfiable.
pub open spec fn byte_range(header: Seq<char>, size: u64) -> Result<Option<(u64, u64)>, ()> {
    let t = trim_ws(header);
    if !starts_with(t, lit_bytes_unit()) {
        Ok(None)
    } else {
        let first = trim_ws(split_on(t.skip(6), ',')[0]);
        match range_spec(first, size) {
            Err(()) => Err(()),
            Ok(r) => if size == 0 || r.0 >= size {
                Err(())
            } else {
                Ok(Some(r))
            },
        }
    }
}

fn first_range(part: &Vec<char>, size: u64) -> (r: Result<(u64, u64), ()>)
    ensures
        r == range_spec(part@, size),
{
    let i = match find_char(part, '-') {
        None => return Err(()),
        Some(i) => i,
    };
    assert(i < part.len());
    let start_s = slice_chars(part, 0, i);
    let end_s = slice_chars(part, i + 1, part.len());
    assert(start_s@ =~= part@.take(i as int));
    assert(end_s@ =~= part@.skip(i + 1));
    let last: u64 = if size == 0 { 0 } else { size - 1 };
    if start_s.len() == 0 {
        match parse_u64_chars(&end_s) {
            None => Err(()),
            Some(suffix) => {
                if suffix == 0 {
                    Err(())
                } else {
                    let start: u64 = if suffix >= size { 0 } else { size - suffix };
                    Ok((start, last))
                }
            },
        }
    } else {
        match parse_u64_chars(&start_s) {
            None => Err(()),
            Some(start) => {
                let end: u64 = if end_s.len() == 0 {
                    last
                } else {
                    match parse_u64_chars(&end_s) {
                        None => return Err(()),
                        Some(e) => if e < last { e } else { last },
                    }
                };
                if start > end {
                    Err(())
                } else {
                    Ok((start, end))
                }
            },
        }
    }
}

/// Parse a single-range `Range: bytes=…` header against a resource of `size`
/// bytes. Only the FIRST range of a multi-range request is honored (browsers
/// send one range per media seek, so this covers real usage).
///
/// Returns `None` for an absent/empty/`bytes=`-less header (serve 200 full
/// body), `Some((start, end))` with `end` inclusive, or `Err(())` when the
/// header is well-formed but unsatisfiable (→ 416).
pub fn parse_byte_range(header: &str, size: u64) -> (r: Result<Option<(u64, u64)>, ()>)
    ensures
        r == byte_range(header@, size),
        r matches Ok(Some((start, end))) ==> start <= end < size,
{
    let t = trim_ws_chars(&chars_of(header));
    let unit = vec!['b', 'y', 't', 'e', 's', '='];
    assert(unit@ =~= lit_bytes_unit());
    if !starts_with_chars(&t, &unit) {
        return Ok(None);
    }
    let rest = slice_chars(&t, 6, t.len());
    assert(rest@ =~= t@.skip(6));
    let pieces = split_chars(&rest, ',');
    proof {
        lemma_split_nonempty(rest@, ',');
    }
    let first = trim_ws_chars(&pieces[0]);
    let range = match first_range(&first, size) {
        Err(()) => return Err(()),
        Ok(r) => r,
    };
    if size == 0 || range.0 >= size {
        return Err(());
    }
    Ok(Some(range))
}

/// Index of the last `c` in `s` (`str::rfind`).
pub open spec fn last_index_of(s: Seq<char>, c: char) -> int
    decreases s.len(),
{
    if s.len() == 0 {
        -1
    } else if s.last() == c {
        s.len() - 1
    } else {
        last_index_of(s.drop_last(), c)
    }
}

proof fn lemma_last_index(s: Seq<char>, c: char, i: int)
    requires
        -1 <= i < s.len(),
        i >= 0 ==> s[i] == c,
        forall|j: int| i < j < s.len() ==> s[j] != c,
    ensures
        last_index_of(s, c) == i,
    decreases s.len(),
{
    if s.len() > 0 && i < s.len() - 1 {
        assert(s.last() == s[s.len() - 1]);
        lemma_last_index(s.drop_last(), c, i);
    }
}

fn rfind_char(s: &Vec<char>, c: char) -> (r: Option<usize>)
    ensures
        match r {
            None => last_index_of(s@, c) == -1,
            Some(i) => i < s@.len() && last_index_of(s@, c) == i,
        },
{
    let mut k: usize = s.len();
    while k > 0
        invariant
            k <= s.len(),
            forall|j: int| k <= j < s.len() ==> s@[j] != c,
        decreases k,
    {
        if s[k - 1] == c {
            proof {
                lemma_last_index(s@, c, k - 1);
            }
            return Some(k - 1);
        }
        k = k - 1;
    }
    proof {
        lemma_last_index(s@, c, -1);
    }
    None
}

/// A leaf split into stem and extension at its last `.`, unless that dot
/// is the first character (hidden files have no extension).
pub open spec fn stem_ext(leaf: Seq<char>) -> (Seq<char>, Seq<char>) {
    let i = last_index_of(leaf, '.');
    if i > 0 {
        (leaf.take(i), leaf.skip(i))
    } else {
        (leaf, Seq::<char>::empty())
    }
}

fn split_stem_ext(leaf: &Vec<char>) -> (r: (Vec<char>, Vec<char>))
    ensures
        (r.0@, r.1@) == stem_ext(leaf@),
{
    match rfind_char(leaf, '.') {
        Some(i) => {
            if i > 0 {
                let stem = slice_chars(leaf, 0, i);
                let ext = slice_chars(leaf, i, leaf.len());
                assert(stem@ =~= leaf@.take(i as int));
                assert(ext@ =~= leaf@.skip(i as int));
                return (stem, ext);
            }
        },
        None => {},
    }
    let all = slice_chars(leaf, 0, leaf.len());
    assert(all@ =~= leaf@);
    (all, Vec::new())
}

/// The `n`-th alternative name for a leaf already present in the trash:
/// `stem (n).ext`.
pub open spec fn trash_candidate(leaf: Seq<char>, n: u64) -> Seq<char> {
    let (stem, ext) = stem_ext(leaf);
    stem + " ("@ + decimal(n as nat) + ")"@ + ext
}

/// The name tried for the `n`-th collision when moving `leaf` into the
/// trash (`report.txt` → `report (1).txt`).
pub fn trash_candidate_name(leaf: &str, n: u64) -> (r: String)
    ensures
        r@ == trash_candidate(leaf@, n),
{
    let (stem, ext) = split_stem_ext(&chars_of(leaf));
    let mut v = stem;
    extend_chars(&mut v, &chars_of(" ("));
    extend_chars(&mut v, &decimal_chars(n));
    extend_chars(&mut v, &chars_of(")"));
    extend_chars(&mut v, &ext);
    string_of(&v)
}

/// The last-resort trash name once every numbered candidate is taken:
/// `stem-<millis>.ext`.
pub open spec fn trash_fallback(leaf: Seq<char>, millis: u64) -> Seq<char> {
    let (stem, ext) = stem_ext(leaf);
    stem.push('-') + decimal(millis as nat) + ext
}

/// The trash name used when all numbered candidates collide.
pub fn trash_fallback_name(leaf: &str, millis: u64) -> (r: String)
    ensures
        r@ == trash_fallback(leaf@, millis),
{
    let (stem, ext) = split_stem_ext(&chars_of(leaf));
    let mut v = stem;
    v.push('-');
    extend_chars(&mut v, &decimal_chars(millis));
    extend_chars(&mut v, &ext);
    string_of(&v)
}

/// Numbered trash names are tried below this number; past it the
/// timestamped fallback is used.
pub const TRASH_CANDIDATE_LIMIT: u64 = 100000;

/// What choosing a trash destination does after learning whether the name
/// tried last (number `n`; 0 for the item's own name) is taken.
pub enum TrashStep {
    /// The name tried last is free: use it.
    Use,
    /// Try the numbered name `n`.
    Probe(u64, String),
    /// Every numbered name is taken: use the timestamped fallback.
    Fallback,
}

/// One step of choosing a non-colliding trash name for `leaf`: a free name
/// is used; a taken one leads to the next numbered candidate, and after
/// the last candidate to the fallback.
pub fn trash_step(leaf: &str, n: u64, taken: bool) -> (r: TrashStep)
    requires
        n < TRASH_CANDIDATE_LIMIT,
    ensures
        !taken ==> r is Use,
        taken && n + 1 < TRASH_CANDIDATE_LIMIT ==> (r matches TrashStep::Probe(m, name) && m == n
            + 1 && name@ == trash_candidate(leaf@, m)),
        taken && n + 1 >= TRASH_CANDIDATE_LIMIT ==> r is Fallback,
{
    if !taken {
        TrashStep::Use
    } else if n + 1 < TRASH_CANDIDATE_LIMIT {
        TrashStep::Probe(n + 1, trash_candidate_name(leaf, n + 1))
    } else {
        TrashStep::Fallback
    }
}

/// The leaf a trash name is built from: the item's file name, or `item`
/// when it has none that is text.
pub fn trash_leaf(file_name: Option<&str>) -> (r: String)
    ensures
        r@ == match file_name {
            Some(n) => n@,
            None => "item"@,
        },
{
    match file_name {
        Some(n) => string_from_str(n),
        None => string_from_str("item"),
    }
}

/// The pieces of a path that name something: neither empty nor `.`.
pub open spec fn named_pieces(pieces: Seq<Seq<char>>) -> Seq<Seq<char>>
    decreases pieces.len(),
{
    if pieces.len() == 0 {
        Seq::empty()
    } else {
        let prev = named_pieces(pieces.drop_last());
        let p = pieces.last();
        if p.len() == 0 || p == "."@ {
            prev
        } else {
            prev.push(p)
        }
    }
}

/// The components of a Unix path (`Path::components`): the root (written
/// `/`) or a leading `.` for `./`-relative paths, then each named piece;
/// repeated and trailing separators and inner `.` pieces vanish.
pub open spec fn components(p: Seq<char>) -> Seq<Seq<char>> {
    let pieces = split_on(p, '/');
    let lead: Seq<Seq<char>> = if p.len() > 0 && p[0] == '/' {
        seq![seq!['/']]
    } else if pieces[0] == "."@ {
        seq![pieces[0]]
    } else {
        Seq::empty()
    };
    lead + named_pieces(pieces)
}

/// `full` is `base` or lies inside it, component-wise (`Path::starts_with`).
pub open spec fn path_within(base: Seq<char>, full: Seq<char>) -> bool {
    components(base).len() <= components(full).len() && components(full).take(
        components(base).len() as int,
    ) == components(base)
}

fn path_components(p: &Vec<char>) -> (r: Vec<Vec<char>>)
    ensures
        r@.map_values(|x: Vec<char>| x@) == components(p@),
{
    let pieces = split_chars(p, '/');
    proof {
        lemma_split_nonempty(p@, '/');
    }
    let ghost all = split_on(p@, '/');
    let mut out: Vec<Vec<char>> = Vec::new();
    let dot = chars_of(".");
    if p.len() > 0 && p[0] == '/' {
        let root = vec!['/'];
        assert(root@ =~= seq!['/']);
        out.push(root);
        assert(out@.map_values(|x: Vec<char>| x@) =~= seq![seq!['/']]);
    } else if chars_eq(&pieces[0], &dot) {
        out.push(slice_chars(&pieces[0], 0, pieces[0].len()));
        assert(pieces@[0]@.subrange(0, pieces@[0]@.len() as int) =~= pieces@[0]@);
        assert(out@.map_values(|x: Vec<char>| x@) =~= seq![all[0]]);
    } else {
        assert(out@.map_values(|x: Vec<char>| x@) =~= Seq::<Seq<char>>::empty());
    }
    let ghost lead = out@.map_values(|x: Vec<char>| x@);
    assert(lead =~= (if p@.len() > 0 && p@[0] == '/' {
        seq![seq!['/']]
    } else if all[0] == "."@ {
        seq![all[0]]
    } else {
        Seq::<Seq<char>>::empty()
    }));
    let mut i: usize = 0;
    while i < pieces.len()
        invariant
            i <= pieces@.len(),
            pieces@.len() == all.len(),
            dot@ == "."@,
            forall|k: int| 0 <= k < pieces@.len() ==> #[trigger] pieces@[k]@ == all[k],
            out@.map_values(|x: Vec<char>| x@) == lead + named_pieces(all.take(i as int)),
        decreases pieces.len() - i,
    {
        assert(all.take(i as int + 1).drop_last() =~= all.take(i as int));
        assert(all.take(i as int + 1).last() == all[i as int]);
        if pieces[i].len() > 0 && !chars_eq(&pieces[i], &dot) {
            let ghost before = out@.map_values(|x: Vec<char>| x@);
            out.push(slice_chars(&pieces[i], 0, pieces[i].len()));
            assert(pieces@[i as int]@.subrange(0, pieces@[i as int]@.len() as int)
                =~= pieces@[i as int]@);
            assert(out@.map_values(|x: Vec<char>| x@) =~= before.push(all[i as int]));
        }
        i = i + 1;
    }
    assert(all.take(pieces@.len() as int) =~= all);
    out
}

/// True when `full` IS the trash directory or lies inside it. Component-based
/// comparison, so sibling names that merely share a prefix (`data/.trash-2`)
/// do not count as "inside".
pub fn is_inside_trash(trash: &str, full: &str) -> (r: bool)
    ensures
        r == path_within(trash@, full@),
{
    let b = path_components(&chars_of(trash));
    let f = path_components(&chars_of(full));
    let ghost bs = b@.map_values(|x: Vec<char>| x@);
    let ghost fs = f@.map_values(|x: Vec<char>| x@);
    assert(bs.len() == b@.len() && fs.len() == f@.len());
    if b.len() > f.len() {
        return false;
    }
    let mut i: usize = 0;
    while i < b.len()
        invariant
            i <= b@.len(),
            b@.len() <= f@.len(),
            bs == b@.map_values(|x: Vec<char>| x@),
            fs == f@.map_values(|x: Vec<char>| x@),
            bs == components(trash@),
            fs == components(full@),
            forall|k: int| 0 <= k < i ==> bs[k] == fs[k],
        decreases b.len() - i,
    {
        assert(bs[i as int] == b@[i as int]@ && fs[i as int] == f@[i as int]@);
        if !chars_eq(&b[i], &f[i]) {
            assert(fs.take(bs.len() as int)[i as int] != bs[i as int]);
            return false;
        }
        i = i + 1;
    }
    assert(fs.take(bs.len() as int) =~= bs);
    true
}

/// Uppercase hexadecimal digit for `n < 16`.
pub open spec fn hex_upper(n: nat) -> char {
    if n < 10 {
        digit_char(n)
    } else if n == 10 {
        'A'
    } else if n == 11 {
        'B'
    } else if n == 12 {
        'C'
    } else if n == 13 {
        'D'
    } else if n == 14 {
        'E'
    } else {
        'F'
    }
}

/// `percent_encoding::percent_encode_byte`: the three characters `%XX`
/// (uppercase hex) for any byte.
#[verifier::external_body]
fn percent_byte(b: u8) -> (r: String)
    ensures
        r@ == seq!['%', hex_upper((b / 16) as nat), hex_upper((b % 16) as nat)],
{
    percent_encoding::percent_encode_byte(b).to_string()
}

/// The bytes escaped in the RFC 5987 file name: non-ASCII, the controls
/// (0x00–0x1F, 0x7F), `"`, `\` and `%`.
pub open spec fn filename_escaped(b: u8) -> bool {
    b >= 0x80 || b < 0x20 || b == 0x7F || b == 0x22 || b == 0x5C || b == 0x25
}

/// The percent-encoding of a byte string, escaping exactly the bytes of
/// [`filename_escaped`].
pub open spec fn percent_encoded(bs: Seq<u8>) -> Seq<char>
    decreases bs.len(),
{
    if bs.len() == 0 {
        Seq::empty()
    } else {
        let b = bs.last();
        percent_encoded(bs.drop_last()) + if filename_escaped(b) {
            seq!['%', hex_upper((b / 16) as nat), hex_upper((b % 16) as nat)]
        } else {
            seq![b as char]
        }
    }
}

/// The ASCII stand-in for one character of a file name: printable ASCII
/// other than `"` and `\` is kept, everything else becomes `_`.
pub open spec fn ascii_fallback(c: char) -> char {
    if (c as u32) < 0x80 && c != '"' && c != '\\' && (c as u32) >= 0x20 && (c as u32) != 0x7F {
        c
    } else {
        '_'
    }
}

/// The `Content-Disposition` value for a file of the given name.
pub open spec fn disposition(kind: Seq<char>, name: Seq<char>) -> Seq<char> {
    kind + "; filename=\""@ + name.map_values(|c: char| ascii_fallback(c)) + "\"; filename*=UTF-8''"@
        + percent_encoded(encode_utf8(name))
}

/// Build a `Content-Disposition` header value with an ASCII fallback name and
/// an RFC 5987 `filename*=UTF-8''` form, so non-ASCII (Chinese) filenames
/// survive every browser.
pub fn content_disposition(kind: &str, name: &str) -> (r: String)
    ensures
        r@ == disposition(kind@, name@),
{
    let n = chars_of(name);
    let mut ascii: Vec<char> = Vec::new();
    let mut i: usize = 0;
    while i < n.len()
        invariant
            i <= n.len(),
            ascii@ == n@.take(i as int).map_values(|c: char| ascii_fallback(c)),
        decreases n.len() - i,
    {
        let c = n[i];
        let u = c as u32;
        let keep = u < 0x80 && c != '"' && c != '\\' && u >= 0x20 && u != 0x7F;
        ascii.push(if keep { c } else { '_' });
        assert(n@.take(i as int + 1).map_values(|c: char| ascii_fallback(c)) =~= n@.take(
            i as int,
        ).map_values(|c: char| ascii_fallback(c)).push(ascii_fallback(c)));
        i = i + 1;
    }
    assert(n@.take(n.len() as int) =~= n@);
    let bytes = name.as_bytes();
    let mut enc: Vec<char> = Vec::new();
    let mut j: usize = 0;
    while j < bytes.len()
        invariant
            j <= bytes@.len(),
            bytes@ == encode_utf8(name@),
            enc@ == percent_encoded(bytes@.take(j as int)),
        decreases bytes.len() - j,
    {
        let b = bytes[j];
        assert(bytes@.take(j as int + 1).drop_last() =~= bytes@.take(j as int));
        assert(bytes@.take(j as int + 1).last() == b);
        if b >= 0x80 || b < 0x20 || b == 0x7F || b == 0x22 || b == 0x5C || b == 0x25 {
            extend_chars(&mut enc, &chars_of(percent_byte(b).as_str()));
        } else {
            enc.push(b as char);
            assert(enc@ =~= percent_encoded(bytes@.take(j as int + 1)));
        }
        j = j + 1;
    }
    assert(bytes@.take(bytes@.len() as int) =~= bytes@);
    let mut v = chars_of(kind);
    extend_chars(&mut v, &chars_of("; filename=\""));
    extend_chars(&mut v, &ascii);
    extend_chars(&mut v, &chars_of("\"; filename*=UTF-8''"));
    extend_chars(&mut v, &enc);
    string_of(&v)
}

/// Moving onto itself or into its own subtree is refused (400).
pub fn move_verdict(src_real: &str, dst_real: &str) -> (r: Result<(), Refusal>)
    ensures
        r == (if src_real@ == dst_real@ || path_within(src_real@, dst_real@) {
            Err::<(), Refusal>(Refusal::BadRequest)
        } else {
            Ok(())
        }),
{
    if chars_eq(&chars_of(src_real), &chars_of(dst_real)) || is_inside_trash(src_real, dst_real) {
        Err(Refusal::BadRequest)
    } else {
        Ok(())
    }
}

/// What deleting an item does.
#[derive(Debug, Clone, Copy, PartialEq, Eq)]
pub enum DeleteAction {
    /// Refused: the target is the filesystem root itself.
    RefuseRoot,
    /// Move the item into the trash directory.
    MoveToTrash,
    /// Remove it for good; `in_trash` when it already was in the trash.
    Permanent { in_trash: bool },
}

/// Decide a deletion: never the root; with a trash directory, items move
/// into it, except items already inside the trash, which are removed for
/// good (moving them deeper would free nothing).
pub fn delete_action(real_path: &str, trash: &Option<String>, full: &str) -> (r: DeleteAction)
    ensures
        real_path@.len() == 0 ==> r == DeleteAction::RefuseRoot,
        real_path@.len() > 0 ==> r == (match trash {
            None => DeleteAction::Permanent { in_trash: false },
            Some(t) => if path_within(t@, full@) {
                DeleteAction::Permanent { in_trash: true }
            } else {
                DeleteAction::MoveToTrash
            },
        }),
{
    if chars_of(real_path).len() == 0 {
        return DeleteAction::RefuseRoot;
    }
    match trash {
        None => DeleteAction::Permanent { in_trash: false },
        Some(t) => {
            if is_inside_trash(t.as_str(), full) {
                DeleteAction::Permanent { in_trash: true }
            } else {
                DeleteAction::MoveToTrash
            }
        },
    }
}

/// The audit detail of a permanent deletion.
pub fn permanent_delete_detail(in_trash: bool) -> (r: String)
    ensures
        in_trash ==> r@ == "permanently deleted (was in trash)"@,
        !in_trash ==> r@ == "permanently deleted"@,
{
    if in_trash {
        string_from_str("permanently deleted (was in trash)")
    } else {
        string_from_str("permanently deleted")
    }
}

/// The path a rename produces: the new name beside the old one.
pub open spec fn renamed(real_path: Seq<char>, new_name: Seq<char>) -> Seq<char> {
    child_of(join_with(split_on(real_path, '/').drop_last(), '/'), new_name)
}

/// The relative path an entry gets when renamed to `new_name`.
pub fn renamed_path(real_path: &str, new_name: &str) -> (r: String)
    ensures
        r@ == renamed(real_path@, new_name@),
{
    let parent = match parent_path(real_path) {
        Some(p) => p,
        None => String::new(),
    };
    proof {
        if real_path@.len() == 0 {
            lemma_split_nonempty(real_path@, '/');
            assert(split_on(real_path@, '/') == seq![Seq::<char>::empty()]);
            assert(split_on(real_path@, '/').drop_last() =~= Seq::<Seq<char>>::empty());
        }
    }
    join_child(parent.as_str(), new_name)
}

/// Maximum size (bytes) of a text file served to / accepted from the editor.
pub const MAX_TEXT_SIZE: u64 = 1024 * 1024;

/// `String::from_utf8`: the text the bytes encode, when they are valid
/// UTF-8.
#[verifier::external_body]
pub(crate) fn utf8_text(bytes: Vec<u8>) -> (r: Option<String>)
    ensures
        match r {
            Some(s) => valid_utf8(bytes@) && s@ == decode_utf8(bytes@),
            None => !valid_utf8(bytes@),
        },
{
    String::from_utf8(bytes).ok()
}

/// How a file is offered in the detail view.
#[derive(Debug, Clone)]
pub struct TextPreview {
    pub is_text: bool,
    pub content: Option<String>,
    pub truncated: bool,
}

/// Classify a file for inline preview: within the size limit the bytes are
/// judged by content (valid UTF-8, and a declared text type or no NUL
/// byte); beyond it, declared text is reported as truncated. `bytes` is
/// what reading the file gave (`None` when it could not be read).
pub fn text_preview(mime: &str, size: u64, bytes: Option<Vec<u8>>) -> (r: TextPreview)
    ensures
        size > MAX_TEXT_SIZE ==> r.content is None && r.is_text == (starts_with(mime@, "text/"@)
            || text_like_mime(mime@)) && r.truncated == r.is_text,
        size <= MAX_TEXT_SIZE ==> !r.truncated && match bytes {
            None => !r.is_text && r.content is None,
            Some(b) => if valid_utf8(b@) && (starts_with(mime@, "text/"@) || text_like_mime(mime@)
                || !b@.contains(0u8)) {
                r.is_text && (r.content matches Some(c) && c@ == decode_utf8(b@))
            } else {
                !r.is_text && r.content is None
            },
        },
{
    let declared = is_text_mime(mime);
    if size > MAX_TEXT_SIZE {
        return TextPreview { is_text: declared, content: None, truncated: declared };
    }
    match bytes {
        None => TextPreview { is_text: false, content: None, truncated: false },
        Some(b) => {
            let mut has_nul = false;
            let mut i: usize = 0;
            while i < b.len()
                invariant
                    i <= b@.len(),
                    has_nul == exists|j: int| 0 <= j < i && b@[j] == 0u8,
                decreases b.len() - i,
            {
                if b[i] == 0 {
                    has_nul = true;
                }
                i = i + 1;
            }
            assert(has_nul == b@.contains(0u8));
            let looks_text = !has_nul;
            match utf8_text(b) {
                Some(text) => {
                    if declared || looks_text {
                        TextPreview { is_text: true, content: Some(text), truncated: false }
                    } else {
                        TextPreview { is_text: false, content: None, truncated: false }
                    }
                },
                None => TextPreview { is_text: false, content: None, truncated: false },
            }
        },
    }
}

/// The editor only ever overwrites text: existing content with a NUL byte
/// or invalid UTF-8 is refused (415).
pub fn check_overwrite(existing: Vec<u8>) -> (r: Result<(), Refusal>)
    ensures
        r == (if existing@.contains(0u8) || !valid_utf8(existing@) {
            Err::<(), Refusal>(Refusal::UnsupportedMediaType)
        } else {
            Ok(())
        }),
{
    let mut has_nul = false;
    let mut i: usize = 0;
    while i < existing.len()
        invariant
            i <= existing@.len(),
            has_nul == exists|j: int| 0 <= j < i && existing@[j] == 0u8,
        decreases existing.len() - i,
    {
        if existing[i] == 0 {
            has_nul = true;
        }
        i = i + 1;
    }
    assert(has_nul == existing@.contains(0u8));
    if has_nul {
        return Err(Refusal::UnsupportedMediaType);
    }
    match utf8_text(existing) {
        Some(_) => Ok(()),
        None => Err(Refusal::UnsupportedMediaType),
    }
}

/// Saved text may not exceed the editor's size limit (413).
pub fn check_save_size(content: &str) -> (r: Result<(), Refusal>)
    ensures
        r == (if encode_utf8(content@).len() > MAX_TEXT_SIZE {
            Err::<(), Refusal>(Refusal::PayloadTooLarge)
        } else {
            Ok(())
        }),
{
    let n = content.as_bytes().len();
    if n as u64 > MAX_TEXT_SIZE {
        Err(Refusal::PayloadTooLarge)
    } else {
        Ok(())
    }
}

/// The non-empty comma-separated pieces, first occurrences only, in order.
pub open spec fn distinct_pieces(pieces: Seq<Seq<char>>) -> Seq<Seq<char>>
    decreases pieces.len(),
{
    if pieces.len() == 0 {
        Seq::empty()
    } else {
        let prev = distinct_pieces(pieces.drop_last());
        let p = pieces.last();
        if p.len() == 0 || prev.contains(p) {
            prev
        } else {
            prev.push(p)
        }
    }
}

/// The non-empty pieces of a comma-separated list.
pub open spec fn nonempty_count(pieces: Seq<Seq<char>>) -> nat
    decreases pieces.len(),
{
    if pieces.len() == 0 {
        0
    } else {
        nonempty_count(pieces.drop_last()) + if pieces.last().len() > 0 {
            1nat
        } else {
            0nat
        }
    }
}

/// A batch of shadow paths to translate: between 1 and 200 non-empty
/// comma-separated paths (400 otherwise), each translated once.
pub fn shadow_batch(paths: &str) -> (r: Result<Vec<String>, Refusal>)
    ensures
        ({
            let pieces = split_on(paths@, ',');
            match r {
                Ok(v) => 1 <= nonempty_count(pieces) <= 200 && v@.map_values(|s: String| s@)
                    == distinct_pieces(pieces),
                Err(e) => e == Refusal::BadRequest && (nonempty_count(pieces) == 0
                    || nonempty_count(pieces) > 200),
            }
        }),
{
    let pieces = split_chars(&chars_of(paths), ',');
    let ghost all = split_on(paths@, ',');
    let mut out: Vec<Vec<char>> = Vec::new();
    let mut count: usize = 0;
    let mut i: usize = 0;
    while i < pieces.len()
        invariant
            i <= pieces@.len(),
            pieces@.len() == all.len(),
            forall|k: int| 0 <= k < pieces@.len() ==> #[trigger] pieces@[k]@ == all[k],
            count == nonempty_count(all.take(i as int)),
            count <= i,
            out@.map_values(|x: Vec<char>| x@) == distinct_pieces(all.take(i as int)),
        decreases pieces.len() - i,
    {
        assert(all.take(i as int + 1).drop_last() =~= all.take(i as int));
        assert(all.take(i as int + 1).last() == all[i as int]);
        let p = &pieces[i];
        if p.len() > 0 {
            count = count + 1;
            let ghost ov = out@.map_values(|x: Vec<char>| x@);
            let mut seen = false;
            let mut k: usize = 0;
            while k < out.len()
                invariant
                    k <= out@.len(),
                    ov == out@.map_values(|x: Vec<char>| x@),
                    seen == exists|j: int| 0 <= j < k && ov[j] == p@,
                decreases out.len() - k,
            {
                assert(ov[k as int] == out@[k as int]@);
                if chars_eq(&out[k], p) {
                    seen = true;
                }
                k = k + 1;
            }
            assert(seen == ov.contains(p@)) by {
                if ov.contains(p@) {
                    let j = choose|j: int| 0 <= j < ov.len() && ov[j] == p@;
                    assert(0 <= j < out@.len());
                }
            }
            if !seen {
                out.push(slice_chars(p, 0, p.len()));
                assert(p@.subrange(0, p@.len() as int) =~= p@);
                assert(out@.map_values(|x: Vec<char>| x@) =~= ov.push(p@));
            }
        }
        i = i + 1;
    }
    assert(all.take(pieces@.len() as int) =~= all);
    if count == 0 || count > 200 {
        return Err(Refusal::BadRequest);
    }
    let mut result: Vec<String> = Vec::new();
    let ghost ov = out@.map_values(|x: Vec<char>| x@);
    let mut j: usize = 0;
    while j < out.len()
        invariant
            j <= out@.len(),
            ov == out@.map_values(|x: Vec<char>| x@),
            result@.map_values(|s: String| s@) == ov.take(j as int),
        decreases out.len() - j,
    {
        let ghost before = result@.map_values(|s: String| s@);
        result.push(string_of(&out[j]));
        assert(result@.map_values(|s: String| s@) =~= before.push(ov[j as int]));
        assert(ov.take(j as int + 1) =~= ov.take(j as int).push(ov[j as int]));
        j = j + 1;
    }
    assert(ov.take(out@.len() as int) =~= ov);
    Ok(result)
}

/// The splits of `s` at each `/` before position `end`, rightmost first:
/// the prefix before the `/` and the rest after it.
pub open spec fn splits_before(s: Seq<char>, end: int) -> Seq<(Seq<char>, Seq<char>)>
    decreases end,
{
    if end <= 0 {
        Seq::empty()
    } else if s[end - 1] == '/' {
        seq![(s.take(end - 1), s.skip(end))] + splits_before(s, end - 1)
    } else {
        splits_before(s, end - 1)
    }
}

/// The (prefix, rest) splits of a shadow at each `/`, rightmost first: the
/// order in which a compound shadow `{dirShadow}/{literal…}` is decoded,
/// so the longest decodable prefix wins.
pub fn compound_splits(shadow: &str) -> (r: Vec<(String, String)>)
    ensures
        r@.map_values(|p: (String, String)| (p.0@, p.1@)) == splits_before(
            shadow@,
            shadow@.len() as int,
        ),
{
    let s = chars_of(shadow);
    let mut out: Vec<(String, String)> = Vec::new();
    let mut k: usize = s.len();
    while k > 0
        invariant
            k <= s@.len(),
            s@ == shadow@,
            out@.map_values(|p: (String, String)| (p.0@, p.1@)) + splits_before(s@, k as int)
                == splits_before(s@, s@.len() as int),
        decreases k,
    {
        let ghost ov = out@.map_values(|p: (String, String)| (p.0@, p.1@));
        if s[k - 1] == '/' {
            let pre = slice_chars(&s, 0, k - 1);
            let rest = slice_chars(&s, k, s.len());
            assert(pre@ =~= s@.take(k - 1));
            assert(rest@ =~= s@.skip(k as int));
            out.push((string_of(&pre), string_of(&rest)));
            assert(out@.map_values(|p: (String, String)| (p.0@, p.1@)) =~= ov.push(
                (s@.take(k - 1), s@.skip(k as int)),
            ));
            assert(ov.push((s@.take(k - 1), s@.skip(k as int))) + splits_before(s@, k - 1) =~= ov
                + splits_before(s@, k as int));
        }
        k = k - 1;
    }
    assert(out@.map_values(|p: (String, String)| (p.0@, p.1@)) + splits_before(s@, 0) =~= out@.map_values(
        |p: (String, String)| (p.0@, p.1@),
    ));
    out
}

/// The real path of a compound shadow whose prefix decoded to `real`.
pub fn compose_real(real_prefix: &str, rest: &str) -> (r: String)
    ensures
        r@ == child_of(real_prefix@, rest@),
{
    join_child(real_prefix, rest)
}

/// The transfer permission a token request asks for: write for `write`,
/// read otherwise.
pub fn token_permission(op: &str) -> (r: Permission)
    ensures
        r == (if op@ == "write"@ {
            Permission::Write
        } else {
            Permission::Read
        }),
{
    if chars_eq(&chars_of(op), &chars_of("write")) {
        Permission::Write
    } else {
        Permission::Read
    }
}

/// Whether a directory entry is hidden (its name starts with `.`), as
/// listings and size walks skip them.
pub fn is_hidden_name(name: &str) -> (r: bool)
    ensures
        r == (name@.len() > 0 && name@[0] == '.'),
{
    let v = chars_of(name);
    v.len() > 0 && v[0] == '.'
}

/// The entries of directory `dir` that a size walk descends into: each
/// non-hidden name joined onto `dir`, kept when the user may read it, in
/// listing order.
pub open spec fn walk_targets(
    user: UserRow,
    groups: Seq<i64>,
    entries: Seq<AclEntryRow>,
    dir: Seq<char>,
    names: Seq<Seq<char>>,
) -> Seq<Seq<char>>
    decreases names.len(),
{
    if names.len() == 0 {
        Seq::empty()
    } else {
        let prev = walk_targets(user, groups, entries, dir, names.drop_last());
        let name = names.last();
        let child = child_of(dir, name);
        if !(name.len() > 0 && name[0] == '.') && access_allowed(
            user,
            groups,
            entries,
            child,
            Permission::Read,
        ) {
            prev.push(child)
        } else {
            prev
        }
    }
}

/// One directory step of a size walk: the children of `dir` (named by
/// `names`) that the walk goes on to visit.
pub fn walk_children(
    user: &UserRow,
    user_groups: &[i64],
    acl_entries: &[AclEntryRow],
    dir: &str,
    names: &[String],
) -> (r: Vec<String>)
    ensures
        r@.map_values(|c: String| c@) == walk_targets(
            *user,
            user_groups@,
            acl_entries@,
            dir@,
            names@.map_values(|n: String| n@),
        ),
{
    let ghost nv = names@.map_values(|n: String| n@);
    let mut out: Vec<String> = Vec::new();
    let mut i: usize = 0;
    while i < names.len()
        invariant
            i <= names.len(),
            nv == names@.map_values(|n: String| n@),
            out@.map_values(|c: String| c@) == walk_targets(
                *user,
                user_groups@,
                acl_entries@,
                dir@,
                nv.take(i as int),
            ),
        decreases names.len() - i,
    {
        assert(nv.take(i + 1).drop_last() =~= nv.take(i as int));
        let name = names[i].as_str();
        if !is_hidden_name(name) {
            let child = join_child(dir, name);
            if can_access(user, user_groups, acl_entries, child.as_str(), &Permission::Read) {
                out.push(child);
            }
        }
        i = i + 1;
        assert(out@.map_values(|c: String| c@) =~= walk_targets(
            *user,
            user_groups@,
            acl_entries@,
            dir@,
            nv.take(i as int),
        ));
    }
    assert(nv.take(names.len() as int) =~= nv);
    out
}

/// One step of a size walk: the saturating running total and whether it
/// passed the limit.
pub fn add_to_total(total: u64, len: u64, limit: Option<u64>) -> (r: (u64, bool))
    ensures
        r.0 == (if total + len > u64::MAX {
            u64::MAX
        } else {
            (total + len) as u64
        }),
        r.1 == (limit matches Some(l) && r.0 > l),
{
    let t: u64 = if len > u64::MAX - total { u64::MAX } else { total + len };
    let exceeded = match limit {
        Some(l) => t > l,
        None => false,
    };
    (t, exceeded)
}

/// How a file response is served for a `Range` header.
#[derive(Debug, Clone, PartialEq, Eq)]
pub enum RangePlan {
    /// 416 with `Content-Range: bytes */<size>`.
    Unsatisfiable { content_range: String },
    /// 200 with the whole body.
    Full { length: u64 },
    /// 206 with bytes `start..=end` and their `Content-Range`.
    Partial { start: u64, end: u64, length: u64, content_range: String },
}

/// `bytes <start>-<end>/<size>`.
pub open spec fn content_range_of(start: u64, end: u64, size: u64) -> Seq<char> {
    "bytes "@ + decimal(start as nat) + "-"@ + decimal(end as nat) + "/"@ + decimal(size as nat)
}

/// Plan the response to a (possibly ranged) file request over a body of
/// `size` bytes: no header or a foreign unit serves everything, a
/// satisfiable range serves that slice, anything else is 416.
pub fn range_plan(size: u64, range: Option<&str>) -> (r: RangePlan)
    ensures
        match range {
            None => r == RangePlan::Full { length: size },
            Some(h) => match byte_range(h@, size) {
                Err(()) => r matches RangePlan::Unsatisfiable { content_range } && content_range@
                    == "bytes */"@ + decimal(size as nat),
                Ok(None) => r == RangePlan::Full { length: size },
                Ok(Some((start, end))) => r matches RangePlan::Partial {
                    start: s,
                    end: e,
                    length,
                    content_range,
                } && s == start && e == end && length == end - start + 1 && content_range@
                    == content_range_of(start, end, size),
            },
        },
{
    match range {
        None => RangePlan::Full { length: size },
        Some(h) => match parse_byte_range(h, size) {
            Err(()) => {
                let mut v = chars_of("bytes */");
                extend_chars(&mut v, &decimal_chars(size));
                RangePlan::Unsatisfiable { content_range: string_of(&v) }
            },
            Ok(None) => RangePlan::Full { length: size },
            Ok(Some((start, end))) => {
                let mut v = chars_of("bytes ");
                extend_chars(&mut v, &decimal_chars(start));
                extend_chars(&mut v, &chars_of("-"));
                extend_chars(&mut v, &decimal_chars(end));
                extend_chars(&mut v, &chars_of("/"));
                extend_chars(&mut v, &decimal_chars(size));
                RangePlan::Partial {
                    start,
                    end,
                    length: end - start + 1,
                    content_range: string_of(&v),
                }
            },
        },
    }
}

/// The disposition kind of a served file.
pub fn disposition_kind(inline: bool) -> (r: &'static str)
    ensures
        inline ==> r@ == "inline"@,
        !inline ==> r@ == "attachment"@,
{
    if inline {
        "inline"
    } else {
        "attachment"
    }
}

/// The MIME type registered for a path's extension.
pub uninterp spec fn guessed_mime(path: Seq<char>) -> Seq<char>;

/// `mime_guess::from_path(path).first_or_octet_stream()`, as text: the first
/// type registered for the path's extension, `application/octet-stream`
/// when there is none.
#[verifier::external_body]
fn guess_mime(path: &str) -> (r: String)
    ensures
        r@ == guessed_mime(path@),
{
    mime_guess::from_path(path).first_or_octet_stream().to_string()
}

/// The MIME type an entry is shown with: `inode/directory` for a
/// directory, else the type guessed from its name.
pub fn entry_mime(path: &str, is_dir: bool) -> (r: String)
    ensures
        is_dir ==> r@ == "inode/directory"@,
        !is_dir ==> r@ == guessed_mime(path@),
{
    if is_dir {
        string_from_str("inode/directory")
    } else {
        guess_mime(path)
    }
}

/// The directory a listing request names: the request without its leading
/// slashes.
pub fn listing_current_path(requested: &str) -> (r: String)
    ensures
        r@ == trim_start_char(requested@, '/'),
{
    string_of(&trim_start_chars(&chars_of(requested), '/'))
}

} // verus!
