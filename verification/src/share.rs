//! Temporary share links: who may mint and revoke them, how a request is
//! shaped into a single-item or collection share, and how links are shown.
use vstd::prelude::*;
use crate::models::{ShareItemInfo, ShareLinkInfo};
use crate::rows::{AclEntryRow, ShareItemRow, ShareLinkRow, UserRow};
use crate::session::{share_sub_prefix, GUEST_USER_ID, SHARE_USER_ID};
use crate::status::Refusal;
use crate::text::{
    chars_of, decimal, decimal_chars, extend_chars, leaf_of, lemma_split_nonempty, split_chars,
    starts_with, starts_with_chars, string_from_str, string_of,
};

verus! {

/// Upper bound on items per multi-item share.
pub const MAX_SHARE_ITEMS: usize = 50;

/// The URL of a share link: `/s/<token>`.
pub open spec fn share_path(token: Seq<char>) -> Seq<char> {
    "/s/"@ + token
}

/// The URL path receivers open for a share token.
pub fn share_url(token: &str) -> (r: String)
    ensures
        r@ == share_path(token@),
{
    let mut v = chars_of("/s/");
    extend_chars(&mut v, &chars_of(token));
    string_of(&v)
}

/// A share link as listed for its owner, with its top-level items.
pub fn share_row_info(row: &ShareLinkRow, items: Vec<ShareItemInfo>) -> (r: ShareLinkInfo)
    ensures
        r.token@ == row.token@,
        r.name@ == row.name@,
        r.path@ == row.display_path@,
        r.is_dir == row.is_dir,
        r.items@ == items@,
        r.creator@ == row.creator@,
        r.expires_at == row.expires_at,
        r.url@ == share_path(row.token@),
{
    ShareLinkInfo {
        token: row.token.clone(),
        name: row.name.clone(),
        path: row.display_path.clone(),
        is_dir: row.is_dir,
        items,
        creator: row.creator.clone(),
        expires_at: row.expires_at.clone(),
        url: share_url(row.token.as_str()),
    }
}

/// Who may create a share of `item_count` items: never the guest (401),
/// never a share-link identity (403), and only 1 to 50 items (400).
pub open spec fn share_request_verdict(user: UserRow, item_count: nat) -> Result<(), Refusal> {
    if user.id == GUEST_USER_ID {
        Err(Refusal::Unauthorized)
    } else if starts_with(user.oidc_sub@, share_sub_prefix()) {
        Err(Refusal::Forbidden)
    } else if item_count == 0 || item_count > MAX_SHARE_ITEMS {
        Err(Refusal::BadRequest)
    } else {
        Ok(())
    }
}

/// Sharing is a logged-in capability: guests and share visitors cannot
/// mint links, and a request names between one and fifty items.
pub fn check_share_request(user: &UserRow, item_count: usize) -> (r: Result<(), Refusal>)
    ensures
        r == share_request_verdict(*user, item_count as nat),
{
    if user.id == GUEST_USER_ID {
        return Err(Refusal::Unauthorized);
    }
    if starts_with_chars(&chars_of(user.oidc_sub.as_str()), &chars_of("share:")) {
        return Err(Refusal::Forbidden);
    }
    if item_count == 0 || item_count > MAX_SHARE_ITEMS {
        return Err(Refusal::BadRequest);
    }
    Ok(())
}

/// One requested item, resolved and permission-checked.
#[derive(Debug, Clone)]
pub struct PreparedItem {
    pub real_path: String,
    pub display_path: String,
    pub name: String,
    pub is_dir: bool,
}

/// A requested item named after the leaf of its real path.
pub fn prepare_item(real_path: String, display_path: String, is_dir: bool) -> (r: PreparedItem)
    ensures
        r.real_path@ == real_path@,
        r.display_path@ == display_path@,
        r.name@ == leaf_of(real_path@),
        r.is_dir == is_dir,
{
    let pieces = split_chars(&chars_of(real_path.as_str()), '/');
    proof {
        lemma_split_nonempty(real_path@, '/');
    }
    let name = string_of(&pieces[pieces.len() - 1]);
    PreparedItem { real_path, display_path, name, is_dir }
}

/// The name of a collection share of `n` items.
pub open spec fn collection_title(n: nat) -> Seq<char> {
    decimal(n) + " 个项目"@
}

/// The title of a multi-item collection share.
pub fn collection_name(n: u64) -> (r: String)
    ensures
        r@ == collection_title(n as nat),
{
    let mut v = decimal_chars(n);
    extend_chars(&mut v, &chars_of(" 个项目"));
    string_of(&v)
}

/// The display paths joined with `, `.
pub open spec fn comma_list(paths: Seq<Seq<char>>) -> Seq<char>
    decreases paths.len(),
{
    if paths.len() == 0 {
        Seq::empty()
    } else if paths.len() == 1 {
        paths[0]
    } else {
        comma_list(paths.drop_last()) + ", "@ + paths.last()
    }
}

/// What the audit log records as the target of a share creation: the one
/// display path, or `"<n> items: a, b, …"` for a collection.
pub open spec fn share_summary_of(paths: Seq<Seq<char>>) -> Seq<char> {
    if paths.len() > 1 {
        decimal(paths.len()) + " items: "@ + comma_list(paths)
    } else if paths.len() == 1 {
        paths[0]
    } else {
        Seq::empty()
    }
}

/// The audit summary of a share over the given prepared items.
pub fn share_summary(items: &Vec<PreparedItem>) -> (r: String)
    ensures
        r@ == share_summary_of(items@.map_values(|p: PreparedItem| p.display_path@)),
{
    let ghost paths = items@.map_values(|p: PreparedItem| p.display_path@);
    if items.len() == 0 {
        return String::new();
    }
    if items.len() == 1 {
        return items[0].display_path.clone();
    }
    let mut list: Vec<char> = Vec::new();
    let mut i: usize = 0;
    while i < items.len()
        invariant
            i <= items@.len(),
            paths == items@.map_values(|p: PreparedItem| p.display_path@),
            list@ == comma_list(paths.take(i as int)),
        decreases items.len() - i,
    {
        assert(paths.take(i as int + 1).drop_last() =~= paths.take(i as int));
        if i > 0 {
            extend_chars(&mut list, &chars_of(", "));
        }
        extend_chars(&mut list, &chars_of(items[i].display_path.as_str()));
        proof {
            if i == 0 {
                assert(list@ =~= paths.take(1)[0]);
            }
        }
        i = i + 1;
    }
    assert(paths.take(items@.len() as int) =~= paths);
    let mut v = decimal_chars(items.len() as u64);
    extend_chars(&mut v, &chars_of(" items: "));
    extend_chars(&mut v, &list);
    string_of(&v)
}

/// The audit detail of a share creation.
pub fn expiry_detail(expires_at: &Option<String>) -> (r: String)
    ensures
        match expires_at {
            Some(e) => r@ == "expires: "@ + e@,
            None => r@ == "never expires"@,
        },
{
    match expires_at {
        Some(e) => {
            let mut v = chars_of("expires: ");
            extend_chars(&mut v, &chars_of(e.as_str()));
            string_of(&v)
        },
        None => string_from_str("never expires"),
    }
}

/// The header row of a new share: a collection's header carries no real
/// path and is always a directory; a single item is stored as itself.
pub struct ShareHeader {
    pub real_path: String,
    pub display_path: String,
    pub name: String,
    pub is_dir: bool,
}

/// The header row for the given prepared items (at least one).
pub fn share_header(items: &Vec<PreparedItem>) -> (r: ShareHeader)
    requires
        items@.len() >= 1,
        items@.len() <= u64::MAX,
    ensures
        items@.len() > 1 ==> r.real_path@.len() == 0 && r.display_path@.len() == 0 && r.name@
            == collection_title(items@.len()) && r.is_dir,
        items@.len() == 1 ==> r.real_path@ == items@[0].real_path@ && r.display_path@
            == items@[0].display_path@ && r.name@ == items@[0].name@ && r.is_dir
            == items@[0].is_dir,
{
    if items.len() > 1 {
        ShareHeader {
            real_path: String::new(),
            display_path: String::new(),
            name: collection_name(items.len() as u64),
            is_dir: true,
        }
    } else {
        ShareHeader {
            real_path: items[0].real_path.clone(),
            display_path: items[0].display_path.clone(),
            name: items[0].name.clone(),
            is_dir: items[0].is_dir,
        }
    }
}

/// Whose links a listing shows: everyone's for admins, else the caller's.
pub fn share_list_owner(user: &UserRow) -> (r: Option<i64>)
    ensures
        user.is_admin == 1 ==> r is None,
        user.is_admin != 1 ==> r == Some(user.id),
{
    if user.is_admin == 1 {
        None
    } else {
        Some(user.id)
    }
}

/// Only a link's creator or an admin may revoke it.
pub fn may_revoke(created_by: i64, user: &UserRow) -> (r: bool)
    ensures
        r == (created_by == user.id || user.is_admin == 1),
{
    created_by == user.id || user.is_admin == 1
}

/// Where `/s/<token>` redirects: the share page under the URL prefix,
/// with a trailing slash so relative asset URLs stay under the share.
pub fn share_index_target(base: &str, token: &str) -> (r: String)
    ensures
        r@ == base@ + share_path(token@) + "/"@,
{
    let mut v = chars_of(base);
    extend_chars(&mut v, &chars_of(share_url(token).as_str()));
    extend_chars(&mut v, &chars_of("/"));
    string_of(&v)
}

/// The read rule a share grants its visitors on one shared real path.
pub open spec fn share_grant(path: Seq<char>) -> (i64, Seq<char>, Option<i64>, Option<i64>, Seq<char>) {
    (0, path, Some(SHARE_USER_ID), None, "read"@)
}

pub open spec fn grant_view(e: AclEntryRow) -> (i64, Seq<char>, Option<i64>, Option<i64>, Seq<char>) {
    (e.id, e.path@, e.user_id, e.group_id, e.permission@)
}

/// The paths a share exposes: its own real path for a single-item share,
/// the items' real paths for a collection (whose own real path is empty).
pub open spec fn shared_paths(row: ShareLinkRow, items: Seq<ShareItemRow>) -> Seq<Seq<char>> {
    if row.real_path@.len() == 0 {
        items.map_values(|i: ShareItemRow| i.real_path@)
    } else {
        seq![row.real_path@]
    }
}

/// The read-only rules a share visitor is governed by, synthesized per
/// request from the share's own rows (nothing is stored for visitors):
/// `read` for the share identity on each shared path.
pub fn share_grants(row: &ShareLinkRow, items: &Vec<ShareItemRow>) -> (r: Vec<AclEntryRow>)
    ensures
        r@.map_values(|e: AclEntryRow| grant_view(e)) == shared_paths(*row, items@).map_values(
            |p: Seq<char>| share_grant(p),
        ),
{
    let mut out: Vec<AclEntryRow> = Vec::new();
    if chars_of(row.real_path.as_str()).len() > 0 {
        out.push(AclEntryRow {
            id: 0,
            path: row.real_path.clone(),
            user_id: Some(SHARE_USER_ID),
            group_id: None,
            permission: string_from_str("read"),
        });
        assert(out@.map_values(|e: AclEntryRow| grant_view(e)) =~= shared_paths(*row, items@).map_values(
            |p: Seq<char>| share_grant(p),
        ));
        return out;
    }
    let ghost paths = items@.map_values(|i: ShareItemRow| i.real_path@);
    let mut k: usize = 0;
    while k < items.len()
        invariant
            k <= items@.len(),
            paths == items@.map_values(|i: ShareItemRow| i.real_path@),
            out@.map_values(|e: AclEntryRow| grant_view(e)) == paths.take(k as int).map_values(
                |p: Seq<char>| share_grant(p),
            ),
        decreases items.len() - k,
    {
        let ghost before = out@.map_values(|e: AclEntryRow| grant_view(e));
        out.push(AclEntryRow {
            id: 0,
            path: items[k].real_path.clone(),
            user_id: Some(SHARE_USER_ID),
            group_id: None,
            permission: string_from_str("read"),
        });
        assert(out@.map_values(|e: AclEntryRow| grant_view(e)) =~= before.push(share_grant(paths[k as int])));
        assert(paths.take(k as int + 1).map_values(|p: Seq<char>| share_grant(p)) =~= paths.take(
            k as int,
        ).map_values(|p: Seq<char>| share_grant(p)).push(share_grant(paths[k as int])));
        k = k + 1;
    }
    assert(paths.take(items@.len() as int) =~= paths);
    out
}

} // verus!
