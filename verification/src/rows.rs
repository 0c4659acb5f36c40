//! Records read from the database, as the policy engine sees them.
use vstd::prelude::*;

verus! {

/// A user account (or a synthetic guest/share identity).
#[derive(Debug, Clone)]
pub struct UserRow {
    pub id: i64,
    pub oidc_sub: String,
    pub display_name: String,
    pub email: Option<String>,
    pub is_admin: i64,
}

/// A group together with its member count.
#[derive(Debug, Clone)]
pub struct GroupRow {
    pub id: i64,
    pub name: String,
    pub description: Option<String>,
    pub member_count: i64,
}

/// One access-control rule: `permission` on `path` for a user or a group.
#[derive(Debug, Clone)]
pub struct AclEntryRow {
    pub id: i64,
    pub path: String,
    pub user_id: Option<i64>,
    pub group_id: Option<i64>,
    pub permission: String,
}

/// An ACL rule joined with the names of the user/group it targets.
#[derive(Debug, Clone)]
pub struct AclEntryRowFull {
    pub id: i64,
    pub path: String,
    pub user_id: Option<i64>,
    pub group_id: Option<i64>,
    pub permission: String,
    pub user_name: Option<String>,
    pub group_name: Option<String>,
}

/// One audit-log entry.
#[derive(Debug, Clone)]
pub struct AuditRow {
    pub id: i64,
    /// Local wall-clock time of the insert.
    pub ts: String,
    /// Acting user's id; `None` for anonymous (guest) actors.
    pub user_id: Option<i64>,
    /// Display-name snapshot of the actor.
    pub username: String,
    /// Event kind, e.g. `login`, `delete`, `acl.set`.
    pub action: String,
    /// Display path the event applies to (may be empty).
    pub path: String,
    /// Free-form extra information.
    pub detail: String,
}

/// A temporary share link. `real_path` is empty for multi-item collections,
/// whose items live in [`ShareItemRow`]s.
#[derive(Debug, Clone)]
pub struct ShareLinkRow {
    pub token: String,
    pub real_path: String,
    pub display_path: String,
    pub name: String,
    pub is_dir: bool,
    pub created_by: i64,
    pub creator: String,
    pub expires_at: Option<String>,
}

/// One item of a multi-item share link.
#[derive(Debug, Clone)]
pub struct ShareItemRow {
    pub real_path: String,
    pub display_path: String,
    pub name: String,
    pub is_dir: bool,
}

/// Field-by-field copy of a rule.
pub fn copy_entry(e: &AclEntryRow) -> (r: AclEntryRow)
    ensures
        r == *e,
{
    AclEntryRow {
        id: e.id,
        path: e.path.clone(),
        user_id: e.user_id,
        group_id: e.group_id,
        permission: e.permission.clone(),
    }
}

} // verus!
