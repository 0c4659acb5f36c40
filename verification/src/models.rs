//! The shapes of request and response bodies exchanged with the frontend.
use vstd::prelude::*;

verus! {

/// One entry of a directory listing.
#[derive(Debug, Clone)]
pub struct FileEntry {
    pub name: String,
    /// The path the frontend uses for navigation and file operations: a
    /// virtual path below the share root for non-admin users, the real path
    /// for users who see the real tree.
    pub path: String,
    pub is_dir: bool,
    pub size: u64,
    pub modified: String,
    pub mime_type: String,
}

/// A directory listing.
#[derive(Debug, Clone)]
pub struct DirListing {
    /// Path of the current directory ("" = the root).
    pub current_path: String,
    pub parent_path: Option<String>,
    /// Whether this listing is the virtual share root.
    pub is_share_root: bool,
    /// Whether the current directory permits writes (uploads, mkdir, …).
    pub writable: bool,
    pub entries: Vec<FileEntry>,
}

/// Query of a directory listing.
#[derive(Debug, Clone)]
pub struct ListQuery {
    pub path: Option<String>,
}

/// Query of the recursive size of a path.
#[derive(Debug, Clone)]
pub struct SizeQuery {
    pub path: String,
    /// Give up (and report `exceeded`) once the total passes this many bytes.
    pub limit: Option<u64>,
}

/// Recursive size of a path.
#[derive(Debug, Clone)]
pub struct SizeResponse {
    /// Bytes of every readable, non-hidden file under the path.
    pub size: u64,
    /// The walk stopped early because `size > limit`; `size` is a lower bound.
    pub exceeded: bool,
}

/// A file operation on one path.
#[derive(Debug, Clone)]
pub struct FileOperation {
    pub path: String,
}

#[derive(Debug, Clone)]
pub struct MoveRequest {
    pub source: String,
    pub destination: String,
}

#[derive(Debug, Clone)]
pub struct RenameRequest {
    pub path: String,
    pub new_name: String,
}

#[derive(Debug, Clone)]
pub struct MkdirRequest {
    pub path: String,
    pub name: String,
}

/// Query of a file's details or raw bytes.
#[derive(Debug, Clone)]
pub struct ContentQuery {
    pub path: String,
}

/// Saving edited text.
#[derive(Debug, Clone)]
pub struct SaveContentRequest {
    pub path: String,
    pub content: String,
}

/// A file's metadata plus, for small text files, its content.
#[derive(Debug, Clone)]
pub struct FileContentResponse {
    pub name: String,
    /// Display path (same meaning as `FileEntry::path`).
    pub path: String,
    pub size: u64,
    pub modified: String,
    pub mime_type: String,
    /// Whether the file is previewable/editable as plain text.
    pub is_text: bool,
    /// Whether the caller holds write permission on the file.
    pub writable: bool,
    /// Full text content; `None` for binary files or oversized text files.
    pub content: Option<String>,
    /// The file is textual but larger than the preview limit.
    pub truncated: bool,
}

/// Creating a share link: one path for a single item, several for a
/// collection; `ttl_secs == 0` never expires.
#[derive(Debug, Clone)]
pub struct CreateShareRequest {
    pub items: Vec<String>,
    pub ttl_secs: u64,
}

/// A freshly created share link.
#[derive(Debug, Clone)]
pub struct ShareLinkResponse {
    pub token: String,
    pub url: String,
    pub expires_at: Option<String>,
}

/// One top-level item of a share, as its owner sees it.
#[derive(Debug, Clone)]
pub struct ShareItemInfo {
    pub name: String,
    pub path: String,
    pub is_dir: bool,
}

/// One share link as listed for its owner.
#[derive(Debug, Clone)]
pub struct ShareLinkInfo {
    pub token: String,
    pub name: String,
    /// Path as the owner sees it; empty for collections.
    pub path: String,
    pub is_dir: bool,
    /// Top-level items; non-empty only for collections.
    pub items: Vec<ShareItemInfo>,
    pub creator: String,
    pub expires_at: Option<String>,
    pub url: String,
}

#[derive(Debug, Clone)]
pub struct SetAclRequest {
    pub path: String,
    pub user_id: Option<i64>,
    pub group_id: Option<i64>,
    pub permission: String,
}

#[derive(Debug, Clone)]
pub struct CreateGroupRequest {
    pub name: String,
    pub description: Option<String>,
}

#[derive(Debug, Clone)]
pub struct AddUserToGroupRequest {
    pub user_id: i64,
    pub group_id: i64,
}

/// A transfer token and the opaque path it is bound to.
#[derive(Debug, Clone)]
pub struct TokenResponse {
    pub token: String,
    pub expires_in: u64,
    /// The opaque shadow path this token is bound to.
    pub path: String,
}

#[derive(Debug, Clone)]
pub struct CurrentUserResponse {
    pub user: Option<UserInfo>,
}

#[derive(Debug, Clone)]
pub struct UserInfo {
    pub id: i64,
    pub display_name: String,
    pub email: Option<String>,
    pub is_admin: bool,
}

/// Query of a transfer token: a path and `read` or `write`.
#[derive(Debug, Clone)]
pub struct TokenQuery {
    pub path: String,
    pub op: String,
}

/// Comma-separated shadow paths to translate to display paths.
#[derive(Debug, Clone)]
pub struct NamesQuery {
    pub paths: String,
}

/// Query of the audit log.
#[derive(Debug, Clone)]
pub struct AuditQuery {
    /// Page size, 1..=500 (default 100).
    pub limit: Option<u32>,
    /// Row offset into the filtered result set.
    pub offset: Option<u32>,
    /// Exact action filter.
    pub action: Option<String>,
    /// Substring filter over username, path and detail.
    pub q: Option<String>,
}

/// The OIDC provider's redirect back to the callback.
#[derive(Debug, Clone)]
pub struct CallbackQuery {
    pub code: String,
    pub state: Option<String>,
    pub nonce: Option<String>,
}

} // verus!
