//! Who is behind a request: real users, the synthetic guest and share-link
//! visitors, with the groups and extra rules that govern their access.
use vstd::prelude::*;
use crate::rows::{copy_entry, AclEntryRow, UserRow};
use crate::text::{chars_of, slice_chars, starts_with, starts_with_chars, string_from_str, string_of};

verus! {

/// Name of the session cookie.
pub open spec fn session_cookie_name() -> Seq<char> {
    "fh_session"@
}

/// The synthetic user id used for unauthenticated requests. Real users always
/// have positive ids from the `users` table, so -1 can never collide.
pub const GUEST_USER_ID: i64 = -1;

/// The synthetic user id of share-link visitors; like the guest's, it can
/// never collide with a stored user.
pub const SHARE_USER_ID: i64 = -2;

/// Cookie value prefix identifying a share session (`share:<token>`). Real
/// session ids are UUIDs, so the prefix can never collide with one.
pub open spec fn share_cookie_prefix() -> Seq<char> {
    "share:"@
}

/// Subject prefix of share-link identities (`share:<token>`).
pub open spec fn share_sub_prefix() -> Seq<char> {
    "share:"@
}

/// Issues and removes session cookies; stateless itself.
#[derive(Debug, Clone, Copy)]
pub struct SessionManager;

impl SessionManager {
    pub fn new() -> (r: SessionManager)
        ensures
            r == SessionManager,
    {
        SessionManager
    }
}

/// The name of the session cookie.
pub fn session_cookie() -> (r: String)
    ensures
        r@ == session_cookie_name(),
{
    string_from_str("fh_session")
}

/// A synthetic "guest" user representing an unauthenticated request. Its
/// permissions come entirely from the `guest` group via ACLs; it is never
/// persisted in the `users` table and can never be an admin.
pub fn guest_user() -> (r: UserRow)
    ensures
        r.id == GUEST_USER_ID,
        r.oidc_sub@ == "guest"@,
        r.display_name@ == "Guest"@,
        r.email is None,
        r.is_admin == 0,
{
    UserRow {
        id: GUEST_USER_ID,
        oidc_sub: string_from_str("guest"),
        display_name: string_from_str("Guest"),
        email: None,
        is_admin: 0,
    }
}

/// The synthetic user representing a share-link visitor. Like the guest, it
/// is never persisted in the `users` table; its permissions come from the
/// read-only rules synthesized from the share's own stored paths.
pub fn share_user(token: &str, title: &str) -> (r: UserRow)
    ensures
        r.id == SHARE_USER_ID,
        r.oidc_sub@ == share_sub_prefix() + token@,
        r.display_name@ == title@,
        r.email is None,
        r.is_admin == 0,
{
    let mut sub = chars_of("share:");
    let t = chars_of(token);
    let mut i: usize = 0;
    while i < t.len()
        invariant
            i <= t.len(),
            sub@ == share_sub_prefix() + t@.take(i as int),
        decreases t.len() - i,
    {
        sub.push(t[i]);
        assert(share_sub_prefix() + t@.take(i as int + 1) =~= (share_sub_prefix() + t@.take(
            i as int,
        )).push(t@[i as int]));
        i = i + 1;
    }
    assert(t@.take(t.len() as int) =~= t@);
    UserRow {
        id: SHARE_USER_ID,
        oidc_sub: string_of(&sub),
        display_name: string_from_str(title),
        email: None,
        is_admin: 0,
    }
}

/// Whether `user` is a temporary share-link identity (see [`share_user`]).
pub fn is_share_user(user: &UserRow) -> (r: bool)
    ensures
        r == starts_with(user.oidc_sub@, share_sub_prefix()),
{
    starts_with_chars(&chars_of(user.oidc_sub.as_str()), &chars_of("share:"))
}

/// The share token of a share-link identity.
pub fn share_token_of(user: &UserRow) -> (r: Option<String>)
    ensures
        match r {
            None => !starts_with(user.oidc_sub@, share_sub_prefix()),
            Some(t) => starts_with(user.oidc_sub@, share_sub_prefix()) && user.oidc_sub@
                == share_sub_prefix() + t@,
        },
{
    let sub = chars_of(user.oidc_sub.as_str());
    let prefix = chars_of("share:");
    if !starts_with_chars(&sub, &prefix) {
        return None;
    }
    let rest = slice_chars(&sub, prefix.len(), sub.len());
    assert(sub@ =~= prefix@ + rest@);
    Some(string_of(&rest))
}

/// What a session cookie holds.
#[derive(Debug, Clone, PartialEq, Eq)]
pub enum SessionCookie {
    /// A share-link session: the share token is the capability.
    Share(String),
    /// A login session id.
    Session(String),
}

/// Classify a session cookie value: `share:<token>` is a share session,
/// anything else a login session id.
pub fn classify_cookie(value: &str) -> (r: SessionCookie)
    ensures
        match r {
            SessionCookie::Share(t) => starts_with(value@, share_cookie_prefix()) && value@
                == share_cookie_prefix() + t@,
            SessionCookie::Session(id) => !starts_with(value@, share_cookie_prefix()) && id@
                == value@,
        },
{
    let v = chars_of(value);
    let prefix = chars_of("share:");
    if starts_with_chars(&v, &prefix) {
        let rest = slice_chars(&v, prefix.len(), v.len());
        assert(v@ =~= prefix@ + rest@);
        SessionCookie::Share(string_of(&rest))
    } else {
        SessionCookie::Session(string_of(&v))
    }
}

/// The groups that actually apply to a user for ACL decisions: their
/// explicit memberships, or the reserved `default` group when they have
/// none (and nothing when that group does not exist).
pub open spec fn effective(explicit: Seq<i64>, default_group: Option<i64>) -> Seq<i64> {
    if explicit.len() > 0 {
        explicit
    } else {
        match default_group {
            Some(id) => seq![id],
            None => Seq::empty(),
        }
    }
}

/// The groups governing a user with the given explicit memberships.
pub fn effective_groups(explicit: Vec<i64>, default_group: Option<i64>) -> (r: Vec<i64>)
    ensures
        r@ == effective(explicit@, default_group),
{
    if explicit.len() > 0 {
        return explicit;
    }
    match default_group {
        Some(id) => {
            let v = vec![id];
            assert(v@ =~= seq![id]);
            v
        },
        None => Vec::new(),
    }
}

/// The user (or a synthetic guest/share identity) behind a request, plus the
/// groups that apply for ACL decisions.
pub struct RequestUser {
    pub user: UserRow,
    pub groups: Vec<i64>,
    /// Extra ACL entries that apply ONLY to this request's identity.
    /// Non-empty for share visitors (the synthesized read grants of their
    /// share link); always empty for real users, admins and guests.
    pub share_entries: Vec<AclEntryRow>,
}

impl RequestUser {
    /// A share visitor: no groups at all (an empty membership must NOT fall
    /// back to the `default` group), and the share's read grants as extra
    /// rules.
    pub fn for_share(user: UserRow, share_entries: Vec<AclEntryRow>) -> (r: RequestUser)
        ensures
            r.user == user,
            r.groups@.len() == 0,
            r.share_entries@ == share_entries@,
    {
        RequestUser { user, groups: Vec::new(), share_entries }
    }

    /// A logged-in user with their effective groups.
    pub fn for_member(user: UserRow, groups: Vec<i64>) -> (r: RequestUser)
        ensures
            r.user == user,
            r.groups@ == groups@,
            r.share_entries@.len() == 0,
    {
        RequestUser { user, groups, share_entries: Vec::new() }
    }

    /// An unauthenticated visitor: the guest user in the reserved `guest`
    /// group (when it exists).
    pub fn for_guest(guest_group: Option<i64>) -> (r: RequestUser)
        ensures
            r.user.id == GUEST_USER_ID,
            r.user.is_admin == 0,
            r.user.oidc_sub@ == "guest"@,
            r.groups@ == (match guest_group {
                Some(id) => seq![id],
                None => Seq::<i64>::empty(),
            }),
            r.share_entries@.len() == 0,
    {
        let groups = match guest_group {
            Some(id) => {
                let v = vec![id];
                assert(v@ =~= seq![id]);
                v
            },
            None => Vec::new(),
        };
        RequestUser { user: guest_user(), groups, share_entries: Vec::new() }
    }

    /// The ACL entries that govern this request: the global table plus, for
    /// share visitors, their share's synthesized read grants, so share
    /// grants flow through the same `can_access`/`user_shares` engine as
    /// everyone else's.
    pub fn acl_entries(&self, global: &[AclEntryRow]) -> (r: Vec<AclEntryRow>)
        ensures
            r@ == global@ + self.share_entries@,
    {
        let mut all: Vec<AclEntryRow> = Vec::new();
        let mut i: usize = 0;
        while i < global.len()
            invariant
                i <= global.len(),
                all@ == global@.take(i as int),
            decreases global.len() - i,
        {
            all.push(copy_entry(&global[i]));
            assert(global@.take(i as int + 1) =~= global@.take(i as int).push(global@[i as int]));
            i = i + 1;
        }
        let mut j: usize = 0;
        while j < self.share_entries.len()
            invariant
                j <= self.share_entries@.len(),
                all@ == global@ + self.share_entries@.take(j as int),
            decreases self.share_entries.len() - j,
        {
            all.push(copy_entry(&self.share_entries[j]));
            assert(global@ + self.share_entries@.take(j as int + 1) =~= (global@
                + self.share_entries@.take(j as int)).push(self.share_entries@[j as int]));
            j = j + 1;
        }
        assert(global@.take(global@.len() as int) =~= global@);
        assert(self.share_entries@.take(self.share_entries@.len() as int) =~= self.share_entries@);
        all
    }
}

/// How an acting user is recorded in the audit log: guests anonymously as
/// `guest`, everyone else by id and display name.
pub fn audit_actor(actor: &UserRow) -> (r: (Option<i64>, String))
    ensures
        actor.id == GUEST_USER_ID ==> r.0 is None && r.1@ == "guest"@,
        actor.id != GUEST_USER_ID ==> r.0 == Some(actor.id) && r.1@ == actor.display_name@,
{
    if actor.id == GUEST_USER_ID {
        (None, string_from_str("guest"))
    } else {
        (Some(actor.id), actor.display_name.clone())
    }
}

/// What resolving the identity behind a request waits for.
pub enum IdentityStage {
    /// The request's session cookie, if any.
    Cookie,
    /// Whether a share link with this token is live (its title if so).
    ShareLink(String),
    /// The user a login session belongs to.
    SessionUser,
    /// The synthesized read rules of a share visitor's share.
    ShareEntries(UserRow),
    /// A logged-in user's effective groups.
    Groups(UserRow),
    /// The id of the reserved `guest` group.
    GuestGroup,
    /// Resolved.
    Done,
}

/// What the driver hands back: the cookie, or the answer to a lookup.
pub enum IdentityEvent {
    Cookie(Option<String>),
    /// The title of the live share, `None` when no share has the token.
    ShareLink(Option<String>),
    SessionUser(Option<UserRow>),
    ShareEntries(Vec<AclEntryRow>),
    Groups(Vec<i64>),
    GuestGroup(Option<i64>),
}

/// What the driver does next: a lookup, or the resolved identity.
pub enum IdentityAction {
    FetchShareLink(String),
    FetchSessionUser(String),
    FetchShareEntries(String),
    FetchGroups(i64),
    FetchGuestGroup,
    Resolved(RequestUser),
}

/// The event is the answer the stage waits for.
pub open spec fn identity_expects(stage: IdentityStage, event: IdentityEvent) -> bool {
    match stage {
        IdentityStage::Cookie => event is Cookie,
        IdentityStage::ShareLink(_) => event is ShareLink,
        IdentityStage::SessionUser => event is SessionUser,
        IdentityStage::ShareEntries(_) => event is ShareEntries,
        IdentityStage::Groups(_) => event is Groups,
        IdentityStage::GuestGroup => event is GuestGroup,
        IdentityStage::Done => false,
    }
}

/// The resolved guest: the guest user in the `guest` group when it exists,
/// with no extra rules.
pub open spec fn is_guest_request(ru: RequestUser, guest_group: Option<i64>) -> bool {
    &&& ru.user.id == GUEST_USER_ID
    &&& ru.user.is_admin == 0
    &&& ru.user.oidc_sub@ == "guest"@
    &&& ru.groups@ == match guest_group {
        Some(id) => seq![id],
        None => Seq::<i64>::empty(),
    }
    &&& ru.share_entries@.len() == 0
}

/// One step of resolving who is behind a request. No cookie, a share
/// cookie whose share is gone, or a session that belongs to nobody make a
/// guest; a live share cookie makes a share visitor (no groups, the share's
/// read rules as extra rules); a session user is a share visitor when their
/// subject is a share subject and a member with their groups otherwise.
pub fn identity_step(stage: IdentityStage, event: IdentityEvent) -> (r: (
    IdentityStage,
    IdentityAction,
))
    requires
        identity_expects(stage, event),
    ensures
        match (stage, event) {
            (IdentityStage::Cookie, IdentityEvent::Cookie(None)) => r.0 is GuestGroup && r.1 is FetchGuestGroup,
            (IdentityStage::Cookie, IdentityEvent::Cookie(Some(v))) => if starts_with(
                v@,
                share_cookie_prefix(),
            ) {
                &&& r.0 matches IdentityStage::ShareLink(t) && v@ == share_cookie_prefix() + t@
                &&& r.1 matches IdentityAction::FetchShareLink(t) && v@ == share_cookie_prefix() + t@
            } else {
                &&& r.0 is SessionUser
                &&& r.1 matches IdentityAction::FetchSessionUser(id) && id@ == v@
            },
            (IdentityStage::ShareLink(_), IdentityEvent::ShareLink(None)) => r.0 is GuestGroup && r.1 is FetchGuestGroup,
            (IdentityStage::ShareLink(t), IdentityEvent::ShareLink(Some(title))) => {
                &&& r.0 matches IdentityStage::ShareEntries(u) && u.id == SHARE_USER_ID && u.oidc_sub@
                    == share_sub_prefix() + t@ && u.display_name@ == title@ && u.email is None
                    && u.is_admin == 0
                &&& r.1 matches IdentityAction::FetchShareEntries(t2) && t2@ == t@
            },
            (IdentityStage::SessionUser, IdentityEvent::SessionUser(None)) => r.0 is GuestGroup && r.1 is FetchGuestGroup,
            (IdentityStage::SessionUser, IdentityEvent::SessionUser(Some(u))) => if starts_with(
                u.oidc_sub@,
                share_sub_prefix(),
            ) {
                &&& r.0 == IdentityStage::ShareEntries(u)
                &&& r.1 matches IdentityAction::FetchShareEntries(t) && u.oidc_sub@
                    == share_sub_prefix() + t@
            } else {
                &&& r.0 == IdentityStage::Groups(u)
                &&& r.1 matches IdentityAction::FetchGroups(id) && id == u.id
            },
            (IdentityStage::ShareEntries(u), IdentityEvent::ShareEntries(es)) => {
                &&& r.0 is Done
                &&& r.1 matches IdentityAction::Resolved(ru) && ru.user == u && ru.groups@.len()
                    == 0 && ru.share_entries@ == es@
            },
            (IdentityStage::Groups(u), IdentityEvent::Groups(g)) => {
                &&& r.0 is Done
                &&& r.1 matches IdentityAction::Resolved(ru) && ru.user == u && ru.groups@ == g@
                    && ru.share_entries@.len() == 0
            },
            (IdentityStage::GuestGroup, IdentityEvent::GuestGroup(g)) => {
                &&& r.0 is Done
                &&& r.1 matches IdentityAction::Resolved(ru) && is_guest_request(ru, g)
            },
            _ => false,
        },
{
    match stage {
        IdentityStage::Cookie => match event {
            IdentityEvent::Cookie(None) => (IdentityStage::GuestGroup, IdentityAction::FetchGuestGroup),
            IdentityEvent::Cookie(Some(v)) => match classify_cookie(v.as_str()) {
                SessionCookie::Share(t) => {
                    let t2 = string_of(&chars_of(t.as_str()));
                    (IdentityStage::ShareLink(t), IdentityAction::FetchShareLink(t2))
                },
                SessionCookie::Session(id) => (
                    IdentityStage::SessionUser,
                    IdentityAction::FetchSessionUser(id),
                ),
            },
            _ => (IdentityStage::Done, IdentityAction::FetchGuestGroup),
        },
        IdentityStage::ShareLink(t) => match event {
            IdentityEvent::ShareLink(None) => (IdentityStage::GuestGroup, IdentityAction::FetchGuestGroup),
            IdentityEvent::ShareLink(Some(title)) => {
                let u = share_user(t.as_str(), title.as_str());
                (IdentityStage::ShareEntries(u), IdentityAction::FetchShareEntries(t))
            },
            _ => (IdentityStage::Done, IdentityAction::FetchGuestGroup),
        },
        IdentityStage::SessionUser => match event {
            IdentityEvent::SessionUser(None) => (IdentityStage::GuestGroup, IdentityAction::FetchGuestGroup),
            IdentityEvent::SessionUser(Some(u)) => match share_token_of(&u) {
                Some(t) => (IdentityStage::ShareEntries(u), IdentityAction::FetchShareEntries(t)),
                None => {
                    let id = u.id;
                    (IdentityStage::Groups(u), IdentityAction::FetchGroups(id))
                },
            },
            _ => (IdentityStage::Done, IdentityAction::FetchGuestGroup),
        },
        IdentityStage::ShareEntries(u) => match event {
            IdentityEvent::ShareEntries(es) => (
                IdentityStage::Done,
                IdentityAction::Resolved(RequestUser::for_share(u, es)),
            ),
            _ => (IdentityStage::Done, IdentityAction::FetchGuestGroup),
        },
        IdentityStage::Groups(u) => match event {
            IdentityEvent::Groups(g) => (
                IdentityStage::Done,
                IdentityAction::Resolved(RequestUser::for_member(u, g)),
            ),
            _ => (IdentityStage::Done, IdentityAction::FetchGuestGroup),
        },
        IdentityStage::GuestGroup => match event {
            IdentityEvent::GuestGroup(g) => (
                IdentityStage::Done,
                IdentityAction::Resolved(RequestUser::for_guest(g)),
            ),
            _ => (IdentityStage::Done, IdentityAction::FetchGuestGroup),
        },
        IdentityStage::Done => (IdentityStage::Done, IdentityAction::FetchGuestGroup),
    }
}

} // verus!
