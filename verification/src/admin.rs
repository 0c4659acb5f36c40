//! Administration policy: who may administer, which groups are reserved,
//! what ACL changes are accepted and how admin actions are described in
//! the audit log.
use vstd::prelude::*;
use crate::rows::{GroupRow, UserRow};
use crate::status::Refusal;
use crate::text::{
    chars_eq, chars_of, extend_chars, signed_decimal, signed_decimal_chars, string_of, trim_ws,
    trim_ws_chars,
};

verus! {

/// Admin endpoints: no session is 401, a non-admin 403.
pub open spec fn admin_verdict(user: Option<UserRow>) -> Result<(), Refusal> {
    match user {
        None => Err(Refusal::Unauthorized),
        Some(u) => if u.is_admin != 1 {
            Err(Refusal::Forbidden)
        } else {
            Ok(())
        },
    }
}

/// Gate an admin endpoint on the session's user.
pub fn require_admin(user: &Option<UserRow>) -> (r: Result<(), Refusal>)
    ensures
        r == admin_verdict(*user),
{
    match user {
        None => Err(Refusal::Unauthorized),
        Some(u) => {
            if u.is_admin != 1 {
                Err(Refusal::Forbidden)
            } else {
                Ok(())
            }
        },
    }
}

/// The reserved groups: `default` (users without explicit groups) and
/// `guest` (unauthenticated visitors).
pub open spec fn reserved_group(name: Seq<char>) -> bool {
    name == "default"@ || name == "guest"@
}

/// Whether a group name is one of the reserved groups, whose membership is
/// managed automatically and which cannot be deleted.
pub fn is_reserved_group_name(name: &str) -> (r: bool)
    ensures
        r == reserved_group(name@),
{
    let v = chars_of(name);
    chars_eq(&v, &chars_of("default")) || chars_eq(&v, &chars_of("guest"))
}

/// A rule to set must name a known permission and a user or group target.
pub open spec fn acl_request_verdict(
    permission: Seq<char>,
    user_id: Option<i64>,
    group_id: Option<i64>,
) -> Result<(), Refusal> {
    if !(permission == "read"@ || permission == "write"@ || permission == "admin"@) {
        Err(Refusal::BadRequest)
    } else if user_id is None && group_id is None {
        Err(Refusal::BadRequest)
    } else {
        Ok(())
    }
}

/// Validate a request to set an ACL rule.
pub fn check_acl_request(permission: &str, user_id: Option<i64>, group_id: Option<i64>) -> (r:
    Result<(), Refusal>)
    ensures
        r == acl_request_verdict(permission@, user_id, group_id),
{
    let p = chars_of(permission);
    if !(chars_eq(&p, &chars_of("read")) || chars_eq(&p, &chars_of("write")) || chars_eq(
        &p,
        &chars_of("admin"),
    )) {
        return Err(Refusal::BadRequest);
    }
    if user_id.is_none() && group_id.is_none() {
        return Err(Refusal::BadRequest);
    }
    Ok(())
}

/// A name for an audit detail, or `#<id>` when the row has disappeared.
pub open spec fn name_or_id(name: Option<Seq<char>>, id: i64) -> Seq<char> {
    match name {
        Some(n) => n,
        None => seq!['#'] + signed_decimal(id as int),
    }
}

fn name_or_id_exec(name: &Option<String>, id: i64) -> (r: Vec<char>)
    ensures
        r@ == name_or_id(
            match name {
                Some(n) => Some(n@),
                None => None,
            },
            id,
        ),
{
    match name {
        Some(n) => chars_of(n.as_str()),
        None => {
            let mut v: Vec<char> = vec!['#'];
            extend_chars(&mut v, &signed_decimal_chars(id));
            assert(v@ =~= seq!['#'] + signed_decimal(id as int));
            v
        },
    }
}

/// Human-readable `"user -> group"` pair for membership audit details.
/// Falls back to `#id` when the referenced row has already disappeared.
pub fn member_change_detail(
    user_name: &Option<String>,
    user_id: i64,
    group_name: &Option<String>,
    group_id: i64,
) -> (r: String)
    ensures
        r@ == name_or_id(
            match user_name {
                Some(n) => Some(n@),
                None => None,
            },
            user_id,
        ) + " -> "@ + name_or_id(
            match group_name {
                Some(n) => Some(n@),
                None => None,
            },
            group_id,
        ),
{
    let mut v = name_or_id_exec(user_name, user_id);
    extend_chars(&mut v, &chars_of(" -> "));
    extend_chars(&mut v, &name_or_id_exec(group_name, group_id));
    string_of(&v)
}

/// The audit detail of a rule change: the permission and its target,
/// `user:<name>` when a user is named, else `group:<name>`.
pub fn acl_set_detail(
    permission: &str,
    user_id: Option<i64>,
    user_name: &Option<String>,
    group_id: Option<i64>,
    group_name: &Option<String>,
) -> (r: String)
    ensures
        r@ == "permission="@ + permission@ + " target="@ + match (user_id, group_id) {
            (Some(uid), _) => "user:"@ + name_or_id(
                match user_name {
                    Some(n) => Some(n@),
                    None => None,
                },
                uid,
            ),
            (None, Some(gid)) => "group:"@ + name_or_id(
                match group_name {
                    Some(n) => Some(n@),
                    None => None,
                },
                gid,
            ),
            (None, None) => "?"@,
        },
{
    let mut v = chars_of("permission=");
    extend_chars(&mut v, &chars_of(permission));
    extend_chars(&mut v, &chars_of(" target="));
    match (user_id, group_id) {
        (Some(uid), _) => {
            extend_chars(&mut v, &chars_of("user:"));
            extend_chars(&mut v, &name_or_id_exec(user_name, uid));
        },
        (None, Some(gid)) => {
            extend_chars(&mut v, &chars_of("group:"));
            extend_chars(&mut v, &name_or_id_exec(group_name, gid));
        },
        (None, None) => {
            extend_chars(&mut v, &chars_of("?"));
        },
    }
    string_of(&v)
}

/// The page of the audit log a query asks for: at most 500 and at least 1
/// entries (100 by default), from the given offset (0 by default).
pub fn audit_page(limit: Option<u32>, offset: Option<u32>) -> (r: (u32, u32))
    ensures
        r.0 == (match limit {
            None => 100u32,
            Some(l) => if l < 1 {
                1u32
            } else if l > 500 {
                500u32
            } else {
                l
            },
        }),
        r.1 == (match offset {
            None => 0u32,
            Some(o) => o,
        }),
{
    let l = match limit {
        None => 100,
        Some(l) => if l < 1 {
            1
        } else if l > 500 {
            500
        } else {
            l
        },
    };
    let o = match offset {
        None => 0,
        Some(o) => o,
    };
    (l, o)
}

/// The first user ever created becomes the administrator.
pub fn initial_admin_flag(existing_users: i64) -> (r: i64)
    ensures
        r == (if existing_users == 0 {
            1i64
        } else {
            0i64
        }),
{
    if existing_users == 0 {
        1
    } else {
        0
    }
}

/// The admin flag stored for a new account: with an administrator
/// configured by name nothing is stored (admin status is derived from the
/// configuration on every read); otherwise the first user becomes admin.
pub fn stored_admin_flag(admin_user: &Option<String>, existing_users: i64) -> (r: i64)
    ensures
        admin_user is Some ==> r == 0,
        admin_user is None ==> r == (if existing_users == 0 {
            1i64
        } else {
            0i64
        }),
{
    match admin_user {
        Some(_) => 0,
        None => initial_admin_flag(existing_users),
    }
}

/// The filters of an audit-log query: an exact action match when a
/// non-empty action is given, and a substring match over username, path
/// and detail when a non-blank search term is given.
pub struct AuditFilter {
    pub action: Option<String>,
    pub search: Option<String>,
}

/// Normalize the filters of an audit query (empty action and blank
/// search terms filter nothing; search terms are trimmed).
pub fn audit_filter(action: &Option<String>, q: &Option<String>) -> (r: AuditFilter)
    ensures
        match action {
            Some(a) => if a@.len() > 0 {
                r.action matches Some(x) && x@ == a@
            } else {
                r.action is None
            },
            None => r.action is None,
        },
        match q {
            Some(s) => if trim_ws(s@).len() > 0 {
                r.search matches Some(x) && x@ == trim_ws(s@)
            } else {
                r.search is None
            },
            None => r.search is None,
        },
{
    let a = match action {
        Some(a) => {
            let v = chars_of(a.as_str());
            if v.len() > 0 {
                Some(string_of(&v))
            } else {
                None
            }
        },
        None => None,
    };
    let s = match q {
        Some(s) => {
            let t = trim_ws_chars(&chars_of(s.as_str()));
            if t.len() > 0 {
                Some(string_of(&t))
            } else {
                None
            }
        },
        None => None,
    };
    AuditFilter { action: a, search: s }
}

/// Audit entries older than `days` days are pruned; `0` keeps them forever.
pub fn prunes_audit(days: u32) -> (r: bool)
    ensures
        r == (days != 0),
{
    days != 0
}

/// Whether a user is the administrator: with an administrator configured
/// by name, exactly the user whose display name or subject is that name;
/// otherwise whatever the account records.
pub fn effective_admin_flag(admin_user: &Option<String>, user: &UserRow) -> (r: i64)
    ensures
        match admin_user {
            None => r == user.is_admin,
            Some(a) => r == (if a@ == user.display_name@ || a@ == user.oidc_sub@ {
                1i64
            } else {
                0i64
            }),
        },
{
    match admin_user {
        None => user.is_admin,
        Some(a) => {
            let name = chars_of(a.as_str());
            if chars_eq(&name, &chars_of(user.display_name.as_str())) || chars_eq(
                &name,
                &chars_of(user.oidc_sub.as_str()),
            ) {
                1
            } else {
                0
            }
        },
    }
}

/// The ids of the groups named `name`, in order.
pub open spec fn groups_named(groups: Seq<GroupRow>, name: Seq<char>) -> Seq<i64>
    decreases groups.len(),
{
    if groups.len() == 0 {
        Seq::empty()
    } else {
        let prev = groups_named(groups.drop_last(), name);
        if groups.last().name@ == name {
            prev.push(groups.last().id)
        } else {
            prev
        }
    }
}

/// The groups a user's provider roles join, role by role: every existing
/// group whose name equals a role.
pub open spec fn role_groups(roles: Seq<Seq<char>>, groups: Seq<GroupRow>) -> Seq<i64>
    decreases roles.len(),
{
    if roles.len() == 0 {
        Seq::empty()
    } else {
        role_groups(roles.drop_last(), groups) + groups_named(groups, roles.last())
    }
}

/// The ids of the groups a login joins automatically: the existing groups
/// named by the provider's roles (memberships are only ever added).
pub fn role_group_ids(roles: &Vec<String>, groups: &Vec<GroupRow>) -> (r: Vec<i64>)
    ensures
        r@ == role_groups(roles@.map_values(|s: String| s@), groups@),
{
    let ghost rv = roles@.map_values(|s: String| s@);
    let mut out: Vec<i64> = Vec::new();
    let mut i: usize = 0;
    while i < roles.len()
        invariant
            i <= roles@.len(),
            rv == roles@.map_values(|s: String| s@),
            out@ == role_groups(rv.take(i as int), groups@),
        decreases roles.len() - i,
    {
        assert(rv.take(i as int + 1).drop_last() =~= rv.take(i as int));
        assert(rv.take(i as int + 1).last() == roles@[i as int]@);
        let role = chars_of(roles[i].as_str());
        let ghost before = out@;
        let mut j: usize = 0;
        while j < groups.len()
            invariant
                j <= groups@.len(),
                role@ == roles@[i as int]@,
                out@ == before + groups_named(groups@.take(j as int), role@),
            decreases groups.len() - j,
        {
            assert(groups@.take(j as int + 1).drop_last() =~= groups@.take(j as int));
            assert(groups@.take(j as int + 1).last() == groups@[j as int]);
            if chars_eq(&role, &chars_of(groups[j].name.as_str())) {
                out.push(groups[j].id);
            }
            j = j + 1;
        }
        assert(groups@.take(groups@.len() as int) =~= groups@);
        i = i + 1;
    }
    assert(rv.take(roles@.len() as int) =~= rv);
    out
}

} // verus!
