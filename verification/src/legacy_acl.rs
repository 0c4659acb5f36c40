//! The first-generation permission check, kept for deployments whose ACL
//! rows are fetched per path: an unconfigured path is readable by default,
//! and the first rule naming the user (or one of their groups) decides.
use vstd::prelude::*;
use crate::acl::{grants, lit_admin, lit_read, lit_write};
use crate::rows::{AclEntryRow, UserRow};
use crate::text::{chars_eq, chars_of};

verus! {

/// The permission an ACL rule grants.
#[derive(Debug, Clone, Copy, PartialEq, Eq, Structural)]
pub enum Permission {
    Read,
    Write,
    Admin,
}

/// The permission a stored name denotes.
pub open spec fn permission_named(s: Seq<char>) -> Option<Permission> {
    if s == lit_read() {
        Some(Permission::Read)
    } else if s == lit_write() {
        Some(Permission::Write)
    } else if s == lit_admin() {
        Some(Permission::Admin)
    } else {
        None
    }
}

/// Admin covers everything, Write covers Read and Write, Read only Read.
pub open spec fn covers_legacy(held: Permission, required: Permission) -> bool {
    match held {
        Permission::Admin => true,
        Permission::Write => required == Permission::Read || required == Permission::Write,
        Permission::Read => required == Permission::Read,
    }
}

impl Permission {
    /// Parses `read`, `write` or `admin`.
    pub fn from_str(s: &str) -> (r: Option<Permission>)
        ensures
            r == permission_named(s@),
    {
        let v = chars_of(s);
        let read = vec!['r', 'e', 'a', 'd'];
        let write = vec!['w', 'r', 'i', 't', 'e'];
        let admin = vec!['a', 'd', 'm', 'i', 'n'];
        assert(read@ =~= lit_read());
        assert(write@ =~= lit_write());
        assert(admin@ =~= lit_admin());
        if chars_eq(&v, &read) {
            Some(Permission::Read)
        } else if chars_eq(&v, &write) {
            Some(Permission::Write)
        } else if chars_eq(&v, &admin) {
            Some(Permission::Admin)
        } else {
            None
        }
    }

    /// Whether this permission satisfies `required`.
    pub fn covers(&self, required: &Permission) -> (r: bool)
        ensures
            r == covers_legacy(*self, *required),
    {
        match self {
            Permission::Admin => true,
            Permission::Write => match required {
                Permission::Read | Permission::Write => true,
                Permission::Admin => false,
            },
            Permission::Read => match required {
                Permission::Read => true,
                _ => false,
            },
        }
    }
}

/// The permission a stored rule grants; an unknown name counts as Read.
pub open spec fn rule_permission(e: AclEntryRow) -> Permission {
    match permission_named(e.permission@) {
        Some(p) => p,
        None => Permission::Read,
    }
}

/// The decision over the rules stored for a path, in order: the first rule
/// naming the user or one of their groups decides.
pub open spec fn first_rule_decides(
    user: UserRow,
    groups: Seq<i64>,
    rules: Seq<AclEntryRow>,
    required: Permission,
) -> bool
    decreases rules.len(),
{
    if rules.len() == 0 {
        false
    } else if grants(rules[0], user, groups) {
        covers_legacy(rule_permission(rules[0]), required)
    } else {
        first_rule_decides(user, groups, rules.drop_first(), required)
    }
}

/// The full decision: admins pass; a path without rules is readable only;
/// otherwise the first rule naming the user or a group decides, and with
/// no such rule access is denied.
pub open spec fn legacy_allowed(
    user: UserRow,
    groups: Seq<i64>,
    rules: Seq<AclEntryRow>,
    required: Permission,
) -> bool {
    if user.is_admin == 1 {
        true
    } else if rules.len() == 0 {
        required == Permission::Read
    } else {
        first_rule_decides(user, groups, rules, required)
    }
}

/// Check `required` against the rules stored for one path and the user's
/// group memberships.
pub fn check_permission(
    user: &UserRow,
    path_rules: &[AclEntryRow],
    user_groups: &[i64],
    required: Permission,
) -> (r: bool)
    ensures
        r == legacy_allowed(*user, user_groups@, path_rules@, required),
{
    if user.is_admin == 1 {
        return true;
    }
    if path_rules.len() == 0 {
        return required == Permission::Read;
    }
    let ghost rules = path_rules@;
    assert(rules.skip(0) =~= rules);
    let mut i: usize = 0;
    while i < path_rules.len()
        invariant
            i <= path_rules@.len(),
            rules == path_rules@,
            user.is_admin != 1,
            rules.len() > 0,
            first_rule_decides(*user, user_groups@, rules, required) == first_rule_decides(
                *user,
                user_groups@,
                rules.skip(i as int),
                required,
            ),
        decreases path_rules.len() - i,
    {
        let e = &path_rules[i];
        let ghost rest = rules.skip(i as int);
        assert(rest[0] == rules[i as int]);
        assert(rest.drop_first() =~= rules.skip(i as int + 1));
        let by_user = match e.user_id {
            Some(uid) => uid == user.id,
            None => false,
        };
        let mut by_group = false;
        match e.group_id {
            Some(gid) => {
                let mut k: usize = 0;
                while k < user_groups.len()
                    invariant
                        k <= user_groups@.len(),
                        by_group == exists|j: int| 0 <= j < k && user_groups@[j] == gid,
                    decreases user_groups.len() - k,
                {
                    if user_groups[k] == gid {
                        by_group = true;
                    }
                    k = k + 1;
                }
            },
            None => {},
        }
        if by_user || by_group {
            let perm = match Permission::from_str(e.permission.as_str()) {
                Some(p) => p,
                None => Permission::Read,
            };
            return perm.covers(&required);
        }
        i = i + 1;
    }
    assert(rules.skip(path_rules@.len() as int).len() == 0);
    false
}

} // verus!
