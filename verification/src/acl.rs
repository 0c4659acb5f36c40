//! The access-control engine: permission checks against ACL rules, the
//! Samba-style virtual share root, and path sanitization.
use vstd::prelude::*;
use crate::rows::{AclEntryRow, UserRow};
use crate::text::{
    byte_len, chars_eq, chars_of, concat3, contains_char, decimal, decimal_chars, extend_chars,
    has_char, join_chars, join_with, leaf_of, lemma_decimal_digits, lemma_decimal_injective,
    lemma_split_nonempty, slice_chars, split_chars,
    split_on, starts_with, starts_with_chars, string_of, trim_char, trim_chars,
};

verus! {

/// The permission an ACL rule grants.
#[derive(Debug, Clone, Copy, PartialEq, Eq, Structural)]
pub enum Permission {
    Read,
    Write,
    Admin,
}

pub open spec fn lit_read() -> Seq<char> {
    seq!['r', 'e', 'a', 'd']
}

pub open spec fn lit_write() -> Seq<char> {
    seq!['w', 'r', 'i', 't', 'e']
}

pub open spec fn lit_admin() -> Seq<char> {
    seq!['a', 'd', 'm', 'i', 'n']
}

/// The permission a stored name denotes.
pub open spec fn permission_of(s: Seq<char>) -> Option<Permission> {
    if s == lit_read() {
        Some(Permission::Read)
    } else if s == lit_write() {
        Some(Permission::Write)
    } else if s == lit_admin() {
        Some(Permission::Admin)
    } else {
        None
    }
}

/// Whether holding `held` satisfies a requirement of `required`:
/// Admin covers everything, Write covers Read and Write, Read only Read.
pub open spec fn covers_spec(held: Permission, required: Permission) -> bool {
    match held {
        Permission::Admin => true,
        Permission::Write => required == Permission::Read || required == Permission::Write,
        Permission::Read => required == Permission::Read,
    }
}

impl Permission {
    /// Parses `read`, `write` or `admin`.
    pub fn from_str(s: &str) -> (r: Option<Permission>)
        ensures
            r == permission_of(s@),
    {
        let v = chars_of(s);
        let read = vec!['r', 'e', 'a', 'd'];
        let write = vec!['w', 'r', 'i', 't', 'e'];
        let admin = vec!['a', 'd', 'm', 'i', 'n'];
        assert(read@ =~= lit_read());
        assert(write@ =~= lit_write());
        assert(admin@ =~= lit_admin());
        if chars_eq(&v, &read) {
            Some(Permission::Read)
        } else if chars_eq(&v, &write) {
            Some(Permission::Write)
        } else if chars_eq(&v, &admin) {
            Some(Permission::Admin)
        } else {
            None
        }
    }

    /// Whether this permission satisfies `required`.
    pub fn covers(&self, required: &Permission) -> (r: bool)
        ensures
            r == covers_spec(*self, *required),
    {
        match self {
            Permission::Admin => true,
            Permission::Write => match required {
                Permission::Read | Permission::Write => true,
                Permission::Admin => false,
            },
            Permission::Read => match required {
                Permission::Read => true,
                _ => false,
            },
        }
    }
}

/// The permission a stored rule grants; an unknown name counts as Read.
pub open spec fn entry_permission(e: AclEntryRow) -> Permission {
    match permission_of(e.permission@) {
        Some(p) => p,
        None => Permission::Read,
    }
}

/// Canonical ACL-matching form of a path: no leading/trailing slashes.
pub open spec fn normalized(p: Seq<char>) -> Seq<char> {
    trim_char(p, '/')
}

/// Canonical form used for ACL matching: no leading/trailing slashes.
/// The root path is the empty string.
pub fn normalize_path(path: &str) -> (r: String)
    ensures
        r@ == normalized(path@),
{
    let v = chars_of(path);
    let t = trim_chars(&v, '/');
    string_of(&t)
}

/// A rule stored at `entry_path` applies to `path` when it names the path
/// itself or one of its ancestors (segment-wise); the root rule applies to
/// everything.
pub open spec fn applies_to(entry_path: Seq<char>, path: Seq<char>) -> bool {
    let ep = normalized(entry_path);
    let p = normalized(path);
    ep.len() == 0 || p == ep || starts_with(p, ep.push('/'))
}

fn entry_applies(entry_path: &str, path: &str) -> (r: bool)
    ensures
        r == applies_to(entry_path@, path@),
{
    let ep = trim_chars(&chars_of(entry_path), '/');
    let p = trim_chars(&chars_of(path), '/');
    if ep.len() == 0 {
        return true;
    }
    if chars_eq(&p, &ep) {
        return true;
    }
    let mut prefix = slice_chars(&ep, 0, ep.len());
    prefix.push('/');
    assert(prefix@ =~= ep@.push('/'));
    starts_with_chars(&p, &prefix)
}

/// Whether a rule targets the user directly or one of the given groups.
pub open spec fn grants(e: AclEntryRow, user: UserRow, groups: Seq<i64>) -> bool {
    e.user_id == Some(user.id) || (e.group_id is Some && groups.contains(e.group_id->0))
}

fn group_member(groups: &[i64], gid: i64) -> (r: bool)
    ensures
        r == groups@.contains(gid),
{
    let mut i: usize = 0;
    while i < groups.len()
        invariant
            i <= groups.len(),
            forall|j: int| 0 <= j < i ==> groups@[j] != gid,
        decreases groups.len() - i,
    {
        if groups[i] == gid {
            assert(groups@[i as int] == gid);
            return true;
        }
        i = i + 1;
    }
    false
}

fn entry_grants(e: &AclEntryRow, user: &UserRow, groups: &[i64]) -> (r: bool)
    ensures
        r == grants(*e, *user, groups@),
{
    let by_user = match e.user_id {
        Some(uid) => uid == user.id,
        None => false,
    };
    let by_group = match e.group_id {
        Some(gid) => group_member(groups, gid),
        None => false,
    };
    by_user || by_group
}

/// What `str::len` reports for a string: its UTF-8 byte length.
pub open spec fn str_len(s: Seq<char>) -> usize {
    byte_len(s) as usize
}

/// Rule `i` applies to `path` and targets the user or one of their groups.
pub open spec fn is_candidate(
    user: UserRow,
    groups: Seq<i64>,
    entries: Seq<AclEntryRow>,
    path: Seq<char>,
    i: int,
) -> bool {
    0 <= i < entries.len() && applies_to(entries[i].path@, path) && grants(entries[i], user, groups)
}

/// Precedence among rules: the longer stored path first, then the smaller
/// id, then the earlier position.
pub open spec fn ranks_before(entries: Seq<AclEntryRow>, i: int, j: int) -> bool {
    let li = str_len(entries[i].path@);
    let lj = str_len(entries[j].path@);
    li > lj || (li == lj && (entries[i].id < entries[j].id || (entries[i].id == entries[j].id
        && i < j)))
}

/// Rule `i` is the one that decides access: the highest-precedence rule
/// among those that apply to the path and target the user.
pub open spec fn is_deciding(
    user: UserRow,
    groups: Seq<i64>,
    entries: Seq<AclEntryRow>,
    path: Seq<char>,
    i: int,
) -> bool {
    &&& is_candidate(user, groups, entries, path, i)
    &&& forall|j: int|
        #![trigger is_candidate(user, groups, entries, path, j)]
        is_candidate(user, groups, entries, path, j) && j != i ==> ranks_before(entries, i, j)
}

/// The access decision: admins pass; otherwise the deciding rule must
/// cover the requirement, and with no deciding rule access is denied.
pub open spec fn access_allowed(
    user: UserRow,
    groups: Seq<i64>,
    entries: Seq<AclEntryRow>,
    path: Seq<char>,
    required: Permission,
) -> bool {
    user.is_admin == 1 || exists|i: int|
        #![trigger is_deciding(user, groups, entries, path, i)]
        is_deciding(user, groups, entries, path, i) && covers_spec(
            entry_permission(entries[i]),
            required,
        )
}

/// Pure permission check against pre-fetched ACL entries and group memberships.
///
/// - Admin users bypass ACLs entirely.
/// - When no ACL applies to the path, access is **denied** (fail-closed).
/// - The most specific (longest) matching ACL wins; its user/group rule
///   decides, otherwise access is denied.
pub fn can_access(
    user: &UserRow,
    user_groups: &[i64],
    acl_entries: &[AclEntryRow],
    path: &str,
    required: &Permission,
) -> (r: bool)
    ensures
        r == access_allowed(*user, user_groups@, acl_entries@, path@, *required),
{
    if user.is_admin == 1 {
        return true;
    }
    let ghost entries = acl_entries@;
    let ghost groups = user_groups@;
    let mut best: Option<usize> = None;
    let mut best_len: usize = 0;
    let mut i: usize = 0;
    while i < acl_entries.len()
        invariant
            i <= acl_entries.len(),
            entries == acl_entries@,
            groups == user_groups@,
            match best {
                None => forall|j: int|
                    0 <= j < i ==> !#[trigger] is_candidate(*user, groups, entries, path@, j),
                Some(b) => {
                    &&& b < i
                    &&& is_candidate(*user, groups, entries, path@, b as int)
                    &&& best_len == str_len(entries[b as int].path@)
                    &&& forall|j: int|
                        0 <= j < i && j != b && #[trigger] is_candidate(
                            *user,
                            groups,
                            entries,
                            path@,
                            j,
                        ) ==> ranks_before(entries, b as int, j)
                },
            },
        decreases acl_entries.len() - i,
    {
        let e = &acl_entries[i];
        if entry_applies(e.path.as_str(), path) && entry_grants(e, user, user_groups) {
            let len = e.path.as_str().len();
            assert(is_candidate(*user, groups, entries, path@, i as int));
            match best {
                None => {
                    best = Some(i);
                    best_len = len;
                },
                Some(b) => {
                    if len > best_len || (len == best_len && e.id < acl_entries[b].id) {
                        best = Some(i);
                        best_len = len;
                    }
                },
            }
        }
        i = i + 1;
    }
    match best {
        None => {
            assert forall|k: int| !is_deciding(*user, groups, entries, path@, k) by {
                if is_deciding(*user, groups, entries, path@, k) {
                    assert(is_candidate(*user, groups, entries, path@, k));
                }
            }
            false
        },
        Some(b) => {
            assert(is_deciding(*user, groups, entries, path@, b as int));
            assert forall|k: int| #[trigger]
                is_deciding(*user, groups, entries, path@, k) implies k == b by {
                if k != b {
                    assert(ranks_before(entries, k, b as int));
                    assert(ranks_before(entries, b as int, k));
                }
            }
            let perm = match Permission::from_str(acl_entries[b].permission.as_str()) {
                Some(p) => p,
                None => Permission::Read,
            };
            perm.covers(required)
        },
    }
}

/// A folder visible at the web root (Samba-style virtual root): named after
/// the leaf segment of the real path it stands for.
#[derive(Debug, Clone, PartialEq, Eq)]
pub struct Share {
    pub virtual_name: String,
    pub real_path: String,
}

impl View for Share {
    type V = (Seq<char>, Seq<char>);

    open spec fn view(&self) -> (Seq<char>, Seq<char>) {
        (self.virtual_name@, self.real_path@)
    }
}

/// The display name of the `n+1`-th share whose real path ends in `base`:
/// `base`, `base-2`, `base-3`, …
pub open spec fn share_name(base: Seq<char>, n: nat) -> Seq<char> {
    if n == 0 {
        base
    } else {
        base.push('-') + decimal(n + 1)
    }
}

/// Whether one of `shares` already carries the display name `name`.
pub open spec fn name_taken(shares: Seq<(Seq<char>, Seq<char>)>, name: Seq<char>) -> bool {
    exists|k: int| 0 <= k < shares.len() && #[trigger] shares[k].0 == name
}

/// The first numbering of `base` from `n` on that no share carries yet
/// (searched up to one past the number of shares, where one is always
/// free).
pub open spec fn first_free(shares: Seq<(Seq<char>, Seq<char>)>, base: Seq<char>, n: nat) -> nat
    decreases shares.len() + 1 - n,
{
    if n > shares.len() || !name_taken(shares, share_name(base, n)) {
        n
    } else {
        first_free(shares, base, n + 1)
    }
}

/// Distinct numberings give distinct names.
pub proof fn lemma_share_name_injective(base: Seq<char>, a: nat, b: nat)
    requires
        share_name(base, a) == share_name(base, b),
    ensures
        a == b,
{
    lemma_decimal_digits(a + 1);
    lemma_decimal_digits(b + 1);
    if a > 0 && b > 0 {
        let da = decimal(a + 1);
        let db = decimal(b + 1);
        let p = base.push('-');
        assert(share_name(base, a).skip(p.len() as int) =~= da);
        assert(share_name(base, b).skip(p.len() as int) =~= db);
        lemma_decimal_injective(a + 1, b + 1);
    } else if a > 0 {
        assert(share_name(base, a).len() > base.len());
    } else if b > 0 {
        assert(share_name(base, b).len() > base.len());
    }
}

/// Among the numberings `0..=shares.len()` of a leaf, one is free: the
/// shares carry at most `shares.len()` names.
proof fn lemma_some_name_free(shares: Seq<(Seq<char>, Seq<char>)>, base: Seq<char>)
    ensures
        exists|n: nat| n <= shares.len() && !name_taken(shares, #[trigger] share_name(base, n)),
{
    broadcast use vstd::seq_lib::seq_to_set_is_finite;

    if forall|n: nat| n <= shares.len() ==> name_taken(shares, #[trigger] share_name(base, n)) {
        let m = shares.len() as int;
        let names = shares.map_values(|sh: (Seq<char>, Seq<char>)| sh.0);
        let range = vstd::set_lib::set_int_range(0, m + 1);
        let f = |i: int| share_name(base, i as nat);
        let image = range.map(f);
        vstd::set_lib::lemma_int_range(0, m + 1);
        assert(vstd::relations::injective_on(f, range)) by {
            assert forall|x: int, y: int|
                range.contains(x) && range.contains(y) && #[trigger] f(x) == #[trigger] f(y) implies x
                == y by {
                lemma_share_name_injective(base, x as nat, y as nat);
            }
        }
        vstd::set_lib::lemma_map_size(range, image, f);
        assert(image.subset_of(names.to_set())) by {
            assert forall|y: Seq<char>| image.contains(y) implies names.to_set().contains(y) by {
                let i = choose|i: int| range.contains(i) && f(i) == y;
                assert(name_taken(shares, share_name(base, i as nat)));
                let k = choose|k: int| 0 <= k < shares.len() && #[trigger] shares[k].0 == share_name(
                    base,
                    i as nat,
                );
                assert(names[k] == y);
                assert(names.contains(y));
            }
        }
        vstd::set_lib::lemma_len_subset(image, names.to_set());
        names.lemma_cardinality_of_set();
        assert(false);
    }
}

/// What `first_free` finds: a free numbering no larger than the number
/// of shares, with every numbering before it (from `n` on) taken.
pub proof fn lemma_first_free(shares: Seq<(Seq<char>, Seq<char>)>, base: Seq<char>, n: nat)
    requires
        forall|m: nat| m < n ==> name_taken(shares, #[trigger] share_name(base, m)),
    ensures
        first_free(shares, base, n) <= shares.len(),
        n <= first_free(shares, base, n),
        !name_taken(shares, share_name(base, first_free(shares, base, n))),
        forall|m: nat| m < first_free(shares, base, n) ==> name_taken(shares, #[trigger] share_name(base, m)),
    decreases shares.len() + 1 - n,
{
    lemma_some_name_free(shares, base);
    if n > shares.len() {
        let w = choose|w: nat| w <= shares.len() && !name_taken(shares, #[trigger] share_name(base, w));
        assert(name_taken(shares, share_name(base, w)));
    } else if name_taken(shares, share_name(base, n)) {
        assert forall|m: nat| m < n + 1 implies name_taken(shares, #[trigger] share_name(base, m)) by {
            if m < n {
            }
        }
        lemma_first_free(shares, base, n + 1);
    }
}

/// Whether the rule shows up among the user's shares.
pub open spec fn visible_to(e: AclEntryRow, user: UserRow, groups: Seq<i64>) -> bool {
    user.is_admin == 1 || grants(e, user, groups)
}

/// The shares at the virtual root, as (display name, real path) pairs, one
/// per visible rule with a non-root path, in rule order.
pub open spec fn shares_of(user: UserRow, groups: Seq<i64>, entries: Seq<AclEntryRow>) -> Seq<
    (Seq<char>, Seq<char>),
>
    decreases entries.len(),
{
    if entries.len() == 0 {
        Seq::empty()
    } else {
        let prev = shares_of(user, groups, entries.drop_last());
        let e = entries.last();
        let rp = normalized(e.path@);
        if !visible_to(e, user, groups) || rp.len() == 0 {
            prev
        } else {
            let base = leaf_of(rp);
            prev.push((share_name(base, first_free(prev, base, 0)), rp))
        }
    }
}

pub proof fn lemma_shares_len(user: UserRow, groups: Seq<i64>, entries: Seq<AclEntryRow>)
    ensures
        shares_of(user, groups, entries).len() <= entries.len(),
    decreases entries.len(),
{
    if entries.len() > 0 {
        lemma_shares_len(user, groups, entries.drop_last());
    }
}

/// Copy of a character vector.
fn copy_chars(v: &Vec<char>) -> (r: Vec<char>)
    ensures
        r@ == v@,
{
    let r = slice_chars(v, 0, v.len());
    assert(v@.subrange(0, v.len() as int) =~= v@);
    r
}

/// Compute the shares visible at the virtual root for `user`.
///
/// Every rule the user can read (admins: every rule) with a non-root path
/// becomes a root-level folder named after the leaf of its real path.
/// Leaf-name collisions are disambiguated like filesystems do: each share
/// takes the first of `data`, `data-2`, `data-3`, … that no earlier share
/// carries, so no two shares share a name.
pub fn user_shares(user: &UserRow, user_groups: &[i64], acl_entries: &[AclEntryRow]) -> (r: Vec<
    Share,
>)
    ensures
        r@.map_values(|s: Share| s@) == shares_of(*user, user_groups@, acl_entries@),
{
    let is_admin = user.is_admin == 1;
    let ghost entries = acl_entries@;
    let mut shares: Vec<Share> = Vec::new();
    let mut i: usize = 0;
    while i < acl_entries.len()
        invariant
            i <= acl_entries.len(),
            entries == acl_entries@,
            is_admin == (user.is_admin == 1),
            shares@.map_values(|s: Share| s@) == shares_of(*user, user_groups@, entries.take(i as int)),
        decreases acl_entries.len() - i,
    {
        let ghost prev = shares_of(*user, user_groups@, entries.take(i as int));
        proof {
            assert(entries.take(i as int + 1).drop_last() =~= entries.take(i as int));
            assert(entries.take(i as int + 1).last() == entries[i as int]);
            lemma_shares_len(*user, user_groups@, entries.take(i as int));
        }
        let e = &acl_entries[i];
        let visible = is_admin || entry_grants(e, user, user_groups);
        if visible {
            let rp = trim_chars(&chars_of(e.path.as_str()), '/');
            if rp.len() > 0 {
                let pieces = split_chars(&rp, '/');
                proof {
                    lemma_split_nonempty(rp@, '/');
                }
                let base = copy_chars(&pieces[pieces.len() - 1]);
                assert(base@ == leaf_of(rp@));
                // The first of `base`, `base-2`, `base-3`, … no share carries yet.
                let mut n: usize = 0;
                let mut name = numbered_name(&base, 0);
                proof {
                    lemma_first_free(prev, base@, 0);
                }
                while name_in_use(&shares, &name)
                    invariant
                        n <= prev.len(),
                        prev == shares@.map_values(|s: Share| s@),
                        prev.len() < usize::MAX,
                        name@ == share_name(base@, n as nat),
                        first_free(prev, base@, 0) == first_free(prev, base@, n as nat),
                        forall|m: nat| m < n ==> name_taken(prev, #[trigger] share_name(base@, m)),
                    decreases prev.len() - n,
                {
                    proof {
                        lemma_some_name_free(prev, base@);
                        if n == prev.len() {
                            let w = choose|w: nat|
                                w <= prev.len() && !name_taken(prev, #[trigger] share_name(base@, w));
                            if w < n {
                            } else {
                                assert(w == n);
                            }
                        }
                        assert forall|m: nat| m < n + 1 implies name_taken(
                            prev,
                            #[trigger] share_name(base@, m),
                        ) by {
                            if m < n {
                            }
                        }
                    }
                    n = n + 1;
                    name = numbered_name(&base, n);
                }
                assert(first_free(prev, base@, n as nat) == n);
                let share = Share { virtual_name: string_of(&name), real_path: string_of(&rp) };
                shares.push(share);
                assert(shares@.map_values(|s: Share| s@) =~= prev.push(
                    (share_name(leaf_of(rp@), first_free(prev, leaf_of(rp@), 0)), rp@),
                ));
            }
        }
        i = i + 1;
    }
    assert(entries.take(acl_entries.len() as int) =~= entries);
    shares
}

/// The display name `base` numbered `n`: `base`, `base-2`, `base-3`, …
fn numbered_name(base: &Vec<char>, n: usize) -> (r: Vec<char>)
    requires
        n < usize::MAX,
    ensures
        r@ == share_name(base@, n as nat),
{
    let mut name = copy_chars(base);
    if n > 0 {
        name.push('-');
        let digits = decimal_chars(n as u64 + 1);
        extend_chars(&mut name, &digits);
    }
    name
}

/// Whether one of the shares already carries `name`.
fn name_in_use(shares: &Vec<Share>, name: &Vec<char>) -> (r: bool)
    ensures
        r == name_taken(shares@.map_values(|s: Share| s@), name@),
{
    let ghost sv = shares@.map_values(|s: Share| s@);
    let mut k: usize = 0;
    while k < shares.len()
        invariant
            k <= shares@.len(),
            sv == shares@.map_values(|s: Share| s@),
            forall|q: int| 0 <= q < k ==> #[trigger] sv[q].0 != name@,
        decreases shares.len() - k,
    {
        assert(sv[k as int].0 == shares@[k as int].virtual_name@);
        if chars_eq(&chars_of(shares[k].virtual_name.as_str()), name) {
            return true;
        }
        k = k + 1;
    }
    false
}

/// A path segment that is safe as a filesystem component: non-empty, not
/// `.` or `..`, without backslash or NUL.
pub open spec fn safe_segment(s: Seq<char>) -> bool {
    s.len() > 0 && s != seq!['.'] && s != seq!['.', '.'] && !has_char(s, '\\') && !has_char(
        s,
        '\0',
    )
}

/// Whether a path segment is safe to use as a filesystem component.
///
/// Rejects empty, `.`/`..` (traversal), and any segment containing a backslash
/// or a NUL byte.
pub fn is_safe_segment(seg: &str) -> (r: bool)
    ensures
        r == safe_segment(seg@),
{
    let v = chars_of(seg);
    is_safe_segment_chars(&v)
}

fn is_safe_segment_chars(v: &Vec<char>) -> (r: bool)
    ensures
        r == safe_segment(v@),
{
    if v.len() == 0 {
        return false;
    }
    if v.len() == 1 && v[0] == '.' {
        assert(v@ =~= seq!['.']);
        return false;
    }
    if v.len() == 2 && v[0] == '.' && v[1] == '.' {
        assert(v@ =~= seq!['.', '.']);
        return false;
    }
    assert(v@ != seq!['.']) by {
        if v@ =~= seq!['.'] {
            assert(v@[0] == '.');
        }
    }
    assert(v@ != seq!['.', '.']) by {
        if v@ =~= seq!['.', '.'] {
            assert(v@[0] == '.' && v@[1] == '.');
        }
    }
    !contains_char(v, '\\') && !contains_char(v, '\0')
}

/// The non-empty segments of a split path, or `None` when one of them is
/// `.` or `..`.
pub open spec fn clean_segments(segs: Seq<Seq<char>>) -> Option<Seq<Seq<char>>>
    decreases segs.len(),
{
    if segs.len() == 0 {
        Some(Seq::empty())
    } else {
        match clean_segments(segs.drop_last()) {
            None => None,
            Some(out) => {
                let s = segs.last();
                if s.len() == 0 {
                    Some(out)
                } else if s == seq!['.'] || s == seq!['.', '.'] {
                    None
                } else {
                    Some(out.push(s))
                }
            },
        }
    }
}

pub proof fn lemma_clean_none_extends(segs: Seq<Seq<char>>, i: int)
    requires
        0 <= i <= segs.len(),
        clean_segments(segs.take(i)) is None,
    ensures
        clean_segments(segs) is None,
    decreases segs.len(),
{
    if i == segs.len() {
        assert(segs.take(i) =~= segs);
    } else {
        assert(segs.drop_last().take(i) =~= segs.take(i));
        lemma_clean_none_extends(segs.drop_last(), i);
    }
}

/// The normalized relative form of a frontend path, or `None` when it
/// holds a NUL, a backslash, or a `.`/`..` segment.
pub open spec fn sanitized(p: Seq<char>) -> Option<Seq<char>> {
    if has_char(p, '\0') || has_char(p, '\\') {
        None
    } else {
        match clean_segments(split_on(p, '/')) {
            None => None,
            Some(out) => Some(join_with(out, '/')),
        }
    }
}

#[verifier::loop_isolation(false)]
fn sanitize_chars(p: &Vec<char>) -> (r: Option<Vec<char>>)
    ensures
        match r {
            None => sanitized(p@) is None,
            Some(v) => sanitized(p@) == Some(v@),
        },
{
    if contains_char(p, '\0') || contains_char(p, '\\') {
        return None;
    }
    let segs = split_chars(p, '/');
    let ghost all = split_on(p@, '/');
    let mut out: Vec<Vec<char>> = Vec::new();
    let mut i: usize = 0;
    while i < segs.len()
        invariant
            i <= segs@.len(),
            segs@.len() == all.len(),
            forall|k: int| 0 <= k < segs@.len() ==> #[trigger] segs@[k]@ == all[k],
            clean_segments(all.take(i as int)) == Some(out@.map_values(|v: Vec<char>| v@)),
        decreases segs.len() - i,
    {
        proof {
            assert(all.take(i as int + 1).drop_last() =~= all.take(i as int));
            assert(all.take(i as int + 1).last() == all[i as int]);
        }
        let seg = &segs[i];
        if seg.len() > 0 {
            let is_dot = seg.len() == 1 && seg[0] == '.';
            let is_dotdot = seg.len() == 2 && seg[0] == '.' && seg[1] == '.';
            if is_dot || is_dotdot {
                proof {
                    if is_dot {
                        assert(seg@ =~= seq!['.']);
                    } else {
                        assert(seg@ =~= seq!['.', '.']);
                    }
                    assert(clean_segments(all.take(i as int + 1)) is None);
                    lemma_clean_none_extends(all, i as int + 1);
                }
                return None;
            }
            proof {
                if seg@ =~= seq!['.'] {
                    assert(seg@[0] == '.');
                }
                if seg@ =~= seq!['.', '.'] {
                    assert(seg@[0] == '.' && seg@[1] == '.');
                }
            }
            let copy = copy_chars(seg);
            let ghost before = out@.map_values(|v: Vec<char>| v@);
            out.push(copy);
            assert(out@.map_values(|v: Vec<char>| v@) =~= before.push(all[i as int]));
        }
        i = i + 1;
    }
    assert(all.take(segs@.len() as int) =~= all);
    let joined = join_chars(&out, '/');
    Some(joined)
}

/// Validate and normalize a path supplied by the frontend, rejecting any
/// segment that is `.`/`..` or contains a backslash/NUL. Returns the
/// normalized relative path (no leading/trailing slashes) or `None` if unsafe.
pub fn sanitize_path(path: &str) -> (r: Option<String>)
    ensures
        match r {
            None => sanitized(path@) is None,
            Some(s) => sanitized(path@) == Some(s@),
        },
{
    let v = chars_of(path);
    match sanitize_chars(&v) {
        None => None,
        Some(c) => Some(string_of(&c)),
    }
}

/// `k` is the first share named `name`.
pub open spec fn first_named(shares: Seq<(Seq<char>, Seq<char>)>, name: Seq<char>, k: int) -> bool {
    0 <= k < shares.len() && shares[k].0 == name && forall|j: int|
        0 <= j < k ==> #[trigger] shares[j].0 != name
}

pub open spec fn all_safe(segs: Seq<Seq<char>>) -> bool {
    forall|j: int| 0 <= j < segs.len() ==> safe_segment(#[trigger] segs[j])
}

/// Where a virtual browse path leads: its first segment names a share, the
/// rest (every segment safe) is appended below the share's real path.
pub open spec fn resolved(v: Seq<char>, shares: Seq<(Seq<char>, Seq<char>)>) -> Option<Seq<char>> {
    let vp = normalized(v);
    let segs = split_on(vp, '/');
    let first = segs[0];
    let rest = segs.drop_first();
    if vp.len() == 0 || !safe_segment(first) {
        None
    } else if !(exists|k: int| first_named(shares, first, k)) {
        None
    } else if !all_safe(rest) {
        None
    } else {
        let k = choose|k: int| first_named(shares, first, k);
        if rest.len() == 0 {
            sanitized(shares[k].1)
        } else {
            sanitized(concat3(shares[k].1, '/', join_with(rest, '/')))
        }
    }
}

/// Map a virtual browse path back to a real path using the user's shares.
///
/// The virtual root (`""`) has no real path and returns `None`. Any other
/// path's first segment names a share; the rest is appended underneath it.
/// Every segment below the share must be safe, so a `..`/`\` in the request
/// cannot escape the share boundary.
#[verifier::loop_isolation(false)]
pub fn resolve_virtual(virtual_path: &str, shares: &[Share]) -> (r: Option<String>)
    ensures
        match r {
            None => resolved(virtual_path@, shares@.map_values(|s: Share| s@)) is None,
            Some(s) => resolved(virtual_path@, shares@.map_values(|s: Share| s@)) == Some(s@),
        },
{
    let ghost sv = shares@.map_values(|s: Share| s@);
    let vp = trim_chars(&chars_of(virtual_path), '/');
    let segs = split_chars(&vp, '/');
    proof {
        lemma_split_nonempty(vp@, '/');
    }
    let ghost all = split_on(vp@, '/');
    if vp.len() == 0 {
        return None;
    }
    if !is_safe_segment_chars(&segs[0]) {
        return None;
    }
    let mut found: Option<usize> = None;
    let mut k: usize = 0;
    while k < shares.len()
        invariant
            k <= shares@.len(),
            sv == shares@.map_values(|s: Share| s@),
            segs@[0]@ == all[0],
            found is None ==> forall|j: int| 0 <= j < k ==> #[trigger] sv[j].0 != all[0],
            found matches Some(f) ==> first_named(sv, all[0], f as int),
        decreases shares.len() - k,
    {
        if found.is_none() {
            let name = chars_of(shares[k].virtual_name.as_str());
            if chars_eq(&name, &segs[0]) {
                found = Some(k);
            }
        }
        k = k + 1;
    }
    let f = match found {
        None => {
            assert forall|q: int| !first_named(sv, all[0], q) by {
                if first_named(sv, all[0], q) {
                    assert(sv[q].0 == all[0]);
                }
            }
            return None;
        },
        Some(f) => f,
    };
    assert forall|q: int| first_named(sv, all[0], q) implies q == f by {
        if q < f {
            assert(sv[q].0 != all[0]);
        }
        if q > f {
            assert(sv[f as int].0 != all[0]);
        }
    }
    // Every segment below the share must be safe.
    let mut j: usize = 1;
    while j < segs.len()
        invariant
            1 <= j <= segs@.len(),
            segs@.len() == all.len(),
            forall|q: int| 0 <= q < segs@.len() ==> #[trigger] segs@[q]@ == all[q],
            forall|q: int| 1 <= q < j ==> safe_segment(#[trigger] all[q]),
        decreases segs.len() - j,
    {
        if !is_safe_segment_chars(&segs[j]) {
            assert(!safe_segment(all.drop_first()[j - 1]));
            return None;
        }
        j = j + 1;
    }
    assert(all_safe(all.drop_first())) by {
        assert forall|q: int| 0 <= q < all.drop_first().len() implies safe_segment(
            #[trigger] all.drop_first()[q],
        ) by {
            assert(all.drop_first()[q] == all[q + 1]);
        }
    }
    let rp = chars_of(shares[f].real_path.as_str());
    if segs.len() == 1 {
        assert(all.drop_first().len() == 0);
        match sanitize_chars(&rp) {
            None => None,
            Some(c) => Some(string_of(&c)),
        }
    } else {
        let mut rest: Vec<Vec<char>> = Vec::new();
        let mut q: usize = 1;
        while q < segs.len()
            invariant
                1 <= q <= segs@.len(),
                segs@.len() == all.len(),
                forall|t: int| 0 <= t < segs@.len() ==> #[trigger] segs@[t]@ == all[t],
                rest@.map_values(|v: Vec<char>| v@) == all.subrange(1, q as int),
            decreases segs.len() - q,
        {
            let c = copy_chars(&segs[q]);
            assert(c@ == all[q as int]);
            let ghost before = rest@.map_values(|v: Vec<char>| v@);
            rest.push(c);
            assert(rest@.map_values(|v: Vec<char>| v@) =~= all.subrange(1, q as int + 1));
            q = q + 1;
        }
        assert(all.subrange(1, segs@.len() as int) =~= all.drop_first());
        let joined = join_chars(&rest, '/');
        let mut full = copy_chars(&rp);
        full.push('/');
        extend_chars(&mut full, &joined);
        assert(full@ =~= concat3(rp@, '/', joined@));
        match sanitize_chars(&full) {
            None => None,
            Some(c) => Some(string_of(&c)),
        }
    }
}

/// A root-level rule (`path == ""`) grants the user (or any admin) the
/// whole tree.
pub open spec fn has_root_read(user: UserRow, groups: Seq<i64>, entries: Seq<AclEntryRow>) -> bool {
    exists|i: int|
        0 <= i < entries.len() && #[trigger] normalized(entries[i].path@).len() == 0 && (
        user.is_admin == 1 || grants(entries[i], user, groups))
}

/// Whether a root-level ACL (`path == ""`) grants `user` read access to the
/// whole tree.
pub fn user_has_root_read(user: &UserRow, user_groups: &[i64], acl_entries: &[AclEntryRow]) -> (r:
    bool)
    ensures
        r == has_root_read(*user, user_groups@, acl_entries@),
{
    let mut i: usize = 0;
    while i < acl_entries.len()
        invariant
            i <= acl_entries.len(),
            forall|j: int|
                0 <= j < i ==> !(#[trigger] normalized(acl_entries@[j].path@).len() == 0 && (
                user.is_admin == 1 || grants(acl_entries@[j], *user, user_groups@))),
        decreases acl_entries.len() - i,
    {
        let e = &acl_entries[i];
        let p = trim_chars(&chars_of(e.path.as_str()), '/');
        if p.len() == 0 && (user.is_admin == 1 || entry_grants(e, user, user_groups)) {
            assert(normalized(acl_entries@[i as int].path@).len() == 0);
            return true;
        }
        i = i + 1;
    }
    false
}

/// Admins and root-rule holders see the real tree.
pub open spec fn sees_real(user: UserRow, groups: Seq<i64>, entries: Seq<AclEntryRow>) -> bool {
    user.is_admin == 1 || has_root_read(user, groups, entries)
}

/// The share's real path (normalized) is `real` itself or an ancestor of it.
pub open spec fn share_holds(share_real: Seq<char>, rp: Seq<char>) -> bool {
    rp == share_real || starts_with(rp, share_real.push('/'))
}

pub open spec fn display_candidate(shares: Seq<(Seq<char>, Seq<char>)>, rp: Seq<char>, k: int) -> bool {
    0 <= k < shares.len() && share_holds(normalized(shares[k].1), rp)
}

/// Share `k` is the most specific share holding `real` (the longest real
/// path; the first of equally long ones).
pub open spec fn display_winner(shares: Seq<(Seq<char>, Seq<char>)>, rp: Seq<char>, k: int) -> bool {
    &&& display_candidate(shares, rp, k)
    &&& forall|j: int|
        #![trigger display_candidate(shares, rp, j)]
        display_candidate(shares, rp, j) ==> (str_len(normalized(shares[j].1)) < str_len(
            normalized(shares[k].1),
        ) || (str_len(normalized(shares[j].1)) == str_len(normalized(shares[k].1)) && k <= j))
}

/// The display path of `real` through `share`.
pub open spec fn display_through(share: (Seq<char>, Seq<char>), rp: Seq<char>) -> Seq<char> {
    let sr = normalized(share.1);
    if rp == sr {
        share.0
    } else {
        concat3(share.0, '/', rp.skip(sr.len() + 1int))
    }
}

/// The path the user sees for a real path.
pub open spec fn displayed(
    user: UserRow,
    groups: Seq<i64>,
    entries: Seq<AclEntryRow>,
    real_path: Seq<char>,
) -> Option<Seq<char>> {
    let rp = normalized(real_path);
    let shares = shares_of(user, groups, entries);
    if sees_real(user, groups, entries) {
        Some(rp)
    } else if exists|k: int| display_winner(shares, rp, k) {
        let k = choose|k: int| display_winner(shares, rp, k);
        Some(display_through(shares[k], rp))
    } else {
        None
    }
}

/// Map a real path back to the display path the user sees — the inverse of
/// [`resolve_virtual`]. Users who see the real tree (admins, root-ACL
/// holders) get the real path back unchanged; everyone else is mapped through
/// their shares, with the most specific (longest real prefix) share winning.
/// Returns `None` when the real path is not inside any of the user's shares.
#[verifier::loop_isolation(false)]
pub fn display_path_for(
    user: &UserRow,
    user_groups: &[i64],
    acl_entries: &[AclEntryRow],
    real_path: &str,
) -> (r: Option<String>)
    ensures
        match r {
            None => displayed(*user, user_groups@, acl_entries@, real_path@) is None,
            Some(s) => displayed(*user, user_groups@, acl_entries@, real_path@) == Some(s@),
        },
{
    let rp = trim_chars(&chars_of(real_path), '/');
    if user.is_admin == 1 || user_has_root_read(user, user_groups, acl_entries) {
        return Some(string_of(&rp));
    }
    let shares = user_shares(user, user_groups, acl_entries);
    let ghost sv = shares_of(*user, user_groups@, acl_entries@);
    assert(shares@.len() == sv.len());
    let mut best: Option<usize> = None;
    let mut best_len: usize = 0;
    let mut best_display: Vec<char> = Vec::new();
    let mut i: usize = 0;
    while i < shares.len()
        invariant
            i <= shares@.len(),
            shares@.map_values(|s: Share| s@) == sv,
            match best {
                None => forall|j: int| 0 <= j < i ==> !#[trigger] display_candidate(sv, rp@, j),
                Some(b) => {
                    &&& b < i
                    &&& display_candidate(sv, rp@, b as int)
                    &&& best_len == str_len(normalized(sv[b as int].1))
                    &&& best_display@ == display_through(sv[b as int], rp@)
                    &&& forall|j: int|
                        0 <= j < i && #[trigger] display_candidate(sv, rp@, j) ==> (str_len(
                            normalized(sv[j].1),
                        ) < best_len || (str_len(normalized(sv[j].1)) == best_len && b <= j))
                },
            },
        decreases shares.len() - i,
    {
        assert(sv[i as int] == shares@[i as int]@);
        let sr = trim_chars(&chars_of(shares[i].real_path.as_str()), '/');
        let is_exact = chars_eq(&rp, &sr);
        let mut prefix = copy_chars(&sr);
        prefix.push('/');
        assert(prefix@ =~= sr@.push('/'));
        let is_below = !is_exact && starts_with_chars(&rp, &prefix);
        if is_exact || is_below {
            let sr_string = string_of(&sr);
            let len = sr_string.as_str().len();
            let replace = match best {
                None => true,
                Some(_) => len > best_len,
            };
            if replace {
                let name = chars_of(shares[i].virtual_name.as_str());
                if is_exact {
                    best_display = name;
                } else {
                    assert(prefix@.len() == sr@.len() + 1);
                    assert(starts_with(rp@, prefix@));
                    assert(prefix@.len() <= rp@.len());
                    let rest = slice_chars(&rp, prefix.len(), rp.len());
                    let mut d = name;
                    d.push('/');
                    extend_chars(&mut d, &rest);
                    assert(rest@ =~= rp@.skip(sr@.len() + 1int));
                    best_display = d;
                }
                best = Some(i);
                best_len = len;
            }
        }
        i = i + 1;
    }
    assert(rp@ == normalized(real_path@));
    assert(!sees_real(*user, user_groups@, acl_entries@));
    match best {
        None => {
            assert forall|k: int| !display_winner(sv, rp@, k) by {
                if display_winner(sv, rp@, k) {
                    assert(display_candidate(sv, rp@, k));
                }
            }
            None
        },
        Some(b) => {
            assert(display_winner(sv, rp@, b as int));
            assert forall|k: int| #[trigger] display_winner(sv, rp@, k) implies k == b by {
                assert(display_candidate(sv, rp@, b as int));
                assert(display_candidate(sv, rp@, k));
            }
            Some(string_of(&best_display))
        },
    }
}

} // verus!
