//! Properties of the access-control engine that hold for every input: the
//! permission hierarchy, the admin bypass, fail-closed defaults, subtree
//! confinement of rules and the canonical form of sanitized paths.
use vstd::prelude::*;
use crate::acl::{
    access_allowed, all_safe, applies_to, clean_segments, covers_spec, entry_permission,
    display_candidate, display_through, display_winner, displayed, first_named, grants,
    has_root_read, is_candidate, is_deciding, normalized, ranks_before, resolved, safe_segment,
    sanitized, sees_real, str_len,
    first_free, lemma_first_free, name_taken, share_holds, share_name, shares_of, visible_to,
    Permission,
};
use crate::rows::{AclEntryRow, UserRow};
use crate::session::SHARE_USER_ID;
use crate::share::{grant_view, share_grant};
use crate::text::{
    all_digits, concat3, decimal, has_char, is_digit, join_with, leaf_of, lemma_decimal_digits,
    lemma_join_split, lemma_split_plain, lemma_join_concat, lemma_join_ends, lemma_join_lacks,
    lemma_split_concat, lemma_split_join, lemma_split_nonempty, lemma_split_pieces_lack,
    lemma_split_pieces_lack_sep, lemma_trim_ends, lemma_trim_noop, split_on, starts_with,
};

verus! {

/// The permissions form the chain Read < Write < Admin: Admin satisfies
/// every requirement, every permission satisfies itself, covering is
/// transitive, and any two permissions are comparable.
pub proof fn law_permission_hierarchy(a: Permission, b: Permission, c: Permission)
    ensures
        covers_spec(Permission::Admin, a),
        covers_spec(a, a),
        covers_spec(a, b) && covers_spec(b, c) ==> covers_spec(a, c),
        covers_spec(a, b) || covers_spec(b, a),
        covers_spec(Permission::Read, a) ==> a == Permission::Read,
{
}

/// Admin users are allowed everything, whatever the rules say.
pub proof fn law_admin_bypass(
    user: UserRow,
    groups: Seq<i64>,
    entries: Seq<AclEntryRow>,
    path: Seq<char>,
    required: Permission,
)
    requires
        user.is_admin == 1,
    ensures
        access_allowed(user, groups, entries, path, required),
{
}

/// Fail-closed: a non-admin for whom no rule applies to the path (or no
/// applicable rule targets them or their groups) is denied.
pub proof fn law_fail_closed(
    user: UserRow,
    groups: Seq<i64>,
    entries: Seq<AclEntryRow>,
    path: Seq<char>,
    required: Permission,
)
    requires
        user.is_admin != 1,
        forall|i: int|
            0 <= i < entries.len() ==> !(applies_to(entries[i].path@, path) && grants(
                #[trigger] entries[i],
                user,
                groups,
            )),
    ensures
        !access_allowed(user, groups, entries, path, required),
{
    assert forall|i: int| !is_deciding(user, groups, entries, path, i) by {
        if is_deciding(user, groups, entries, path, i) {
            assert(is_candidate(user, groups, entries, path, i));
            assert(grants(entries[i], user, groups));
        }
    }
}

/// Access is monotone in the requirement: whoever may do something may
/// also do anything weaker (write access implies read access).
pub proof fn law_access_monotone(
    user: UserRow,
    groups: Seq<i64>,
    entries: Seq<AclEntryRow>,
    path: Seq<char>,
    stronger: Permission,
    weaker: Permission,
)
    requires
        covers_spec(stronger, weaker),
        access_allowed(user, groups, entries, path, stronger),
    ensures
        access_allowed(user, groups, entries, path, weaker),
{
    if user.is_admin != 1 {
        let i = choose|i: int|
            is_deciding(user, groups, entries, path, i) && covers_spec(
                entry_permission(entries[i]),
                stronger,
            );
        law_permission_hierarchy(entry_permission(entries[i]), stronger, weaker);
        assert(is_deciding(user, groups, entries, path, i) && covers_spec(
            entry_permission(entries[i]),
            weaker,
        ));
    }
}

/// Among the rules with index below `k` that apply to `path` and target the
/// user, one ranks before all the others.
proof fn lemma_best_candidate(
    user: UserRow,
    groups: Seq<i64>,
    entries: Seq<AclEntryRow>,
    path: Seq<char>,
    k: int,
) -> (b: int)
    requires
        0 <= k <= entries.len(),
        exists|i: int| 0 <= i < k && #[trigger] is_candidate(user, groups, entries, path, i),
    ensures
        0 <= b < k,
        is_candidate(user, groups, entries, path, b),
        forall|j: int|
            0 <= j < k && #[trigger] is_candidate(user, groups, entries, path, j) && j != b
                ==> ranks_before(entries, b, j),
    decreases k,
{
    let last = k - 1;
    if exists|i: int| 0 <= i < last && #[trigger] is_candidate(user, groups, entries, path, i) {
        let b0 = lemma_best_candidate(user, groups, entries, path, last);
        if is_candidate(user, groups, entries, path, last) && ranks_before(entries, last, b0) {
            assert forall|j: int|
                0 <= j < k && #[trigger] is_candidate(user, groups, entries, path, j) && j
                    != last implies ranks_before(entries, last, j) by {
                if j != b0 {
                    assert(ranks_before(entries, b0, j));
                }
            }
            last
        } else {
            b0
        }
    } else {
        last
    }
}

/// The most specific rule decides: when one rule that applies to the path
/// and targets the user has a longer stored path than every other such rule
/// (on equal length, a smaller id), the decision for a non-admin is exactly
/// whether that rule's permission covers the requirement, whatever shorter
/// ancestor rules say.
pub proof fn law_longest_rule_decides(
    user: UserRow,
    groups: Seq<i64>,
    entries: Seq<AclEntryRow>,
    path: Seq<char>,
    i: int,
    required: Permission,
)
    requires
        user.is_admin != 1,
        0 <= i < entries.len(),
        applies_to(entries[i].path@, path),
        grants(entries[i], user, groups),
        forall|j: int|
            0 <= j < entries.len() && j != i && applies_to(entries[j].path@, path) && grants(
                #[trigger] entries[j],
                user,
                groups,
            ) ==> str_len(entries[j].path@) < str_len(entries[i].path@) || (str_len(
                entries[j].path@,
            ) == str_len(entries[i].path@) && entries[i].id < entries[j].id),
    ensures
        access_allowed(user, groups, entries, path, required) == covers_spec(
            entry_permission(entries[i]),
            required,
        ),
{
    assert(is_candidate(user, groups, entries, path, i));
    assert forall|j: int|
        #[trigger] is_candidate(user, groups, entries, path, j) && j != i implies ranks_before(
        entries,
        i,
        j,
    ) by {
        assert(grants(entries[j], user, groups));
    }
    assert(is_deciding(user, groups, entries, path, i));
    if access_allowed(user, groups, entries, path, required) {
        let d = choose|d: int|
            #![trigger is_deciding(user, groups, entries, path, d)]
            is_deciding(user, groups, entries, path, d) && covers_spec(
                entry_permission(entries[d]),
                required,
            );
        if d != i {
            assert(is_candidate(user, groups, entries, path, d));
            assert(grants(entries[d], user, groups));
            assert(ranks_before(entries, d, i));
        }
    }
}

/// Among the user's shares holding a real path, the display path goes
/// through one with the longest (normalized) real path: no other holding
/// share has a strictly longer one, and every earlier holding share is
/// strictly shorter (the first of equally long ones is used). Whenever some
/// share holds the path, a display path exists.
pub proof fn law_display_through_most_specific_share(
    user: UserRow,
    groups: Seq<i64>,
    entries: Seq<AclEntryRow>,
    real_path: Seq<char>,
)
    requires
        !sees_real(user, groups, entries),
    ensures
        ({
            let shares = shares_of(user, groups, entries);
            let rp = normalized(real_path);
            &&& (exists|j: int| display_candidate(shares, rp, j)) ==> displayed(
                user,
                groups,
                entries,
                real_path,
            ) is Some
            &&& displayed(user, groups, entries, real_path) is Some ==> exists|k: int|
                #![trigger display_candidate(shares, rp, k)]
                {
                    &&& display_candidate(shares, rp, k)
                    &&& displayed(user, groups, entries, real_path) == Some(
                        display_through(shares[k], rp),
                    )
                    &&& forall|j: int|
                        #![trigger display_candidate(shares, rp, j)]
                        display_candidate(shares, rp, j) ==> str_len(normalized(shares[j].1))
                            <= str_len(normalized(shares[k].1))
                    &&& forall|j: int|
                        #![trigger display_candidate(shares, rp, j)]
                        display_candidate(shares, rp, j) && j < k ==> str_len(
                            normalized(shares[j].1),
                        ) < str_len(normalized(shares[k].1))
                }
        }),
{
    let shares = shares_of(user, groups, entries);
    let rp = normalized(real_path);
    if exists|j: int| display_candidate(shares, rp, j) {
        let j0 = choose|j: int| display_candidate(shares, rp, j);
        let w = lemma_some_display_winner(shares, rp, j0, shares.len() as int);
        assert(display_winner(shares, rp, w));
    }
    if displayed(user, groups, entries, real_path) is Some {
        let k = choose|k: int| display_winner(shares, rp, k);
        assert(display_candidate(shares, rp, k));
    }
}

/// Among the holding shares with index below `n` (one of them, `j0`,
/// exists), one has the longest real path, the first among equally long.
proof fn lemma_some_display_winner(
    shares: Seq<(Seq<char>, Seq<char>)>,
    rp: Seq<char>,
    j0: int,
    n: int,
) -> (w: int)
    requires
        0 <= j0 < n <= shares.len(),
        display_candidate(shares, rp, j0),
    ensures
        0 <= w < n,
        display_candidate(shares, rp, w),
        forall|j: int|
            0 <= j < n && #[trigger] display_candidate(shares, rp, j) ==> (str_len(
                normalized(shares[j].1),
            ) < str_len(normalized(shares[w].1)) || (str_len(normalized(shares[j].1)) == str_len(
                normalized(shares[w].1),
            ) && w <= j)),
        n == shares.len() ==> display_winner(shares, rp, w),
    decreases n,
{
    if n - 1 == j0 {
        if exists|j: int| 0 <= j < n - 1 && #[trigger] display_candidate(shares, rp, j) {
            let j1 = choose|j: int| 0 <= j < n - 1 && #[trigger] display_candidate(shares, rp, j);
            let w0 = lemma_some_display_winner(shares, rp, j1, n - 1);
            if str_len(normalized(shares[n - 1].1)) > str_len(normalized(shares[w0].1)) {
                n - 1
            } else {
                w0
            }
        } else {
            n - 1
        }
    } else {
        let w0 = lemma_some_display_winner(shares, rp, j0, n - 1);
        if display_candidate(shares, rp, n - 1) && str_len(normalized(shares[n - 1].1)) > str_len(
            normalized(shares[w0].1),
        ) {
            n - 1
        } else {
            w0
        }
    }
}

/// Root-level read access is exactly the access decision at the root: a
/// non-admin holds a root rule (one whose path normalizes to `""`) for
/// themselves or one of their groups if and only if they may read `""`.
pub proof fn law_root_read_is_access_at_root(
    user: UserRow,
    groups: Seq<i64>,
    entries: Seq<AclEntryRow>,
)
    requires
        user.is_admin != 1,
    ensures
        has_root_read(user, groups, entries) == access_allowed(
            user,
            groups,
            entries,
            Seq::<char>::empty(),
            Permission::Read,
        ),
{
    let root = Seq::<char>::empty();
    assert(normalized(root) =~= root);
    assert forall|i: int| 0 <= i < entries.len() implies applies_to(entries[i].path@, root)
        == (#[trigger] normalized(entries[i].path@).len() == 0) by {
        let ep = normalized(entries[i].path@);
        if ep.len() != 0 {
            assert(!starts_with(root, ep.push('/')));
            assert(root != ep);
        }
    }
    if has_root_read(user, groups, entries) {
        let i = choose|i: int|
            0 <= i < entries.len() && #[trigger] normalized(entries[i].path@).len() == 0 && (
            user.is_admin == 1 || grants(entries[i], user, groups));
        assert(is_candidate(user, groups, entries, root, i));
        let b = lemma_best_candidate(user, groups, entries, root, entries.len() as int);
        assert(is_deciding(user, groups, entries, root, b));
        assert(covers_spec(entry_permission(entries[b]), Permission::Read));
    }
    if access_allowed(user, groups, entries, root, Permission::Read) {
        let i = choose|i: int|
            #![trigger is_deciding(user, groups, entries, root, i)]
            is_deciding(user, groups, entries, root, i) && covers_spec(
                entry_permission(entries[i]),
                Permission::Read,
            );
        assert(is_candidate(user, groups, entries, root, i));
        assert(normalized(entries[i].path@).len() == 0);
    }
}

/// Rules are path-prefix based: a rule applies to its own path and to
/// everything beneath it.
pub proof fn law_rule_covers_subtree(entry_path: Seq<char>, sub: Seq<char>)
    requires
        sub.len() > 0,
        normalized(sub) == sub,
    ensures
        applies_to(entry_path, entry_path),
        applies_to(entry_path, normalized(entry_path).push('/') + sub),
{
    let ep = normalized(entry_path);
    lemma_trim_ends(entry_path, '/');
    lemma_trim_ends(sub, '/');
    if ep.len() > 0 {
        let p = ep.push('/') + sub;
        assert(p[0] == ep[0]);
        assert(p.last() == sub.last());
        lemma_trim_noop(p, '/');
        assert(p.take(ep.len() + 1int) =~= ep.push('/'));
    }
}

/// A rule applies only inside its own subtree: never to a sibling whose
/// name merely extends the rule's path (a rule on `project` says nothing
/// about `project-secret`).
pub proof fn law_rule_confined_to_subtree(entry_path: Seq<char>, path: Seq<char>)
    requires
        normalized(entry_path).len() > 0,
        normalized(path) == path,
        path.len() > normalized(entry_path).len(),
        path.take(normalized(entry_path).len() as int) == normalized(entry_path),
        path[normalized(entry_path).len() as int] != '/',
    ensures
        !applies_to(entry_path, path),
{
    let ep = normalized(entry_path);
    if starts_with(path, ep.push('/')) {
        assert(path.take(ep.len() + 1int)[ep.len() as int] == '/');
    }
}

/// Leading and trailing slashes never change a decision: a path is judged
/// exactly as its normalized form is.
pub proof fn law_access_ignores_slashes(
    user: UserRow,
    groups: Seq<i64>,
    entries: Seq<AclEntryRow>,
    path: Seq<char>,
    required: Permission,
)
    ensures
        access_allowed(user, groups, entries, path, required) == access_allowed(
            user,
            groups,
            entries,
            normalized(path),
            required,
        ),
{
    lemma_trim_ends(path, '/');
    let np = normalized(path);
    assert forall|i: int|
        #![trigger is_candidate(user, groups, entries, path, i)]
        #![trigger is_candidate(user, groups, entries, np, i)]
        is_candidate(user, groups, entries, path, i) == is_candidate(
            user,
            groups,
            entries,
            np,
            i,
        ) by {}
    assert forall|i: int|
        #![trigger is_deciding(user, groups, entries, path, i)]
        #![trigger is_deciding(user, groups, entries, np, i)]
        is_deciding(user, groups, entries, path, i) == is_deciding(user, groups, entries, np, i) by {
    }
    if access_allowed(user, groups, entries, path, required) && user.is_admin != 1 {
        let i = choose|i: int|
            is_deciding(user, groups, entries, path, i) && covers_spec(
                entry_permission(entries[i]),
                required,
            );
        assert(is_deciding(user, groups, entries, np, i));
    }
    if access_allowed(user, groups, entries, np, required) && user.is_admin != 1 {
        let i = choose|i: int|
            is_deciding(user, groups, entries, np, i) && covers_spec(
                entry_permission(entries[i]),
                required,
            );
        assert(is_deciding(user, groups, entries, path, i));
    }
}

/// What survives cleaning is a list of non-empty segments other than `.`
/// and `..`, each taken from the input.
proof fn lemma_clean_keeps(segs: Seq<Seq<char>>)
    ensures
        clean_segments(segs) matches Some(out) ==> forall|k: int|
            0 <= k < out.len() ==> {
                &&& (#[trigger] out[k]).len() > 0
                &&& out[k] != seq!['.']
                &&& out[k] != seq!['.', '.']
                &&& exists|j: int| 0 <= j < segs.len() && segs[j] == out[k]
            },
    decreases segs.len(),
{
    if segs.len() > 0 {
        lemma_clean_keeps(segs.drop_last());
        if let Some(out) = clean_segments(segs) {
            let prev = clean_segments(segs.drop_last())->0;
            assert forall|k: int| 0 <= k < out.len() implies {
                &&& (#[trigger] out[k]).len() > 0
                &&& out[k] != seq!['.']
                &&& out[k] != seq!['.', '.']
                &&& exists|j: int| 0 <= j < segs.len() && segs[j] == out[k]
            } by {
                if k < prev.len() {
                    assert(out[k] == prev[k]);
                    let j = choose|j: int|
                        0 <= j < segs.drop_last().len() && segs.drop_last()[j] == prev[k];
                    assert(segs[j] == out[k]);
                } else {
                    assert(out[k] == segs.last());
                    assert(segs[segs.len() - 1] == out[k]);
                }
            }
        }
    }
}

/// Cleaning leaves a list of safe segments unchanged when appended.
proof fn lemma_clean_append_safe(a: Seq<Seq<char>>, b: Seq<Seq<char>>)
    requires
        forall|k: int|
            0 <= k < b.len() ==> (#[trigger] b[k]).len() > 0 && b[k] != seq!['.'] && b[k]
                != seq!['.', '.'],
    ensures
        clean_segments(a + b) == match clean_segments(a) {
            None => None,
            Some(oa) => Some(oa + b),
        },
    decreases b.len(),
{
    if b.len() == 0 {
        assert(a + b =~= a);
        if let Some(oa) = clean_segments(a) {
            assert(oa + b =~= oa);
        }
    } else {
        let b0 = b.drop_last();
        lemma_clean_append_safe(a, b0);
        assert((a + b).drop_last() =~= a + b0);
        assert((a + b).last() == b.last());
        assert(b[b.len() - 1] == b.last());
        if let Some(oa) = clean_segments(a) {
            assert((oa + b0).push(b.last()) =~= oa + b);
        }
    }
}

/// The pieces of a sanitized path, and the facts that make it canonical.
proof fn lemma_sanitized_parts(p: Seq<char>)
    requires
        sanitized(p) is Some,
    ensures
        clean_segments(split_on(p, '/')) is Some,
        sanitized(p)->0 == join_with(clean_segments(split_on(p, '/'))->0, '/'),
        forall|k: int|
            0 <= k < clean_segments(split_on(p, '/'))->0.len() ==> {
                let seg = #[trigger] clean_segments(split_on(p, '/'))->0[k];
                &&& safe_segment(seg)
                &&& !has_char(seg, '/')
            },
{
    let segs = split_on(p, '/');
    let out = clean_segments(segs)->0;
    lemma_clean_keeps(segs);
    lemma_split_pieces_lack_sep(p, '/');
    lemma_split_pieces_lack(p, '/', '\\');
    lemma_split_pieces_lack(p, '/', '\0');
    assert forall|k: int| 0 <= k < out.len() implies {
        let seg = #[trigger] out[k];
        &&& safe_segment(seg)
        &&& !has_char(seg, '/')
    } by {
        let j = choose|j: int| 0 <= j < segs.len() && segs[j] == out[k];
        assert(!has_char(segs[j], '/'));
        assert(!has_char(segs[j], '\\'));
        assert(!has_char(segs[j], '\0'));
    }
}

/// A list of safe segments (without `/`) is left as it is by cleaning.
proof fn lemma_clean_of_safe(segs: Seq<Seq<char>>)
    requires
        forall|k: int| 0 <= k < segs.len() ==> safe_segment(#[trigger] segs[k]),
    ensures
        clean_segments(segs) == Some(segs),
{
    lemma_clean_append_safe(Seq::<Seq<char>>::empty(), segs);
    assert(Seq::<Seq<char>>::empty() + segs =~= segs);
}

/// Sanitizing is idempotent and its output is canonical: no leading or
/// trailing slash, no empty segment, and every segment safe.
pub proof fn law_sanitize_canonical(p: Seq<char>)
    requires
        sanitized(p) is Some,
    ensures
        sanitized(sanitized(p)->0) == sanitized(p),
        normalized(sanitized(p)->0) == sanitized(p)->0,
        !has_char(sanitized(p)->0, '\\'),
        !has_char(sanitized(p)->0, '\0'),
        sanitized(p)->0.len() > 0 ==> all_safe(split_on(sanitized(p)->0, '/')),
{
    let s = sanitized(p)->0;
    let out = clean_segments(split_on(p, '/'))->0;
    lemma_sanitized_parts(p);
    assert forall|k: int| 0 <= k < out.len() implies !has_char(#[trigger] out[k], '\\') by {
        assert(safe_segment(out[k]));
    }
    assert forall|k: int| 0 <= k < out.len() implies !has_char(#[trigger] out[k], '\0') by {
        assert(safe_segment(out[k]));
    }
    lemma_join_lacks(out, '/', '\\');
    lemma_join_lacks(out, '/', '\0');
    if out.len() == 0 {
        assert(s.len() == 0);
        assert(split_on(s, '/') == seq![Seq::<char>::empty()]);
        assert(seq![Seq::<char>::empty()].drop_last() =~= Seq::<Seq<char>>::empty());
        assert(clean_segments(Seq::<Seq<char>>::empty()) == Some(Seq::<Seq<char>>::empty()));
        assert(clean_segments(split_on(s, '/')) == Some(Seq::<Seq<char>>::empty()));
        lemma_trim_noop(s, '/');
    } else {
        assert forall|k: int| 0 <= k < out.len() implies !has_char(#[trigger] out[k], '/') by {}
        lemma_split_join(out, '/');
        assert forall|k: int| 0 <= k < out.len() implies safe_segment(#[trigger] out[k]) by {}
        lemma_clean_of_safe(out);
        assert forall|k: int| 0 <= k < out.len() implies (#[trigger] out[k]).len() > 0 by {
            assert(safe_segment(out[k]));
        }
        lemma_join_ends(out, '/');
        assert(out[0].len() > 0 && !has_char(out[0], '/'));
        assert(s[0] != '/') by {
            assert(out[0][0] != '/') by {
                if out[0][0] == '/' {
                    assert(has_char(out[0], '/'));
                }
            }
        }
        assert(s.last() != '/') by {
            assert(out[out.len() - 1] == out.last());
            let l = out.last();
            assert(l.len() > 0 && !has_char(l, '/'));
            if l.last() == '/' {
                assert(l[l.len() - 1] == '/');
            }
        }
        lemma_trim_noop(s, '/');
    }
}

/// Browsing through a share never leaves it: whatever a virtual path
/// resolves to is the sanitized real path of the share its first segment
/// names, or a path below it.
pub proof fn law_resolve_stays_in_share(v: Seq<char>, shares: Seq<(Seq<char>, Seq<char>)>)
    requires
        resolved(v, shares) is Some,
    ensures
        exists|k: int|
            first_named(shares, split_on(normalized(v), '/')[0], k) && #[trigger] sanitized(
                shares[k].1,
            ) is Some && {
                let base = sanitized(shares[k].1)->0;
                let r = resolved(v, shares)->0;
                r == base || base.len() == 0 || starts_with(r, base.push('/'))
            },
{
    let vp = normalized(v);
    lemma_split_nonempty(vp, '/');
    let segs = split_on(vp, '/');
    let first = segs[0];
    let rest = segs.drop_first();
    let k = choose|k: int| first_named(shares, first, k);
    let share_real = shares[k].1;
    if rest.len() == 0 {
        assert(sanitized(share_real) is Some);
    } else {
        let j = join_with(rest, '/');
        let full = concat3(share_real, '/', j);
        lemma_split_pieces_lack_sep(vp, '/');
        assert forall|q: int| 0 <= q < rest.len() implies !has_char(#[trigger] rest[q], '/') by {
            assert(rest[q] == segs[q + 1]);
        }
        assert forall|q: int| 0 <= q < rest.len() implies !has_char(#[trigger] rest[q], '\\')
            && !has_char(rest[q], '\0') by {
            assert(safe_segment(rest[q]));
        }
        lemma_join_lacks(rest, '/', '\\');
        lemma_join_lacks(rest, '/', '\0');
        lemma_split_join(rest, '/');
        lemma_split_concat(share_real, j, '/');
        assert forall|q: int| 0 <= q < rest.len() implies (#[trigger] rest[q]).len() > 0
            && rest[q] != seq!['.'] && rest[q] != seq!['.', '.'] by {
            assert(safe_segment(rest[q]));
        }
        lemma_clean_append_safe(split_on(share_real, '/'), rest);
        // The full path lacks NUL and backslash exactly when the share_real path does.
        assert(has_char(full, '\\') ==> has_char(share_real, '\\')) by {
            if has_char(full, '\\') {
                let i = choose|i: int| 0 <= i < full.len() && full[i] == '\\';
                if i > share_real.len() {
                    assert(j[i - share_real.len() - 1] == '\\');
                }
            }
        }
        assert(has_char(full, '\0') ==> has_char(share_real, '\0')) by {
            if has_char(full, '\0') {
                let i = choose|i: int| 0 <= i < full.len() && full[i] == '\0';
                if i > share_real.len() {
                    assert(j[i - share_real.len() - 1] == '\0');
                }
            }
        }
        assert(has_char(share_real, '\\') ==> has_char(full, '\\')) by {
            if has_char(share_real, '\\') {
                let i = choose|i: int| 0 <= i < share_real.len() && share_real[i] == '\\';
                assert(full[i] == '\\');
            }
        }
        assert(has_char(share_real, '\0') ==> has_char(full, '\0')) by {
            if has_char(share_real, '\0') {
                let i = choose|i: int| 0 <= i < share_real.len() && share_real[i] == '\0';
                assert(full[i] == '\0');
            }
        }
        assert(sanitized(share_real) is Some);
        let oa = clean_segments(split_on(share_real, '/'))->0;
        let base = join_with(oa, '/');
        let r = sanitized(full)->0;
        assert(r == join_with(oa + rest, '/'));
        if oa.len() > 0 {
            lemma_join_concat(oa, rest, '/');
            assert(r == concat3(base, '/', j));
            assert(r.take(base.len() + 1int) =~= base.push('/'));
        } else {
            assert(oa + rest =~= rest);
        }
    }
    assert(sanitized(shares[k].1) is Some);
}

/// Every share at the virtual root stands for a non-empty normalized real
/// path and is named after that path's leaf.
proof fn lemma_share_shapes(user: UserRow, groups: Seq<i64>, entries: Seq<AclEntryRow>)
    ensures
        forall|k: int|
            0 <= k < shares_of(user, groups, entries).len() ==> {
                let sh = #[trigger] shares_of(user, groups, entries)[k];
                &&& sh.1.len() > 0
                &&& normalized(sh.1) == sh.1
                &&& exists|n: nat| sh.0 == share_name(leaf_of(sh.1), n)
            },
    decreases entries.len(),
{
    if entries.len() > 0 {
        lemma_share_shapes(user, groups, entries.drop_last());
        let prev = shares_of(user, groups, entries.drop_last());
        let e = entries.last();
        let rp = normalized(e.path@);
        lemma_trim_ends(e.path@, '/');
        let all = shares_of(user, groups, entries);
        assert forall|k: int| 0 <= k < all.len() implies {
            let sh = #[trigger] all[k];
            &&& sh.1.len() > 0
            &&& normalized(sh.1) == sh.1
            &&& exists|n: nat| sh.0 == share_name(leaf_of(sh.1), n)
        } by {
            if k < prev.len() {
                assert(all[k] == prev[k]);
            } else {
                let base = leaf_of(rp);
                let w = first_free(prev, base, 0);
                assert(all[k].0 == share_name(leaf_of(all[k].1), w));
            }
        }
    }
}

/// A share name built from a safe leaf is itself a safe segment without `/`.
proof fn lemma_share_name_safe(base: Seq<char>, n: nat)
    requires
        safe_segment(base),
        !has_char(base, '/'),
    ensures
        safe_segment(share_name(base, n)),
        !has_char(share_name(base, n), '/'),
{
    if n > 0 {
        let name = share_name(base, n);
        let d = decimal(n + 1);
        lemma_decimal_digits(n + 1);
        assert(name.len() >= 3);
        assert(name != seq!['.']);
        assert(name != seq!['.', '.']) by {
            if name == seq!['.', '.'] {
                assert(name.len() == 2);
            }
        }
        assert forall|x: char| x == '/' || x == '\\' || x == '\0' implies !has_char(name, x) by {
            if has_char(name, x) {
                let i = choose|i: int| 0 <= i < name.len() && name[i] == x;
                if i < base.len() {
                    assert(base[i] == x);
                } else if i > base.len() {
                    assert(is_digit(d[i - base.len() - 1]));
                }
            }
        }
    }
}

/// Share names never repeat: every share at the virtual root is reachable
/// by its own name.
pub proof fn law_share_names_distinct(user: UserRow, groups: Seq<i64>, entries: Seq<AclEntryRow>)
    ensures
        forall|i: int, j: int|
            0 <= i < j < shares_of(user, groups, entries).len() ==> (#[trigger] shares_of(
                user,
                groups,
                entries,
            )[i]).0 != (#[trigger] shares_of(user, groups, entries)[j]).0,
    decreases entries.len(),
{
    if entries.len() > 0 {
        law_share_names_distinct(user, groups, entries.drop_last());
        let prev = shares_of(user, groups, entries.drop_last());
        let all = shares_of(user, groups, entries);
        let e = entries.last();
        let rp = normalized(e.path@);
        if visible_to(e, user, groups) && rp.len() > 0 {
            let base = leaf_of(rp);
            lemma_first_free(prev, base, 0);
            assert forall|i: int, j: int| 0 <= i < j < all.len() implies (#[trigger] all[i]).0
                != (#[trigger] all[j]).0 by {
                assert(all[i] == prev[i]);
                if j < prev.len() {
                    assert(all[j] == prev[j]);
                } else if all[i].0 == all[j].0 {
                    assert(name_taken(prev, share_name(base, first_free(prev, base, 0))));
                }
            }
        }
    }
}

/// Display and resolution are inverse: for a user browsing through the
/// shares, the display path of a canonical real path resolves back to that
/// very real path.
pub proof fn law_display_resolve_roundtrip(
    user: UserRow,
    groups: Seq<i64>,
    entries: Seq<AclEntryRow>,
    real_path: Seq<char>,
)
    requires
        !sees_real(user, groups, entries),
        sanitized(real_path) == Some(real_path),
        displayed(user, groups, entries, real_path) is Some,
    ensures
        resolved(displayed(user, groups, entries, real_path)->0, shares_of(user, groups, entries))
            == Some(real_path),
{
    let shares = shares_of(user, groups, entries);
    let rp = real_path;
    law_share_names_distinct(user, groups, entries);
    law_sanitize_canonical(rp);
    assert(normalized(rp) == rp);
    let k = choose|k: int| display_winner(shares, rp, k);
    let sh = shares[k];
    lemma_share_shapes(user, groups, entries);
    let sr = sh.1;
    assert(normalized(sr) == sr);
    let n = choose|n: nat| sh.0 == share_name(leaf_of(sr), n);
    let name = sh.0;
    let d = display_through(sh, rp);
    assert(displayed(user, groups, entries, real_path) == Some(d));
    // The real path is not the root: the share's path is non-empty.
    assert(rp.len() > 0);
    assert(all_safe(split_on(rp, '/')));
    lemma_split_nonempty(sr, '/');
    lemma_split_pieces_lack_sep(sr, '/');
    let rest = rp.skip(sr.len() + 1int);
    // The share's own segments are safe: they lead the real path's.
    if rp == sr {
        assert(all_safe(split_on(sr, '/')));
    } else {
        assert(starts_with(rp, sr.push('/')));
        assert(rp =~= concat3(sr, '/', rest));
        lemma_split_concat(sr, rest, '/');
        assert forall|q: int| 0 <= q < split_on(sr, '/').len() implies safe_segment(
            #[trigger] split_on(sr, '/')[q],
        ) by {
            assert(split_on(rp, '/')[q] == split_on(sr, '/')[q]);
        }
    }
    let leaf = leaf_of(sr);
    assert(split_on(sr, '/')[split_on(sr, '/').len() - 1] == leaf);
    assert(safe_segment(leaf));
    assert(!has_char(leaf, '/'));
    lemma_share_name_safe(leaf, n);
    lemma_split_plain(name, '/');
    // Only share `k` carries that name.
    assert forall|q: int| first_named(shares, name, q) implies q == k by {
        if q < k {
            assert(shares[q].0 != shares[k].0);
        } else if q > k {
            assert(shares[k].0 != shares[q].0);
        }
    }
    assert(first_named(shares, name, k)) by {
        assert forall|j: int| 0 <= j < k implies #[trigger] shares[j].0 != name by {
            assert(shares[j].0 != shares[k].0);
        }
    }
    assert(name.len() > 0 && name[0] != '/') by {
        if name[0] == '/' {
            assert(has_char(name, '/'));
        }
    }
    if rp == sr {
        assert(d == name);
        assert(name.last() != '/') by {
            if name.last() == '/' {
                assert(name[name.len() - 1] == '/');
            }
        }
        lemma_trim_noop(d, '/');
        assert(split_on(d, '/') == seq![name]);
        assert(seq![name].drop_first().len() == 0);
        assert(all_safe(seq![name].drop_first()));
    } else {
        assert(rest.len() > 0) by {
            if rest.len() == 0 {
                assert(rp =~= sr.push('/'));
                assert(rp.last() == '/');
                lemma_trim_ends(rp, '/');
            }
        }
        assert(d == concat3(name, '/', rest));
        lemma_trim_ends(rp, '/');
        assert(d.last() == rp.last());
        lemma_trim_noop(d, '/');
        lemma_split_concat(name, rest, '/');
        let segs = split_on(d, '/');
        assert(segs == seq![name] + split_on(rest, '/'));
        assert(segs[0] == name);
        assert(segs.drop_first() =~= split_on(rest, '/'));
        assert(all_safe(split_on(rest, '/'))) by {
            assert forall|q: int| 0 <= q < split_on(rest, '/').len() implies safe_segment(
                #[trigger] split_on(rest, '/')[q],
            ) by {
                assert(split_on(rp, '/')[split_on(sr, '/').len() + q] == split_on(rest, '/')[q]);
            }
        }
        lemma_join_split(rest, '/');
        lemma_split_nonempty(rest, '/');
    }
}

/// The rule at `i` of a share visitor's rules (the global rules followed
/// by the share's grants) targets the visitor only if it is one of the
/// grants: a read rule on one of the shared paths.
proof fn lemma_visitor_rule(
    visitor: UserRow,
    global: Seq<AclEntryRow>,
    grants_seq: Seq<AclEntryRow>,
    paths: Seq<Seq<char>>,
    i: int,
)
    requires
        visitor.id == SHARE_USER_ID,
        forall|j: int| 0 <= j < global.len() ==> (#[trigger] global[j]).user_id != Some(SHARE_USER_ID),
        grants_seq.map_values(|e: AclEntryRow| grant_view(e)) == paths.map_values(
            |p: Seq<char>| share_grant(p),
        ),
        0 <= i < global.len() + grants_seq.len(),
        grants((global + grants_seq)[i], visitor, Seq::empty()),
    ensures
        i >= global.len(),
        i - global.len() < paths.len(),
        (global + grants_seq)[i].path@ == paths[i - global.len()],
        entry_permission((global + grants_seq)[i]) == Permission::Read,
{
    reveal_strlit("read");
    assert(grants_seq.map_values(|e: AclEntryRow| grant_view(e)).len() == grants_seq.len());
    assert(paths.map_values(|p: Seq<char>| share_grant(p)).len() == paths.len());
    let e = (global + grants_seq)[i];
    if i < global.len() {
        assert(e == global[i]);
    } else {
        let k = i - global.len();
        assert(e == grants_seq[k]);
        assert(grants_seq.map_values(|e: AclEntryRow| grant_view(e))[k] == grant_view(grants_seq[k]));
        assert(paths.map_values(|p: Seq<char>| share_grant(p))[k] == share_grant(paths[k]));
        assert(e.permission@ == "read"@);
    }
}

/// A share visitor is read-only: with no groups and rules made of the
/// global table plus the share's grants, it can never write or administer
/// anything, as long as no global rule names the share identity.
pub proof fn law_share_visitor_is_read_only(
    visitor: UserRow,
    global: Seq<AclEntryRow>,
    grants_seq: Seq<AclEntryRow>,
    paths: Seq<Seq<char>>,
    path: Seq<char>,
)
    requires
        visitor.id == SHARE_USER_ID,
        visitor.is_admin == 0,
        forall|j: int| 0 <= j < global.len() ==> (#[trigger] global[j]).user_id != Some(SHARE_USER_ID),
        grants_seq.map_values(|e: AclEntryRow| grant_view(e)) == paths.map_values(
            |p: Seq<char>| share_grant(p),
        ),
    ensures
        !access_allowed(visitor, Seq::empty(), global + grants_seq, path, Permission::Write),
        !access_allowed(visitor, Seq::empty(), global + grants_seq, path, Permission::Admin),
{
    let entries = global + grants_seq;
    assert forall|i: int|
        #[trigger] is_deciding(visitor, Seq::empty(), entries, path, i) implies !covers_spec(
        entry_permission(entries[i]),
        Permission::Write,
    ) && !covers_spec(entry_permission(entries[i]), Permission::Admin) by {
        lemma_visitor_rule(visitor, global, grants_seq, paths, i);
    }
}

/// A share visitor reaches only the shared items: any path it may read
/// lies under one of the share's paths.
pub proof fn law_share_visitor_confined(
    visitor: UserRow,
    global: Seq<AclEntryRow>,
    grants_seq: Seq<AclEntryRow>,
    paths: Seq<Seq<char>>,
    path: Seq<char>,
)
    requires
        visitor.id == SHARE_USER_ID,
        visitor.is_admin == 0,
        forall|j: int| 0 <= j < global.len() ==> (#[trigger] global[j]).user_id != Some(SHARE_USER_ID),
        grants_seq.map_values(|e: AclEntryRow| grant_view(e)) == paths.map_values(
            |p: Seq<char>| share_grant(p),
        ),
        access_allowed(visitor, Seq::empty(), global + grants_seq, path, Permission::Read),
    ensures
        exists|k: int| 0 <= k < paths.len() && applies_to(#[trigger] paths[k], path),
{
    let entries = global + grants_seq;
    let i = choose|i: int|
        #[trigger] is_deciding(visitor, Seq::empty(), entries, path, i) && covers_spec(
            entry_permission(entries[i]),
            Permission::Read,
        );
    lemma_visitor_rule(visitor, global, grants_seq, paths, i);
    let k = i - global.len();
    assert(applies_to(paths[k], path));
}

} // verus!
