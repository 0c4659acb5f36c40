//! Directory listings as the user sees them: only readable entries,
//! directories first, then by case-insensitive name.
use vstd::prelude::*;
use vstd::seq_lib::to_multiset_insert;
use crate::acl::{access_allowed, can_access, Permission};
use crate::models::FileEntry;
use crate::rows::{AclEntryRow, UserRow};

verus! {

/// The Unicode lowercase form of a string (`str::to_lowercase`).
pub uninterp spec fn lowercase_of(s: Seq<char>) -> Seq<char>;

/// `str::to_lowercase`: the Unicode lowercase mapping of the string.
#[verifier::external_body]
fn lowercase(s: &str) -> (r: String)
    ensures
        r@ == lowercase_of(s@),
{
    s.to_lowercase()
}

/// Lexicographic order by code point (the order of `String`'s `<`, since
/// UTF-8 preserves code point order).
pub open spec fn seq_lt(a: Seq<char>, b: Seq<char>) -> bool
    decreases a.len(),
{
    if a.len() == 0 {
        b.len() > 0
    } else if b.len() == 0 {
        false
    } else if a[0] < b[0] {
        true
    } else if a[0] == b[0] {
        seq_lt(a.drop_first(), b.drop_first())
    } else {
        false
    }
}

pub proof fn lemma_seq_lt_asymmetric(a: Seq<char>, b: Seq<char>)
    ensures
        !(seq_lt(a, b) && seq_lt(b, a)),
    decreases a.len(),
{
    if a.len() > 0 && b.len() > 0 && a[0] == b[0] {
        lemma_seq_lt_asymmetric(a.drop_first(), b.drop_first());
    }
}

pub proof fn lemma_seq_lt_transitive(a: Seq<char>, b: Seq<char>, c: Seq<char>)
    requires
        seq_lt(a, b),
        seq_lt(b, c),
    ensures
        seq_lt(a, c),
    decreases a.len(),
{
    if a.len() > 0 && b.len() > 0 && c.len() > 0 && a[0] == b[0] && b[0] == c[0] {
        lemma_seq_lt_transitive(a.drop_first(), b.drop_first(), c.drop_first());
    }
}

/// The listing order: directories before files, then by lowercase name.
pub open spec fn entry_before(a: FileEntry, b: FileEntry) -> bool {
    (a.is_dir && !b.is_dir) || (a.is_dir == b.is_dir && seq_lt(
        lowercase_of(a.name@),
        lowercase_of(b.name@),
    ))
}

proof fn lemma_before_asymmetric(a: FileEntry, b: FileEntry)
    ensures
        !(entry_before(a, b) && entry_before(b, a)),
{
    lemma_seq_lt_asymmetric(lowercase_of(a.name@), lowercase_of(b.name@));
}

proof fn lemma_before_transitive(a: FileEntry, b: FileEntry, c: FileEntry)
    requires
        entry_before(a, b),
        entry_before(b, c),
    ensures
        entry_before(a, c),
{
    if a.is_dir == b.is_dir && b.is_dir == c.is_dir {
        lemma_seq_lt_transitive(lowercase_of(a.name@), lowercase_of(b.name@), lowercase_of(c.name@));
    }
}

/// No entry comes before an earlier one.
pub open spec fn listing_sorted(s: Seq<FileEntry>) -> bool {
    forall|i: int, j: int| 0 <= i < j < s.len() ==> !entry_before(#[trigger] s[j], #[trigger] s[i])
}

fn chars_lt(a: &Vec<char>, b: &Vec<char>) -> (r: bool)
    ensures
        r == seq_lt(a@, b@),
{
    let mut i: usize = 0;
    assert(a@.skip(0) =~= a@ && b@.skip(0) =~= b@);
    while i < a.len() && i < b.len() && a[i] == b[i]
        invariant
            i <= a.len(),
            i <= b.len(),
            seq_lt(a@, b@) == seq_lt(a@.skip(i as int), b@.skip(i as int)),
        decreases a.len() - i,
    {
        assert(a@.skip(i as int).drop_first() =~= a@.skip(i as int + 1));
        assert(b@.skip(i as int).drop_first() =~= b@.skip(i as int + 1));
        assert(a@.skip(i as int)[0] == a@[i as int]);
        assert(b@.skip(i as int)[0] == b@[i as int]);
        i = i + 1;
    }
    if i < a.len() && i < b.len() {
        assert(a@.skip(i as int)[0] == a@[i as int]);
        assert(b@.skip(i as int)[0] == b@[i as int]);
        a[i] < b[i]
    } else {
        i == a.len() && i < b.len()
    }
}

/// `a` is a proper prefix of `b`.
pub open spec fn proper_prefix(a: Seq<char>, b: Seq<char>) -> bool {
    a.len() < b.len() && b.take(a.len() as int) == a
}

/// The name order is `String`'s: a proper prefix comes first, and otherwise
/// the first differing character decides.
proof fn lemma_seq_lt_string_order(a: Seq<char>, b: Seq<char>)
    ensures
        proper_prefix(a, b) ==> seq_lt(a, b),
        forall|k: int|
            0 <= k < a.len() && k < b.len() && a.take(k) == b.take(k) && a[k] < b[k] ==> seq_lt(
                a,
                b,
            ),
    decreases a.len(),
{
    if a.len() > 0 && b.len() > 0 {
        lemma_seq_lt_string_order(a.drop_first(), b.drop_first());
        if proper_prefix(a, b) {
            assert(a[0] == b.take(a.len() as int)[0]);
            assert(b.drop_first().take(a.len() - 1) =~= b.take(a.len() as int).drop_first());
        }
        assert forall|k: int|
            0 <= k < a.len() && k < b.len() && a.take(k) == b.take(k) && a[k] < b[k] implies seq_lt(
            a,
            b,
        ) by {
            if k > 0 {
                assert(a[0] == a.take(k)[0] && b[0] == b.take(k)[0]);
                assert(a.drop_first().take(k - 1) =~= a.take(k).drop_first());
                assert(b.drop_first().take(k - 1) =~= b.take(k).drop_first());
                assert(a.drop_first()[k - 1] == a[k] && b.drop_first()[k - 1] == b[k]);
            }
        }
    }
}

/// A sorted listing puts directories before files and, among entries of
/// the same kind, orders lowercase names as `String` does: a name whose
/// lowercase form is a proper prefix of another's comes first, and
/// otherwise the first differing character of the lowercase forms decides.
pub proof fn law_listing_order(s: Seq<FileEntry>, i: int, j: int)
    requires
        listing_sorted(s),
        0 <= i < s.len(),
        0 <= j < s.len(),
    ensures
        s[i].is_dir && !s[j].is_dir ==> i < j,
        s[i].is_dir == s[j].is_dir && proper_prefix(lowercase_of(s[i].name@), lowercase_of(s[j].name@))
            ==> i < j,
        forall|k: int|
            #![trigger lowercase_of(s[i].name@)[k], lowercase_of(s[j].name@)[k]]
            s[i].is_dir == s[j].is_dir && 0 <= k < lowercase_of(s[i].name@).len() && k
                < lowercase_of(s[j].name@).len() && lowercase_of(s[i].name@).take(k)
                == lowercase_of(s[j].name@).take(k) && lowercase_of(s[i].name@)[k]
                < lowercase_of(s[j].name@)[k] ==> i < j,
{
    let a = lowercase_of(s[i].name@);
    let b = lowercase_of(s[j].name@);
    lemma_seq_lt_string_order(a, b);
    if j <= i {
        if j < i {
            assert(!entry_before(s[i], s[j]));
        }
    }
}

/// Field-by-field copy of a listing entry.
pub fn copy_file_entry(e: &FileEntry) -> (r: FileEntry)
    ensures
        r == *e,
{
    FileEntry {
        name: e.name.clone(),
        path: e.path.clone(),
        is_dir: e.is_dir,
        size: e.size,
        modified: e.modified.clone(),
        mime_type: e.mime_type.clone(),
    }
}

fn before_exec(a: &FileEntry, ka: &Vec<char>, b: &FileEntry, kb: &Vec<char>) -> (r: bool)
    requires
        ka@ == lowercase_of(a.name@),
        kb@ == lowercase_of(b.name@),
    ensures
        r == entry_before(*a, *b),
{
    (a.is_dir && !b.is_dir) || (a.is_dir == b.is_dir && chars_lt(ka, kb))
}

/// Where an insertion sort places `e` among the sorted `s`: before the
/// first entry it comes before, so after every entry it ties with.
pub open spec fn insert_pos(s: Seq<FileEntry>, e: FileEntry) -> int
    decreases s.len(),
{
    if s.len() == 0 {
        0
    } else if entry_before(e, s[0]) {
        0
    } else {
        1 + insert_pos(s.drop_first(), e)
    }
}

/// The stable listing order of `s`: each entry inserted in turn at its
/// place, so entries that tie keep their original order.
pub open spec fn stable_order(s: Seq<FileEntry>) -> Seq<FileEntry>
    decreases s.len(),
{
    if s.len() == 0 {
        Seq::empty()
    } else {
        let prev = stable_order(s.drop_last());
        prev.insert(insert_pos(prev, s.last()), s.last())
    }
}

proof fn lemma_insert_pos(s: Seq<FileEntry>, e: FileEntry, p: int)
    requires
        0 <= p <= s.len(),
        forall|q: int| 0 <= q < p ==> !entry_before(e, #[trigger] s[q]),
        p == s.len() || entry_before(e, s[p]),
    ensures
        insert_pos(s, e) == p,
    decreases p,
{
    if p > 0 {
        assert(!entry_before(e, s[0]));
        assert forall|q: int| 0 <= q < p - 1 implies !entry_before(e, #[trigger] s.drop_first()[q]) by {
            assert(s.drop_first()[q] == s[q + 1]);
        }
        if p < s.len() {
            assert(s.drop_first()[p - 1] == s[p]);
        }
        lemma_insert_pos(s.drop_first(), e, p - 1);
    }
}

/// Ordering is stable: a listing already in order comes back unchanged, so
/// entries that tie keep the order they were given in.
pub proof fn law_ordered_listing_unchanged(s: Seq<FileEntry>)
    requires
        listing_sorted(s),
    ensures
        stable_order(s) == s,
    decreases s.len(),
{
    if s.len() > 0 {
        let prev = s.drop_last();
        assert(listing_sorted(prev)) by {
            assert forall|i: int, j: int| 0 <= i < j < prev.len() implies !entry_before(
                #[trigger] prev[j],
                #[trigger] prev[i],
            ) by {
                assert(prev[i] == s[i] && prev[j] == s[j]);
            }
        }
        law_ordered_listing_unchanged(prev);
        assert forall|q: int| 0 <= q < prev.len() implies !entry_before(
            s.last(),
            #[trigger] prev[q],
        ) by {
            assert(prev[q] == s[q]);
            assert(s.last() == s[s.len() - 1]);
        }
        lemma_insert_pos(prev, s.last(), prev.len() as int);
        assert(prev.insert(prev.len() as int, s.last()) =~= s);
    }
}

/// Order a listing: directories first, then by case-insensitive name,
/// entries that tie keeping their order; every entry is kept exactly once.
pub fn order_entries(entries: &Vec<FileEntry>) -> (r: Vec<FileEntry>)
    ensures
        r@ == stable_order(entries@),
        r@.to_multiset() == entries@.to_multiset(),
        listing_sorted(r@),
{
    broadcast use vstd::seq_lib::to_multiset_build;

    let mut out: Vec<FileEntry> = Vec::new();
    let mut keys: Vec<Vec<char>> = Vec::new();
    let mut i: usize = 0;
    assert(entries@.take(0).to_multiset() =~= out@.to_multiset()) by {
        assert(entries@.take(0) =~= Seq::<FileEntry>::empty());
        assert(out@ =~= Seq::<FileEntry>::empty());
    }
    assert(out@ =~= stable_order(entries@.take(0)));
    while i < entries.len()
        invariant
            i <= entries@.len(),
            out@.to_multiset() == entries@.take(i as int).to_multiset(),
            out@ == stable_order(entries@.take(i as int)),
            listing_sorted(out@),
            keys@.len() == out@.len(),
            forall|k: int|
                0 <= k < keys@.len() ==> #[trigger] keys@[k]@ == lowercase_of(out@[k].name@),
        decreases entries.len() - i,
    {
        let e = copy_file_entry(&entries[i]);
        let key = crate::text::chars_of(lowercase(e.name.as_str()).as_str());
        let mut p: usize = 0;
        while p < out.len() && !before_exec(&e, &key, &out[p], &keys[p])
            invariant
                p <= out@.len(),
                keys@.len() == out@.len(),
                key@ == lowercase_of(e.name@),
                forall|k: int|
                    0 <= k < keys@.len() ==> #[trigger] keys@[k]@ == lowercase_of(out@[k].name@),
                forall|q: int| 0 <= q < p ==> !entry_before(e, #[trigger] out@[q]),
            decreases out.len() - p,
        {
            p = p + 1;
        }
        let ghost old_out = out@;
        proof {
            if p < old_out.len() {
                assert(entry_before(e, old_out[p as int]));
            }
            assert forall|a: int, b: int|
                0 <= a < b < old_out.len() + 1 implies !entry_before(
                #[trigger] old_out.insert(p as int, e)[b],
                #[trigger] old_out.insert(p as int, e)[a],
            ) by {
                let n = old_out.insert(p as int, e);
                if b < p {
                    assert(n[a] == old_out[a] && n[b] == old_out[b]);
                } else if b == p {
                    assert(n[a] == old_out[a] && n[b] == e);
                } else if a > p {
                    assert(n[a] == old_out[a - 1] && n[b] == old_out[b - 1]);
                } else if a == p {
                    assert(n[a] == e && n[b] == old_out[b - 1]);
                    if entry_before(old_out[b - 1], e) {
                        if b - 1 == p {
                            lemma_before_asymmetric(e, old_out[p as int]);
                        } else {
                            lemma_before_transitive(old_out[b - 1], e, old_out[p as int]);
                        }
                    }
                } else {
                    assert(n[a] == old_out[a] && n[b] == old_out[b - 1]);
                }
            }
            lemma_insert_pos(old_out, e, p as int);
            assert(entries@.take(i as int + 1).drop_last() =~= entries@.take(i as int));
            assert(entries@.take(i as int + 1).last() == entries@[i as int]);
            to_multiset_insert(old_out, p as int, e);
            assert(entries@.take(i as int + 1) =~= entries@.take(i as int).push(entries@[i as int]));
            vstd::seq_lib::to_multiset_build(entries@.take(i as int), entries@[i as int]);
            assert(e == entries@[i as int]);
        }
        let ghost old_keys = keys@;
        out.insert(p, e);
        keys.insert(p, key);
        assert(out@ == old_out.insert(p as int, e));
        proof {
            assert forall|k: int| 0 <= k < keys@.len() implies #[trigger] keys@[k]@ == lowercase_of(
                out@[k].name@,
            ) by {
                if k < p {
                    assert(keys@[k] == old_keys[k] && out@[k] == old_out[k]);
                } else if k > p {
                    assert(keys@[k] == old_keys[k - 1] && out@[k] == old_out[k - 1]);
                }
            }
        }
        i = i + 1;
    }
    assert(entries@.take(entries@.len() as int) =~= entries@);
    out
}

/// The entries of a listing the user may read, each given with its real
/// path.
pub open spec fn readable_of(
    user: UserRow,
    groups: Seq<i64>,
    acl: Seq<AclEntryRow>,
    candidates: Seq<(FileEntry, Seq<char>)>,
) -> Seq<FileEntry>
    decreases candidates.len(),
{
    if candidates.len() == 0 {
        Seq::empty()
    } else {
        let prev = readable_of(user, groups, acl, candidates.drop_last());
        let c = candidates.last();
        if access_allowed(user, groups, acl, c.1, Permission::Read) {
            prev.push(c.0)
        } else {
            prev
        }
    }
}

/// Keep only the entries whose real path the user can read: inaccessible
/// files and directories are hidden from listings.
pub fn readable_entries(
    user: &UserRow,
    user_groups: &[i64],
    acl_entries: &[AclEntryRow],
    candidates: &Vec<(FileEntry, String)>,
) -> (r: Vec<FileEntry>)
    ensures
        r@ == readable_of(
            *user,
            user_groups@,
            acl_entries@,
            candidates@.map_values(|c: (FileEntry, String)| (c.0, c.1@)),
        ),
{
    let ghost cs = candidates@.map_values(|c: (FileEntry, String)| (c.0, c.1@));
    let mut out: Vec<FileEntry> = Vec::new();
    let mut i: usize = 0;
    while i < candidates.len()
        invariant
            i <= candidates@.len(),
            cs == candidates@.map_values(|c: (FileEntry, String)| (c.0, c.1@)),
            out@ == readable_of(*user, user_groups@, acl_entries@, cs.take(i as int)),
        decreases candidates.len() - i,
    {
        assert(cs.take(i as int + 1).drop_last() =~= cs.take(i as int));
        assert(cs.take(i as int + 1).last() == cs[i as int]);
        let (entry, real_path) = &candidates[i];
        if can_access(user, user_groups, acl_entries, real_path.as_str(), &Permission::Read) {
            out.push(copy_file_entry(entry));
        }
        i = i + 1;
    }
    assert(cs.take(candidates@.len() as int) =~= cs);
    out
}

} // verus!
