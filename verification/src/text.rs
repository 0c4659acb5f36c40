//! Character-sequence model of the string operations the library needs.
//!
//! Paths, header values and names are modelled as `Seq<char>` (the view of
//! `str`/`String`).  Each spec function here states what the corresponding
//! `str` operation of the standard library computes; the exec functions are
//! the verified implementations used throughout the crate.
use vstd::prelude::*;
use vstd::utf8::encode_utf8;

verus! {

/// Appends one character to a `String` (`String::push`).
#[verifier::external_body]
pub(crate) fn push_char(s: &mut String, c: char)
    ensures
        final(s)@ == old(s)@.push(c),
{
    s.push(c);
}

// ───────────────────────── spec layer ─────────────────────────

/// Byte length of the UTF-8 encoding (what `str::len` returns).
pub open spec fn byte_len(s: Seq<char>) -> nat {
    encode_utf8(s).len()
}

/// `s` with every leading `c` removed (`str::trim_start_matches(c)`).
pub open spec fn trim_start_char(s: Seq<char>, c: char) -> Seq<char>
    decreases s.len(),
{
    if s.len() > 0 && s[0] == c {
        trim_start_char(s.drop_first(), c)
    } else {
        s
    }
}

/// `s` with every trailing `c` removed (`str::trim_end_matches(c)`).
pub open spec fn trim_end_char(s: Seq<char>, c: char) -> Seq<char>
    decreases s.len(),
{
    if s.len() > 0 && s.last() == c {
        trim_end_char(s.drop_last(), c)
    } else {
        s
    }
}

/// `str::trim_matches(c)`: both ends.
pub open spec fn trim_char(s: Seq<char>, c: char) -> Seq<char> {
    trim_end_char(trim_start_char(s, c), c)
}

/// `str::split(c)`: the pieces between occurrences of `c` (never empty;
/// `""` splits into one empty piece).
pub open spec fn split_on(s: Seq<char>, c: char) -> Seq<Seq<char>>
    decreases s.len(),
{
    if s.len() == 0 {
        seq![Seq::<char>::empty()]
    } else {
        let r = split_on(s.drop_last(), c);
        if s.last() == c {
            r.push(Seq::<char>::empty())
        } else {
            r.update(r.len() - 1, r.last().push(s.last()))
        }
    }
}

/// `[..].join(sep)` on a list of pieces.
pub open spec fn join_with(segs: Seq<Seq<char>>, sep: char) -> Seq<char>
    decreases segs.len(),
{
    if segs.len() == 0 {
        Seq::<char>::empty()
    } else if segs.len() == 1 {
        segs[0]
    } else {
        join_with(segs.drop_last(), sep).push(sep) + segs.last()
    }
}

/// `str::contains(c)` for a single character.
pub open spec fn has_char(s: Seq<char>, c: char) -> bool {
    exists|i: int| 0 <= i < s.len() && s[i] == c
}

/// `str::starts_with(p)`.
pub open spec fn starts_with(s: Seq<char>, p: Seq<char>) -> bool {
    p.len() <= s.len() && s.take(p.len() as int) == p
}

/// `a + sep + b`.
pub open spec fn concat3(a: Seq<char>, sep: char, b: Seq<char>) -> Seq<char> {
    a.push(sep) + b
}

/// The last piece of `s` split on `/` (`s.rsplit('/').next()`).
pub open spec fn leaf_of(s: Seq<char>) -> Seq<char> {
    split_on(s, '/').last()
}

/// The ASCII digit for `d < 10`.
pub open spec fn digit_char(d: nat) -> char {
    if d == 0 { '0' }
    else if d == 1 { '1' }
    else if d == 2 { '2' }
    else if d == 3 { '3' }
    else if d == 4 { '4' }
    else if d == 5 { '5' }
    else if d == 6 { '6' }
    else if d == 7 { '7' }
    else if d == 8 { '8' }
    else { '9' }
}

/// Decimal rendering of a natural number (`u64::to_string`).
pub open spec fn decimal(n: nat) -> Seq<char>
    decreases n,
{
    if n < 10 {
        seq![digit_char(n)]
    } else {
        decimal(n / 10).push(digit_char(n % 10))
    }
}

/// Decimal rendering of a signed integer (`i64::to_string`).
pub open spec fn signed_decimal(n: int) -> Seq<char> {
    if n < 0 {
        seq!['-'] + decimal((-n) as nat)
    } else {
        decimal(n as nat)
    }
}

/// The value of an ASCII digit character.
pub open spec fn digit_value(c: char) -> nat {
    (c as u32 - '0' as u32) as nat
}

pub open spec fn is_digit(c: char) -> bool {
    '0' <= c <= '9'
}

pub open spec fn all_digits(s: Seq<char>) -> bool {
    forall|i: int| 0 <= i < s.len() ==> is_digit(#[trigger] s[i])
}

/// The number a string of decimal digits denotes.
pub open spec fn digits_value(s: Seq<char>) -> nat
    decreases s.len(),
{
    if s.len() == 0 {
        0
    } else {
        digits_value(s.drop_last()) * 10 + digit_value(s.last())
    }
}

/// `u64::from_str`: an optional `+`, then at least one ASCII digit, and a
/// value that fits in 64 bits.
pub open spec fn parse_u64_spec(s: Seq<char>) -> Option<u64> {
    let d = if s.len() > 0 && s[0] == '+' { s.drop_first() } else { s };
    if d.len() > 0 && all_digits(d) && digits_value(d) <= u64::MAX {
        Some(digits_value(d) as u64)
    } else {
        None
    }
}

/// `char::is_whitespace`: the Unicode `White_Space` property.
pub open spec fn is_unicode_whitespace(c: char) -> bool {
    let u = c as u32;
    (0x9 <= u <= 0xD) || u == 0x20 || u == 0x85 || u == 0xA0 || u == 0x1680 || (0x2000 <= u
        <= 0x200A) || u == 0x2028 || u == 0x2029 || u == 0x202F || u == 0x205F || u == 0x3000
}

/// `str::trim_start` (Unicode whitespace).
pub open spec fn trim_ws_start(s: Seq<char>) -> Seq<char>
    decreases s.len(),
{
    if s.len() > 0 && is_unicode_whitespace(s[0]) {
        trim_ws_start(s.drop_first())
    } else {
        s
    }
}

/// `str::trim_end` (Unicode whitespace).
pub open spec fn trim_ws_end(s: Seq<char>) -> Seq<char>
    decreases s.len(),
{
    if s.len() > 0 && is_unicode_whitespace(s.last()) {
        trim_ws_end(s.drop_last())
    } else {
        s
    }
}

/// `str::trim`.
pub open spec fn trim_ws(s: Seq<char>) -> Seq<char> {
    trim_ws_end(trim_ws_start(s))
}

/// `char::to_ascii_lowercase`.
pub open spec fn ascii_lower(c: char) -> char {
    if 'A' <= c <= 'Z' {
        ((c as u32) + 32) as char
    } else {
        c
    }
}

/// `str::to_ascii_lowercase`.
pub open spec fn ascii_lower_seq(s: Seq<char>) -> Seq<char> {
    s.map_values(|c: char| ascii_lower(c))
}

/// Index of the first occurrence of `c` (`str::find`/`split_once`).
pub open spec fn first_index_of(s: Seq<char>, c: char) -> int
    recommends
        has_char(s, c),
    decreases s.len(),
{
    if s.len() == 0 {
        0
    } else if s[0] == c {
        0
    } else {
        1 + first_index_of(s.drop_first(), c)
    }
}

// ───────────────────────── lemmas ─────────────────────────

pub proof fn lemma_split_nonempty(s: Seq<char>, c: char)
    ensures
        split_on(s, c).len() >= 1,
    decreases s.len(),
{
    if s.len() > 0 {
        lemma_split_nonempty(s.drop_last(), c);
    }
}

/// No piece of a split contains the separator.
pub proof fn lemma_split_pieces_lack_sep(s: Seq<char>, c: char)
    ensures
        forall|k: int|
            0 <= k < split_on(s, c).len() ==> !has_char(#[trigger] split_on(s, c)[k], c),
    decreases s.len(),
{
    if s.len() > 0 {
        lemma_split_pieces_lack_sep(s.drop_last(), c);
        lemma_split_nonempty(s.drop_last(), c);
        let r = split_on(s.drop_last(), c);
        if s.last() != c {
            assert forall|k: int|
                0 <= k < split_on(s, c).len() implies !has_char(
                #[trigger] split_on(s, c)[k],
                c,
            ) by {
                if k == r.len() - 1 {
                    let p = r.last().push(s.last());
                    assert(!has_char(r[k], c));
                    if has_char(p, c) {
                        let i = choose|i: int| 0 <= i < p.len() && p[i] == c;
                        if i < r[k].len() {
                            assert(r[k][i] == c);
                        }
                    }
                }
            }
        } else {
            assert forall|k: int|
                0 <= k < split_on(s, c).len() implies !has_char(
                #[trigger] split_on(s, c)[k],
                c,
            ) by {
                if k < r.len() {
                    assert(split_on(s, c)[k] == r[k]);
                }
            }
        }
    }
}

/// Joining the pieces of a split gives back the original string.
pub proof fn lemma_join_split(s: Seq<char>, c: char)
    ensures
        join_with(split_on(s, c), c) == s,
    decreases s.len(),
{
    if s.len() > 0 {
        lemma_join_split(s.drop_last(), c);
        lemma_split_nonempty(s.drop_last(), c);
        let r = split_on(s.drop_last(), c);
        if s.last() == c {
            let r2 = r.push(Seq::<char>::empty());
            assert(r2.drop_last() =~= r);
            assert(join_with(r2, c) =~= join_with(r, c).push(c));
            assert(s =~= s.drop_last().push(c));
        } else {
            let r2 = r.update(r.len() - 1, r.last().push(s.last()));
            if r.len() == 1 {
                assert(r2[0] =~= r[0].push(s.last()));
                assert(join_with(r, c) == r[0]);
                assert(s =~= s.drop_last().push(s.last()));
            } else {
                assert(r2.drop_last() =~= r.drop_last());
                assert(join_with(r, c) == join_with(r.drop_last(), c).push(c) + r.last());
                assert(join_with(r2, c) =~= join_with(r, c).push(s.last()));
                assert(s =~= s.drop_last().push(s.last()));
            }
        }
    }
}


/// Pieces of a split lack the separator, and lack any character the
/// whole string lacks.
pub proof fn lemma_split_pieces_lack(s: Seq<char>, c: char, x: char)
    requires
        x == c || !has_char(s, x),
    ensures
        forall|k: int|
            0 <= k < split_on(s, c).len() ==> !has_char(#[trigger] split_on(s, c)[k], x),
    decreases s.len(),
{
    if s.len() > 0 {
        assert(x == c || !has_char(s.drop_last(), x)) by {
            if x != c && has_char(s.drop_last(), x) {
                let i = choose|i: int| 0 <= i < s.drop_last().len() && s.drop_last()[i] == x;
                assert(s[i] == x);
            }
        }
        lemma_split_pieces_lack(s.drop_last(), c, x);
        lemma_split_nonempty(s.drop_last(), c);
        let r = split_on(s.drop_last(), c);
        if s.last() != c {
            assert(s.last() != x) by {
                if x != c {
                    assert(s[s.len() - 1] == s.last());
                }
            }
            assert forall|k: int|
                0 <= k < split_on(s, c).len() implies !has_char(
                #[trigger] split_on(s, c)[k],
                x,
            ) by {
                if k == r.len() - 1 {
                    let p = r.last().push(s.last());
                    assert(!has_char(r[k], x));
                    if has_char(p, x) {
                        let i = choose|i: int| 0 <= i < p.len() && p[i] == x;
                        if i < r[k].len() {
                            assert(r[k][i] == x);
                        }
                    }
                }
            }
        } else {
            assert forall|k: int|
                0 <= k < split_on(s, c).len() implies !has_char(
                #[trigger] split_on(s, c)[k],
                x,
            ) by {
                if k < r.len() {
                    assert(split_on(s, c)[k] == r[k]);
                }
            }
        }
    }
}

/// Appending text without the separator extends the last piece.
pub proof fn lemma_split_append_plain(s: Seq<char>, b: Seq<char>, c: char)
    requires
        !has_char(b, c),
    ensures
        split_on(s + b, c) == split_on(s, c).update(
            split_on(s, c).len() - 1,
            split_on(s, c).last() + b,
        ),
    decreases b.len(),
{
    lemma_split_nonempty(s, c);
    if b.len() == 0 {
        assert(s + b =~= s);
        assert(split_on(s, c).last() + b =~= split_on(s, c).last());
        assert(split_on(s, c).update(split_on(s, c).len() - 1, split_on(s, c).last())
            =~= split_on(s, c));
    } else {
        let b0 = b.drop_last();
        assert(!has_char(b0, c)) by {
            if has_char(b0, c) {
                let i = choose|i: int| 0 <= i < b0.len() && b0[i] == c;
                assert(b[i] == c);
            }
        }
        lemma_split_append_plain(s, b0, c);
        assert((s + b).drop_last() =~= s + b0);
        assert((s + b).last() == b.last());
        assert(b.last() != c) by {
            assert(b[b.len() - 1] == b.last());
        }
        let r = split_on(s + b0, c);
        lemma_split_nonempty(s + b0, c);
        assert(r.last() == split_on(s, c).last() + b0);
        assert((split_on(s, c).last() + b0).push(b.last()) =~= split_on(s, c).last() + b);
        assert(split_on(s + b, c) =~= split_on(s, c).update(
            split_on(s, c).len() - 1,
            split_on(s, c).last() + b,
        ));
    }
}

/// A string without the separator splits into itself alone.
pub proof fn lemma_split_plain(b: Seq<char>, c: char)
    requires
        !has_char(b, c),
    ensures
        split_on(b, c) == seq![b],
{
    lemma_split_append_plain(Seq::<char>::empty(), b, c);
    assert(Seq::<char>::empty() + b =~= b);
    assert(Seq::<char>::empty() + b =~= b);
    assert(split_on(Seq::<char>::empty(), c) == seq![Seq::<char>::empty()]);
    assert(seq![Seq::<char>::empty()].update(0, Seq::<char>::empty() + b) =~= seq![b]);
}

/// Splitting `a + sep + b` splits `a` and `b` separately.
pub proof fn lemma_split_concat(a: Seq<char>, b: Seq<char>, c: char)
    ensures
        split_on(concat3(a, c, b), c) == split_on(a, c) + split_on(b, c),
    decreases b.len(),
{
    lemma_split_nonempty(a, c);
    if b.len() == 0 {
        assert(concat3(a, c, b) =~= a.push(c));
        assert(a.push(c).drop_last() =~= a);
        assert(split_on(a, c) + split_on(b, c) =~= split_on(a, c).push(Seq::<char>::empty()));
    } else {
        let b0 = b.drop_last();
        lemma_split_concat(a, b0, c);
        lemma_split_nonempty(b0, c);
        assert(concat3(a, c, b).drop_last() =~= concat3(a, c, b0));
        assert(concat3(a, c, b).last() == b.last());
        let l = split_on(a, c);
        let r = split_on(b0, c);
        if b.last() == c {
            assert(split_on(concat3(a, c, b), c) =~= (l + r).push(Seq::<char>::empty()));
            assert(split_on(b, c) =~= r.push(Seq::<char>::empty()));
            assert((l + r).push(Seq::<char>::empty()) =~= l + r.push(Seq::<char>::empty()));
        } else {
            assert(split_on(b, c) =~= r.update(r.len() - 1, r.last().push(b.last())));
            assert((l + r).last() == r.last());
            assert(split_on(concat3(a, c, b), c) =~= (l + r).update(
                (l + r).len() - 1,
                r.last().push(b.last()),
            ));
            assert((l + r).update((l + r).len() - 1, r.last().push(b.last())) =~= l + r.update(
                r.len() - 1,
                r.last().push(b.last()),
            ));
        }
    }
}

/// Joining pieces without the separator and splitting again gives the
/// pieces back.
pub proof fn lemma_split_join(segs: Seq<Seq<char>>, c: char)
    requires
        segs.len() >= 1,
        forall|k: int| 0 <= k < segs.len() ==> !has_char(#[trigger] segs[k], c),
    ensures
        split_on(join_with(segs, c), c) == segs,
    decreases segs.len(),
{
    if segs.len() == 1 {
        assert(!has_char(segs[0], c));
        lemma_split_plain(segs[0], c);
        assert(seq![segs[0]] =~= segs);
    } else {
        let d = segs.drop_last();
        assert forall|k: int| 0 <= k < d.len() implies !has_char(#[trigger] d[k], c) by {
            assert(d[k] == segs[k]);
        }
        lemma_split_join(d, c);
        assert(!has_char(segs.last(), c)) by {
            assert(segs[segs.len() - 1] == segs.last());
        }
        lemma_split_concat(join_with(d, c), segs.last(), c);
        lemma_split_plain(segs.last(), c);
        assert(join_with(segs, c) == concat3(join_with(d, c), c, segs.last()));
        assert(d + seq![segs.last()] =~= segs);
    }
}

/// Joining a concatenation of two non-empty piece lists.
pub proof fn lemma_join_concat(x: Seq<Seq<char>>, y: Seq<Seq<char>>, c: char)
    requires
        x.len() >= 1,
        y.len() >= 1,
    ensures
        join_with(x + y, c) == concat3(join_with(x, c), c, join_with(y, c)),
    decreases y.len(),
{
    if y.len() == 1 {
        assert((x + y).drop_last() =~= x);
        assert((x + y).last() == y[0]);
    } else {
        let y0 = y.drop_last();
        lemma_join_concat(x, y0, c);
        assert((x + y).drop_last() =~= x + y0);
        assert((x + y).last() == y.last());
        assert(concat3(join_with(x, c), c, join_with(y0, c)).push(c) + y.last() =~= concat3(
            join_with(x, c),
            c,
            join_with(y0, c).push(c) + y.last(),
        ));
    }
}

/// A join lacks any non-separator character that all pieces lack.
pub proof fn lemma_join_lacks(segs: Seq<Seq<char>>, c: char, x: char)
    requires
        x != c,
        forall|k: int| 0 <= k < segs.len() ==> !has_char(#[trigger] segs[k], x),
    ensures
        !has_char(join_with(segs, c), x),
    decreases segs.len(),
{
    if segs.len() == 1 {
        assert(!has_char(segs[0], x));
    } else if segs.len() > 1 {
        let d = segs.drop_last();
        assert forall|k: int| 0 <= k < d.len() implies !has_char(#[trigger] d[k], x) by {
            assert(d[k] == segs[k]);
        }
        lemma_join_lacks(d, c, x);
        let j = join_with(segs, c);
        let jd = join_with(d, c);
        assert(!has_char(segs.last(), x)) by {
            assert(segs[segs.len() - 1] == segs.last());
        }
        if has_char(j, x) {
            let i = choose|i: int| 0 <= i < j.len() && j[i] == x;
            if i < jd.len() {
                assert(jd[i] == x);
            } else if i > jd.len() {
                assert(segs.last()[i - jd.len() - 1] == x);
            }
        }
    }
}

/// A join of non-empty pieces starts with the first piece's first character
/// and ends with the last piece's last character.
pub proof fn lemma_join_ends(segs: Seq<Seq<char>>, c: char)
    requires
        segs.len() >= 1,
        forall|k: int| 0 <= k < segs.len() ==> (#[trigger] segs[k]).len() > 0,
    ensures
        join_with(segs, c).len() > 0,
        join_with(segs, c)[0] == segs[0][0],
        join_with(segs, c).last() == segs.last().last(),
    decreases segs.len(),
{
    assert(segs[0].len() > 0);
    assert(segs.last().len() > 0) by {
        assert(segs[segs.len() - 1] == segs.last());
    }
    if segs.len() > 1 {
        let d = segs.drop_last();
        assert forall|k: int| 0 <= k < d.len() implies (#[trigger] d[k]).len() > 0 by {
            assert(d[k] == segs[k]);
        }
        lemma_join_ends(d, c);
        assert(d[0] == segs[0]);
    }
}

/// Trimming is the identity on a string whose ends are not `c`.
pub proof fn lemma_trim_noop(s: Seq<char>, c: char)
    requires
        s.len() == 0 || (s[0] != c && s.last() != c),
    ensures
        trim_char(s, c) == s,
{
}

/// A trimmed string does not start or end with `c`.
pub proof fn lemma_trim_ends(s: Seq<char>, c: char)
    ensures
        trim_char(s, c).len() > 0 ==> trim_char(s, c)[0] != c && trim_char(s, c).last() != c,
        trim_char(trim_char(s, c), c) == trim_char(s, c),
{
    lemma_trim_start_ends(s, c);
    let t = trim_start_char(s, c);
    lemma_trim_end_ends(t, c);
    lemma_trim_end_keeps_start(t, c);
    lemma_trim_noop(trim_char(s, c), c);
}

proof fn lemma_trim_start_ends(s: Seq<char>, c: char)
    ensures
        trim_start_char(s, c).len() > 0 ==> trim_start_char(s, c)[0] != c,
    decreases s.len(),
{
    if s.len() > 0 && s[0] == c {
        lemma_trim_start_ends(s.drop_first(), c);
    }
}

proof fn lemma_trim_end_ends(s: Seq<char>, c: char)
    ensures
        trim_end_char(s, c).len() > 0 ==> trim_end_char(s, c).last() != c,
    decreases s.len(),
{
    if s.len() > 0 && s.last() == c {
        lemma_trim_end_ends(s.drop_last(), c);
    }
}

/// Trimming the end keeps a non-`c` first character (the result is a
/// prefix of the input).
proof fn lemma_trim_end_keeps_start(s: Seq<char>, c: char)
    ensures
        trim_end_char(s, c).len() <= s.len(),
        trim_end_char(s, c) == s.take(trim_end_char(s, c).len() as int),
    decreases s.len(),
{
    if s.len() > 0 && s.last() == c {
        lemma_trim_end_keeps_start(s.drop_last(), c);
        let t = trim_end_char(s.drop_last(), c);
        assert(s.drop_last().take(t.len() as int) =~= s.take(t.len() as int));
    } else {
        assert(s.take(s.len() as int) =~= s);
    }
}

/// Decimal renderings are non-empty strings of digits.
/// Distinct numbers have distinct decimal renderings.
pub proof fn lemma_decimal_injective(a: nat, b: nat)
    requires
        decimal(a) == decimal(b),
    ensures
        a == b,
    decreases a,
{
    if a >= 10 {
        lemma_decimal_digits(a / 10);
    }
    if b >= 10 {
        lemma_decimal_digits(b / 10);
    }
    if a < 10 && b < 10 {
        assert(decimal(a)[0] == digit_char(a));
        assert(decimal(b)[0] == digit_char(b));
    } else if a >= 10 && b >= 10 {
        assert(decimal(a).drop_last() =~= decimal(a / 10));
        assert(decimal(b).drop_last() =~= decimal(b / 10));
        assert(decimal(a).last() == digit_char(a % 10));
        assert(decimal(b).last() == digit_char(b % 10));
        lemma_decimal_injective(a / 10, b / 10);
    } else if a < 10 {
        assert(decimal(a).len() == 1);
        assert(decimal(b) == decimal(b / 10).push(digit_char(b % 10)));
        assert(decimal(b).len() >= 2);
    } else {
        assert(decimal(b).len() == 1);
        assert(decimal(a) == decimal(a / 10).push(digit_char(a % 10)));
        assert(decimal(a).len() >= 2);
    }
}

pub proof fn lemma_decimal_digits(n: nat)
    ensures
        decimal(n).len() >= 1,
        all_digits(decimal(n)),
    decreases n,
{
    if n >= 10 {
        lemma_decimal_digits(n / 10);
        let d = decimal(n / 10);
        assert forall|i: int| 0 <= i < decimal(n).len() implies is_digit(#[trigger] decimal(n)[i]) by {
            if i < d.len() {
                assert(decimal(n)[i] == d[i]);
            }
        }
    }
}

// ───────────────────────── exec layer ─────────────────────────

/// The characters of a string slice.
pub fn chars_of(s: &str) -> (v: Vec<char>)
    ensures
        v@ == s@,
{
    let mut v: Vec<char> = Vec::new();
    for c in it: s.chars()
        invariant
            v@ == it.seq().take(it.index() as int),
            it.seq() == s@,
    {
        v.push(c);
    }
    v
}

/// A `String` holding exactly the given characters.
pub fn string_of(v: &Vec<char>) -> (s: String)
    ensures
        s@ == v@,
{
    let mut s = String::new();
    let mut i: usize = 0;
    while i < v.len()
        invariant
            i <= v.len(),
            s@ == v@.take(i as int),
        decreases v.len() - i,
    {
        push_char(&mut s, v[i]);
        assert(v@.take(i as int).push(v@[i as int]) =~= v@.take(i as int + 1));
        i = i + 1;
    }
    assert(v@.take(v.len() as int) =~= v@);
    s
}

/// Appends all of `src` to `dst`.
pub fn extend_chars(dst: &mut Vec<char>, src: &Vec<char>)
    ensures
        final(dst)@ == old(dst)@ + src@,
{
    let mut i: usize = 0;
    while i < src.len()
        invariant
            i <= src.len(),
            dst@ == old(dst)@ + src@.take(i as int),
        decreases src.len() - i,
    {
        dst.push(src[i]);
        assert(old(dst)@ + src@.take(i as int + 1) =~= (old(dst)@ + src@.take(i as int)).push(
            src@[i as int],
        ));
        i = i + 1;
    }
    assert(src@.take(src.len() as int) =~= src@);
}

/// Character-wise equality.
pub fn chars_eq(a: &Vec<char>, b: &Vec<char>) -> (r: bool)
    ensures
        r == (a@ == b@),
{
    if a.len() != b.len() {
        return false;
    }
    let mut i: usize = 0;
    while i < a.len()
        invariant
            i <= a.len(),
            a.len() == b.len(),
            forall|j: int| 0 <= j < i ==> a@[j] == b@[j],
        decreases a.len() - i,
    {
        if a[i] != b[i] {
            return false;
        }
        i = i + 1;
    }
    assert(a@ =~= b@);
    true
}

/// Whether `s` contains `c`.
pub fn contains_char(s: &Vec<char>, c: char) -> (r: bool)
    ensures
        r == has_char(s@, c),
{
    let mut i: usize = 0;
    while i < s.len()
        invariant
            i <= s.len(),
            forall|j: int| 0 <= j < i ==> s@[j] != c,
        decreases s.len() - i,
    {
        if s[i] == c {
            return true;
        }
        i = i + 1;
    }
    false
}

/// Whether `s` starts with `p`.
pub fn starts_with_chars(s: &Vec<char>, p: &Vec<char>) -> (r: bool)
    ensures
        r == starts_with(s@, p@),
{
    if p.len() > s.len() {
        return false;
    }
    let mut i: usize = 0;
    while i < p.len()
        invariant
            i <= p.len(),
            p.len() <= s.len(),
            forall|j: int| 0 <= j < i ==> s@[j] == p@[j],
        decreases p.len() - i,
    {
        if s[i] != p[i] {
            assert(s@.take(p.len() as int)[i as int] != p@[i as int]);
            return false;
        }
        i = i + 1;
    }
    assert(s@.take(p.len() as int) =~= p@);
    true
}

/// The characters `s[from..to]`.
pub fn slice_chars(s: &Vec<char>, from: usize, to: usize) -> (r: Vec<char>)
    requires
        from <= to <= s.len(),
    ensures
        r@ == s@.subrange(from as int, to as int),
{
    let mut r: Vec<char> = Vec::new();
    let mut i: usize = from;
    while i < to
        invariant
            from <= i <= to,
            to <= s.len(),
            r@ == s@.subrange(from as int, i as int),
        decreases to - i,
    {
        r.push(s[i]);
        assert(s@.subrange(from as int, i as int + 1) =~= s@.subrange(from as int, i as int).push(
            s@[i as int],
        ));
        i = i + 1;
    }
    r
}

pub proof fn lemma_trim_start_char_take(s: Seq<char>, c: char, i: int)
    requires
        0 <= i <= s.len(),
        forall|j: int| 0 <= j < i ==> s[j] == c,
    ensures
        trim_start_char(s, c) == trim_start_char(s.skip(i), c),
    decreases i,
{
    if i > 0 {
        assert(s.drop_first().skip(i - 1) =~= s.skip(i));
        lemma_trim_start_char_take(s.drop_first(), c, i - 1);
    } else {
        assert(s.skip(0) =~= s);
    }
}

pub proof fn lemma_trim_end_char_take(s: Seq<char>, c: char, k: int)
    requires
        0 <= k <= s.len(),
        forall|j: int| k <= j < s.len() ==> s[j] == c,
    ensures
        trim_end_char(s, c) == trim_end_char(s.take(k), c),
    decreases s.len() - k,
{
    if k < s.len() {
        assert(s.drop_last().take(k) =~= s.take(k));
        lemma_trim_end_char_take(s.drop_last(), c, k);
    } else {
        assert(s.take(k) =~= s);
    }
}

/// `s.trim_matches(c)`.
pub fn trim_chars(s: &Vec<char>, c: char) -> (r: Vec<char>)
    ensures
        r@ == trim_char(s@, c),
{
    let mut i: usize = 0;
    while i < s.len() && s[i] == c
        invariant
            i <= s.len(),
            forall|j: int| 0 <= j < i ==> s@[j] == c,
        decreases s.len() - i,
    {
        i = i + 1;
    }
    proof {
        lemma_trim_start_char_take(s@, c, i as int);
    }
    let mut k: usize = s.len();
    while k > i && s[k - 1] == c
        invariant
            i <= k <= s.len(),
            forall|j: int| k <= j < s.len() ==> s@[j] == c,
        decreases k,
    {
        k = k - 1;
    }
    let ghost t = s@.skip(i as int);
    proof {
        // trim_start result is s[i..]
        if i < s.len() {
            assert(s@.skip(i as int)[0] == s@[i as int]);
        }
        assert(t.len() > 0 ==> t[0] != c);
        assert(trim_start_char(t, c) == t);
        assert forall|j: int| (k - i) <= j < t.len() implies t[j] == c by {
            assert(t[j] == s@[j + i]);
        }
        lemma_trim_end_char_take(t, c, (k - i) as int);
        let u = t.take((k - i) as int);
        if u.len() > 0 {
            assert(u.last() == s@[k - 1]);
        }
        assert(trim_end_char(u, c) == u);
        assert(u =~= s@.subrange(i as int, k as int));
    }
    slice_chars(s, i, k)
}

/// `s.split(c)` as owned pieces.
pub fn split_chars(s: &Vec<char>, c: char) -> (r: Vec<Vec<char>>)
    ensures
        r@.len() == split_on(s@, c).len(),
        forall|k: int| 0 <= k < r@.len() ==> #[trigger] r@[k]@ == split_on(s@, c)[k],
{
    let mut done: Vec<Vec<char>> = Vec::new();
    let mut cur: Vec<char> = Vec::new();
    let mut i: usize = 0;
    while i < s.len()
        invariant
            i <= s.len(),
            done@.len() + 1 == split_on(s@.take(i as int), c).len(),
            forall|k: int|
                0 <= k < done@.len() ==> #[trigger] done@[k]@ == split_on(s@.take(i as int), c)[k],
            cur@ == split_on(s@.take(i as int), c).last(),
        decreases s.len() - i,
    {
        let ghost prev = s@.take(i as int);
        proof {
            assert(s@.take(i as int + 1).drop_last() =~= prev);
            lemma_split_nonempty(prev, c);
        }
        if s[i] == c {
            done.push(cur);
            cur = Vec::new();
        } else {
            cur.push(s[i]);
        }
        i = i + 1;
    }
    assert(s@.take(s.len() as int) =~= s@);
    done.push(cur);
    done
}

/// The pieces joined with `sep`.
pub fn join_chars(segs: &Vec<Vec<char>>, sep: char) -> (r: Vec<char>)
    ensures
        r@ == join_with(segs@.map_values(|v: Vec<char>| v@), sep),
{
    let ghost m = segs@.map_values(|v: Vec<char>| v@);
    let mut r: Vec<char> = Vec::new();
    let mut i: usize = 0;
    while i < segs.len()
        invariant
            i <= segs.len(),
            m == segs@.map_values(|v: Vec<char>| v@),
            r@ == join_with(m.take(i as int), sep),
        decreases segs.len() - i,
    {
        proof {
            assert(m.take(i as int + 1).drop_last() =~= m.take(i as int));
        }
        if i > 0 {
            r.push(sep);
        }
        extend_chars(&mut r, &segs[i]);
        proof {
            if i == 0 {
                assert(r@ =~= m.take(1)[0]);
            }
        }
        i = i + 1;
    }
    assert(m.take(segs.len() as int) =~= m);
    r
}

/// Digit character for a value below ten.
pub fn digit_exec(d: u64) -> (c: char)
    requires
        d < 10,
    ensures
        c == digit_char(d as nat),
{
    if d == 0 { '0' }
    else if d == 1 { '1' }
    else if d == 2 { '2' }
    else if d == 3 { '3' }
    else if d == 4 { '4' }
    else if d == 5 { '5' }
    else if d == 6 { '6' }
    else if d == 7 { '7' }
    else if d == 8 { '8' }
    else { '9' }
}

/// Decimal digits of `n`.
pub fn decimal_chars(n: u64) -> (r: Vec<char>)
    ensures
        r@ == decimal(n as nat),
    decreases n,
{
    if n < 10 {
        let mut v: Vec<char> = Vec::new();
        v.push(digit_exec(n));
        assert(v@ =~= seq![digit_char(n as nat)]);
        v
    } else {
        let mut v = decimal_chars(n / 10);
        v.push(digit_exec(n % 10));
        v
    }
}

/// Decimal rendering of a signed 64-bit integer.
pub fn signed_decimal_chars(n: i64) -> (r: Vec<char>)
    ensures
        r@ == signed_decimal(n as int),
{
    if n < 0 {
        let m: u64 = if n == i64::MIN {
            9223372036854775808u64
        } else {
            (-n) as u64
        };
        let d = decimal_chars(m);
        let mut v: Vec<char> = Vec::new();
        v.push('-');
        extend_chars(&mut v, &d);
        assert(v@ =~= seq!['-'] + decimal((-n) as nat));
        v
    } else {
        decimal_chars(n as u64)
    }
}

/// `char::is_whitespace`.
pub fn is_whitespace_char(c: char) -> (r: bool)
    ensures
        r == is_unicode_whitespace(c),
{
    let u = c as u32;
    (0x9 <= u && u <= 0xD) || u == 0x20 || u == 0x85 || u == 0xA0 || u == 0x1680 || (0x2000 <= u
        && u <= 0x200A) || u == 0x2028 || u == 0x2029 || u == 0x202F || u == 0x205F || u == 0x3000
}

pub proof fn lemma_trim_ws_start_take(s: Seq<char>, i: int)
    requires
        0 <= i <= s.len(),
        forall|j: int| 0 <= j < i ==> is_unicode_whitespace(#[trigger] s[j]),
    ensures
        trim_ws_start(s) == trim_ws_start(s.skip(i)),
    decreases i,
{
    if i > 0 {
        assert(s.drop_first().skip(i - 1) =~= s.skip(i));
        assert(is_unicode_whitespace(s[0]));
        assert forall|j: int| 0 <= j < i - 1 implies is_unicode_whitespace(
            #[trigger] s.drop_first()[j],
        ) by {
            assert(s.drop_first()[j] == s[j + 1]);
        }
        lemma_trim_ws_start_take(s.drop_first(), i - 1);
    } else {
        assert(s.skip(0) =~= s);
    }
}

pub proof fn lemma_trim_ws_end_take(s: Seq<char>, k: int)
    requires
        0 <= k <= s.len(),
        forall|j: int| k <= j < s.len() ==> is_unicode_whitespace(#[trigger] s[j]),
    ensures
        trim_ws_end(s) == trim_ws_end(s.take(k)),
    decreases s.len() - k,
{
    if k < s.len() {
        assert(s.drop_last().take(k) =~= s.take(k));
        assert(is_unicode_whitespace(s[s.len() - 1]));
        assert forall|j: int| k <= j < s.drop_last().len() implies is_unicode_whitespace(
            #[trigger] s.drop_last()[j],
        ) by {
            assert(s.drop_last()[j] == s[j]);
        }
        lemma_trim_ws_end_take(s.drop_last(), k);
    } else {
        assert(s.take(k) =~= s);
    }
}

/// `s.trim()`.
pub fn trim_ws_chars(s: &Vec<char>) -> (r: Vec<char>)
    ensures
        r@ == trim_ws(s@),
{
    let mut i: usize = 0;
    while i < s.len() && is_whitespace_char(s[i])
        invariant
            i <= s.len(),
            forall|j: int| 0 <= j < i ==> is_unicode_whitespace(#[trigger] s@[j]),
        decreases s.len() - i,
    {
        i = i + 1;
    }
    proof {
        lemma_trim_ws_start_take(s@, i as int);
    }
    let mut k: usize = s.len();
    while k > i && is_whitespace_char(s[k - 1])
        invariant
            i <= k <= s.len(),
            forall|j: int| k <= j < s.len() ==> is_unicode_whitespace(#[trigger] s@[j]),
        decreases k,
    {
        k = k - 1;
    }
    let ghost t = s@.skip(i as int);
    proof {
        if i < s.len() {
            assert(s@.skip(i as int)[0] == s@[i as int]);
        }
        assert(trim_ws_start(t) == t);
        assert forall|j: int| (k - i) <= j < t.len() implies is_unicode_whitespace(
            #[trigger] t[j],
        ) by {
            assert(t[j] == s@[j + i]);
        }
        lemma_trim_ws_end_take(t, (k - i) as int);
        let u = t.take((k - i) as int);
        if u.len() > 0 {
            assert(u.last() == s@[k - 1]);
        }
        assert(trim_ws_end(u) == u);
        assert(u =~= s@.subrange(i as int, k as int));
    }
    slice_chars(s, i, k)
}

pub proof fn lemma_first_index(s: Seq<char>, c: char, i: int)
    requires
        0 <= i < s.len(),
        s[i] == c,
        forall|j: int| 0 <= j < i ==> s[j] != c,
    ensures
        first_index_of(s, c) == i,
    decreases i,
{
    if i > 0 {
        assert forall|j: int| 0 <= j < i - 1 implies s.drop_first()[j] != c by {
            assert(s.drop_first()[j] == s[j + 1]);
        }
        lemma_first_index(s.drop_first(), c, i - 1);
    }
}

/// Position of the first `c` in `s` (`str::find`).
pub fn find_char(s: &Vec<char>, c: char) -> (r: Option<usize>)
    ensures
        match r {
            None => !has_char(s@, c),
            Some(i) => i < s@.len() && s@[i as int] == c && first_index_of(s@, c) == i && forall|
                j: int,
            | 0 <= j < i ==> s@[j] != c,
        },
{
    let mut i: usize = 0;
    while i < s.len()
        invariant
            i <= s.len(),
            forall|j: int| 0 <= j < i ==> s@[j] != c,
        decreases s.len() - i,
    {
        if s[i] == c {
            proof {
                lemma_first_index(s@, c, i as int);
            }
            return Some(i);
        }
        i = i + 1;
    }
    None
}

/// Digit values only grow as digits are appended.
pub proof fn lemma_digits_monotone(s: Seq<char>, i: int, j: int)
    requires
        0 <= i <= j <= s.len(),
    ensures
        digits_value(s.take(i)) <= digits_value(s.take(j)),
    decreases j - i,
{
    if i < j {
        lemma_digits_monotone(s, i, j - 1);
        assert(s.take(j).drop_last() =~= s.take(j - 1));
    }
}

/// `u64::from_str` on a character sequence.
pub fn parse_u64_chars(s: &Vec<char>) -> (r: Option<u64>)
    ensures
        r == parse_u64_spec(s@),
{
    let start: usize = if s.len() > 0 && s[0] == '+' { 1 } else { 0 };
    let ghost d = if s@.len() > 0 && s@[0] == '+' { s@.drop_first() } else { s@ };
    assert(d =~= s@.skip(start as int));
    if start >= s.len() {
        return None;
    }
    let mut v: u64 = 0;
    let mut i: usize = start;
    while i < s.len()
        invariant
            start <= i <= s.len(),
            start < s.len(),
            d == s@.skip(start as int),
            d == (if s@.len() > 0 && s@[0] == '+' { s@.drop_first() } else { s@ }),
            all_digits(d.take(i - start)),
            v as nat == digits_value(d.take(i - start)),
        decreases s.len() - i,
    {
        let c = s[i];
        assert(d.take(i - start + 1).drop_last() =~= d.take(i - start));
        assert(d.take(i - start + 1).last() == c);
        if !('0' <= c && c <= '9') {
            assert(d[i - start] == c);
            assert(!all_digits(d));
            return None;
        }
        let digit: u64 = (c as u32 - '0' as u32) as u64;
        assert(digit as nat == digit_value(c));
        if v > (u64::MAX - digit) / 10 {
            proof {
                assert(v * 10 + digit > u64::MAX) by (nonlinear_arith)
                    requires
                        v > (u64::MAX - digit) / 10,
                        digit <= 9,
                ;
                lemma_digits_monotone(d, i - start + 1, d.len() as int);
                assert(d.take(d.len() as int) =~= d);
            }
            return None;
        }
        v = v * 10 + digit;
        proof {
            assert forall|q: int| 0 <= q < d.take(i - start + 1).len() implies is_digit(
                #[trigger] d.take(i - start + 1)[q],
            ) by {
                if q < i - start {
                    assert(d.take(i - start + 1)[q] == d.take(i - start)[q]);
                }
            }
        }
        i = i + 1;
    }
    assert(d.take(s.len() - start) =~= d);
    Some(v)
}

/// `s.trim_start_matches(c)`.
pub fn trim_start_chars(s: &Vec<char>, c: char) -> (r: Vec<char>)
    ensures
        r@ == trim_start_char(s@, c),
{
    let mut i: usize = 0;
    while i < s.len() && s[i] == c
        invariant
            i <= s.len(),
            forall|j: int| 0 <= j < i ==> s@[j] == c,
        decreases s.len() - i,
    {
        i = i + 1;
    }
    proof {
        lemma_trim_start_char_take(s@, c, i as int);
        if i < s.len() {
            assert(s@.skip(i as int)[0] == s@[i as int]);
        }
        assert(s@.skip(i as int) =~= s@.subrange(i as int, s@.len() as int));
    }
    slice_chars(s, i, s.len())
}

/// The string for a character sequence literal-free: `String::from(s)`.
pub fn string_from_str(s: &str) -> (r: String)
    ensures
        r@ == s@,
{
    string_of(&chars_of(s))
}

/// `i32::from_str`: an optional sign, then at least one ASCII digit, and a
/// value within the 32-bit range.
pub open spec fn parse_i32_spec(s: Seq<char>) -> Option<i32> {
    if s.len() > 0 && s[0] == '-' {
        let d = s.drop_first();
        if d.len() > 0 && all_digits(d) && digits_value(d) <= 2147483648 {
            Some((0 - digits_value(d)) as i32)
        } else {
            None
        }
    } else {
        let d = if s.len() > 0 && s[0] == '+' { s.drop_first() } else { s };
        if d.len() > 0 && all_digits(d) && digits_value(d) <= 2147483647 {
            Some(digits_value(d) as i32)
        } else {
            None
        }
    }
}

/// `i32::from_str` on a character sequence.
pub fn parse_i32_chars(s: &Vec<char>) -> (r: Option<i32>)
    ensures
        r == parse_i32_spec(s@),
{
    if s.len() > 0 && s[0] == '-' {
        let d = slice_chars(s, 1, s.len());
        assert(d@ =~= s@.drop_first());
        if d.len() == 0 || d[0] == '+' {
            proof {
                if d@.len() > 0 {
                    assert(!is_digit(d@[0]));
                }
            }
            return None;
        }
        match parse_u64_chars(&d) {
            None => None,
            Some(v) => {
                if v <= 2147483648 {
                    Some((0 - (v as i64)) as i32)
                } else {
                    None
                }
            },
        }
    } else {
        match parse_u64_chars(s) {
            None => None,
            Some(v) => {
                if v <= 2147483647 {
                    Some(v as i32)
                } else {
                    None
                }
            },
        }
    }
}

/// `str::to_ascii_lowercase` on a character sequence.
pub fn ascii_lower_chars(s: &Vec<char>) -> (r: Vec<char>)
    ensures
        r@ == ascii_lower_seq(s@),
{
    let mut r: Vec<char> = Vec::new();
    let mut i: usize = 0;
    while i < s.len()
        invariant
            i <= s.len(),
            r@ == ascii_lower_seq(s@.take(i as int)),
        decreases s.len() - i,
    {
        let c = s[i];
        let l = if 'A' <= c && c <= 'Z' {
            ((c as u32) + 32) as u8 as char
        } else {
            c
        };
        assert(l == ascii_lower(c)) by {
            if 'A' <= c && c <= 'Z' {
                assert(((c as u32) + 32) as u8 as char == ((c as u32) + 32) as char);
            }
        }
        r.push(l);
        assert(ascii_lower_seq(s@.take(i as int + 1)) =~= ascii_lower_seq(s@.take(i as int)).push(
            ascii_lower(c),
        ));
        i = i + 1;
    }
    assert(s@.take(s.len() as int) =~= s@);
    r
}

} // verus!
