//! Verified string utilities: character-level equality, prefix and substring
//! search, single-character replacement and splitting, together with the spec
//! functions that the library's contracts are stated over.

use vstd::prelude::*;

verus! {

// ---------------------------------------------------------------------------
// Spec functions
// ---------------------------------------------------------------------------

/// Every occurrence of `from` replaced by `to`, character for character.
pub open spec fn replace_char_seq(s: Seq<char>, from: char, to: char) -> Seq<char> {
    s.map_values(|c: char| if c == from { to } else { c })
}

/// Index of the first occurrence of `needle` as a contiguous subsequence of
/// `s`, if any.
pub open spec fn find_sub(s: Seq<char>, needle: Seq<char>) -> Option<int>
    decreases s.len(),
{
    if needle.is_prefix_of(s) {
        Some(0int)
    } else if s.len() == 0 {
        None
    } else {
        match find_sub(s.drop_first(), needle) {
            Some(i) => Some(i + 1),
            None => None,
        }
    }
}

/// What `find_sub` returns: the first position where `needle` occurs.
pub proof fn lemma_find_sub(s: Seq<char>, needle: Seq<char>)
    ensures
        match find_sub(s, needle) {
            Some(i) => 0 <= i <= s.len() - needle.len() && needle.is_prefix_of(s.skip(i))
                && forall|j: int| 0 <= j < i ==> !needle.is_prefix_of(s.skip(j)),
            None => forall|j: int| 0 <= j <= s.len() ==> !needle.is_prefix_of(s.skip(j)),
        },
    decreases s.len(),
{
    assert(s.skip(0) == s);
    if needle.is_prefix_of(s) {
    } else if s.len() == 0 {
        assert forall|j: int| 0 <= j <= s.len() implies !needle.is_prefix_of(s.skip(j)) by {
            assert(s.skip(j) == s);
        }
    } else {
        lemma_find_sub(s.drop_first(), needle);
        assert forall|j: int| 1 <= j <= s.len() implies s.skip(j) == s.drop_first().skip(
            j - 1,
        ) by {
            assert(s.skip(j) =~= s.drop_first().skip(j - 1));
        }
        match find_sub(s.drop_first(), needle) {
            Some(i) => {
                assert(needle.is_prefix_of(s.skip(i + 1)));
            },
            None => {},
        }
    }
}

/// If `needle` first occurs at `i`, `find_sub` returns `i`; if it occurs
/// nowhere, `find_sub` returns `None`.
pub proof fn lemma_find_sub_unique(s: Seq<char>, needle: Seq<char>, i: int)
    requires
        0 <= i <= s.len(),
        needle.is_prefix_of(s.skip(i)),
        forall|j: int| 0 <= j < i ==> !needle.is_prefix_of(s.skip(j)),
    ensures
        find_sub(s, needle) == Some(i),
{
    lemma_find_sub(s, needle);
    match find_sub(s, needle) {
        Some(k) => {
            if k < i {
                assert(!needle.is_prefix_of(s.skip(k)));
            } else if k > i {
                assert(!needle.is_prefix_of(s.skip(i)));
            }
        },
        None => {
            assert(!needle.is_prefix_of(s.skip(i)));
        },
    }
}

/// `s` split on `sep`: the list of segments between occurrences of `sep`.
/// Splitting never yields an empty list; an empty string yields one empty
/// segment, as `str::split` does.
pub open spec fn split_char(s: Seq<char>, sep: char) -> Seq<Seq<char>>
    decreases s.len(),
{
    if s.len() == 0 {
        seq![s]
    } else if s[0] == sep {
        seq![Seq::<char>::empty()] + split_char(s.drop_first(), sep)
    } else {
        let rest = split_char(s.drop_first(), sep);
        seq![seq![s[0]] + rest[0]] + rest.drop_first()
    }
}

pub proof fn lemma_split_char_len(s: Seq<char>, sep: char)
    ensures
        split_char(s, sep).len() >= 1,
    decreases s.len(),
{
    if s.len() == 0 {
    } else {
        lemma_split_char_len(s.drop_first(), sep);
    }
}

/// Splitting cuts at the first separator: with no separator the whole string
/// is the single segment; with the first separator at `i` the first segment
/// is everything before it and the rest is the split of everything after it.
pub proof fn lemma_split_char_cut(s: Seq<char>, sep: char)
    ensures
        match find_sub(s, seq![sep]) {
            None => split_char(s, sep) == seq![s],
            Some(i) => split_char(s, sep) == seq![s.take(i)] + split_char(
                s.skip(i + 1),
                sep,
            ),
        },
    decreases s.len(),
{
    lemma_find_sub(s, seq![sep]);
    if s.len() == 0 {
        assert(split_char(s, sep) =~= seq![s]);
    } else if s[0] == sep {
        assert(seq![sep].is_prefix_of(s.skip(0))) by {
            assert(s.skip(0) == s);
            assert(seq![sep] =~= s.subrange(0, 1));
        }
        lemma_find_sub_unique(s, seq![sep], 0);
        assert(split_char(s, sep) =~= seq![s.take(0)] + split_char(s.skip(1), sep)) by {
            assert(s.take(0) =~= Seq::<char>::empty());
            assert(s.skip(1) == s.drop_first());
        }
    } else {
        lemma_split_char_cut(s.drop_first(), sep);
        assert(!seq![sep].is_prefix_of(s.skip(0))) by {
            assert(s.skip(0) == s);
        }
        assert forall|j: int| 1 <= j <= s.len() implies s.skip(j) == s.drop_first().skip(
            j - 1,
        ) by {
            assert(s.skip(j) =~= s.drop_first().skip(j - 1));
        }
        match find_sub(s.drop_first(), seq![sep]) {
            None => {
                lemma_find_sub(s.drop_first(), seq![sep]);
                assert(find_sub(s, seq![sep]) is None) by {
                    lemma_find_sub(s, seq![sep]);
                    if let Some(k) = find_sub(s, seq![sep]) {
                        assert(k >= 1);
                        assert(s.skip(k)[0] == s[k]);
                        assert(seq![sep].is_prefix_of(s.skip(k)) ==> s.skip(k).subrange(
                            0,
                            1,
                        )[0] == s.skip(k)[0]);
                    }
                }
                let rest = split_char(s.drop_first(), sep);
                assert(rest == seq![s.drop_first()]);
                assert(split_char(s, sep) =~= seq![s]) by {
                    assert(seq![s[0]] + s.drop_first() =~= s);
                }
            },
            Some(i) => {
                lemma_find_sub(s.drop_first(), seq![sep]);
                lemma_find_sub_unique(s, seq![sep], i + 1);
                let rest = split_char(s.drop_first(), sep);
                assert(rest == seq![s.drop_first().take(i)] + split_char(
                    s.drop_first().skip(i + 1),
                    sep,
                ));
                lemma_split_char_len(s.drop_first().skip(i + 1), sep);
                assert(seq![s[0]] + rest[0] =~= s.take(i + 1));
                assert(s.drop_first().skip(i + 1) =~= s.skip(i + 2));
                assert(split_char(s, sep) =~= seq![s.take(i + 1)] + split_char(
                    s.skip(i + 2),
                    sep,
                ));
            },
        }
    }
}

/// Index of the last occurrence of `c` in `s`, if any.
pub open spec fn rfind_char_spec(s: Seq<char>, c: char) -> Option<int>
    decreases s.len(),
{
    if s.len() == 0 {
        None
    } else if s[s.len() - 1] == c {
        Some(s.len() - 1)
    } else {
        rfind_char_spec(s.drop_last(), c)
    }
}

pub proof fn lemma_rfind_char(s: Seq<char>, c: char)
    ensures
        match rfind_char_spec(s, c) {
            Some(i) => 0 <= i < s.len() && s[i] == c && forall|j: int|
                i < j < s.len() ==> s[j] != c,
            None => forall|j: int| 0 <= j < s.len() ==> s[j] != c,
        },
    decreases s.len(),
{
    if s.len() == 0 {
    } else if s[s.len() - 1] == c {
    } else {
        lemma_rfind_char(s.drop_last(), c);
        assert(forall|j: int| 0 <= j < s.len() - 1 ==> s.drop_last()[j] == s[j]);
    }
}

pub proof fn lemma_rfind_char_unique(s: Seq<char>, c: char, i: int)
    requires
        0 <= i < s.len(),
        s[i] == c,
        forall|j: int| i < j < s.len() ==> s[j] != c,
    ensures
        rfind_char_spec(s, c) == Some(i),
{
    lemma_rfind_char(s, c);
    match rfind_char_spec(s, c) {
        Some(k) => {
            if k < i {
                assert(s[i] != c);
            } else if k > i {
                assert(s[k] != c);
            }
        },
        None => {
            assert(s[i] != c);
        },
    }
}

/// The decimal digit `d` as a character; meaningful for `d < 10`.
pub open spec fn digit_char(d: nat) -> char {
    if d == 0 {
        '0'
    } else if d == 1 {
        '1'
    } else if d == 2 {
        '2'
    } else if d == 3 {
        '3'
    } else if d == 4 {
        '4'
    } else if d == 5 {
        '5'
    } else if d == 6 {
        '6'
    } else if d == 7 {
        '7'
    } else if d == 8 {
        '8'
    } else {
        '9'
    }
}

/// `n` written in decimal, most significant digit first, no leading zeros.
pub open spec fn dec_str(n: nat) -> Seq<char>
    decreases n,
{
    if n < 10 {
        seq![digit_char(n)]
    } else {
        dec_str(n / 10) + seq![digit_char(n % 10)]
    }
}

/// The views of a sequence of strings.
pub open spec fn string_views(s: Seq<String>) -> Seq<Seq<char>> {
    s.map_values(|x: String| x@)
}

/// The longest element of `pkgs` that is a prefix of `f1`, if any; on equal
/// lengths the later element wins, but two equal-length prefixes of one
/// string are the same string.
pub open spec fn best_package_spec(f1: Seq<char>, pkgs: Seq<Seq<char>>) -> Option<Seq<char>>
    decreases pkgs.len(),
{
    if pkgs.len() == 0 {
        None
    } else {
        let rest = best_package_spec(f1, pkgs.drop_last());
        let p = pkgs.last();
        match rest {
            None => if p.is_prefix_of(f1) {
                Some(p)
            } else {
                None
            },
            Some(b) => if p.is_prefix_of(f1) && b.len() <= p.len() {
                Some(p)
            } else {
                Some(b)
            },
        }
    }
}

/// The longest-prefix law: `best_package_spec` returns a known package that
/// is a prefix of the name, and no known package prefix is longer; when it
/// returns nothing, no known package is a prefix at all.
pub proof fn lemma_best_package_longest(f1: Seq<char>, pkgs: Seq<Seq<char>>)
    ensures
        match best_package_spec(f1, pkgs) {
            Some(b) => pkgs.contains(b) && b.is_prefix_of(f1) && forall|k: int|
                0 <= k < pkgs.len() && (#[trigger] pkgs[k]).is_prefix_of(f1) ==> pkgs[k].len()
                    <= b.len(),
            None => forall|k: int|
                0 <= k < pkgs.len() ==> !(#[trigger] pkgs[k]).is_prefix_of(f1),
        },
    decreases pkgs.len(),
{
    if pkgs.len() == 0 {
    } else {
        lemma_best_package_longest(f1, pkgs.drop_last());
        assert(forall|k: int| 0 <= k < pkgs.len() - 1 ==> pkgs.drop_last()[k] == pkgs[k]);
        match best_package_spec(f1, pkgs.drop_last()) {
            Some(b) => {
                assert(pkgs.drop_last().contains(b));
                let i = choose|i: int|
                    0 <= i < pkgs.drop_last().len() && pkgs.drop_last()[i] == b;
                assert(pkgs[i] == b);
            },
            None => {},
        }
    }
}

/// `parts` joined with `sep` between consecutive elements.
pub open spec fn join_with(parts: Seq<Seq<char>>, sep: Seq<char>) -> Seq<char>
    decreases parts.len(),
{
    if parts.len() == 0 {
        Seq::empty()
    } else if parts.len() == 1 {
        parts[0]
    } else {
        parts[0] + sep + join_with(parts.drop_first(), sep)
    }
}

/// A one-element filter keeps exactly the element that passes.
pub proof fn lemma_filter_one<A>(x: A, pred: spec_fn(A) -> bool)
    ensures
        seq![x].filter(pred) == if pred(x) {
            seq![x]
        } else {
            Seq::<A>::empty()
        },
{
    reveal(Seq::filter);
    let s = seq![x];
    assert(s.drop_last() =~= Seq::<A>::empty());
    assert(s.last() == x);
    assert(Seq::<A>::empty().filter(pred) =~= Seq::<A>::empty());
    if pred(x) {
        assert(s.filter(pred) =~= seq![x]);
    } else {
        assert(s.filter(pred) =~= Seq::<A>::empty());
    }
}

/// Taking one more element extends a filter by that element when it passes.
pub proof fn lemma_filter_step<A>(s: Seq<A>, i: int, pred: spec_fn(A) -> bool)
    requires
        0 <= i < s.len(),
    ensures
        s.take(i + 1).filter(pred) == if pred(s[i]) {
            s.take(i).filter(pred).push(s[i])
        } else {
            s.take(i).filter(pred)
        },
{
    assert(s.take(i + 1) =~= s.take(i) + seq![s[i]]);
    broadcast use Seq::filter_distributes_over_add;

    lemma_filter_one(s[i], pred);
    if pred(s[i]) {
        assert(s.take(i).filter(pred) + seq![s[i]] =~= s.take(i).filter(pred).push(s[i]));
    } else {
        assert(s.take(i).filter(pred) + Seq::<A>::empty() =~= s.take(i).filter(pred));
    }
}

/// Lexicographic order on character sequences, by code point: the order
/// strings sort in.
pub open spec fn lex_lt(a: Seq<char>, b: Seq<char>) -> bool
    decreases a.len(),
{
    if b.len() == 0 {
        false
    } else if a.len() == 0 {
        true
    } else if a[0] != b[0] {
        (a[0] as int) < (b[0] as int)
    } else {
        lex_lt(a.drop_first(), b.drop_first())
    }
}

/// Two distinct sequences are ordered one way or the other.
pub proof fn lemma_lex_lt_total(a: Seq<char>, b: Seq<char>)
    requires
        a != b,
    ensures
        lex_lt(a, b) || lex_lt(b, a),
    decreases a.len(),
{
    if b.len() == 0 {
        if a.len() == 0 {
            assert(a =~= b);
        }
    } else if a.len() == 0 {
    } else if a[0] != b[0] {
    } else {
        if a.drop_first() == b.drop_first() {
            assert(a.drop_first().len() == a.len() - 1);
            assert(b.drop_first().len() == b.len() - 1);
            assert(a.len() == b.len());
            assert forall|k: int| 0 <= k < a.len() implies a[k] == b[k] by {
                if k > 0 {
                    assert(a.drop_first()[k - 1] == b.drop_first()[k - 1]);
                }
            }
            assert(a =~= b);
        }
        lemma_lex_lt_total(a.drop_first(), b.drop_first());
    }
}

pub proof fn lemma_lex_lt_trans(a: Seq<char>, b: Seq<char>, c: Seq<char>)
    requires
        lex_lt(a, b),
        lex_lt(b, c),
    ensures
        lex_lt(a, c),
    decreases a.len(),
{
    if c.len() == 0 {
        assert(!lex_lt(b, c));
    } else if a.len() == 0 {
    } else {
        assert(b.len() > 0);
        if a[0] == b[0] && b[0] == c[0] {
            lemma_lex_lt_trans(a.drop_first(), b.drop_first(), c.drop_first());
        }
    }
}

pub proof fn lemma_lex_lt_irrefl(a: Seq<char>)
    ensures
        !lex_lt(a, a),
    decreases a.len(),
{
    if a.len() > 0 {
        lemma_lex_lt_irrefl(a.drop_first());
    }
}

/// Is `a` strictly before `b` in lexicographic order?
pub fn lex_lt_str(a: &str, b: &str) -> (r: bool)
    ensures
        r == lex_lt(a@, b@),
{
    let an = a.unicode_len();
    let bn = b.unicode_len();
    let mut i: usize = 0;
    proof {
        assert(a@.skip(0) == a@);
        assert(b@.skip(0) == b@);
    }
    loop
        invariant
            an == a@.len(),
            bn == b@.len(),
            0 <= i <= an,
            i <= bn,
            lex_lt(a@, b@) == lex_lt(a@.skip(i as int), b@.skip(i as int)),
        decreases bn - i,
    {
        if i == bn {
            proof {
                assert(b@.skip(i as int).len() == 0);
            }
            return false;
        }
        if i == an {
            proof {
                assert(a@.skip(i as int).len() == 0);
                assert(b@.skip(i as int).len() > 0);
            }
            return true;
        }
        let ca = a.get_char(i);
        let cb = b.get_char(i);
        proof {
            assert(a@.skip(i as int)[0] == a@[i as int]);
            assert(b@.skip(i as int)[0] == b@[i as int]);
            assert(a@.skip(i as int).drop_first() =~= a@.skip(i + 1));
            assert(b@.skip(i as int).drop_first() =~= b@.skip(i + 1));
        }
        if ca != cb {
            proof {
                assert((ca as u32) as int == ca as int);
                assert((cb as u32) as int == cb as int);
            }
            return (ca as u32) < (cb as u32);
        }
        i = i + 1;
    }
}

/// A filter over a sequence none of whose elements pass keeps nothing.
pub proof fn lemma_filter_all_false<A>(s: Seq<A>, pred: spec_fn(A) -> bool)
    requires
        forall|j: int| 0 <= j < s.len() ==> !pred(#[trigger] s[j]),
    ensures
        s.filter(pred).len() == 0,
    decreases s.len(),
{
    reveal(Seq::filter);
    if s.len() > 0 {
        lemma_filter_all_false(s.drop_last(), pred);
        assert(forall|j: int| 0 <= j < s.len() - 1 ==> s.drop_last()[j] == s[j]);
    }
}

// ---------------------------------------------------------------------------
// Exec functions
// ---------------------------------------------------------------------------

/// Character-for-character string equality.
pub fn str_eq(a: &str, b: &str) -> (r: bool)
    ensures
        r == (a@ == b@),
{
    let an = a.unicode_len();
    let bn = b.unicode_len();
    if an != bn {
        return false;
    }
    let mut i: usize = 0;
    while i < an
        invariant
            an == a@.len(),
            an == b@.len(),
            0 <= i <= an,
            forall|j: int| 0 <= j < i ==> a@[j] == b@[j],
        decreases an - i,
    {
        if a.get_char(i) != b.get_char(i) {
            return false;
        }
        i = i + 1;
    }
    proof {
        assert(a@ =~= b@);
    }
    true
}

/// Does `p` occur in `s` starting at character position `at`?
pub fn occurs_at(s: &str, p: &str, at: usize) -> (r: bool)
    requires
        at <= s@.len(),
    ensures
        r == p@.is_prefix_of(s@.skip(at as int)),
{
    let sn = s.unicode_len();
    let pn = p.unicode_len();
    if pn > sn - at {
        proof {
            assert(s@.skip(at as int).len() < p@.len());
        }
        return false;
    }
    let mut j: usize = 0;
    while j < pn
        invariant
            at + pn <= sn,
            sn == s@.len(),
            pn == p@.len(),
            0 <= j <= pn,
            forall|k: int| 0 <= k < j ==> s@[at + k] == p@[k],
        decreases pn - j,
    {
        if s.get_char(at + j) != p.get_char(j) {
            proof {
                assert(s@.skip(at as int)[j as int] != p@[j as int]);
            }
            return false;
        }
        j = j + 1;
    }
    proof {
        assert(p@ =~= s@.skip(at as int).subrange(0, p@.len() as int));
    }
    true
}

/// First character position at which `needle` occurs in `s`, if any.
pub fn find_sub_str(s: &str, needle: &str) -> (r: Option<usize>)
    ensures
        match r {
            Some(i) => find_sub(s@, needle@) == Some(i as int),
            None => find_sub(s@, needle@) is None,
        },
{
    let sn = s.unicode_len();
    let mut i: usize = 0;
    loop
        invariant
            sn == s@.len(),
            0 <= i <= sn,
            forall|j: int| 0 <= j < i ==> !needle@.is_prefix_of(s@.skip(j)),
        decreases sn - i,
    {
        if occurs_at(s, needle, i) {
            proof {
                lemma_find_sub_unique(s@, needle@, i as int);
            }
            return Some(i);
        }
        if i == sn {
            proof {
                lemma_find_sub(s@, needle@);
                if let Some(k) = find_sub(s@, needle@) {
                    assert(!needle@.is_prefix_of(s@.skip(k)));
                }
            }
            return None;
        }
        i = i + 1;
    }
}

/// Last character position at which `c` occurs in `s`, if any.
pub fn rfind_char(s: &str, c: char) -> (r: Option<usize>)
    ensures
        match r {
            Some(i) => rfind_char_spec(s@, c) == Some(i as int),
            None => rfind_char_spec(s@, c) is None,
        },
{
    let sn = s.unicode_len();
    let mut i: usize = sn;
    while i > 0
        invariant
            sn == s@.len(),
            0 <= i <= sn,
            forall|j: int| i <= j < sn ==> s@[j] != c,
        decreases i,
    {
        i = i - 1;
        if s.get_char(i) == c {
            proof {
                lemma_rfind_char_unique(s@, c, i as int);
            }
            return Some(i);
        }
    }
    proof {
        lemma_rfind_char(s@, c);
        if let Some(k) = rfind_char_spec(s@, c) {
            assert(s@[k] != c);
        }
    }
    None
}

/// Every occurrence of `from` replaced by the single character that `to`
/// holds.
pub fn replace_char(s: &str, from: char, to: &str) -> (r: String)
    requires
        to@.len() == 1,
    ensures
        r@ == replace_char_seq(s@, from, to@[0]),
{
    let n = s.unicode_len();
    let mut r = String::new();
    let mut i: usize = 0;
    while i < n
        invariant
            n == s@.len(),
            to@.len() == 1,
            0 <= i <= n,
            r@ == replace_char_seq(s@.take(i as int), from, to@[0]),
        decreases n - i,
    {
        let c = s.get_char(i);
        if c == from {
            r.append(to);
        } else {
            let piece = s.substring_char(i, i + 1);
            r.append(piece);
        }
        proof {
            assert(r@ =~= replace_char_seq(s@.take(i + 1int), from, to@[0]));
        }
        i = i + 1;
    }
    proof {
        assert(s@.take(n as int) == s@);
    }
    r
}

/// `s` split on `sep`, as `str::split` does: segments between occurrences of
/// the separator, in order.
pub fn split_str(s: &str, sep: char) -> (r: Vec<String>)
    ensures
        r@.map_values(|x: String| x@) == split_char(s@, sep),
{
    let n = s.unicode_len();
    let mut parts: Vec<String> = Vec::new();
    let mut start: usize = 0;
    let mut i: usize = 0;
    proof {
        assert(s@.skip(0) == s@);
        assert(parts@.map_values(|x: String| x@) =~= Seq::<Seq<char>>::empty());
    }
    loop
        invariant
            n == s@.len(),
            0 <= start <= i <= n,
            forall|j: int| start <= j < i ==> s@[j] != sep,
            split_char(s@, sep) == parts@.map_values(|x: String| x@) + split_char(
                s@.skip(start as int),
                sep,
            ),
        decreases n - i,
    {
        if i == n {
            let piece = s.substring_char(start, n).to_owned();
            parts.push(piece);
            proof {
                let tail = s@.skip(start as int);
                lemma_split_char_cut(tail, sep);
                lemma_find_sub(tail, seq![sep]);
                if let Some(k) = find_sub(tail, seq![sep]) {
                    assert(seq![sep].is_prefix_of(tail.skip(k)));
                    assert(tail.skip(k)[0] == sep);
                    assert(s@[start + k] == sep);
                }
                assert(split_char(tail, sep) == seq![tail]);
                assert(tail =~= s@.subrange(start as int, n as int));
                assert(parts@.map_values(|x: String| x@) =~= parts@.drop_last().map_values(
                    |x: String| x@,
                ).push(tail));
                assert(parts@.map_values(|x: String| x@) =~= parts@.drop_last().map_values(
                    |x: String| x@,
                ) + seq![tail]);
            }
            return parts;
        }
        if s.get_char(i) == sep {
            let piece = s.substring_char(start, i).to_owned();
            parts.push(piece);
            proof {
                let tail = s@.skip(start as int);
                let cut = i - start as int;
                assert(seq![sep].is_prefix_of(tail.skip(cut))) by {
                    assert(tail.skip(cut)[0] == s@[i as int]);
                    assert(seq![sep] =~= tail.skip(cut).subrange(0, 1));
                }
                assert forall|j: int| 0 <= j < cut implies !seq![sep].is_prefix_of(
                    tail.skip(j),
                ) by {
                    assert(tail.skip(j)[0] == s@[start + j]);
                    assert(s@[start + j] != sep);
                    if seq![sep].is_prefix_of(tail.skip(j)) {
                        assert(tail.skip(j).subrange(0, 1)[0] == tail.skip(j)[0]);
                        assert(seq![sep][0] == sep);
                    }
                }
                lemma_find_sub_unique(tail, seq![sep], cut);
                lemma_split_char_cut(tail, sep);
                assert(tail.take(cut) =~= s@.subrange(start as int, i as int));
                assert(tail.skip(cut + 1) =~= s@.skip(i + 1int));
                assert(parts@.map_values(|x: String| x@) =~= parts@.drop_last().map_values(
                    |x: String| x@,
                ) + seq![tail.take(cut)]);
            }
            start = i + 1;
        }
        i = i + 1;
    }
}

/// The one- or two-or-more character string that digit `d` renders as.
fn digit_str(d: usize) -> (r: &'static str)
    requires
        d < 10,
    ensures
        r@ == seq![digit_char(d as nat)],
{
    proof {
        reveal_strlit("0");
        reveal_strlit("1");
        reveal_strlit("2");
        reveal_strlit("3");
        reveal_strlit("4");
        reveal_strlit("5");
        reveal_strlit("6");
        reveal_strlit("7");
        reveal_strlit("8");
        reveal_strlit("9");
    }
    match d {
        0 => "0",
        1 => "1",
        2 => "2",
        3 => "3",
        4 => "4",
        5 => "5",
        6 => "6",
        7 => "7",
        8 => "8",
        _ => {
            proof {
                assert(d == 9);
            }
            "9"
        },
    }
}

/// `n` written in decimal.
pub fn usize_to_dec(n: usize) -> (r: String)
    ensures
        r@ == dec_str(n as nat),
    decreases n,
{
    if n < 10 {
        digit_str(n).to_owned()
    } else {
        let mut r = usize_to_dec(n / 10);
        r.append(digit_str(n % 10));
        r
    }
}

/// The elements of `parts` joined with `sep` between consecutive elements.
pub fn join_strings(parts: &Vec<String>, sep: &str) -> (r: String)
    ensures
        r@ == join_with(parts@.map_values(|x: String| x@), sep@),
{
    let mut r = String::new();
    let n = parts.len();
    if n == 0 {
        return r;
    }
    let mut i: usize = 0;
    while i < n
        invariant
            n == parts@.len(),
            0 < n,
            0 <= i <= n,
            r@ == join_prefix(parts@.map_values(|x: String| x@), sep@, i as int),
        decreases n - i,
    {
        if i > 0 {
            r.append(sep);
        }
        r.append(parts[i].as_str());
        proof {
            lemma_join_prefix_step(parts@.map_values(|x: String| x@), sep@, i as int);
        }
        i = i + 1;
    }
    proof {
        lemma_join_prefix_all(parts@.map_values(|x: String| x@), sep@);
    }
    r
}

/// The join of the first `i` elements of `parts`, used as the loop invariant
/// of `join_strings`.
pub open spec fn join_prefix(parts: Seq<Seq<char>>, sep: Seq<char>, i: int) -> Seq<char> {
    join_with(parts.take(i), sep)
}

proof fn lemma_join_prefix_step(parts: Seq<Seq<char>>, sep: Seq<char>, i: int)
    requires
        0 <= i < parts.len(),
    ensures
        i == 0 ==> join_prefix(parts, sep, 1) == parts[0],
        i > 0 ==> join_prefix(parts, sep, i + 1) == join_prefix(parts, sep, i) + sep
            + parts[i],
{
    if i == 0 {
        assert(parts.take(1) =~= seq![parts[0]]);
    } else {
        lemma_join_append(parts.take(i), sep, parts[i]);
        assert(parts.take(i).push(parts[i]) =~= parts.take(i + 1));
    }
}

proof fn lemma_join_prefix_all(parts: Seq<Seq<char>>, sep: Seq<char>)
    ensures
        join_prefix(parts, sep, parts.len() as int) == join_with(parts, sep),
{
    assert(parts.take(parts.len() as int) =~= parts);
}

/// Appending one more part extends the join by the separator and the part.
proof fn lemma_join_append(parts: Seq<Seq<char>>, sep: Seq<char>, last: Seq<char>)
    requires
        parts.len() >= 1,
    ensures
        join_with(parts.push(last), sep) == join_with(parts, sep) + sep + last,
    decreases parts.len(),
{
    if parts.len() == 1 {
        assert(parts.push(last).drop_first() =~= seq![last]);
        assert(parts.push(last)[0] == parts[0]);
        assert(join_with(seq![last], sep) == last);
    } else {
        lemma_join_append(parts.drop_first(), sep, last);
        assert(parts.push(last).drop_first() =~= parts.drop_first().push(last));
        assert(join_with(parts.push(last), sep) == parts[0] + sep + join_with(
            parts.drop_first().push(last),
            sep,
        ));
        assert(parts[0] + sep + (join_with(parts.drop_first(), sep) + sep + last) =~= (
        parts[0] + sep + join_with(parts.drop_first(), sep)) + sep + last);
    }
}

} // verus!
