//! Generic string scanning used across the pipeline: prefix tests,
//! two-character separators and splitting.

use vstd::prelude::*;
use vstd::string::*;

verus! {

/// `p` is a prefix of `s`.
pub open spec fn is_prefix(p: Seq<char>, s: Seq<char>) -> bool {
    p.len() <= s.len() && s.subrange(0, p.len() as int) == p
}

/// Exec prefix test over character sequences.
pub fn starts_with(s: &str, p: &str) -> (r: bool)
    ensures
        r == is_prefix(p@, s@),
{
    let sn = s.unicode_len();
    let pn = p.unicode_len();
    if pn > sn {
        return false;
    }
    let mut i: usize = 0;
    while i < pn
        invariant
            i <= pn,
            pn as nat == p@.len(),
            sn as nat == s@.len(),
            pn <= sn,
            forall|j: int| 0 <= j < i ==> s@[j] == p@[j],
        decreases pn - i,
    {
        if s.get_char(i) != p.get_char(i) {
            proof {
                assert(s@.subrange(0, p@.len() as int)[i as int] != p@[i as int]);
            }
            return false;
        }
        i = i + 1;
    }
    proof {
        assert(s@.subrange(0, p@.len() as int) =~= p@);
    }
    true
}

/// The two-character separator `a, b` occurs in `s` at position `i`.
pub open spec fn pair_at(s: Seq<char>, a: char, b: char, i: int) -> bool {
    0 <= i && i + 2 <= s.len() && s[i] == a && s[i + 1] == b
}

/// The least position of the two-character separator, assuming one exists.
pub open spec fn first_pair(s: Seq<char>, a: char, b: char) -> int {
    choose|i: int| pair_at(s, a, b, i) && forall|j: int| 0 <= j < i ==> !pair_at(s, a, b, j)
}

/// Position of the first occurrence of the two-character separator, if any.
pub fn find_pair(s: &str, a: char, b: char) -> (r: Option<usize>)
    ensures
        match r {
            Some(i) => pair_at(s@, a, b, i as int) && i == first_pair(s@, a, b) && forall|j: int|
                0 <= j < i ==> !pair_at(s@, a, b, j),
            None => forall|j: int| !pair_at(s@, a, b, j),
        },
{
    let n = s.unicode_len();
    if n < 2 {
        return None;
    }
    let mut i: usize = 0;
    while i < n - 1
        invariant
            n >= 2,
            i <= n - 1,
            n as nat == s@.len(),
            forall|j: int| 0 <= j < i ==> !pair_at(s@, a, b, j),
        decreases n - i,
    {
        if s.get_char(i) == a && s.get_char(i + 1) == b {
            proof {
                let fp = first_pair(s@, a, b);
                assert(pair_at(s@, a, b, i as int) && forall|j: int|
                    0 <= j < i ==> !pair_at(s@, a, b, j));
                assert(pair_at(s@, a, b, fp) && forall|j: int| 0 <= j < fp ==> !pair_at(s@, a, b, j));
                assert(fp == i as int) by {
                    if fp < i as int {
                        assert(!pair_at(s@, a, b, fp));
                    } else if fp > i as int {
                        assert(!pair_at(s@, a, b, i as int));
                    }
                }
            }
            return Some(i);
        }
        i = i + 1;
    }
    None
}

/// Whether `c` occurs anywhere in `s`.
pub fn contains_char(s: &str, c: char) -> (r: bool)
    ensures
        r == exists|j: int| 0 <= j < s@.len() && s@[j] == c,
{
    let n = s.unicode_len();
    let mut i: usize = 0;
    while i < n
        invariant
            i <= n,
            n as nat == s@.len(),
            forall|j: int| 0 <= j < i ==> s@[j] != c,
        decreases n - i,
    {
        if s.get_char(i) == c {
            return true;
        }
        i = i + 1;
    }
    false
}

/// Lexicographic order on character sequences, strict.
pub open spec fn lex_lt(a: Seq<char>, b: Seq<char>) -> bool
    decreases a.len(),
{
    if b.len() == 0 {
        false
    } else if a.len() == 0 {
        true
    } else if a.first() != b.first() {
        a.first() < b.first()
    } else {
        lex_lt(a.subrange(1, a.len() as int), b.subrange(1, b.len() as int))
    }
}

proof fn lemma_lex_lt_skip(a: Seq<char>, b: Seq<char>, i: int)
    requires
        0 <= i <= a.len(),
        i <= b.len(),
        forall|j: int| 0 <= j < i ==> a[j] == b[j],
    ensures
        lex_lt(a, b) == lex_lt(a.subrange(i, a.len() as int), b.subrange(i, b.len() as int)),
    decreases i,
{
    if i == 0 {
        assert(a.subrange(0, a.len() as int) =~= a);
        assert(b.subrange(0, b.len() as int) =~= b);
    } else {
        let ua = a.subrange(1, a.len() as int);
        let ub = b.subrange(1, b.len() as int);
        lemma_lex_lt_skip(ua, ub, i - 1);
        assert(ua.subrange(i - 1, ua.len() as int) =~= a.subrange(i, a.len() as int));
        assert(ub.subrange(i - 1, ub.len() as int) =~= b.subrange(i, b.len() as int));
    }
}

/// The lexicographic order is total: two sequences compare one way or
/// the other, or are equal.
pub proof fn lemma_lex_lt_total(a: Seq<char>, b: Seq<char>)
    ensures
        lex_lt(a, b) || lex_lt(b, a) || a == b,
    decreases a.len(),
{
    if a.len() == 0 && b.len() == 0 {
        assert(a =~= b);
    } else if a.len() > 0 && b.len() > 0 && a.first() == b.first() {
        let ua = a.subrange(1, a.len() as int);
        let ub = b.subrange(1, b.len() as int);
        lemma_lex_lt_total(ua, ub);
        assert(lex_lt(a, b) == lex_lt(ua, ub));
        assert(lex_lt(b, a) == lex_lt(ub, ua));
        if !lex_lt(a, b) && !lex_lt(b, a) {
            assert(ua == ub);
            assert forall|i: int| 0 <= i < a.len() implies a[i] == b[i] by {
                if i > 0 {
                    assert(a[i] == ua[i - 1]);
                    assert(b[i] == ub[i - 1]);
                }
            }
            assert(a =~= b);
        }
    }
}

/// The lexicographic order is irreflexive.
pub proof fn lemma_lex_lt_irrefl(a: Seq<char>)
    ensures
        !lex_lt(a, a),
    decreases a.len(),
{
    if a.len() > 0 {
        lemma_lex_lt_irrefl(a.subrange(1, a.len() as int));
    }
}

/// The lexicographic order is transitive.
pub proof fn lemma_lex_lt_trans(a: Seq<char>, b: Seq<char>, c: Seq<char>)
    requires
        lex_lt(a, b),
        lex_lt(b, c),
    ensures
        lex_lt(a, c),
    decreases a.len(),
{
    if a.len() > 0 {
        if a.first() == b.first() && b.first() == c.first() {
            lemma_lex_lt_trans(
                a.subrange(1, a.len() as int),
                b.subrange(1, b.len() as int),
                c.subrange(1, c.len() as int),
            );
        }
    }
}

/// Exec lexicographic comparison, as [`lex_lt`] describes.
pub fn str_lt(a: &str, b: &str) -> (r: bool)
    ensures
        r == lex_lt(a@, b@),
{
    let an = a.unicode_len();
    let bn = b.unicode_len();
    let mut i: usize = 0;
    while i < an && i < bn
        invariant
            i <= an,
            i <= bn,
            an as nat == a@.len(),
            bn as nat == b@.len(),
            forall|j: int| 0 <= j < i ==> a@[j] == b@[j],
        decreases an - i,
    {
        let ca = a.get_char(i);
        let cb = b.get_char(i);
        if ca != cb {
            proof {
                lemma_lex_lt_skip(a@, b@, i as int);
                assert(a@.subrange(i as int, a@.len() as int).first() == a@[i as int]);
                assert(b@.subrange(i as int, b@.len() as int).first() == b@[i as int]);
            }
            return ca < cb;
        }
        i = i + 1;
    }
    proof {
        lemma_lex_lt_skip(a@, b@, i as int);
    }
    an < bn
}

/// `s` split at every occurrence of `c`: the separator is dropped, empty
/// pieces are kept, and a string without `c` yields itself alone.
pub open spec fn split_at_char(s: Seq<char>, c: char) -> Seq<Seq<char>>
    decreases s.len(),
{
    if s.len() == 0 {
        seq![s]
    } else if s[0] == c {
        seq![Seq::<char>::empty()] + split_at_char(s.subrange(1, s.len() as int), c)
    } else {
        let rest = split_at_char(s.subrange(1, s.len() as int), c);
        seq![seq![s[0]] + rest[0]] + rest.subrange(1, rest.len() as int)
    }
}

/// A split has at least one piece.
pub proof fn lemma_split_nonempty(s: Seq<char>, c: char)
    ensures
        split_at_char(s, c).len() >= 1,
    decreases s.len(),
{
    if s.len() > 0 && s[0] != c {
        lemma_split_nonempty(s.subrange(1, s.len() as int), c);
    }
}

/// With no separator before `k` and one at `k`, the split is the piece up
/// to `k` followed by the split of what comes after.
proof fn lemma_split_at(t: Seq<char>, c: char, k: int)
    requires
        0 <= k < t.len(),
        t[k] == c,
        forall|j: int| 0 <= j < k ==> t[j] != c,
    ensures
        split_at_char(t, c) == seq![t.subrange(0, k)] + split_at_char(
            t.subrange(k + 1, t.len() as int),
            c,
        ),
    decreases k,
{
    let u = t.subrange(1, t.len() as int);
    if k == 0 {
        assert(t.subrange(0, 0) =~= Seq::<char>::empty());
        assert(t.subrange(1, t.len() as int) =~= u);
    } else {
        assert(u[k - 1] == c);
        lemma_split_at(u, c, k - 1);
        lemma_split_nonempty(u.subrange(k, u.len() as int), c);
        let rest = split_at_char(u, c);
        assert(rest[0] == u.subrange(0, k - 1));
        assert(rest.subrange(1, rest.len() as int) =~= split_at_char(
            u.subrange(k, u.len() as int),
            c,
        ));
        assert(seq![t[0]] + u.subrange(0, k - 1) =~= t.subrange(0, k));
        assert(u.subrange(k, u.len() as int) =~= t.subrange(k + 1, t.len() as int));
        assert(split_at_char(t, c) =~= seq![t.subrange(0, k)] + split_at_char(
            t.subrange(k + 1, t.len() as int),
            c,
        ));
    }
}

/// A string without the separator splits into itself alone.
proof fn lemma_split_none(t: Seq<char>, c: char)
    requires
        forall|j: int| 0 <= j < t.len() ==> t[j] != c,
    ensures
        split_at_char(t, c) == seq![t],
    decreases t.len(),
{
    if t.len() == 0 {
    } else {
        let u = t.subrange(1, t.len() as int);
        lemma_split_none(u, c);
        assert(seq![t[0]] + u =~= t);
        assert(split_at_char(t, c) =~= seq![t]);
    }
}

/// The views of a vector of strings.
pub open spec fn pieces_view(v: Seq<String>) -> Seq<Seq<char>> {
    v.map_values(|x: String| x@)
}

/// Splits `s` on `c`, as [`split_at_char`] describes.
pub fn split_string(s: &str, c: char) -> (r: Vec<String>)
    ensures
        pieces_view(r@) == split_at_char(s@, c),
        r@.len() >= 1,
{
    let n = s.unicode_len();
    let mut pieces: Vec<String> = Vec::new();
    let mut start: usize = 0;
    let mut i: usize = 0;
    proof {
        assert(s@.subrange(0, s@.len() as int) =~= s@);
        assert(pieces_view(pieces@) + split_at_char(s@, c) =~= split_at_char(s@, c));
    }
    while i < n
        invariant
            start <= i <= n,
            n as nat == s@.len(),
            forall|j: int| start <= j < i ==> s@[j] != c,
            split_at_char(s@, c) =~= pieces_view(pieces@) + split_at_char(
                s@.subrange(start as int, s@.len() as int),
                c,
            ),
        decreases n - i,
    {
        if s.get_char(i) == c {
            let piece = s.substring_char(start, i).to_owned();
            proof {
                let t = s@.subrange(start as int, s@.len() as int);
                assert(t[i - start] == c);
                assert(forall|j: int| 0 <= j < i - start ==> t[j] != c);
                lemma_split_at(t, c, i - start);
                assert(t.subrange(0, i - start) =~= s@.subrange(start as int, i as int));
                assert(t.subrange(i - start + 1, t.len() as int) =~= s@.subrange(
                    i + 1 as int,
                    s@.len() as int,
                ));
                assert(pieces_view(pieces@.push(piece)) =~= pieces_view(pieces@) + seq![
                    s@.subrange(start as int, i as int),
                ]);
            }
            pieces.push(piece);
            start = i + 1;
            proof {
                assert(split_at_char(s@, c) =~= pieces_view(pieces@) + split_at_char(
                    s@.subrange(start as int, s@.len() as int),
                    c,
                ));
            }
        }
        i = i + 1;
    }
    let last = s.substring_char(start, n).to_owned();
    proof {
        let t = s@.subrange(start as int, s@.len() as int);
        lemma_split_none(t, c);
        assert(pieces_view(pieces@.push(last)) =~= pieces_view(pieces@) + seq![t]);
        assert(pieces_view(pieces@.push(last)) =~= split_at_char(s@, c));
    }
    pieces.push(last);
    pieces
}

} // verus!
