//! Lexicographic order on package names.
//!
//! Package names are compared by exact character equality, code point by
//! code point.  A sorted, duplicate-free sequence of names is the canonical
//! form of a package set; `lex_lt` is the strict order that "sorted" means
//! throughout the crate.

use vstd::prelude::*;

verus! {

/// Strict order on characters, by code point.
pub open spec fn char_lt(a: char, b: char) -> bool {
    (a as u32) < (b as u32)
}

/// Strict lexicographic order on character sequences.
pub open spec fn lex_lt(a: Seq<char>, b: Seq<char>) -> bool
    decreases a.len(),
{
    if b.len() == 0 {
        false
    } else if a.len() == 0 {
        true
    } else if a[0] == b[0] {
        lex_lt(a.skip(1), b.skip(1))
    } else {
        char_lt(a[0], b[0])
    }
}

/// No sequence is lexicographically below itself.
pub proof fn lemma_lex_lt_irreflexive(a: Seq<char>)
    ensures
        !lex_lt(a, a),
    decreases a.len(),
{
    if a.len() > 0 {
        lemma_lex_lt_irreflexive(a.skip(1));
    }
}

/// At most one of `lex_lt(a, b)` and `lex_lt(b, a)` holds.
pub proof fn lemma_lex_lt_asymmetric(a: Seq<char>, b: Seq<char>)
    ensures
        !(lex_lt(a, b) && lex_lt(b, a)),
    decreases a.len(),
{
    if a.len() > 0 && b.len() > 0 && a[0] == b[0] {
        lemma_lex_lt_asymmetric(a.skip(1), b.skip(1));
    }
}

/// Characters with the same code point are the same character.
proof fn lemma_char_eq_by_code(a: char, b: char)
    requires
        (a as u32) == (b as u32),
    ensures
        a == b,
{
    vstd::utf8::char_u32_cast(a, a as u32);
    vstd::utf8::char_u32_cast(b, b as u32);
}

/// Two sequences that are not ordered either way are equal.
pub proof fn lemma_lex_lt_connected(a: Seq<char>, b: Seq<char>)
    ensures
        !lex_lt(a, b) && !lex_lt(b, a) ==> a == b,
    decreases a.len(),
{
    if !lex_lt(a, b) && !lex_lt(b, a) {
        if a.len() == 0 || b.len() == 0 {
            assert(a =~= b);
        } else {
            lemma_char_eq_by_code(a[0], b[0]);
            assert(a[0] == b[0]);
            assert(!lex_lt(a.skip(1), b.skip(1)));
            assert(!lex_lt(b.skip(1), a.skip(1)));
            lemma_lex_lt_connected(a.skip(1), b.skip(1));
            assert(a.skip(1) == b.skip(1));
            assert(a.len() == b.len());
            assert forall|i: int| 0 <= i < a.len() implies a[i] == b[i] by {
                if i > 0 {
                    assert(a.skip(1)[i - 1] == b.skip(1)[i - 1]);
                }
            }
            assert(a =~= b);
        }
    }
}

/// The lexicographic order is transitive.
pub proof fn lemma_lex_lt_transitive(a: Seq<char>, b: Seq<char>, c: Seq<char>)
    ensures
        lex_lt(a, b) && lex_lt(b, c) ==> lex_lt(a, c),
    decreases a.len(),
{
    if lex_lt(a, b) && lex_lt(b, c) {
        if a.len() > 0 && b.len() > 0 && c.len() > 0 && a[0] == b[0] && b[0] == c[0] {
            lemma_lex_lt_transitive(a.skip(1), b.skip(1), c.skip(1));
        }
    }
}

/// Dropping a common prefix does not change how two sequences compare.
proof fn lemma_lex_lt_common_prefix(a: Seq<char>, b: Seq<char>, n: int)
    requires
        0 <= n <= a.len(),
        n <= b.len(),
        forall|j: int| 0 <= j < n ==> a[j] == b[j],
    ensures
        lex_lt(a, b) == lex_lt(a.skip(n), b.skip(n)),
    decreases n,
{
    if n > 0 {
        assert(a.len() > 0 && b.len() > 0 && a[0] == b[0]);
        lemma_lex_lt_common_prefix(a.skip(1), b.skip(1), n - 1);
        assert(a.skip(1).skip(n - 1) =~= a.skip(n));
        assert(b.skip(1).skip(n - 1) =~= b.skip(n));
    } else {
        assert(a.skip(0) =~= a);
        assert(b.skip(0) =~= b);
    }
}

/// Decides equality of two strings, character by character.
pub fn str_eq(a: &str, b: &str) -> (r: bool)
    ensures
        r == (a@ == b@),
{
    let alen = a.unicode_len();
    let blen = b.unicode_len();
    if alen != blen {
        return false;
    }
    let mut i: usize = 0;
    while i < alen
        invariant
            alen == a@.len(),
            alen == b@.len(),
            0 <= i <= alen,
            forall|j: int| 0 <= j < i ==> a@[j] == b@[j],
        decreases alen - i,
    {
        let ca = a.get_char(i);
        let cb = b.get_char(i);
        if ca as u32 != cb as u32 {
            assert(a@[i as int] != b@[i as int]);
            return false;
        }
        i = i + 1;
    }
    proof {
        assert(a@ =~= b@);
    }
    true
}

/// Decides the strict lexicographic order on two strings.
pub fn str_lt(a: &str, b: &str) -> (r: bool)
    ensures
        r == lex_lt(a@, b@),
{
    let alen = a.unicode_len();
    let blen = b.unicode_len();
    let mut i: usize = 0;
    let end = if alen < blen {
        alen
    } else {
        blen
    };
    while i < end
        invariant
            alen == a@.len(),
            blen == b@.len(),
            end <= alen,
            end <= blen,
            0 <= i <= end,
            forall|j: int| 0 <= j < i ==> a@[j] == b@[j],
        decreases end - i,
    {
        let ca = a.get_char(i);
        let cb = b.get_char(i);
        if ca as u32 != cb as u32 {
            proof {
                lemma_lex_lt_common_prefix(a@, b@, i as int);
            }
            return (ca as u32) < (cb as u32);
        }
        i = i + 1;
    }
    proof {
        lemma_lex_lt_common_prefix(a@, b@, end as int);
    }
    alen < blen
}

/// The sequence of names holds the name `p`.
pub open spec fn has_name(v: Seq<String>, p: Seq<char>) -> bool {
    exists|i: int| 0 <= i < v.len() && (#[trigger] v[i])@ == p
}

/// The names are in strictly ascending lexicographic order; in particular
/// they are duplicate-free.  This is the canonical form of a package set.
pub open spec fn sorted_names(v: Seq<String>) -> bool {
    forall|i: int, j: int| 0 <= i < j < v.len() ==> #[trigger] lex_lt(v[i]@, v[j]@)
}

/// Distinct positions of a sorted name sequence hold distinct names.
pub proof fn lemma_sorted_names_distinct(v: Seq<String>, i: int, j: int)
    requires
        sorted_names(v),
        0 <= i < v.len(),
        0 <= j < v.len(),
        i != j,
    ensures
        v[i]@ != v[j]@,
{
    if i < j {
        lemma_lex_lt_irreflexive(v[i]@);
    } else {
        lemma_lex_lt_irreflexive(v[j]@);
    }
}

/// A sorted name sequence is determined by which names it holds: two sorted
/// sequences with the same members agree position by position.
pub proof fn lemma_sorted_names_unique(a: Seq<String>, b: Seq<String>)
    requires
        sorted_names(a),
        sorted_names(b),
        forall|p: Seq<char>| has_name(a, p) <==> has_name(b, p),
    ensures
        a.len() == b.len(),
        forall|i: int| 0 <= i < a.len() ==> (#[trigger] a[i])@ == b[i]@,
    decreases a.len(),
{
    if a.len() == 0 {
        if b.len() > 0 {
            assert(has_name(b, b[0]@));
            assert(false);
        }
    } else if b.len() == 0 {
        assert(has_name(a, a[0]@));
        assert(false);
    } else {
        // The heads are both the unique minimum, hence equal.
        assert(has_name(b, a[0]@));
        let j = choose|j: int| 0 <= j < b.len() && (#[trigger] b[j])@ == a[0]@;
        assert(has_name(a, b[0]@));
        let k = choose|k: int| 0 <= k < a.len() && (#[trigger] a[k])@ == b[0]@;
        if j > 0 && k > 0 {
            assert(lex_lt(b[0]@, b[j]@));
            assert(lex_lt(a[0]@, a[k]@));
            lemma_lex_lt_asymmetric(a[0]@, b[0]@);
            assert(false);
        }
        assert(a[0]@ == b[0]@);
        // The tails hold the same names.
        assert forall|p: Seq<char>| has_name(a.skip(1), p) <==> has_name(b.skip(1), p) by {
            lemma_tail_has_name(a, p);
            lemma_tail_has_name(b, p);
        }
        lemma_sorted_names_unique(a.skip(1), b.skip(1));
        assert forall|i: int| 0 <= i < a.len() implies (#[trigger] a[i])@ == b[i]@ by {
            if i > 0 {
                assert(a.skip(1)[i - 1]@ == b.skip(1)[i - 1]@);
            }
        }
    }
}

/// In a sorted name sequence, the tail holds exactly the names other than
/// the head's.
proof fn lemma_tail_has_name(a: Seq<String>, p: Seq<char>)
    requires
        sorted_names(a),
        a.len() > 0,
    ensures
        has_name(a.skip(1), p) <==> (has_name(a, p) && p != a[0]@),
{
    if has_name(a.skip(1), p) {
        let i = choose|i: int| 0 <= i < a.skip(1).len() && (#[trigger] a.skip(1)[i])@ == p;
        assert(a[i + 1]@ == p);
        lemma_sorted_names_distinct(a, 0, i + 1);
        assert(has_name(a, p));
    }
    if has_name(a, p) && p != a[0]@ {
        let i = choose|i: int| 0 <= i < a.len() && (#[trigger] a[i])@ == p;
        assert(i > 0);
        assert(a.skip(1)[i - 1]@ == p);
        assert(has_name(a.skip(1), p));
    }
}

/// Decides whether the vector holds the name `s`.
pub fn contains_name(v: &Vec<String>, s: &str) -> (r: bool)
    ensures
        r == has_name(v@, s@),
{
    let mut i: usize = 0;
    while i < v.len()
        invariant
            0 <= i <= v@.len(),
            forall|j: int| 0 <= j < i ==> (#[trigger] v@[j])@ != s@,
        decreases v@.len() - i,
    {
        if str_eq(v[i].as_str(), s) {
            return true;
        }
        i = i + 1;
    }
    false
}

/// Inserts the name `s` into the sorted name vector `v`, keeping it sorted
/// and duplicate-free; if `v` already holds `s`, it is left unchanged.
pub fn insert_sorted(v: &mut Vec<String>, s: String)
    requires
        sorted_names(old(v)@),
    ensures
        sorted_names(final(v)@),
        forall|p: Seq<char>| has_name(final(v)@, p) <==> (has_name(old(v)@, p) || p == s@),
{
    let mut pos: usize = 0;
    let mut found: bool = false;
    let mut i: usize = 0;
    while i < v.len()
        invariant
            sorted_names(v@),
            v@ == old(v)@,
            0 <= pos <= i <= v@.len(),
            forall|j: int| 0 <= j < pos ==> lex_lt((#[trigger] v@[j])@, s@),
            forall|j: int| pos <= j < i ==> !lex_lt((#[trigger] v@[j])@, s@),
            found <==> (exists|j: int| 0 <= j < i && (#[trigger] v@[j])@ == s@),
        decreases v@.len() - i,
    {
        if str_lt(v[i].as_str(), s.as_str()) {
            proof {
                lemma_lex_lt_irreflexive(s@);
                if pos < i {
                    assert(!lex_lt(v@[pos as int]@, s@));
                    assert(lex_lt(v@[pos as int]@, v@[i as int]@));
                    lemma_lex_lt_transitive(v@[pos as int]@, v@[i as int]@, s@);
                    assert(false);
                }
            }
            pos = i + 1;
        } else if str_eq(v[i].as_str(), s.as_str()) {
            found = true;
        }
        i = i + 1;
    }
    if !found {
        proof {
            assert forall|j: int| pos <= j < v@.len() implies lex_lt(s@, (#[trigger] v@[j])@) by {
                lemma_lex_lt_connected(v@[j]@, s@);
            }
        }
        let ghost prev = v@;
        v.insert(pos, s);
        proof {
            assert forall|x: int, y: int| 0 <= x < y < v@.len() implies lex_lt(
                (#[trigger] v@[x])@,
                (#[trigger] v@[y])@,
            ) by {
                let p = pos as int;
                if x < p && y < p {
                    assert(v@[x] == prev[x] && v@[y] == prev[y]);
                } else if x < p && y == p {
                    assert(v@[x] == prev[x]);
                } else if x < p && y > p {
                    assert(v@[x] == prev[x] && v@[y] == prev[y - 1]);
                } else if x == p {
                    assert(v@[y] == prev[y - 1]);
                } else {
                    assert(v@[x] == prev[x - 1] && v@[y] == prev[y - 1]);
                }
            }
            assert forall|p: Seq<char>| has_name(v@, p) <==> (has_name(prev, p) || p == s@) by {
                if has_name(v@, p) {
                    let i0 = choose|i0: int| 0 <= i0 < v@.len() && (#[trigger] v@[i0])@ == p;
                    if i0 < pos as int {
                        assert(prev[i0]@ == p);
                    } else if i0 > pos as int {
                        assert(prev[i0 - 1]@ == p);
                    }
                }
                if has_name(prev, p) {
                    let i0 = choose|i0: int| 0 <= i0 < prev.len() && (#[trigger] prev[i0])@ == p;
                    if i0 < pos as int {
                        assert(v@[i0]@ == p);
                    } else {
                        assert(v@[i0 + 1]@ == p);
                    }
                }
                if p == s@ {
                    assert(v@[pos as int]@ == p);
                }
            }
        }
    }
}

/// Copies a name vector element by element.
pub fn clone_names(v: &Vec<String>) -> (r: Vec<String>)
    ensures
        r@ == v@,
{
    let mut r: Vec<String> = Vec::new();
    let mut i: usize = 0;
    while i < v.len()
        invariant
            0 <= i <= v@.len(),
            r@ =~= v@.take(i as int),
        decreases v@.len() - i,
    {
        r.push(v[i].clone());
        i = i + 1;
    }
    proof {
        assert(r@ =~= v@);
    }
    r
}

} // verus!
