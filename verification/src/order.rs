//! Lexicographic orders: on branch names (by code point, as `str` orders them) and
//! on root-to-branch paths of names.
use vstd::prelude::*;
use vstd::relations::*;
use vstd::string::*;

use crate::text::str_eq;

verus! {

/// Lexicographic order on sequences, built from an order `le` on the elements:
/// the first differing element decides, and a prefix comes first.
pub open spec fn lex_le<T>(a: Seq<T>, b: Seq<T>, le: spec_fn(T, T) -> bool) -> bool
    decreases a.len(),
{
    if a.len() == 0 {
        true
    } else if b.len() == 0 {
        false
    } else if a[0] == b[0] {
        lex_le(a.drop_first(), b.drop_first(), le)
    } else {
        le(a[0], b[0])
    }
}

/// Order of characters by code point.
pub open spec fn char_order() -> spec_fn(char, char) -> bool {
    |x: char, y: char| (x as int) <= (y as int)
}

/// Order of branch names: lexicographic by code point, which is the order of `str`.
pub open spec fn name_le(a: Seq<char>, b: Seq<char>) -> bool {
    lex_le(a, b, char_order())
}

/// The name order as a relation.
pub open spec fn name_order() -> spec_fn(Seq<char>, Seq<char>) -> bool {
    |x: Seq<char>, y: Seq<char>| name_le(x, y)
}

/// Order of paths (sequences of names): lexicographic over the name order.
pub open spec fn path_le(a: Seq<Seq<char>>, b: Seq<Seq<char>>) -> bool {
    lex_le(a, b, name_order())
}

pub proof fn lemma_lex_refl<T>(a: Seq<T>, le: spec_fn(T, T) -> bool)
    ensures
        lex_le(a, a, le),
    decreases a.len(),
{
    if a.len() > 0 {
        lemma_lex_refl(a.drop_first(), le);
    }
}

pub proof fn lemma_lex_total<T>(a: Seq<T>, b: Seq<T>, le: spec_fn(T, T) -> bool)
    requires
        strongly_connected(le),
    ensures
        lex_le(a, b, le) || lex_le(b, a, le),
    decreases a.len(),
{
    if a.len() > 0 && b.len() > 0 {
        if a[0] == b[0] {
            lemma_lex_total(a.drop_first(), b.drop_first(), le);
        } else {
            assert(le(a[0], b[0]) || le(b[0], a[0]));
        }
    }
}

pub proof fn lemma_lex_antisym<T>(a: Seq<T>, b: Seq<T>, le: spec_fn(T, T) -> bool)
    requires
        antisymmetric(le),
        lex_le(a, b, le),
        lex_le(b, a, le),
    ensures
        a == b,
    decreases a.len(),
{
    if a.len() > 0 && b.len() > 0 {
        if a[0] == b[0] {
            lemma_lex_antisym(a.drop_first(), b.drop_first(), le);
            assert(a =~= seq![a[0]] + a.drop_first());
            assert(b =~= seq![b[0]] + b.drop_first());
        } else {
            assert(le(a[0], b[0]) && le(b[0], a[0]));
        }
    } else {
        assert(a.len() == 0 && b.len() == 0);
        assert(a =~= b);
    }
}

pub proof fn lemma_lex_trans<T>(a: Seq<T>, b: Seq<T>, c: Seq<T>, le: spec_fn(T, T) -> bool)
    requires
        antisymmetric(le),
        transitive(le),
        lex_le(a, b, le),
        lex_le(b, c, le),
    ensures
        lex_le(a, c, le),
    decreases a.len(),
{
    if a.len() > 0 && b.len() > 0 && c.len() > 0 {
        if a[0] == b[0] && b[0] == c[0] {
            lemma_lex_trans(a.drop_first(), b.drop_first(), c.drop_first(), le);
        } else if a[0] == b[0] {
        } else if b[0] == c[0] {
        } else {
            assert(le(a[0], b[0]) && le(b[0], c[0]));
            assert(le(a[0], c[0]));
            if a[0] == c[0] {
                assert(le(b[0], a[0]));
            }
        }
    }
}

/// Sequences that agree on their first `i` elements compare as their remainders do.
pub proof fn lemma_lex_skip<T>(a: Seq<T>, b: Seq<T>, i: int, le: spec_fn(T, T) -> bool)
    requires
        0 <= i <= a.len(),
        i <= b.len(),
        forall|j: int| 0 <= j < i ==> a[j] == b[j],
    ensures
        lex_le(a, b, le) == lex_le(a.skip(i), b.skip(i), le),
    decreases i,
{
    if i > 0 {
        lemma_lex_skip(a.drop_first(), b.drop_first(), i - 1, le);
        assert(a.drop_first().skip(i - 1) =~= a.skip(i));
        assert(b.drop_first().skip(i - 1) =~= b.skip(i));
    } else {
        assert(a.skip(0) =~= a);
        assert(b.skip(0) =~= b);
    }
}

pub proof fn lemma_char_order()
    ensures
        total_ordering(char_order()),
{
    assert forall|x: char, y: char|
        #[trigger] char_order()(x, y) && #[trigger] char_order()(y, x) implies x == y by {
        assert((x as int) == (y as int));
    }
}

pub proof fn lemma_name_order()
    ensures
        total_ordering(name_order()),
{
    lemma_char_order();
    assert forall|x: Seq<char>| #[trigger] name_order()(x, x) by {
        lemma_lex_refl(x, char_order());
    }
    assert forall|x: Seq<char>, y: Seq<char>|
        #[trigger] name_order()(x, y) && #[trigger] name_order()(y, x) implies x == y by {
        lemma_lex_antisym(x, y, char_order());
    }
    assert forall|x: Seq<char>, y: Seq<char>, z: Seq<char>|
        #[trigger] name_order()(x, y) && #[trigger] name_order()(y, z) implies name_order()(
        x,
        z,
    ) by {
        lemma_lex_trans(x, y, z, char_order());
    }
    assert forall|x: Seq<char>, y: Seq<char>|
        #[trigger] name_order()(x, y) || #[trigger] name_order()(y, x) by {
        lemma_lex_total(x, y, char_order());
    }
}

/// Whether `a` comes no later than `b` in the order of names.
pub fn name_le_exec(a: &str, b: &str) -> (r: bool)
    ensures
        r == name_le(a@, b@),
{
    let na = a.unicode_len();
    let nb = b.unicode_len();
    let mut i: usize = 0;
    while i < na && i < nb
        invariant
            na == a@.len(),
            nb == b@.len(),
            i <= na,
            i <= nb,
            forall|j: int| 0 <= j < i ==> a@[j] == b@[j],
        decreases na - i,
    {
        let ca = a.get_char(i);
        let cb = b.get_char(i);
        if ca != cb {
            proof {
                lemma_lex_skip(a@, b@, i as int, char_order());
            }
            return ca <= cb;
        }
        i = i + 1;
    }
    proof {
        lemma_lex_skip(a@, b@, i as int, char_order());
    }
    na <= nb
}

/// Whether path `a` comes no later than path `b`.
pub fn path_le_exec(a: &Vec<String>, b: &Vec<String>) -> (r: bool)
    ensures
        r == path_le(names_of(a@), names_of(b@)),
{
    let na = a.len();
    let nb = b.len();
    let ghost sa = names_of(a@);
    let ghost sb = names_of(b@);
    let mut i: usize = 0;
    while i < na && i < nb
        invariant
            na == a@.len(),
            nb == b@.len(),
            sa == names_of(a@),
            sb == names_of(b@),
            i <= na,
            i <= nb,
            forall|j: int| 0 <= j < i ==> sa[j] == sb[j],
        decreases na - i,
    {
        if !str_eq(a[i].as_str(), b[i].as_str()) {
            proof {
                lemma_lex_skip(sa, sb, i as int, name_order());
            }
            return name_le_exec(a[i].as_str(), b[i].as_str());
        }
        i = i + 1;
    }
    proof {
        lemma_lex_skip(sa, sb, i as int, name_order());
    }
    na <= nb
}

/// The character sequences of a sequence of strings.
pub open spec fn names_of(v: Seq<String>) -> Seq<Seq<char>> {
    v.map_values(|s: String| s@)
}

} // verus!
