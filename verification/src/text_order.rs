//! The order of strings (by code point, as `String`'s `Ord` compares their UTF-8 bytes)
//! and sorted, duplicate-free lists of them.
use vstd::prelude::*;

use crate::json_doc::string_views;
use crate::text::chars_of;

verus! {

/// `a` comes before `b`: at the first place they differ `a` has the smaller code point, or
/// `a` is a proper prefix of `b`.
pub open spec fn lex_lt(a: Seq<char>, b: Seq<char>) -> bool
    decreases a.len(),
{
    if b.len() == 0 {
        false
    } else if a.len() == 0 {
        true
    } else if a[0] != b[0] {
        (a[0] as int) < (b[0] as int)
    } else {
        lex_lt(a.drop_first(), b.drop_first())
    }
}

pub proof fn lemma_lex_irreflexive(a: Seq<char>)
    ensures
        !lex_lt(a, a),
    decreases a.len(),
{
    if a.len() > 0 {
        lemma_lex_irreflexive(a.drop_first());
    }
}

pub proof fn lemma_lex_transitive(a: Seq<char>, b: Seq<char>, c: Seq<char>)
    requires
        lex_lt(a, b),
        lex_lt(b, c),
    ensures
        lex_lt(a, c),
    decreases a.len(),
{
    if a.len() > 0 && b.len() > 0 && c.len() > 0 {
        if a[0] == b[0] && b[0] == c[0] {
            lemma_lex_transitive(a.drop_first(), b.drop_first(), c.drop_first());
        }
    }
}

pub proof fn lemma_lex_total(a: Seq<char>, b: Seq<char>)
    ensures
        a == b || lex_lt(a, b) || lex_lt(b, a),
    decreases a.len(),
{
    if a.len() > 0 && b.len() > 0 && a[0] == b[0] {
        lemma_lex_total(a.drop_first(), b.drop_first());
        if a.drop_first() == b.drop_first() {
            assert(a =~= b) by {
                assert forall|i: int| 0 <= i < a.len() implies a[i] == b[i] by {
                    if i > 0 {
                        assert(a[i] == a.drop_first()[i - 1]);
                        assert(b[i] == b.drop_first()[i - 1]);
                    }
                }
            }
        }
    } else if a.len() == 0 && b.len() == 0 {
        assert(a =~= b);
    } else if a.len() > 0 && b.len() > 0 {
        assert((a[0] as int) != (b[0] as int));
    }
}

pub proof fn lemma_lex_asymmetric(a: Seq<char>, b: Seq<char>)
    requires
        lex_lt(a, b),
    ensures
        !lex_lt(b, a),
{
    if lex_lt(b, a) {
        lemma_lex_transitive(a, b, a);
        lemma_lex_irreflexive(a);
    }
}

/// Whether `a` comes before `b`.
pub fn lex_less(a: &str, b: &str) -> (r: bool)
    ensures
        r == lex_lt(a@, b@),
{
    let x = chars_of(a);
    let y = chars_of(b);
    let mut i: usize = 0;
    assert(x@.skip(0) =~= x@);
    assert(y@.skip(0) =~= y@);
    while i < x.len() && i < y.len() && x[i] == y[i]
        invariant
            i <= x@.len(),
            i <= y@.len(),
            lex_lt(a@, b@) == lex_lt(x@.skip(i as int), y@.skip(i as int)),
            x@ == a@,
            y@ == b@,
        decreases x@.len() - i,
    {
        assert(x@.skip(i as int).drop_first() =~= x@.skip(i + 1));
        assert(y@.skip(i as int).drop_first() =~= y@.skip(i + 1));
        i = i + 1;
    }
    if i == y.len() {
        false
    } else if i == x.len() {
        true
    } else {
        x[i] < y[i]
    }
}

/// Each string comes before every later one: sorted, without repeats.
pub open spec fn strictly_sorted(s: Seq<Seq<char>>) -> bool {
    forall|i: int, j: int| 0 <= i < j < s.len() ==> lex_lt(#[trigger] s[i], #[trigger] s[j])
}

/// Inserts `x` into a sorted list without repeats, where it is not already.
pub fn insert_sorted(v: &mut Vec<String>, x: String)
    requires
        strictly_sorted(string_views(old(v)@)),
    ensures
        strictly_sorted(string_views(final(v)@)),
        string_views(final(v)@).to_set() == string_views(old(v)@).to_set().insert(x@),
{
    let ghost old_v = string_views(v@);
    let mut p: usize = 0;
    while p < v.len() && lex_less(v[p].as_str(), x.as_str())
        invariant
            p <= v@.len(),
            old_v == string_views(v@),
            forall|k: int| 0 <= k < p ==> lex_lt(#[trigger] old_v[k], x@),
        decreases v@.len() - p,
    {
        p = p + 1;
    }
    if p < v.len() && crate::text::str_eq(v[p].as_str(), x.as_str()) {
        assert(old_v[p as int] == x@);
        assert(string_views(v@).to_set().insert(x@) =~= old_v.to_set());
        return;
    }
    proof {
        if p < v@.len() {
            lemma_lex_total(old_v[p as int], x@);
        }
    }
    let ghost xv = x@;
    v.insert(p, x);
    let ghost nv = string_views(v@);
    assert(nv =~= old_v.insert(p as int, xv));
    assert forall|i: int, j: int| 0 <= i < j < nv.len() implies lex_lt(#[trigger] nv[i], #[trigger] nv[j]) by {
        if j < p {
            assert(nv[i] == old_v[i] && nv[j] == old_v[j]);
        } else if j == p {
            assert(nv[i] == old_v[i]);
        } else if i == p {
            assert(nv[j] == old_v[j - 1]);
            if j - 1 > p {
                assert(lex_lt(old_v[p as int], old_v[j - 1]));
                lemma_lex_transitive(xv, old_v[p as int], old_v[j - 1]);
            }
        } else if i < p {
            assert(nv[i] == old_v[i] && nv[j] == old_v[j - 1]);
            if i < j - 1 {
            } else {
                assert(false);
            }
        } else {
            assert(nv[i] == old_v[i - 1] && nv[j] == old_v[j - 1]);
        }
    }
    assert(nv.to_set() =~= old_v.to_set().insert(xv)) by {
        assert forall|s: Seq<char>| nv.to_set().contains(s) <==> old_v.to_set().insert(xv).contains(s) by {
            if nv.to_set().contains(s) {
                let k = choose|k: int| 0 <= k < nv.len() && nv[k] == s;
                if k < p {
                    assert(old_v[k] == s);
                } else if k > p {
                    assert(old_v[k - 1] == s);
                }
            }
            if old_v.to_set().contains(s) {
                let k = choose|k: int| 0 <= k < old_v.len() && old_v[k] == s;
                if k < p {
                    assert(nv[k] == s);
                } else {
                    assert(nv[k + 1] == s);
                }
            }
            if s == xv {
                assert(nv[p as int] == s);
            }
        }
    }
}

} // verus!
