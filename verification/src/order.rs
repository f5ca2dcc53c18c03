//! Lexicographic order on strings, and sorting of name lists.
//!
//! Names are compared character by character on code points, which matches
//! the order a database's `order by` on a string property uses. The sort is
//! a selection sort: small inputs only (one entry per city).

use vstd::multiset::Multiset;
use vstd::prelude::*;
use vstd::seq_lib::to_multiset_build;
use vstd::seq_lib::to_multiset_remove;
use vstd::string::StrSliceExecFns;
use vstd::string::StringExecFns;

verus! {

/// `a` is lexicographically at or before `b`, comparing code points.
pub open spec fn lex_le(a: Seq<char>, b: Seq<char>) -> bool
    decreases a.len(),
{
    if a.len() == 0 {
        true
    } else if b.len() == 0 {
        false
    } else if (a[0] as int) < (b[0] as int) {
        true
    } else if a[0] == b[0] {
        lex_le(a.skip(1), b.skip(1))
    } else {
        false
    }
}

/// Every string is at or before itself.
pub proof fn lemma_lex_le_refl(a: Seq<char>)
    ensures
        lex_le(a, a),
    decreases a.len(),
{
    if a.len() > 0 {
        lemma_lex_le_refl(a.skip(1));
    }
}

/// Any two strings are comparable.
pub proof fn lemma_lex_le_total(a: Seq<char>, b: Seq<char>)
    ensures
        lex_le(a, b) || lex_le(b, a),
    decreases a.len(),
{
    if a.len() == 0 {
    } else if b.len() == 0 {
    } else if a[0] == b[0] {
        lemma_lex_le_total(a.skip(1), b.skip(1));
    } else {
        assert((a[0] as int) != (b[0] as int));
    }
}

/// The order is transitive.
pub proof fn lemma_lex_le_trans(a: Seq<char>, b: Seq<char>, c: Seq<char>)
    requires
        lex_le(a, b),
        lex_le(b, c),
    ensures
        lex_le(a, c),
    decreases a.len(),
{
    if a.len() == 0 {
    } else if a[0] == b[0] && b[0] == c[0] {
        lemma_lex_le_trans(a.skip(1), b.skip(1), c.skip(1));
    }
}

/// Two strings at or before each other are equal.
pub proof fn lemma_lex_le_antisym(a: Seq<char>, b: Seq<char>)
    requires
        lex_le(a, b),
        lex_le(b, a),
    ensures
        a =~= b,
    decreases a.len(),
{
    if a.len() == 0 {
    } else {
        lemma_lex_le_antisym(a.skip(1), b.skip(1));
        assert(a =~= seq![a[0]] + a.skip(1));
        assert(b =~= seq![b[0]] + b.skip(1));
    }
}

/// Whether `a` is lexicographically at or before `b`.
pub fn str_le(a: &str, b: &str) -> (r: bool)
    ensures
        r == lex_le(a@, b@),
    decreases a@.len(),
{
    let a_len = a.unicode_len();
    let b_len = b.unicode_len();
    if a_len == 0 {
        true
    } else if b_len == 0 {
        false
    } else {
        let ca = a.get_char(0);
        let cb = b.get_char(0);
        if (ca as u32) < (cb as u32) {
            proof {
                assert((a@[0] as int) < (b@[0] as int));
            }
            true
        } else if ca == cb {
            let ra = a.substring_char(1, a_len);
            let rb = b.substring_char(1, b_len);
            proof {
                assert(ra@ =~= a@.skip(1));
                assert(rb@ =~= b@.skip(1));
            }
            str_le(ra, rb)
        } else {
            proof {
                assert((a@[0] as int) > (b@[0] as int));
            }
            false
        }
    }
}

/// Whether two strings hold the same characters.
pub fn str_eq(a: &str, b: &str) -> (r: bool)
    ensures
        r == (a@ == b@),
{
    let sa = a.to_owned();
    let sb = b.to_owned();
    sa == sb
}

/// The characters of each string in a list.
pub open spec fn views_of(s: Seq<String>) -> Seq<Seq<char>> {
    s.map_values(|x: String| x@)
}

/// The list is sorted lexicographically ascending.
pub open spec fn sorted_lex(ns: Seq<Seq<char>>) -> bool {
    forall|i: int, j: int| 0 <= i <= j < ns.len() ==> lex_le(ns[i], ns[j])
}

spec fn sorted_strs(s: Seq<String>) -> bool {
    forall|i: int, j: int| 0 <= i <= j < s.len() ==> lex_le(s[i]@, s[j]@)
}

proof fn lemma_sorted_strs_views(s: Seq<String>)
    requires
        sorted_strs(s),
    ensures
        sorted_lex(views_of(s)),
{
    assert forall|i: int, j: int| 0 <= i <= j < views_of(s).len() implies lex_le(
        views_of(s)[i],
        views_of(s)[j],
    ) by {
        assert(lex_le(s[i]@, s[j]@));
    }
}

proof fn lemma_views_push(s: Seq<String>, x: String)
    ensures
        views_of(s.push(x)) =~= views_of(s).push(x@),
{
}

proof fn lemma_views_remove(s: Seq<String>, i: int)
    requires
        0 <= i < s.len(),
    ensures
        views_of(s.remove(i)) =~= views_of(s).remove(i),
{
}

/// Sorts the names lexicographically ascending; the result holds the same
/// strings, counted with multiplicity.
pub fn sort_names(names: Vec<String>) -> (r: Vec<String>)
    ensures
        sorted_lex(views_of(r@)),
        views_of(r@).to_multiset() == views_of(names@).to_multiset(),
{
    broadcast use vstd::multiset::group_multiset_axioms;
    broadcast use vstd::seq_lib::group_to_multiset_ensures;

    let ghost orig: Seq<Seq<char>> = views_of(names@);
    let mut rest = names;
    let mut out: Vec<String> = Vec::new();
    proof {
        assert(views_of(out@).to_multiset().len() == 0);
        assert(views_of(out@).to_multiset() =~= Multiset::empty());
        assert(views_of(out@).to_multiset().add(views_of(rest@).to_multiset()) =~= orig.to_multiset());
    }
    while rest.len() > 0
        invariant
            sorted_strs(out@),
            views_of(out@).to_multiset().add(views_of(rest@).to_multiset()) == orig.to_multiset(),
            forall|i: int, j: int|
                0 <= i < out@.len() && 0 <= j < rest@.len() ==> lex_le(out@[i]@, rest@[j]@),
        decreases rest.len(),
    {
        let mut m: usize = 0;
        let mut j: usize = 1;
        proof {
            lemma_lex_le_refl(rest@[0]@);
        }
        while j < rest.len()
            invariant
                0 < rest@.len(),
                0 <= m < j <= rest@.len(),
                forall|k: int| 0 <= k < j ==> lex_le(rest@[m as int]@, rest@[k]@),
            decreases rest.len() - j,
        {
            if str_le(rest[j].as_str(), rest[m].as_str()) {
                let ghost m_old = m as int;
                m = j;
                proof {
                    lemma_lex_le_refl(rest@[m as int]@);
                    assert forall|k: int| 0 <= k < j + 1 implies lex_le(
                        rest@[m as int]@,
                        rest@[k]@,
                    ) by {
                        if k < j {
                            lemma_lex_le_trans(rest@[m as int]@, rest@[m_old]@, rest@[k]@);
                        }
                    }
                }
            } else {
                proof {
                    lemma_lex_le_total(rest@[m as int]@, rest@[j as int]@);
                }
            }
            j = j + 1;
        }
        let ghost rest_before = rest@;
        let ghost out_before = out@;
        let x = rest.remove(m);
        out.push(x);
        proof {
            let ghost e = rest_before[m as int]@;
            lemma_views_remove(rest_before, m as int);
            lemma_views_push(out_before, rest_before[m as int]);
            to_multiset_build(views_of(out_before), e);
            to_multiset_remove(views_of(rest_before), m as int);
            views_of(rest_before).to_multiset_ensures();
            assert(views_of(rest_before)[m as int] == e);
            assert(views_of(rest_before).contains(e));
            assert(views_of(rest_before).to_multiset().count(e) > 0);
            assert(views_of(out@).to_multiset() == views_of(out_before).to_multiset().insert(e));
            assert(views_of(rest@).to_multiset() == views_of(rest_before).to_multiset().remove(e));
            assert(views_of(out@).to_multiset().add(views_of(rest@).to_multiset())
                =~= orig.to_multiset());
            assert forall|i: int, j2: int| 0 <= i <= j2 < out@.len() implies lex_le(
                out@[i]@,
                out@[j2]@,
            ) by {
                if j2 < out@.len() - 1 {
                    assert(lex_le(out_before[i]@, out_before[j2]@));
                } else if i < j2 {
                    assert(lex_le(out_before[i]@, rest_before[m as int]@));
                } else {
                    lemma_lex_le_refl(out@[i]@);
                }
            }
            assert forall|i: int, j2: int|
                0 <= i < out@.len() && 0 <= j2 < rest@.len() implies lex_le(
                out@[i]@,
                rest@[j2]@,
            ) by {
                if j2 < m as int {
                    assert(rest@[j2] == rest_before[j2]);
                } else {
                    assert(rest@[j2] == rest_before[j2 + 1]);
                }
                if i < out@.len() - 1 {
                    assert(lex_le(out_before[i]@, rest@[j2]@));
                } else {
                    assert(lex_le(rest_before[m as int]@, rest@[j2]@));
                }
            }
        }
    }
    proof {
        lemma_sorted_strs_views(out@);
        assert(views_of(rest@).to_multiset().len() == 0);
        assert(views_of(rest@).to_multiset() =~= Multiset::empty());
        assert(views_of(out@).to_multiset() =~= orig.to_multiset());
    }
    out
}


/// Two sorted lists holding the same strings with the same multiplicities
/// are the same list: sorting is canonical.
pub proof fn lemma_sorted_unique(a: Seq<Seq<char>>, b: Seq<Seq<char>>)
    requires
        sorted_lex(a),
        sorted_lex(b),
        a.to_multiset() == b.to_multiset(),
    ensures
        a =~= b,
    decreases a.len(),
{
    broadcast use vstd::multiset::group_multiset_axioms;
    broadcast use vstd::seq_lib::group_to_multiset_ensures;

    a.to_multiset_ensures();
    b.to_multiset_ensures();
    if a.len() == 0 {
        assert(b.to_multiset().len() == 0);
        assert(b.len() == 0);
    } else {
        assert(a.to_multiset().len() == b.to_multiset().len());
        assert(b.len() == a.len());
        let x = a.last();
        let y = b.last();
        assert(a.to_multiset().count(x) > 0);
        assert(b.to_multiset().count(x) > 0);
        assert(b.contains(x));
        let bi = choose|bi: int| 0 <= bi < b.len() && b[bi] == x;
        assert(lex_le(b[bi], y));
        assert(a.to_multiset().count(y) > 0);
        assert(a.contains(y));
        let ai = choose|ai: int| 0 <= ai < a.len() && a[ai] == y;
        assert(lex_le(a[ai], x));
        lemma_lex_le_antisym(x, y);
        assert(x == y);
        to_multiset_remove(a, a.len() - 1);
        to_multiset_remove(b, b.len() - 1);
        assert(a.remove(a.len() - 1) =~= a.drop_last());
        assert(b.remove(b.len() - 1) =~= b.drop_last());
        assert(a.drop_last().to_multiset() == b.drop_last().to_multiset());
        assert forall|i: int, j: int| 0 <= i <= j < a.drop_last().len() implies lex_le(
            a.drop_last()[i],
            a.drop_last()[j],
        ) by {
            assert(lex_le(a[i], a[j]));
        }
        assert forall|i: int, j: int| 0 <= i <= j < b.drop_last().len() implies lex_le(
            b.drop_last()[i],
            b.drop_last()[j],
        ) by {
            assert(lex_le(b[i], b[j]));
        }
        lemma_sorted_unique(a.drop_last(), b.drop_last());
        assert(a =~= a.drop_last().push(x));
        assert(b =~= b.drop_last().push(y));
    }
}

} // verus!
