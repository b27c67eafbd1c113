//! Sorted sequences of names: the canonical representation shared by effect
//! sets and name-keyed maps.

use vstd::prelude::*;
use crate::text::{str_lt, lemma_str_lt_irreflexive, lemma_str_lt_asymmetric, lemma_str_lt_transitive, compare_str};

verus! {

/// The character sequences of a sequence of strings.
pub open spec fn views(v: Seq<String>) -> Seq<Seq<char>> {
    v.map_values(|s: String| s@)
}

/// Strictly increasing in the lexicographic order, hence free of duplicates.
pub open spec fn sorted(s: Seq<Seq<char>>) -> bool {
    forall|i: int, j: int| 0 <= i < j < s.len() ==> str_lt(#[trigger] s[i], #[trigger] s[j])
}

/// The one increasing listing of a finite set of names.
pub open spec fn sorted_listing(st: Set<Seq<char>>) -> Seq<Seq<char>> {
    choose|m: Seq<Seq<char>>| sorted(m) && m.to_set() == st
}

pub proof fn lemma_sorted_no_duplicates(s: Seq<Seq<char>>)
    requires
        sorted(s),
    ensures
        s.no_duplicates(),
{
    assert forall|i: int, j: int| 0 <= i < s.len() && 0 <= j < s.len() && i != j implies s[i]
        != s[j] by {
        if i < j {
            lemma_str_lt_irreflexive(s[i]);
        } else {
            lemma_str_lt_irreflexive(s[j]);
        }
    }
}

pub proof fn lemma_sorted_push(s: Seq<Seq<char>>, x: Seq<char>)
    requires
        sorted(s),
        forall|k: int| 0 <= k < s.len() ==> str_lt(#[trigger] s[k], x),
    ensures
        sorted(s.push(x)),
{
    assert forall|i: int, j: int| 0 <= i < j < s.push(x).len() implies str_lt(
        #[trigger] s.push(x)[i],
        #[trigger] s.push(x)[j],
    ) by {
        if j == s.len() {
            assert(s.push(x)[i] == s[i]);
        } else {
            assert(s.push(x)[i] == s[i]);
            assert(s.push(x)[j] == s[j]);
        }
    }
}

pub proof fn lemma_sorted_insert(s: Seq<Seq<char>>, p: int, x: Seq<char>)
    requires
        sorted(s),
        0 <= p <= s.len(),
        forall|k: int| 0 <= k < p ==> str_lt(#[trigger] s[k], x),
        p < s.len() ==> str_lt(x, s[p]),
    ensures
        sorted(s.insert(p, x)),
{
    let t = s.insert(p, x);
    assert forall|k: int| p <= k < s.len() implies str_lt(x, #[trigger] s[k]) by {
        if k > p {
            lemma_str_lt_transitive(x, s[p], s[k]);
        }
    }
    assert forall|i: int, j: int| 0 <= i < j < t.len() implies str_lt(
        #[trigger] t[i],
        #[trigger] t[j],
    ) by {
        if j < p {
            assert(t[i] == s[i] && t[j] == s[j]);
        } else if j == p {
            assert(t[i] == s[i] && t[j] == x);
        } else if i < p {
            assert(t[i] == s[i] && t[j] == s[j - 1]);
            lemma_str_lt_transitive(s[i], x, s[j - 1]);
        } else if i == p {
            assert(t[i] == x && t[j] == s[j - 1]);
        } else {
            assert(t[i] == s[i - 1] && t[j] == s[j - 1]);
        }
    }
}

pub proof fn lemma_sorted_remove(s: Seq<Seq<char>>, p: int)
    requires
        sorted(s),
        0 <= p < s.len(),
    ensures
        sorted(s.remove(p)),
{
    let t = s.remove(p);
    assert forall|i: int, j: int| 0 <= i < j < t.len() implies str_lt(
        #[trigger] t[i],
        #[trigger] t[j],
    ) by {
        let ii = if i < p { i } else { i + 1 };
        let jj = if j < p { j } else { j + 1 };
        assert(t[i] == s[ii] && t[j] == s[jj]);
    }
}

/// Two sorted sequences with the same members are the same sequence.
pub proof fn lemma_sorted_unique(a: Seq<Seq<char>>, b: Seq<Seq<char>>)
    requires
        sorted(a),
        sorted(b),
        a.to_set() == b.to_set(),
    ensures
        a == b,
    decreases a.len(),
{
    if a.len() == 0 {
        if b.len() > 0 {
            assert(b.to_set().contains(b[0]));
        }
        assert(a =~= b);
    } else if b.len() == 0 {
        assert(a.to_set().contains(a[0]));
    } else {
        // the first elements are the least members, hence equal
        assert(a.to_set().contains(a[0]));
        assert(b.to_set().contains(b[0]));
        let ia = choose|i: int| 0 <= i < a.len() && a[i] == b[0];
        let ib = choose|i: int| 0 <= i < b.len() && b[i] == a[0];
        if a[0] != b[0] {
            assert(ia > 0 && ib > 0);
            lemma_str_lt_asymmetric(a[0], a[ia]);
        }
        let a1 = a.drop_first();
        let b1 = b.drop_first();
        assert(sorted(a1));
        assert(sorted(b1));
        assert forall|x: Seq<char>| a1.to_set().contains(x) implies b1.to_set().contains(x) by {
            let i = choose|i: int| 0 <= i < a1.len() && a1[i] == x;
            assert(a[i + 1] == x);
            assert(a.to_set().contains(x));
            let j = choose|j: int| 0 <= j < b.len() && b[j] == x;
            if j == 0 {
                lemma_str_lt_irreflexive(a[0]);
            }
            assert(b1[j - 1] == x);
        }
        assert forall|x: Seq<char>| b1.to_set().contains(x) implies a1.to_set().contains(x) by {
            let i = choose|i: int| 0 <= i < b1.len() && b1[i] == x;
            assert(b[i + 1] == x);
            assert(b.to_set().contains(x));
            let j = choose|j: int| 0 <= j < a.len() && a[j] == x;
            if j == 0 {
                lemma_str_lt_irreflexive(b[0]);
            }
            assert(a1[j - 1] == x);
        }
        assert(a1.to_set() =~= b1.to_set());
        lemma_sorted_unique(a1, b1);
        assert(a =~= seq![a[0]] + a1);
        assert(b =~= seq![b[0]] + b1);
    }
}

/// The names joined with `sep` between neighbours.
pub open spec fn join_with(s: Seq<Seq<char>>, sep: Seq<char>) -> Seq<char>
    decreases s.len(),
{
    if s.len() == 0 {
        Seq::empty()
    } else if s.len() == 1 {
        s[0]
    } else {
        join_with(s.drop_last(), sep) + sep + s.last()
    }
}

/// The strings joined with `sep` between neighbours.
pub fn join_strings(v: &[String], sep: &str) -> (r: String)
    ensures
        r@ == join_with(views(v@), sep@),
{
    let mut r = String::new();
    let mut i: usize = 0;
    while i < v.len()
        invariant
            i <= v@.len(),
            r@ == join_with(views(v@).take(i as int), sep@),
        decreases v.len() - i,
    {
        if i > 0 {
            r.append(sep);
        }
        r.append(v[i].as_str());
        proof {
            let t = views(v@).take(i + 1);
            assert(t.drop_last() =~= views(v@).take(i as int));
            assert(t.last() == v@[i as int]@);
            if i == 0 {
                assert(views(v@).take(0) =~= Seq::<Seq<char>>::empty());
            }
        }
        assert(r@ =~= join_with(views(v@).take(i + 1), sep@));
        i = i + 1;
    }
    assert(views(v@).take(v@.len() as int) =~= views(v@));
    r
}

/// Copies a vector of strings.
pub fn clone_names(v: &[String]) -> (r: Vec<String>)
    ensures
        r@ == v@,
{
    let mut r: Vec<String> = Vec::new();
    let mut i: usize = 0;
    while i < v.len()
        invariant
            i <= v.len(),
            r@ =~= v@.take(i as int),
        decreases v.len() - i,
    {
        r.push(v[i].clone());
        i = i + 1;
    }
    assert(v@.take(v.len() as int) =~= v@);
    r
}

/// Finds where `x` stands or belongs in a sorted vector: the first position
/// whose name is not below `x`, and whether that name is `x`.
pub fn locate(v: &Vec<String>, x: &str) -> (r: (usize, bool))
    requires
        sorted(views(v@)),
    ensures
        r.0 <= v.len(),
        forall|k: int| 0 <= k < r.0 ==> str_lt(#[trigger] views(v@)[k], x@),
        r.0 < v.len() ==> !str_lt(views(v@)[r.0 as int], x@),
        r.1 == (r.0 < v.len() && views(v@)[r.0 as int] == x@),
        r.1 == views(v@).contains(x@),
        !r.1 && r.0 < v.len() ==> str_lt(x@, views(v@)[r.0 as int]),
{
    let ghost s = views(v@);
    let mut i: usize = 0;
    while i < v.len()
        invariant
            i <= v.len(),
            s == views(v@),
            sorted(s),
            forall|k: int| 0 <= k < i ==> str_lt(#[trigger] s[k], x@),
        decreases v.len() - i,
    {
        let c = compare_str(v[i].as_str(), x);
        if c >= 0 {
            let found = c == 0;
            proof {
                if !found {
                    lemma_str_lt_asymmetric(x@, s[i as int]);
                    assert forall|k: int| 0 <= k < s.len() implies s[k] != x@ by {
                        if k < i {
                            lemma_str_lt_irreflexive(x@);
                        } else if k > i {
                            lemma_str_lt_transitive(x@, s[i as int], s[k]);
                            lemma_str_lt_irreflexive(x@);
                        }
                    }
                } else {
                    assert(s[i as int] == x@);
                }
            }
            return (i, found);
        }
        i = i + 1;
    }
    proof {
        assert forall|k: int| 0 <= k < s.len() implies s[k] != x@ by {
            lemma_str_lt_irreflexive(x@);
        }
    }
    (i, false)
}

} // verus!
