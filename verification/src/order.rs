//! Sorted sequences of strings: the sorting and the ordered sets that the
//! commands use for environment names and report lines.

use crate::text::{chars_less, chars_of, lemma_text_lt_total, lemma_text_lt_transitive, text_lt, views};
use vstd::multiset::Multiset;
use vstd::prelude::*;

verus! {

broadcast use {vstd::seq_lib::group_to_multiset_ensures, vstd::multiset::group_multiset_axioms};

/// Sorted in ascending order, duplicates allowed.
pub open spec fn sorted(s: Seq<Seq<char>>) -> bool {
    forall|i: int, j: int| 0 <= i < j < s.len() ==> !text_lt(#[trigger] s[j], #[trigger] s[i])
}

/// Sorted in strictly ascending order: an ordered set.
pub open spec fn strictly_sorted(s: Seq<Seq<char>>) -> bool {
    forall|i: int, j: int| 0 <= i < j < s.len() ==> text_lt(#[trigger] s[i], #[trigger] s[j])
}

/// `t` is `s` in ascending order.
pub open spec fn is_sorted_permutation(t: Seq<Seq<char>>, s: Seq<Seq<char>>) -> bool {
    sorted(t) && t.to_multiset() == s.to_multiset()
}

/// `t` is the ordered set of the elements of `s`.
pub open spec fn is_ordered_set_of(t: Seq<Seq<char>>, s: Seq<Seq<char>>) -> bool {
    strictly_sorted(t) && t.to_set() == s.to_set()
}

proof fn lemma_views_insert(v: Seq<String>, p: int, x: String)
    requires
        0 <= p <= v.len(),
    ensures
        views(v.insert(p, x)) == views(v).insert(p, x@),
{
    assert(views(v.insert(p, x)) =~= views(v).insert(p, x@));
}

/// Whether `a` precedes `b`.
pub fn string_less(a: &String, b: &String) -> (r: bool)
    ensures
        r == text_lt(a@, b@),
{
    let ac = chars_of(a.as_str());
    let bc = chars_of(b.as_str());
    chars_less(ac.as_slice(), bc.as_slice())
}

/// Inserts `x` into the sorted vector `v`, after the elements equal to it.
pub fn insert_sorted(v: &mut Vec<String>, x: String)
    requires
        sorted(views(old(v)@)),
    ensures
        sorted(views(final(v)@)),
        views(final(v)@).to_multiset() == views(old(v)@).to_multiset().insert(x@),
{
    let mut p: usize = 0;
    while p < v.len() && !string_less(&x, &v[p])
        invariant
            p <= v.len(),
            sorted(views(v@)),
            forall|i: int| 0 <= i < p ==> !text_lt(x@, #[trigger] views(v@)[i]),
        decreases v.len() - p,
    {
        p = p + 1;
    }
    let ghost before = views(v@);
    proof {
        lemma_views_insert(v@, p as int, x);
        assert forall|i: int, j: int| 0 <= i < j < before.len() + 1 implies !text_lt(
            #[trigger] before.insert(p as int, x@)[j],
            #[trigger] before.insert(p as int, x@)[i],
        ) by {
            let s = before.insert(p as int, x@);
            if j < p {
            } else if j == p {
                assert(s[i] == before[i]);
                assert(!text_lt(x@, before[i]));
                lemma_text_lt_total(x@, before[i]);
            } else if i < p {
                assert(s[j] == before[j - 1]);
                assert(!text_lt(x@, before[i]));
                lemma_text_lt_total(x@, before[i]);
                if p < before.len() {
                    assert(text_lt(x@, before[p as int]));
                    if j - 1 > p {
                        assert(!text_lt(before[j - 1], before[p as int]));
                        lemma_text_lt_total(before[j - 1], before[p as int]);
                    }
                    if text_lt(before[j - 1], before[i]) {
                        if before[i] == x@ {
                            lemma_text_lt_total(before[j - 1], before[p as int]);
                            if before[j - 1] != before[p as int] {
                                lemma_text_lt_transitive(x@, before[p as int], before[j - 1]);
                            }
                            lemma_text_lt_total(x@, before[j - 1]);
                        } else {
                            lemma_text_lt_transitive(before[i], x@, before[p as int]);
                            if before[j - 1] != before[p as int] {
                                lemma_text_lt_total(before[j - 1], before[p as int]);
                                lemma_text_lt_transitive(before[i], before[p as int], before[j - 1]);
                            }
                            lemma_text_lt_total(before[i], before[j - 1]);
                        }
                    }
                }
            } else if i == p {
                assert(s[i] == x@);
                assert(s[j] == before[j - 1]);
                assert(text_lt(x@, before[p as int]));
                if j - 1 > p {
                    lemma_text_lt_total(before[j - 1], before[p as int]);
                    if before[j - 1] != before[p as int] {
                        lemma_text_lt_transitive(x@, before[p as int], before[j - 1]);
                    }
                }
                lemma_text_lt_total(x@, before[j - 1]);
            } else {
                assert(s[i] == before[i - 1]);
                assert(s[j] == before[j - 1]);
            }
        }
    }
    v.insert(p, x);
}

/// The elements of `v` in ascending order.
pub fn sort_strings(v: Vec<String>) -> (r: Vec<String>)
    ensures
        is_sorted_permutation(views(r@), views(v@)),
{
    let mut r: Vec<String> = Vec::new();
    let mut rest = v;
    let ghost original = views(rest@);
    assert(views(r@).to_multiset() =~= Multiset::empty());
    while rest.len() > 0
        invariant
            sorted(views(r@)),
            views(r@).to_multiset().add(views(rest@).to_multiset()) == original.to_multiset(),
        decreases rest.len(),
    {
        let ghost before_rest = views(rest@);
        let x = rest.pop().unwrap();
        assert(views(rest@) =~= before_rest.drop_last());
        assert(before_rest =~= views(rest@).push(x@));
        insert_sorted(&mut r, x);
    }
    assert(views(rest@) =~= Seq::<Seq<char>>::empty());
    assert(views(rest@).to_multiset() =~= Multiset::empty());
    assert(views(r@).to_multiset() =~= views(r@).to_multiset().add(Multiset::empty()));
    r
}

/// Adds `x` to the ordered set `v`.
pub fn insert_unique(v: &mut Vec<String>, x: String)
    requires
        strictly_sorted(views(old(v)@)),
    ensures
        strictly_sorted(views(final(v)@)),
        views(final(v)@).to_set() == views(old(v)@).to_set().insert(x@),
{
    let mut p: usize = 0;
    while p < v.len() && string_less(&v[p], &x)
        invariant
            p <= v.len(),
            strictly_sorted(views(v@)),
            forall|i: int| 0 <= i < p ==> text_lt(#[trigger] views(v@)[i], x@),
        decreases v.len() - p,
    {
        p = p + 1;
    }
    let ghost before = views(v@);
    if p < v.len() {
        let present = {
            let a = chars_of(v[p].as_str());
            let b = chars_of(x.as_str());
            crate::text::chars_equal(a.as_slice(), b.as_slice())
        };
        if present {
            assert(before[p as int] == x@);
            assert(before.to_set().insert(x@) =~= before.to_set());
            return;
        }
    }
    proof {
        lemma_views_insert(v@, p as int, x);
        if p < before.len() {
            lemma_text_lt_total(before[p as int], x@);
        }
        let s = before.insert(p as int, x@);
        assert forall|i: int, j: int| 0 <= i < j < s.len() implies text_lt(
            #[trigger] s[i],
            #[trigger] s[j],
        ) by {
            if j < p {
            } else if j == p {
            } else if i < p {
                lemma_text_lt_transitive(before[i], x@, before[p as int]);
                if j - 1 > p {
                    lemma_text_lt_transitive(before[i], before[p as int], before[j - 1]);
                }
            } else if i == p {
                if j - 1 > p {
                    lemma_text_lt_transitive(x@, before[p as int], before[j - 1]);
                }
            } else {
            }
        }
        assert forall|t: Seq<char>| s.contains(t) <==> before.contains(t) || t == x@ by {
            if s.contains(t) {
                let k = choose|k: int| 0 <= k < s.len() && s[k] == t;
                if k < p {
                    assert(before[k] == t);
                } else if k > p {
                    assert(before[k - 1] == t);
                }
            }
            if before.contains(t) {
                let k = choose|k: int| 0 <= k < before.len() && before[k] == t;
                if k < p {
                    assert(s[k] == t);
                } else {
                    assert(s[k + 1] == t);
                }
            }
            if t == x@ {
                assert(s[p as int] == t);
            }
        }
        assert(s.to_set() =~= before.to_set().insert(x@));
    }
    v.insert(p, x);
}

/// The last element of a non-empty sorted sequence is at least every element.
proof fn lemma_sorted_last_is_greatest(a: Seq<Seq<char>>, x: Seq<char>)
    requires
        sorted(a),
        a.len() > 0,
        a.contains(x),
    ensures
        !text_lt(a.last(), x),
{
    let k = choose|k: int| 0 <= k < a.len() && a[k] == x;
    if k < a.len() - 1 {
        assert(!text_lt(a[a.len() - 1], a[k]));
    } else {
        crate::text::lemma_text_lt_irreflexive(x);
    }
}

/// A sequence has one ascending order: two sorted permutations of the same
/// elements are equal.
pub proof fn lemma_sorted_permutation_unique(a: Seq<Seq<char>>, b: Seq<Seq<char>>, s: Seq<Seq<char>>)
    requires
        is_sorted_permutation(a, s),
        is_sorted_permutation(b, s),
    ensures
        a == b,
    decreases a.len(),
{
    broadcast use vstd::seq_lib::group_seq_properties;

    assert(a.len() == a.to_multiset().len());
    assert(b.len() == b.to_multiset().len());
    if a.len() == 0 {
        assert(a =~= b);
    } else {
        let x = a.last();
        let y = b.last();
        assert(a.to_multiset().count(x) > 0);
        assert(b.to_multiset().count(x) > 0);
        assert(b.to_multiset().count(y) > 0);
        assert(a.to_multiset().count(y) > 0);
        assert(b.contains(x));
        assert(a.contains(y));
        lemma_sorted_last_is_greatest(b, x);
        lemma_sorted_last_is_greatest(a, y);
        lemma_text_lt_total(x, y);
        let a2 = a.drop_last();
        let b2 = b.drop_last();
        assert(a =~= a2.push(x));
        assert(b =~= b2.push(y));
        assert(a2.to_multiset().insert(x) == b2.to_multiset().insert(x));
        assert(a2.to_multiset() =~= b2.to_multiset()) by {
            assert forall|t: Seq<char>| a2.to_multiset().count(t) == b2.to_multiset().count(t) by {
                assert(a2.to_multiset().insert(x).count(t) == b2.to_multiset().insert(x).count(t));
            }
        }
        assert(sorted(a2));
        assert(sorted(b2));
        lemma_sorted_permutation_unique(a2, b2, a2);
        assert(a =~= b);
    }
}

/// The ordered set of the elements of `v`.
pub fn ordered_set(v: Vec<String>) -> (r: Vec<String>)
    ensures
        is_ordered_set_of(views(r@), views(v@)),
{
    let mut r: Vec<String> = Vec::new();
    let ghost original = views(v@);
    let n = v.len();
    let mut rest = v;
    assert(original.take(n as int) =~= original);
    assert(original.skip(n as int).to_set() =~= views(r@).to_set());
    while rest.len() > 0
        invariant
            strictly_sorted(views(r@)),
            rest.len() <= n,
            original.len() == n,
            views(rest@) == original.take(rest.len() as int),
            views(r@).to_set() == original.skip(rest.len() as int).to_set(),
        decreases rest.len(),
    {
        let ghost k = rest.len() as int;
        let ghost before_rest = views(rest@);
        let x = rest.pop().unwrap();
        assert(views(rest@) =~= original.take(k - 1));
        assert(before_rest[k - 1] == x@);
        assert(x@ == original[k - 1]);
        insert_unique(&mut r, x);
        assert forall|t: Seq<char>| #[trigger] original.skip(k - 1).to_set().contains(t) <==> original.skip(k).to_set().insert(original[k - 1]).contains(t) by {
            let a = original.skip(k - 1);
            let b = original.skip(k);
            if a.contains(t) {
                let m = choose|m: int| 0 <= m < a.len() && a[m] == t;
                if m > 0 {
                    assert(b[m - 1] == t);
                }
            }
            if b.contains(t) {
                let m = choose|m: int| 0 <= m < b.len() && b[m] == t;
                assert(a[m + 1] == t);
            }
            if t == original[k - 1] {
                assert(a[0] == t);
            }
        }
        assert(original.skip(k - 1).to_set() =~= original.skip(k).to_set().insert(original[k - 1]));
    }
    assert(original.skip(0) =~= original);
    r
}

} // verus!
