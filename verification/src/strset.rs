//! Sets of strings held as strictly ascending vectors, ordered as `String`
//! is ordered (lexicographically by character), which is the order in which
//! a `BTreeSet<String>` holds and yields its elements.
use vstd::prelude::*;
use crate::text::{chars_of, copy_chars, string_of, string_views, views};

verus! {

/// `String`'s `<`: lexicographic by character.
pub open spec fn str_lt(a: Seq<char>, b: Seq<char>) -> bool
    decreases a.len(),
{
    if a.len() == 0 {
        b.len() > 0
    } else if b.len() == 0 {
        false
    } else if a[0] < b[0] {
        true
    } else if a[0] > b[0] {
        false
    } else {
        str_lt(a.drop_first(), b.drop_first())
    }
}

/// `String`'s `<=`.
pub open spec fn str_le(a: Seq<char>, b: Seq<char>) -> bool {
    str_lt(a, b) || a == b
}

pub proof fn lemma_lt_irreflexive(a: Seq<char>)
    ensures
        !str_lt(a, a),
    decreases a.len(),
{
    if a.len() > 0 {
        lemma_lt_irreflexive(a.drop_first());
    }
}

pub proof fn lemma_lt_transitive(a: Seq<char>, b: Seq<char>, c: Seq<char>)
    requires
        str_lt(a, b),
        str_lt(b, c),
    ensures
        str_lt(a, c),
    decreases a.len(),
{
    if a.len() > 0 && b.len() > 0 && c.len() > 0 {
        if a[0] == b[0] && b[0] == c[0] {
            lemma_lt_transitive(a.drop_first(), b.drop_first(), c.drop_first());
        }
    }
}

pub proof fn lemma_lt_total(a: Seq<char>, b: Seq<char>)
    ensures
        str_lt(a, b) || str_lt(b, a) || a == b,
    decreases a.len(),
{
    if a.len() > 0 && b.len() > 0 {
        if a[0] == b[0] {
            lemma_lt_total(a.drop_first(), b.drop_first());
            if a.drop_first() == b.drop_first() {
                assert(a =~= seq![a[0]] + a.drop_first());
                assert(b =~= seq![b[0]] + b.drop_first());
            }
        }
    } else if a.len() == 0 && b.len() == 0 {
        assert(a =~= b);
    }
}

pub proof fn lemma_lt_asymmetric(a: Seq<char>, b: Seq<char>)
    requires
        str_lt(a, b),
    ensures
        !str_lt(b, a),
{
    if str_lt(b, a) {
        lemma_lt_transitive(a, b, a);
        lemma_lt_irreflexive(a);
    }
}

/// Every element is below every later element.
pub open spec fn sorted_strict(s: Seq<Seq<char>>) -> bool {
    forall|i: int, j: int| 0 <= i < j < s.len() ==> str_lt(s[i], s[j])
}

/// `a < b` on character sequences, as `String` compares.
pub fn str_less(a: &Vec<char>, b: &Vec<char>) -> (r: bool)
    ensures
        r == str_lt(a@, b@),
{
    let mut i: usize = 0;
    assert(a@.skip(0) =~= a@);
    assert(b@.skip(0) =~= b@);
    while i < a.len() && i < b.len()
        invariant
            i <= a.len(),
            i <= b.len(),
            str_lt(a@, b@) == str_lt(a@.skip(i as int), b@.skip(i as int)),
        decreases a.len() - i,
    {
        if a[i] < b[i] {
            return true;
        }
        if a[i] > b[i] {
            return false;
        }
        assert(a@.skip(i as int).drop_first() =~= a@.skip(i + 1));
        assert(b@.skip(i as int).drop_first() =~= b@.skip(i + 1));
        i = i + 1;
    }
    i == a.len() && i < b.len()
}

/// Whether a sorted set contains `x`.
pub fn set_contains(set: &Vec<Vec<char>>, x: &Vec<char>) -> (r: bool)
    ensures
        r == views(set@).contains(x@),
{
    let mut i: usize = 0;
    while i < set.len()
        invariant
            i <= set.len(),
            forall|k: int| 0 <= k < i ==> views(set@)[k] != x@,
        decreases set.len() - i,
    {
        if crate::text::chars_eq(&set[i], x) {
            assert(views(set@)[i as int] == x@);
            return true;
        }
        i = i + 1;
    }
    false
}

/// Inserts `x`; returns whether it was absent (`BTreeSet::insert`).
pub fn set_insert(set: &mut Vec<Vec<char>>, x: Vec<char>) -> (r: bool)
    requires
        sorted_strict(views(old(set)@)),
    ensures
        sorted_strict(views(final(set)@)),
        views(final(set)@).to_set() == views(old(set)@).to_set().insert(x@),
        r == !views(old(set)@).contains(x@),
{
    let ghost s0 = views(set@);
    let mut p: usize = 0;
    while p < set.len() && str_less(&set[p], &x)
        invariant
            p <= set.len(),
            views(set@) == s0,
            forall|k: int| 0 <= k < p ==> str_lt(s0[k], x@),
        decreases set.len() - p,
    {
        p = p + 1;
    }
    if p < set.len() && crate::text::chars_eq(&set[p], &x) {
        assert(s0[p as int] == x@);
        assert(s0.contains(x@));
        assert(s0.to_set().insert(x@) =~= s0.to_set());
        return false;
    }
    proof {
        assert forall|k: int| 0 <= k < s0.len() implies s0[k] != x@ by {
            if k < p {
                lemma_lt_irreflexive(x@);
            } else {
                if k > p {
                    // s0[p] is not below x, s0[p] != x, so x < s0[p] < s0[k]
                    lemma_lt_total(s0[p as int], x@);
                    lemma_lt_transitive(x@, s0[p as int], s0[k]);
                    lemma_lt_irreflexive(x@);
                }
            }
        }
        if p < s0.len() {
            lemma_lt_total(s0[p as int], x@);
        }
    }
    let ghost xv = x@;
    set.insert(p, x);
    proof {
        let s1 = views(set@);
        assert(s1 =~= s0.insert(p as int, xv));
        assert forall|i: int, j: int| 0 <= i < j < s1.len() implies str_lt(s1[i], s1[j]) by {
            if j < p {
            } else if j == p {
            } else if i < p {
                // s1[i] = s0[i] < x, and x < s0[p] <= s0[j-1]
                if j - 1 == p {
                    lemma_lt_transitive(s0[i], xv, s0[p as int]);
                } else {
                    lemma_lt_transitive(xv, s0[p as int], s0[j - 1]);
                    lemma_lt_transitive(s0[i], xv, s0[j - 1]);
                }
            } else if i == p {
                if j - 1 > p {
                    lemma_lt_transitive(xv, s0[p as int], s0[j - 1]);
                }
            } else {
            }
        }
        assert(s1.to_set() =~= s0.to_set().insert(xv)) by {
            assert forall|y: Seq<char>| s1.to_set().contains(y) <==> s0.to_set().insert(
                xv,
            ).contains(y) by {
                if s1.contains(y) {
                    let k = choose|k: int| 0 <= k < s1.len() && s1[k] == y;
                    if k < p {
                        assert(s0[k] == y);
                    } else if k > p {
                        assert(s0[k - 1] == y);
                    }
                }
                if s0.contains(y) {
                    let k = choose|k: int| 0 <= k < s0.len() && s0[k] == y;
                    if k < p {
                        assert(s1[k] == y);
                    } else {
                        assert(s1[k + 1] == y);
                    }
                }
                if y == xv {
                    assert(s1[p as int] == y);
                }
            }
        }
    }
    true
}

/// Removes `x` if present (`BTreeSet::remove`).
pub fn set_remove(set: &mut Vec<Vec<char>>, x: &Vec<char>)
    requires
        sorted_strict(views(old(set)@)),
    ensures
        sorted_strict(views(final(set)@)),
        views(final(set)@).to_set() == views(old(set)@).to_set().remove(x@),
{
    let ghost s0 = views(set@);
    let mut i: usize = 0;
    while i < set.len()
        invariant
            i <= set.len(),
            views(set@) == s0,
            s0 == views(old(set)@),
            sorted_strict(s0),
            forall|k: int| 0 <= k < i ==> s0[k] != x@,
        decreases set.len() - i,
    {
        if crate::text::chars_eq(&set[i], x) {
            assert(s0[i as int] == x@);
            let _ = set.remove(i);
            proof {
                let s1 = views(set@);
                assert(s1 =~= s0.remove(i as int));
                assert forall|a: int, b: int| 0 <= a < b < s1.len() implies str_lt(
                    s1[a],
                    s1[b],
                ) by {
                    if a >= i {
                        assert(s1[a] == s0[a + 1]);
                    }
                    if b >= i {
                        assert(s1[b] == s0[b + 1]);
                    }
                }
                assert forall|k: int| 0 <= k < s0.len() && k != i implies s0[k] != x@ by {
                    if k > i {
                        assert(str_lt(s0[i as int], s0[k]));
                        lemma_lt_irreflexive(x@);
                    }
                }
                assert(s1.to_set() =~= s0.to_set().remove(x@)) by {
                    assert forall|y: Seq<char>| s1.to_set().contains(y) <==> s0.to_set().remove(
                        x@,
                    ).contains(y) by {
                        if s1.contains(y) {
                            let k = choose|k: int| 0 <= k < s1.len() && s1[k] == y;
                            if k < i {
                                assert(s0[k] == y);
                            } else {
                                assert(s0[k + 1] == y);
                            }
                        }
                        if s0.contains(y) && y != x@ {
                            let k = choose|k: int| 0 <= k < s0.len() && s0[k] == y;
                            if k < i {
                                assert(s1[k] == y);
                            } else {
                                assert(k != i);
                                assert(s1[k - 1] == y);
                            }
                        }
                    }
                }
            }
            return;
        }
        i = i + 1;
    }
    assert(!s0.contains(x@));
    assert(s0.to_set().remove(x@) =~= s0.to_set());
}

/// The sorted set of the given sequences.
pub fn set_of(items: &Vec<Vec<char>>) -> (out: Vec<Vec<char>>)
    ensures
        sorted_strict(views(out@)),
        views(out@).to_set() == views(items@).to_set(),
{
    let mut out: Vec<Vec<char>> = Vec::new();
    let mut i: usize = 0;
    assert(views(out@).to_set() =~= views(items@).take(0).to_set());
    while i < items.len()
        invariant
            i <= items.len(),
            sorted_strict(views(out@)),
            views(out@).to_set() == views(items@).take(i as int).to_set(),
        decreases items.len() - i,
    {
        let x = copy_chars(&items[i]);
        let _ = set_insert(&mut out, x);
        assert(views(items@).take(i + 1) =~= views(items@).take(i as int).push(items@[i as int]@));
        proof {
            views(items@).take(i as int).lemma_push_to_set_commute(items@[i as int]@);
        }
        i = i + 1;
    }
    assert(views(items@).take(items.len() as int) =~= views(items@));
    out
}

/// Inserts every element of `items` (`Extend` on a `BTreeSet`).
pub fn set_extend(set: &mut Vec<Vec<char>>, items: &Vec<Vec<char>>)
    requires
        sorted_strict(views(old(set)@)),
    ensures
        sorted_strict(views(final(set)@)),
        views(final(set)@).to_set() == views(old(set)@).to_set().union(views(items@).to_set()),
{
    let ghost s0 = views(set@).to_set();
    let mut i: usize = 0;
    assert(s0.union(views(items@).take(0).to_set()) =~= s0);
    while i < items.len()
        invariant
            i <= items.len(),
            sorted_strict(views(set@)),
            views(set@).to_set() == s0.union(views(items@).take(i as int).to_set()),
        decreases items.len() - i,
    {
        let x = copy_chars(&items[i]);
        let _ = set_insert(set, x);
        assert(views(items@).take(i + 1) =~= views(items@).take(i as int).push(items@[i as int]@));
        proof {
            views(items@).take(i as int).lemma_push_to_set_commute(items@[i as int]@);
        }
        assert(views(set@).to_set() =~= s0.union(views(items@).take(i + 1).to_set()));
        i = i + 1;
    }
    assert(views(items@).take(items.len() as int) =~= views(items@));
}

/// Strings as character vectors.
pub fn char_vecs_of(v: &[String]) -> (out: Vec<Vec<char>>)
    ensures
        views(out@) == string_views(v@),
{
    let mut out: Vec<Vec<char>> = Vec::new();
    let mut i: usize = 0;
    while i < v.len()
        invariant
            i <= v.len(),
            views(out@) == string_views(v@).take(i as int),
        decreases v.len() - i,
    {
        let c = chars_of(v[i].as_str());
        let ghost before = views(out@);
        out.push(c);
        assert(views(out@) =~= before.push(c@));
        assert(string_views(v@)[i as int] == v@[i as int]@);
        assert(views(out@) =~= string_views(v@).take(i + 1));
        i = i + 1;
    }
    assert(string_views(v@).take(v.len() as int) =~= string_views(v@));
    out
}

/// Character vectors as strings.
pub fn strings_of(v: &Vec<Vec<char>>) -> (out: Vec<String>)
    ensures
        string_views(out@) == views(v@),
{
    let mut out: Vec<String> = Vec::new();
    let mut i: usize = 0;
    while i < v.len()
        invariant
            i <= v.len(),
            string_views(out@) == views(v@).take(i as int),
        decreases v.len() - i,
    {
        let s = string_of(&v[i]);
        let ghost before = string_views(out@);
        out.push(s);
        assert(string_views(out@) =~= before.push(s@));
        assert(views(v@)[i as int] == v@[i as int]@);
        assert(string_views(out@) =~= views(v@).take(i + 1));
        i = i + 1;
    }
    assert(views(v@).take(v.len() as int) =~= views(v@));
    out
}

} // verus!
