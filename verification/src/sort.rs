//! Stable sorting, expressed as the permutation of positions that a stable
//! sort by a key applies.
use vstd::prelude::*;
use crate::strset::{
    lemma_lt_asymmetric, lemma_lt_irreflexive, lemma_lt_total, lemma_lt_transitive, str_le,
    str_less, str_lt,
};
use crate::text::views;

verus! {

/// `perm` lists each position `0..n` exactly once.
pub open spec fn is_permutation(perm: Seq<int>, n: int) -> bool {
    &&& perm.len() == n
    &&& forall|i: int| 0 <= i < perm.len() ==> 0 <= #[trigger] perm[i] < n
    &&& forall|i: int, j: int| 0 <= i < j < perm.len() ==> perm[i] != perm[j]
    &&& forall|v: int| 0 <= v < n ==> #[trigger] perm.contains(v)
}

/// `perm` is the order in which a stable sort by `keys` (ascending, as
/// `String` compares) places the positions `0..keys.len()`: keys never
/// decrease, and positions with equal keys keep their order.
pub open spec fn stable_sorted_by(keys: Seq<Seq<char>>, perm: Seq<int>) -> bool {
    &&& is_permutation(perm, keys.len() as int)
    &&& forall|i: int, j: int|
        0 <= i < j < perm.len() ==> str_le(keys[perm[i]], keys[perm[j]])
    &&& forall|i: int, j: int|
        0 <= i < j < perm.len() && keys[perm[i]] == keys[perm[j]] ==> perm[i] < perm[j]
}

/// `output` is `input` stably sorted by `keys` (one key per input element).
pub open spec fn is_stable_sort_of<T>(input: Seq<T>, keys: Seq<Seq<char>>, output: Seq<T>) -> bool {
    exists|perm: Seq<int>|
        stable_sorted_by(keys, perm) && output == perm.map_values(|i: int| input[i])
}

pub open spec fn usize_seq_as_int(s: Seq<usize>) -> Seq<int> {
    s.map_values(|x: usize| x as int)
}

proof fn lemma_le_transitive(a: Seq<char>, b: Seq<char>, c: Seq<char>)
    requires
        str_le(a, b),
        str_le(b, c),
    ensures
        str_le(a, c),
{
    if str_lt(a, b) && str_lt(b, c) {
        lemma_lt_transitive(a, b, c);
    }
}

/// The positions `0..keys.len()` in the order of a stable sort by `keys`.
pub fn stable_sort_positions(keys: &Vec<Vec<char>>) -> (out: Vec<usize>)
    ensures
        stable_sorted_by(views(keys@), usize_seq_as_int(out@)),
{
    let ghost ks = views(keys@);
    let mut out: Vec<usize> = Vec::new();
    let mut k: usize = 0;
    while k < keys.len()
        invariant
            k <= keys.len(),
            ks == views(keys@),
            out.len() == k,
            forall|i: int| 0 <= i < out.len() ==> (#[trigger] out@[i]) < k,
            forall|i: int, j: int| 0 <= i < j < out.len() ==> out@[i] != out@[j],
            forall|v: usize| v < k ==> #[trigger] out@.contains(v),
            forall|i: int, j: int|
                0 <= i < j < out.len() ==> str_le(ks[out@[i] as int], ks[out@[j] as int]),
            forall|i: int, j: int|
                0 <= i < j < out.len() && ks[out@[i] as int] == ks[out@[j] as int] ==> out@[i]
                    < out@[j],
        decreases keys.len() - k,
    {
        let mut p: usize = out.len();
        while p > 0 && str_less(&keys[k], &keys[out[p - 1]])
            invariant
                p <= out.len(),
                k < keys.len(),
                ks == views(keys@),
                forall|i: int| 0 <= i < out.len() ==> (#[trigger] out@[i]) < k,
                forall|q: int| p <= q < out.len() ==> str_lt(ks[k as int], ks[out@[q] as int]),
            decreases p,
        {
            p = p - 1;
        }
        let ghost o0 = out@;
        proof {
            if p > 0 {
                lemma_lt_total(ks[k as int], ks[o0[p - 1] as int]);
                assert(str_le(ks[o0[p - 1] as int], ks[k as int]));
                assert forall|q: int| 0 <= q < p implies str_le(
                    ks[o0[q] as int],
                    ks[k as int],
                ) by {
                    if q < p - 1 {
                        lemma_le_transitive(
                            ks[o0[q] as int],
                            ks[o0[p - 1] as int],
                            ks[k as int],
                        );
                    }
                }
            }
        }
        out.insert(p, k);
        proof {
            let o1 = out@;
            assert(o1 =~= o0.insert(p as int, k));
            assert forall|i: int, j: int| 0 <= i < j < o1.len() implies str_le(
                ks[o1[i] as int],
                ks[o1[j] as int],
            ) by {
                if j < p {
                } else if j == p {
                } else if i < p {
                    assert(o1[j] == o0[j - 1]);
                    lemma_le_transitive(ks[o0[i] as int], ks[k as int], ks[o0[j - 1] as int]);
                } else if i == p {
                    assert(o1[j] == o0[j - 1]);
                } else {
                    assert(o1[i] == o0[i - 1]);
                    assert(o1[j] == o0[j - 1]);
                }
            }
            assert forall|i: int, j: int|
                0 <= i < j < o1.len() && ks[o1[i] as int] == ks[o1[j] as int] implies o1[i]
                < o1[j] by {
                if j < p {
                } else if j == p {
                } else if i < p {
                    assert(o1[j] == o0[j - 1]);
                } else if i == p {
                    assert(o1[j] == o0[j - 1]);
                    lemma_lt_irreflexive(ks[k as int]);
                } else {
                    assert(o1[i] == o0[i - 1]);
                    assert(o1[j] == o0[j - 1]);
                }
            }
            assert forall|i: int, j: int| 0 <= i < j < o1.len() implies o1[i] != o1[j] by {
                if j < p {
                } else if j == p {
                } else if i < p {
                    assert(o1[j] == o0[j - 1]);
                } else if i == p {
                    assert(o1[j] == o0[j - 1]);
                } else {
                    assert(o1[i] == o0[i - 1]);
                    assert(o1[j] == o0[j - 1]);
                }
            }
            assert forall|i: int| 0 <= i < o1.len() implies (#[trigger] o1[i]) < k + 1 by {
                if i < p {
                } else if i > p {
                    assert(o1[i] == o0[i - 1]);
                }
            }
            assert forall|v: usize| v < k + 1 implies #[trigger] o1.contains(v) by {
                if v == k {
                    assert(o1[p as int] == v);
                } else {
                    assert(o0.contains(v));
                    let i = choose|i: int| 0 <= i < o0.len() && o0[i] == v;
                    if i < p {
                        assert(o1[i] == v);
                    } else {
                        assert(o1[i + 1] == v);
                    }
                }
            }
        }
        k = k + 1;
    }
    proof {
        let perm = usize_seq_as_int(out@);
        assert forall|i: int| 0 <= i < perm.len() implies 0 <= #[trigger] perm[i] < ks.len() by {
            assert(perm[i] == out@[i] as int);
        }
        assert forall|v: int| 0 <= v < ks.len() implies #[trigger] perm.contains(v) by {
            assert(out@.contains(v as usize));
            let i = choose|i: int| 0 <= i < out@.len() && out@[i] == v as usize;
            assert(perm[i] == v);
        }
    }
    out
}

/// `perm` is the order in which a stable sort by integer `keys`, largest
/// first, places the positions `0..keys.len()`: keys never increase, and
/// positions with equal keys keep their order.
pub open spec fn stable_sorted_desc(keys: Seq<i64>, perm: Seq<int>) -> bool {
    &&& is_permutation(perm, keys.len() as int)
    &&& forall|i: int, j: int| 0 <= i < j < perm.len() ==> keys[perm[i]] >= keys[perm[j]]
    &&& forall|i: int, j: int|
        0 <= i < j < perm.len() && keys[perm[i]] == keys[perm[j]] ==> perm[i] < perm[j]
}

/// The positions `0..keys.len()` in the order of a stable sort by `keys`,
/// largest first.
pub fn stable_sort_desc_positions(keys: &Vec<i64>) -> (out: Vec<usize>)
    ensures
        stable_sorted_desc(keys@, usize_seq_as_int(out@)),
{
    let ghost ks = keys@;
    let mut out: Vec<usize> = Vec::new();
    let mut k: usize = 0;
    while k < keys.len()
        invariant
            k <= keys.len(),
            ks == keys@,
            out.len() == k,
            forall|i: int| 0 <= i < out.len() ==> (#[trigger] out@[i]) < k,
            forall|i: int, j: int| 0 <= i < j < out.len() ==> out@[i] != out@[j],
            forall|v: usize| v < k ==> #[trigger] out@.contains(v),
            forall|i: int, j: int| 0 <= i < j < out.len() ==> ks[out@[i] as int] >= ks[out@[j] as int],
            forall|i: int, j: int|
                0 <= i < j < out.len() && ks[out@[i] as int] == ks[out@[j] as int] ==> out@[i]
                    < out@[j],
        decreases keys.len() - k,
    {
        let mut p: usize = out.len();
        while p > 0 && keys[k] > keys[out[p - 1]]
            invariant
                p <= out.len(),
                k < keys.len(),
                ks == keys@,
                forall|i: int| 0 <= i < out.len() ==> (#[trigger] out@[i]) < k,
                forall|q: int| p <= q < out.len() ==> ks[k as int] > ks[out@[q] as int],
            decreases p,
        {
            p = p - 1;
        }
        let ghost o0 = out@;
        out.insert(p, k);
        proof {
            let o1 = out@;
            assert(o1 =~= o0.insert(p as int, k));
            assert forall|i: int, j: int| 0 <= i < j < o1.len() implies ks[o1[i] as int] >= ks[o1[j] as int] by {
                if j < p {
                } else if j == p {
                    if i < p - 1 {
                        assert(ks[o0[i] as int] >= ks[o0[p - 1] as int]);
                    }
                } else if i < p {
                    assert(o1[j] == o0[j - 1]);
                } else if i == p {
                    assert(o1[j] == o0[j - 1]);
                } else {
                    assert(o1[i] == o0[i - 1]);
                    assert(o1[j] == o0[j - 1]);
                }
            }
            assert forall|i: int, j: int|
                0 <= i < j < o1.len() && ks[o1[i] as int] == ks[o1[j] as int] implies o1[i]
                < o1[j] by {
                if j < p {
                } else if j == p {
                } else if i < p {
                    assert(o1[j] == o0[j - 1]);
                } else if i == p {
                    assert(o1[j] == o0[j - 1]);
                } else {
                    assert(o1[i] == o0[i - 1]);
                    assert(o1[j] == o0[j - 1]);
                }
            }
            assert forall|i: int, j: int| 0 <= i < j < o1.len() implies o1[i] != o1[j] by {
                if j < p {
                } else if j == p {
                } else if i < p {
                    assert(o1[j] == o0[j - 1]);
                } else if i == p {
                    assert(o1[j] == o0[j - 1]);
                } else {
                    assert(o1[i] == o0[i - 1]);
                    assert(o1[j] == o0[j - 1]);
                }
            }
            assert forall|i: int| 0 <= i < o1.len() implies (#[trigger] o1[i]) < k + 1 by {
                if i < p {
                } else if i > p {
                    assert(o1[i] == o0[i - 1]);
                }
            }
            assert forall|v: usize| v < k + 1 implies #[trigger] o1.contains(v) by {
                if v == k {
                    assert(o1[p as int] == v);
                } else {
                    assert(o0.contains(v));
                    let i = choose|i: int| 0 <= i < o0.len() && o0[i] == v;
                    if i < p {
                        assert(o1[i] == v);
                    } else {
                        assert(o1[i + 1] == v);
                    }
                }
            }
        }
        k = k + 1;
    }
    proof {
        let perm = usize_seq_as_int(out@);
        assert forall|i: int| 0 <= i < perm.len() implies 0 <= #[trigger] perm[i] < ks.len() by {
            assert(perm[i] == out@[i] as int);
        }
        assert forall|v: int| 0 <= v < ks.len() implies #[trigger] perm.contains(v) by {
            assert(out@.contains(v as usize));
            let i = choose|i: int| 0 <= i < out@.len() && out@[i] == v as usize;
            assert(perm[i] == v);
        }
    }
    out
}

/// Keys in both orders are equal.
proof fn lemma_le_antisymmetric(a: Seq<char>, b: Seq<char>)
    requires
        str_le(a, b),
        str_le(b, a),
    ensures
        a == b,
{
    if str_lt(a, b) {
        lemma_lt_asymmetric(a, b);
    }
}

/// There is one stable sorted order of positions for given keys.
pub proof fn lemma_stable_sorted_unique(keys: Seq<Seq<char>>, p1: Seq<int>, p2: Seq<int>)
    requires
        stable_sorted_by(keys, p1),
        stable_sorted_by(keys, p2),
    ensures
        p1 == p2,
{
    let n = keys.len() as int;
    assert forall|m: int| 0 <= m < n implies p1[m] == p2[m] by {
        lemma_stable_sorted_prefix(keys, p1, p2, m);
    }
    assert(p1 =~= p2);
}

proof fn lemma_stable_sorted_prefix(keys: Seq<Seq<char>>, p1: Seq<int>, p2: Seq<int>, m: int)
    requires
        stable_sorted_by(keys, p1),
        stable_sorted_by(keys, p2),
        0 <= m < keys.len(),
    ensures
        p1[m] == p2[m],
    decreases m,
{
    assert forall|i: int| 0 <= i < m implies p1[i] == p2[i] by {
        lemma_stable_sorted_prefix(keys, p1, p2, i);
    }
    let a = p1[m];
    let b = p2[m];
    if a != b {
        assert(p1.contains(b));
        let j = choose|j: int| 0 <= j < p1.len() && p1[j] == b;
        if j < m {
            assert(p2[j] == b);
        }
        assert(j > m);
        assert(p2.contains(a));
        let j2 = choose|j: int| 0 <= j < p2.len() && p2[j] == a;
        if j2 < m {
            assert(p1[j2] == a);
        }
        assert(j2 > m);
        assert(str_le(keys[a], keys[b]));
        assert(str_le(keys[b], keys[a]));
        lemma_le_antisymmetric(keys[a], keys[b]);
        assert(a < b);
        assert(b < a);
    }
}

/// A stable sort of `input` by `keys` has one result.
pub proof fn lemma_stable_sort_unique<T>(input: Seq<T>, keys: Seq<Seq<char>>, o1: Seq<T>, o2: Seq<T>)
    requires
        is_stable_sort_of(input, keys, o1),
        is_stable_sort_of(input, keys, o2),
    ensures
        o1 == o2,
{
    let q1 = choose|perm: Seq<int>|
        stable_sorted_by(keys, perm) && o1 == perm.map_values(|i: int| input[i]);
    let q2 = choose|perm: Seq<int>|
        stable_sorted_by(keys, perm) && o2 == perm.map_values(|i: int| input[i]);
    lemma_stable_sorted_unique(keys, q1, q2);
}

/// Where a stable insertion places position `k` among the sorted `o[..p]`:
/// after every position whose key is not greater than that of `k`.
spec fn insert_point(ks: Seq<Seq<char>>, o: Seq<int>, k: int, p: int) -> int
    decreases p,
{
    if p > 0 && str_lt(ks[k], ks[o[p - 1]]) {
        insert_point(ks, o, k, p - 1)
    } else {
        p
    }
}

proof fn lemma_insert_point(ks: Seq<Seq<char>>, o: Seq<int>, k: int, p: int)
    requires
        0 <= p <= o.len(),
        0 <= k < ks.len(),
        forall|i: int| 0 <= i < o.len() ==> 0 <= #[trigger] o[i] < ks.len(),
    ensures
        0 <= insert_point(ks, o, k, p) <= p,
        forall|t: int| insert_point(ks, o, k, p) <= t < p ==> str_lt(ks[k], ks[#[trigger] o[t]]),
        insert_point(ks, o, k, p) > 0 ==> !str_lt(ks[k], ks[o[insert_point(ks, o, k, p) - 1]]),
    decreases p,
{
    if p > 0 && str_lt(ks[k], ks[o[p - 1]]) {
        lemma_insert_point(ks, o, k, p - 1);
    }
}

/// The positions `0..k` stably sorted by `ks`.
spec fn sorted_prefix_ok(ks: Seq<Seq<char>>, k: int, o: Seq<int>) -> bool {
    &&& o.len() == k
    &&& forall|i: int| 0 <= i < o.len() ==> 0 <= #[trigger] o[i] < k
    &&& forall|i: int, j: int| 0 <= i < j < o.len() ==> o[i] != o[j]
    &&& forall|v: int| 0 <= v < k ==> #[trigger] o.contains(v)
    &&& forall|i: int, j: int| 0 <= i < j < o.len() ==> str_le(ks[o[i]], ks[o[j]])
    &&& forall|i: int, j: int| 0 <= i < j < o.len() && ks[o[i]] == ks[o[j]] ==> o[i] < o[j]
}

proof fn lemma_sorted_prefix(ks: Seq<Seq<char>>, k: int) -> (o: Seq<int>)
    requires
        0 <= k <= ks.len(),
    ensures
        sorted_prefix_ok(ks, k, o),
    decreases k,
{
    if k == 0 {
        Seq::empty()
    } else {
        let o0 = lemma_sorted_prefix(ks, k - 1);
        let n = k - 1;
        lemma_insert_point(ks, o0, n, o0.len() as int);
        let p = insert_point(ks, o0, n, o0.len() as int);
        if p > 0 {
            lemma_lt_total(ks[n], ks[o0[p - 1]]);
            assert(str_le(ks[o0[p - 1]], ks[n]));
            assert forall|q: int| 0 <= q < p implies str_le(ks[o0[q]], ks[n]) by {
                if q < p - 1 {
                    lemma_le_transitive(ks[o0[q]], ks[o0[p - 1]], ks[n]);
                }
            }
        }
        let o1 = o0.insert(p, n);
        assert forall|i: int, j: int| 0 <= i < j < o1.len() implies str_le(ks[o1[i]], ks[o1[j]]) by {
            if j < p {
            } else if j == p {
            } else if i < p {
                assert(o1[j] == o0[j - 1]);
                lemma_le_transitive(ks[o0[i]], ks[n], ks[o0[j - 1]]);
            } else if i == p {
                assert(o1[j] == o0[j - 1]);
            } else {
                assert(o1[i] == o0[i - 1]);
                assert(o1[j] == o0[j - 1]);
            }
        }
        assert forall|i: int, j: int| 0 <= i < j < o1.len() && ks[o1[i]] == ks[o1[j]] implies o1[i] < o1[j] by {
            if j < p {
            } else if j == p {
            } else if i < p {
                assert(o1[j] == o0[j - 1]);
            } else if i == p {
                assert(o1[j] == o0[j - 1]);
                lemma_lt_irreflexive(ks[n]);
            } else {
                assert(o1[i] == o0[i - 1]);
                assert(o1[j] == o0[j - 1]);
            }
        }
        assert forall|i: int, j: int| 0 <= i < j < o1.len() implies o1[i] != o1[j] by {
            if j < p {
            } else if j == p {
            } else if i < p {
                assert(o1[j] == o0[j - 1]);
            } else if i == p {
                assert(o1[j] == o0[j - 1]);
            } else {
                assert(o1[i] == o0[i - 1]);
                assert(o1[j] == o0[j - 1]);
            }
        }
        assert forall|i: int| 0 <= i < o1.len() implies 0 <= #[trigger] o1[i] < k by {
            if i < p {
            } else if i > p {
                assert(o1[i] == o0[i - 1]);
            }
        }
        assert forall|v: int| 0 <= v < k implies #[trigger] o1.contains(v) by {
            if v == n {
                assert(o1[p] == v);
            } else {
                assert(o0.contains(v));
                let i = choose|i: int| 0 <= i < o0.len() && o0[i] == v;
                if i < p {
                    assert(o1[i] == v);
                } else {
                    assert(o1[i + 1] == v);
                }
            }
        }
        o1
    }
}

/// Any keys have a stable sorted order of their positions.
pub proof fn lemma_stable_sort_exists(keys: Seq<Seq<char>>)
    ensures
        exists|perm: Seq<int>| stable_sorted_by(keys, perm),
{
    let o = lemma_sorted_prefix(keys, keys.len() as int);
    assert(stable_sorted_by(keys, o));
}

/// The stable sort of `input` by one key per element is a stable sort of it.
pub proof fn lemma_stable_sort_spec_sorts<T>(input: Seq<T>, keys: Seq<Seq<char>>)
    requires
        keys.len() == input.len(),
    ensures
        is_stable_sort_of(input, keys, stable_sort_spec(input, keys)),
{
    lemma_stable_sort_exists(keys);
    let perm = choose|perm: Seq<int>| stable_sorted_by(keys, perm);
    let o = perm.map_values(|i: int| input[i]);
    assert(is_stable_sort_of(input, keys, o));
}

/// The stable sort of `input` by `keys`.
pub open spec fn stable_sort_spec<T>(input: Seq<T>, keys: Seq<Seq<char>>) -> Seq<T> {
    choose|o: Seq<T>| is_stable_sort_of(input, keys, o)
}

/// Any stable sort is the stable sort.
pub proof fn lemma_is_stable_sort_spec<T>(input: Seq<T>, keys: Seq<Seq<char>>, o: Seq<T>)
    requires
        is_stable_sort_of(input, keys, o),
    ensures
        o == stable_sort_spec(input, keys),
{
    lemma_stable_sort_unique(input, keys, o, stable_sort_spec(input, keys));
}

} // verus!

verus! {

/// One step of building `s.filter(pred)` from left to right.
pub proof fn lemma_filter_take_step<A>(s: Seq<A>, pred: spec_fn(A) -> bool, i: int)
    requires
        0 <= i < s.len(),
    ensures
        s.take(i + 1).filter(pred) == if pred(s[i]) {
            s.take(i).filter(pred).push(s[i])
        } else {
            s.take(i).filter(pred)
        },
{
    reveal(Seq::filter);
    assert(s.take(i + 1).drop_last() =~= s.take(i));
    assert(s.take(i + 1).last() == s[i]);
}

} // verus!
