//! The centroid ranker's ordering core.
//!
//! A latent vector is compared against every centroid through a per-centroid
//! *distance key*: a `u32` whose unsigned order agrees with the order of the
//! underlying root-mean-square distances (for non-negative IEEE 754 single
//! precision values, the raw bit pattern is such an encoding; the caller that
//! evaluates the metric supplies the keys). Ranking is therefore a pure,
//! fully verified computation over integer keys: all centroid indices, sorted
//! by ascending key, ties resolved toward the smaller index.

use vstd::prelude::*;

verus! {

/// Centroid `a` ranks strictly before centroid `b`: its key is smaller, or
/// the keys are equal and `a` is the smaller index.
pub open spec fn ranks_before(keys: Seq<u32>, a: int, b: int) -> bool {
    keys[a] < keys[b] || (keys[a] == keys[b] && a < b)
}

/// `out` is the full ranking for `keys`: one position per centroid index,
/// every index present, positions ordered by ascending key with ties broken
/// toward the smaller index.
pub open spec fn valid_ranking(keys: Seq<u32>, out: Seq<usize>) -> bool {
    &&& out.len() == keys.len()
    &&& (forall|p: int| 0 <= p < out.len() ==> (#[trigger] out[p]) < keys.len())
    &&& (forall|p: int, q: int|
        0 <= p < q < out.len() ==> ranks_before(keys, out[p] as int, out[q] as int))
    &&& (forall|v: int| 0 <= v < keys.len() ==> out.contains(#[trigger] (v as usize)))
}

/// Rank all centroid indices `0..keys.len()` by ascending key, ties toward
/// the smaller index. This is the full ranking, not a top-1 pick.
#[verifier::loop_isolation(false)]
pub fn rank_by_keys(keys: &Vec<u32>) -> (out: Vec<usize>)
    ensures
        valid_ranking(keys@, out@),
{
    let k = keys.len();
    let mut out: Vec<usize> = Vec::new();
    let mut c: usize = 0;
    while c < k
        invariant
            c <= k,
            out@.len() == c,
            forall|p: int| 0 <= p < c ==> (#[trigger] out@[p]) < c,
            forall|p: int, q: int|
                0 <= p < q < c ==> ranks_before(keys@, out@[p] as int, out@[q] as int),
            forall|v: int| 0 <= v < c ==> out@.contains(#[trigger] (v as usize)),
        decreases k - c,
    {
        let mut p: usize = 0;
        while p < c && keys[out[p]] <= keys[c]
            invariant
                p <= c,
                forall|q: int| 0 <= q < p ==> keys@[#[trigger] out@[q] as int] <= keys@[c as int],
            decreases c - p,
        {
            p = p + 1;
        }
        let ghost prev = out@;
        out.insert(p, c);
        proof {
            assert forall|v: int| 0 <= v < c + 1 implies out@.contains(#[trigger] (v as usize)) by {
                if v == c {
                    assert(out@[p as int] == c as usize);
                } else {
                    let q = choose|q: int| 0 <= q < prev.len() && prev[q] == v as usize;
                    if q < p {
                        assert(out@[q] == v as usize);
                    } else {
                        assert(out@[q + 1] == v as usize);
                    }
                }
            }
            assert forall|i: int, j: int|
                0 <= i < j < c + 1 implies ranks_before(keys@, out@[i] as int, out@[j] as int) by {
                if j < p {
                    assert(out@[i] == prev[i] && out@[j] == prev[j]);
                } else if i < p && j == p {
                    assert(out@[i] == prev[i]);
                    assert(keys@[prev[i] as int] <= keys@[c as int]);
                    assert(prev[i] < c as usize);
                } else if i < p && j > p {
                    assert(out@[i] == prev[i] && out@[j] == prev[j - 1]);
                } else if i == p {
                    assert(out@[j] == prev[j - 1]);
                    assert(p < c);
                    assert(keys@[prev[p as int] as int] > keys@[c as int]);
                    if j - 1 > p {
                        assert(ranks_before(keys@, prev[p as int] as int, prev[j - 1] as int));
                    }
                } else {
                    assert(out@[i] == prev[i - 1] && out@[j] == prev[j - 1]);
                }
            }
        }
        c = c + 1;
    }
    out
}

/// Completeness of ranking: the output is a permutation of the centroid
/// indices `0..K`: it has length K, holds every index, and repeats none.
pub proof fn lemma_ranking_permutation(keys: Seq<u32>, out: Seq<usize>)
    requires
        valid_ranking(keys, out),
    ensures
        out.len() == keys.len(),
        forall|v: int| 0 <= v < keys.len() ==> out.contains(#[trigger] (v as usize)),
        forall|p: int, q: int| 0 <= p < q < out.len() ==> out[p] != out[q],
{
    assert forall|p: int, q: int| 0 <= p < q < out.len() implies out[p] != out[q] by {
        assert(ranks_before(keys, out[p] as int, out[q] as int));
    }
}

/// Correct ordering: whenever index `i` is placed before index `j`, the
/// distance key of `i` is no larger than that of `j`, and an equal key
/// resolves with the smaller index first.
pub proof fn lemma_ranking_ordered(keys: Seq<u32>, out: Seq<usize>)
    requires
        valid_ranking(keys, out),
    ensures
        forall|p: int, q: int|
            0 <= p < q < out.len() ==> keys[out[p] as int] <= keys[out[q] as int],
        forall|p: int, q: int|
            0 <= p < q < out.len() && keys[out[p] as int] == keys[out[q] as int] ==> out[p]
                < out[q],
{
    assert forall|p: int, q: int|
        0 <= p < q < out.len() implies keys[out[p] as int] <= keys[out[q] as int] by {
        assert(ranks_before(keys, out[p] as int, out[q] as int));
    }
    assert forall|p: int, q: int|
        0 <= p < q < out.len() && keys[out[p] as int] == keys[out[q] as int] implies out[p]
        < out[q] by {
        assert(ranks_before(keys, out[p] as int, out[q] as int));
    }
}

/// Determinism of ranking: the ranking of a key table is unique, so repeated
/// ranking of the same latent vector against the same centroid table returns
/// the identical index sequence.
pub proof fn lemma_ranking_deterministic(keys: Seq<u32>, r1: Seq<usize>, r2: Seq<usize>)
    requires
        valid_ranking(keys, r1),
        valid_ranking(keys, r2),
    ensures
        r1 == r2,
{
    lemma_prefix_agrees(keys, r1, r2, r1.len() as int);
    assert(r1 =~= r2);
}

/// Two valid rankings of the same keys agree on their first `p` positions.
proof fn lemma_prefix_agrees(keys: Seq<u32>, r1: Seq<usize>, r2: Seq<usize>, p: int)
    requires
        valid_ranking(keys, r1),
        valid_ranking(keys, r2),
        0 <= p <= r1.len(),
    ensures
        forall|i: int| 0 <= i < p ==> r1[i] == r2[i],
    decreases p,
{
    if p > 0 {
        lemma_prefix_agrees(keys, r1, r2, p - 1);
        let a = r1[p - 1];
        let b = r2[p - 1];
        if a != b {
            // `a` occurs in r2 at some position q2; it cannot sit in the
            // agreed prefix (r1's entries are pairwise distinct), nor at
            // p - 1 (that is `b`), so it sits after, and r2's order puts
            // `b` strictly before `a`. Symmetrically `a` ranks strictly
            // before `b`, a contradiction.
            let ai = a as int;
            let bi = b as int;
            assert(0 <= ai < keys.len() && 0 <= bi < keys.len());
            assert(r2.contains(ai as usize) && (ai as usize) == a);
            assert(r1.contains(bi as usize) && (bi as usize) == b);
            assert(r2.contains(a));
            assert(r1.contains(b));
            let q2 = choose|q: int| 0 <= q < r2.len() && r2[q] == a;
            let q1 = choose|q: int| 0 <= q < r1.len() && r1[q] == b;
            if q2 < p - 1 {
                assert(r1[q2] == r2[q2]);
                assert(ranks_before(keys, r1[q2] as int, r1[p - 1] as int));
                assert(false);
            }
            assert(ranks_before(keys, b as int, a as int));
            if q1 < p - 1 {
                assert(r1[q1] == r2[q1]);
                assert(ranks_before(keys, r2[q1] as int, r2[p - 1] as int));
                assert(false);
            }
            assert(ranks_before(keys, a as int, b as int));
            assert(false);
        }
    }
}

} // verus!
