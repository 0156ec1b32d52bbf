//! Scoring of communities around a vertex. The score of community `c` at
//! vertex `v` is `occ / size`, where `occ` counts how often `c` appears on
//! `v` itself or on a neighbour, and `size` is the community's current
//! membership count, so each occurrence contributes the density `1 / size`.
//! Scores are exact rationals compared by cross-multiplication.

use vstd::prelude::*;
use vstd::arithmetic::mul::lemma_mul_upper_bound;
use crate::graph::AdjGraph;
use crate::counting::label_count;
use crate::counting::labels_ok;
use crate::counting::lemma_label_count_below_at;

verus! {

/// Occurrences of label `c` among the first `i` neighbour entries of `nbrs`.
pub open spec fn occ_below(a: Seq<Option<usize>>, nbrs: Seq<usize>, c: usize, i: int) -> nat
    decreases i,
{
    if i <= 0 {
        0
    } else {
        occ_below(a, nbrs, c, i - 1) + (if a[nbrs[i - 1] as int] == Some(c) {
            1nat
        } else {
            0nat
        })
    }
}

/// How often community `c`'s density enters the score of vertex `v`: once if
/// `v` itself carries `c`, and once per neighbour of `v` that carries `c`.
pub open spec fn occ_at(g: AdjGraph, a: Seq<Option<usize>>, v: int, c: usize) -> nat {
    (if a[v] == Some(c) {
        1nat
    } else {
        0nat
    }) + occ_below(a, g.nbrs(v), c, g.nbrs(v).len() as int)
}

/// Community `c` receives a score at `v` when some contributor carries it.
pub open spec fn scored(g: AdjGraph, a: Seq<Option<usize>>, v: int, c: usize) -> bool {
    occ_at(g, a, v, c) > 0
}

/// The score `oc / sc` lies less than THRESHOLD = 1/10000 below the score
/// `oo / so`:  oo/so - oc/sc < 1/10000, by cross-multiplication.
pub open spec fn near_top(oc: int, sc: int, oo: int, so: int) -> bool {
    10000 * (oo * sc - oc * so) < so * sc
}

/// `c` lies in the best-communities set of `v`: it is scored, and its score
/// is within the threshold of every scored community's score.
pub open spec fn best_at(g: AdjGraph, a: Seq<Option<usize>>, v: int, c: usize) -> bool {
    &&& scored(g, a, v, c)
    &&& forall|o: usize|
        #[trigger] scored(g, a, v, o) ==> near_top(
            occ_at(g, a, v, c) as int,
            label_count(a, c) as int,
            occ_at(g, a, v, o) as int,
            label_count(a, o) as int,
        )
}

/// Vertex `v` needs no move: either nothing around it is scored, or its own
/// community lies in the best-communities set.
pub open spec fn stable_at(g: AdjGraph, a: Seq<Option<usize>>, v: int) -> bool {
    ||| forall|c: usize| !(#[trigger] scored(g, a, v, c))
    ||| (a[v] matches Some(cv) && best_at(g, a, v, cv))
}

/// No vertex needs a move: one further pass changes nothing.
pub open spec fn stable(g: AdjGraph, a: Seq<Option<usize>>) -> bool {
    forall|v: int| 0 <= v < a.len() ==> #[trigger] stable_at(g, a, v)
}

/// A positive neighbour occurrence names a concrete carrying neighbour.
pub proof fn lemma_occ_below_pos(a: Seq<Option<usize>>, nbrs: Seq<usize>, c: usize, i: int)
    requires
        occ_below(a, nbrs, c, i) > 0,
        i <= nbrs.len(),
    ensures
        exists|j: int| 0 <= j < i && a[nbrs[j] as int] == Some(c),
    decreases i,
{
    if i > 0 {
        if a[nbrs[i - 1] as int] == Some(c) {
            assert(0 <= i - 1 < i && a[nbrs[i - 1] as int] == Some(c));
        } else {
            lemma_occ_below_pos(a, nbrs, c, i - 1);
        }
    }
}

/// A scored community is a real one: its label lies below `k` and it has at
/// least one member, so its density `1 / size` is well defined.
pub proof fn lemma_scored_bounds(g: AdjGraph, a: Seq<Option<usize>>, k: usize, v: int, c: usize)
    requires
        g.wf(),
        a.len() == g.vertex_count(),
        labels_ok(a, k),
        0 <= v < a.len(),
        scored(g, a, v, c),
    ensures
        c < k,
        1 <= label_count(a, c) <= a.len(),
{
    crate::counting::lemma_label_count_below_le(a, c, a.len() as int);
    if a[v] == Some(c) {
        lemma_label_count_below_at(a, c, v, a.len() as int);
    } else {
        lemma_occ_below_pos(a, g.nbrs(v), c, g.nbrs(v).len() as int);
        let j = choose|j: int| 0 <= j < g.nbrs(v).len() && a[g.nbrs(v)[j] as int] == Some(c);
        lemma_label_count_below_at(a, c, g.nbrs(v)[j] as int, a.len() as int);
    }
}

/// Being within the threshold of the maximum implies being within the
/// threshold of every score the maximum dominates.
pub proof fn lemma_near_top_mono(oc: int, sc: int, oo: int, so: int, om: int, sm: int)
    requires
        sc >= 1,
        so >= 1,
        sm >= 1,
        oo * sm <= om * so,
        near_top(oc, sc, om, sm),
    ensures
        near_top(oc, sc, oo, so),
{
    assert(10000 * (oo * sc - oc * so) < so * sc) by (nonlinear_arith)
        requires
            sc >= 1,
            so >= 1,
            sm >= 1,
            oo * sm <= om * so,
            10000 * (om * sc - oc * sm) < sm * sc,
    {
        assert(10000 * (oo * sc) * sm <= 10000 * (om * sc) * so);
        assert((10000 * (om * sc - oc * sm)) * so < (sm * sc) * so);
    }
}

/// Domination of scores, `o1/s1 <= o2/s2` by cross-multiplication, is
/// transitive.
pub proof fn lemma_score_le_trans(o1: int, s1: int, o2: int, s2: int, o3: int, s3: int)
    requires
        s1 >= 1,
        s2 >= 1,
        s3 >= 1,
        o1 * s2 <= o2 * s1,
        o2 * s3 <= o3 * s2,
    ensures
        o1 * s3 <= o3 * s1,
{
    assert(o1 * s3 <= o3 * s1) by (nonlinear_arith)
        requires
            s1 >= 1,
            s2 >= 1,
            s3 >= 1,
            o1 * s2 <= o2 * s1,
            o2 * s3 <= o3 * s2,
    {
        assert((o1 * s2) * s3 <= (o2 * s1) * s3);
        assert((o2 * s3) * s1 <= (o3 * s2) * s1);
    }
}

/// Every score is within the threshold of itself.
pub proof fn lemma_near_top_self(oc: int, sc: int)
    requires
        sc >= 1,
    ensures
        near_top(oc, sc, oc, sc),
{
    assert(10000 * (oc * sc - oc * sc) < sc * sc) by (nonlinear_arith)
        requires
            sc >= 1,
    ;
}

/// In a graph without edges a seeded assignment is already stable: each
/// assigned vertex scores only its own community, and an unassigned vertex
/// scores nothing.
pub proof fn lemma_edgeless_stable(g: AdjGraph, a: Seq<Option<usize>>, k: usize)
    requires
        g.wf(),
        g.edgeless(),
        a.len() == g.vertex_count(),
        labels_ok(a, k),
    ensures
        stable(g, a),
{
    assert forall|v: int| 0 <= v < a.len() implies stable_at(g, a, v) by {
        assert(g.nbrs(v).len() == 0);
        match a[v] {
            Some(cv) => {
                assert forall|c: usize| #[trigger] scored(g, a, v, c) implies c == cv by {
                    assert(occ_below(a, g.nbrs(v), c, 0) == 0);
                }
                lemma_label_count_below_at(a, cv, v, a.len() as int);
                lemma_near_top_self(occ_at(g, a, v, cv) as int, label_count(a, cv) as int);
                assert(scored(g, a, v, cv));
                assert(best_at(g, a, v, cv));
            },
            None => {
                assert forall|c: usize| !(#[trigger] scored(g, a, v, c)) by {
                    assert(occ_below(a, g.nbrs(v), c, 0) == 0);
                }
            },
        }
    }
}

/// Exact comparison of two scores: does `oo / so` exceed `oc / sc`?
pub fn score_gt(oc: u64, sc: usize, oo: u64, so: usize) -> (r: bool)
    ensures
        r == ((oo as int) * (sc as int) > (oc as int) * (so as int)),
{
    proof {
        lemma_mul_upper_bound(oo as int, u64::MAX as int, sc as int, u64::MAX as int);
        lemma_mul_upper_bound(oc as int, u64::MAX as int, so as int, u64::MAX as int);
    }
    (oo as u128) * (sc as u128) > (oc as u128) * (so as u128)
}

/// Exact threshold test: is `oc / sc` within 1/10000 below `oo / so`?
pub fn near_top_check(oc: u64, sc: usize, oo: u64, so: usize) -> (r: bool)
    requires
        oc <= 0x2_0000_0000,
        oo <= 0x2_0000_0000,
        sc <= 0x1_0000_0000,
        so <= 0x1_0000_0000,
    ensures
        r == near_top(oc as int, sc as int, oo as int, so as int),
{
    proof {
        lemma_mul_upper_bound(oo as int, 0x2_0000_0000, sc as int, 0x1_0000_0000);
        lemma_mul_upper_bound(oc as int, 0x2_0000_0000, so as int, 0x1_0000_0000);
        lemma_mul_upper_bound(so as int, 0x1_0000_0000, sc as int, 0x1_0000_0000);
        assert(10000 * ((oo as int) * (sc as int)) < 10000 * ((oc as int) * (so as int)) + (
        so as int) * (sc as int) <==> near_top(oc as int, sc as int, oo as int, so as int))
            by (nonlinear_arith);
    }
    10000u128 * ((oo as u128) * (sc as u128)) < 10000u128 * ((oc as u128) * (so as u128)) + (
    so as u128) * (sc as u128)
}

} // verus!
