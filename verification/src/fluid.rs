//! The algorithmic core: the seeded state, the per-vertex update with its
//! density bookkeeping, the randomized pass, and the propagation loop.

use vstd::prelude::*;
use vstd::pervasive::VecAdditionalExecFns;
use crate::graph::AdjGraph;
use crate::graph::MAX_VERTICES;
use crate::counting::label_count;
use crate::counting::labels_ok;
use crate::counting::lemma_label_count_below_at;
use crate::counting::lemma_label_count_below_le;
use crate::counting::lemma_label_count_below_update;
use crate::score::best_at;
use crate::score::lemma_near_top_mono;
use crate::score::lemma_near_top_self;
use crate::score::lemma_score_le_trans;
use crate::score::lemma_scored_bounds;
use crate::score::near_top;
use crate::score::near_top_check;
use crate::score::occ_at;
use crate::score::occ_below;
use crate::score::score_gt;
use crate::score::scored;
use crate::score::stable_at;
use crate::randsrc::pick_one;
use crate::randsrc::rng_from_entropy;
use crate::randsrc::rng_from_seed;
use crate::randsrc::shuffle_vertices;
use crate::counting::assigned_count;
use crate::counting::id_order;
use crate::counting::is_vertex_perm;
use crate::counting::lemma_assigned_below_mono;
use crate::counting::lemma_assigned_below_update;
use crate::counting::lemma_counts_all_none;
use crate::counting::lemma_perm_properties;
use crate::score::lemma_edgeless_stable;
use crate::score::stable;

verus! {

/// The three ledgers of one run: the assignment map (vertex to optional
/// community label) and the membership sizes per community. The density of
/// community `c` is the rational `1 / sizes[c]`, so the sizes carry the
/// density ledger exactly.
pub struct State {
    pub assignment: Vec<Option<usize>>,
    pub sizes: Vec<usize>,
}

impl State {
    /// Well-formedness: one assignment entry per vertex, labels below the
    /// community count, and each community's recorded size is exactly its
    /// number of members.
    pub open spec fn wf(self, g: AdjGraph) -> bool {
        &&& self.assignment@.len() == g.vertex_count()
        &&& labels_ok(self.assignment@, self.sizes@.len() as usize)
        &&& forall|c: int|
            0 <= c < self.sizes@.len() ==> (#[trigger] self.sizes@[c]) == label_count(
                self.assignment@,
                c as usize,
            )
    }
}

/// How a single move of vertex from community `from` (if any) into community
/// `to` changes the size ledger: the vacated community shrinks by one, the
/// destination grows by one, each size immediately matching its new count.
pub open spec fn sizes_after_move(sz: Seq<usize>, from: Option<usize>, to: usize) -> Seq<usize> {
    let dec = match from {
        Some(c0) => sz.update(c0 as int, (sz[c0 as int] - 1) as usize),
        None => sz,
    };
    dec.update(to as int, (dec[to as int] + 1) as usize)
}

/// Density recomputation after any single vertex move: with the size ledger
/// matching the membership counts, moving `v` out of its community `from`
/// and into `to` leaves the vacated community with `sz[from] - 1` members
/// and the destination with `sz[to] + 1`, and the updated ledger records
/// exactly those counts — so each community's density, the rational
/// `1 / size`, is immediately `1 / (new membership count)` on both sides.
pub proof fn lemma_density_recomputation(a: Seq<Option<usize>>, sz: Seq<usize>, v: usize, to: usize)
    requires
        (v as int) < a.len(),
        a[v as int] is Some,
        a[v as int] != Some(to),
        forall|c: int| 0 <= c < sz.len() ==> (#[trigger] sz[c]) == label_count(a, c as usize),
        (a[v as int].unwrap() as int) < sz.len(),
        (to as int) < sz.len(),
        sz[to as int] < usize::MAX,
    ensures
        ({
            let from = a[v as int].unwrap();
            let a2 = a.update(v as int, Some(to));
            let sz2 = sizes_after_move(sz, a[v as int], to);
            &&& label_count(a2, from) == sz[from as int] - 1
            &&& label_count(a2, to) == sz[to as int] + 1
            &&& sz2[from as int] == label_count(a2, from)
            &&& sz2[to as int] == label_count(a2, to)
        }),
{
    let from = a[v as int].unwrap();
    lemma_label_count_below_at(a, from, v as int, a.len() as int);
    lemma_label_count_below_update(a, v as int, Some(to), from, a.len() as int);
    lemma_label_count_below_update(a, v as int, Some(to), to, a.len() as int);
}

/// A vector holding `n` copies of `x`.
fn repeat_val<T: Copy>(n: usize, x: T) -> (v: Vec<T>)
    ensures
        v@.len() == n,
        forall|i: int| 0 <= i < n ==> v@[i] == x,
{
    let mut v: Vec<T> = Vec::new();
    let mut i: usize = 0;
    while i < n
        invariant
            i <= n,
            v@.len() == i,
            forall|j: int| 0 <= j < i ==> v@[j] == x,
        decreases n - i,
    {
        v.push(x);
        i += 1;
    }
    v
}

/// One asynchronous update of a single vertex `v`: score the communities in
/// `v`'s closed neighbourhood by density, and if `v`'s own community is not
/// within the threshold of the best, move `v` to a uniformly chosen member
/// of the best-communities set, updating the density ledger. Returns whether
/// `v` moved; `v` moves exactly when it is not stable.
pub fn update_vertex(g: &AdjGraph, st: &mut State, v: usize, rng: &mut rand::rngs::StdRng) -> (moved:
    bool)
    requires
        g.wf(),
        old(st).wf(*g),
        (v as nat) < g.vertex_count(),
    ensures
        final(st).wf(*g),
        final(st).sizes@.len() == old(st).sizes@.len(),
        moved == !stable_at(*g, old(st).assignment@, v as int),
        !moved ==> *final(st) == *old(st),
        moved ==> (exists|c: usize|
            {
                &&& best_at(*g, old(st).assignment@, v as int, c)
                &&& old(st).assignment@[v as int] != Some(c)
                &&& final(st).assignment@ == old(st).assignment@.update(v as int, Some(c))
                &&& final(st).sizes@ == sizes_after_move(
                    old(st).sizes@,
                    old(st).assignment@[v as int],
                    c,
                )
            }),
        forall|u: int|
            0 <= u < old(st).assignment@.len() && old(st).assignment@[u] is Some
                ==> final(st).assignment@[u] is Some,
{
    let ghost a0 = st.assignment@;
    let ghost gr = *g;
    let k = st.sizes.len();

    // --- Score every community occurring on v or a neighbour of v --- //
    let mut occ: Vec<u64> = repeat_val(k, 0u64);
    let selfc = st.assignment[v];
    if let Some(c0) = selfc {
        assert(c0 < k);
        occ.set(c0, 1);
    }
    assert(forall|c: usize|
        c < k ==> occ@[c as int] == (if a0[v as int] == Some(c) {
            1nat
        } else {
            0nat
        }));
    let deg = g.adj[v].len();
    let mut i: usize = 0;
    while i < deg
        invariant
            g.wf(),
            st.wf(*g),
            *g == gr,
            st.assignment@ == a0,
            (v as nat) < g.vertex_count(),
            k == st.sizes@.len(),
            deg == g.nbrs(v as int).len(),
            deg <= MAX_VERTICES,
            i <= deg,
            occ@.len() == k,
            forall|c: usize|
                c < k ==> (#[trigger] occ@[c as int]) == (if a0[v as int] == Some(c) {
                    1nat
                } else {
                    0nat
                }) + occ_below(a0, g.nbrs(v as int), c, i as int),
            forall|c: usize| c < k ==> (#[trigger] occ@[c as int]) <= 1 + i,
        decreases deg - i,
    {
        let u = g.adj[v][i];
        assert(g.nbrs(v as int)[i as int] == u);
        assert((u as nat) < g.vertex_count());
        if let Some(cu) = st.assignment[u] {
            assert(cu < k);
            let ou = occ[cu];
            occ.set(cu, ou + 1);
        }
        i += 1;
    }
    assert(forall|c: usize| c < k ==> (#[trigger] occ@[c as int]) == occ_at(gr, a0, v as int, c));

    // --- Find the highest-scoring community --- //
    let mut found = false;
    let mut mc: usize = 0;
    let mut mo: u64 = 0;
    let mut ms: usize = 1;
    let mut c: usize = 0;
    while c < k
        invariant
            g.wf(),
            st.wf(*g),
            *g == gr,
            st.assignment@ == a0,
            (v as nat) < g.vertex_count(),
            k == st.sizes@.len(),
            c <= k,
            occ@.len() == k,
            forall|o: usize| o < k ==> (#[trigger] occ@[o as int]) == occ_at(gr, a0, v as int, o),
            forall|o: usize| o < k ==> (#[trigger] occ@[o as int]) <= 1 + MAX_VERTICES,
            found ==> mc < k && scored(gr, a0, v as int, mc) && mo == occ_at(gr, a0, v as int, mc)
                && ms == label_count(a0, mc) && 1 <= ms <= MAX_VERTICES,
            found ==> forall|o: usize|
                o < c && #[trigger] scored(gr, a0, v as int, o) ==> occ_at(gr, a0, v as int, o)
                    * ms <= mo * label_count(a0, o),
            !found ==> forall|o: usize| o < c ==> !(#[trigger] scored(gr, a0, v as int, o)),
            !found ==> mo == 0 && ms == 1,
        decreases k - c,
    {
        let oc_c = occ[c];
        if oc_c > 0 {
            proof {
                lemma_scored_bounds(gr, a0, k, v as int, c);
            }
            let sc = st.sizes[c];
            assert(sc == label_count(a0, c) && 1 <= sc <= MAX_VERTICES);
            if !found || score_gt(mo, ms, oc_c, sc) {
                proof {
                    if found {
                        assert forall|o: usize|
                            o < c + 1 && #[trigger] scored(gr, a0, v as int, o) implies occ_at(
                            gr,
                            a0,
                            v as int,
                            o,
                        ) * sc <= oc_c * label_count(a0, o) by {
                            lemma_scored_bounds(gr, a0, k, v as int, o);
                            if o < c {
                                lemma_score_le_trans(
                                    occ_at(gr, a0, v as int, o) as int,
                                    label_count(a0, o) as int,
                                    mo as int,
                                    ms as int,
                                    oc_c as int,
                                    sc as int,
                                );
                            }
                        }
                    }
                }
                found = true;
                mc = c;
                mo = oc_c;
                ms = sc;
            } else {
                assert(occ_at(gr, a0, v as int, c) * ms <= mo * label_count(a0, c));
            }
        } else {
            assert(!scored(gr, a0, v as int, c));
        }
        c += 1;
    }
    proof {
        assert forall|o: usize| #[trigger] scored(gr, a0, v as int, o) implies o < k by {
            lemma_scored_bounds(gr, a0, k, v as int, o);
        }
    }

    if !found {
        assert(forall|o: usize| !(#[trigger] scored(gr, a0, v as int, o)));
        assert(stable_at(gr, a0, v as int));
        return false;
    }
    let ghost m_occ = occ_at(gr, a0, v as int, mc);
    let ghost m_size = label_count(a0, mc);
    assert(occ@[mc as int] == occ_at(gr, a0, v as int, mc));
    assert(mo <= 1 + MAX_VERTICES as u64);

    // --- If v's own community is among the best, v is preserved --- //
    let mut keep = false;
    if let Some(c0) = selfc {
        let oc0 = occ[c0];
        if oc0 > 0 {
            proof {
                lemma_scored_bounds(gr, a0, k, v as int, c0);
            }
            let s0 = st.sizes[c0];
            if near_top_check(oc0, s0, mo, ms) {
                keep = true;
                proof {
                    assert forall|o: usize| #[trigger] scored(gr, a0, v as int, o) implies near_top(
                        occ_at(gr, a0, v as int, c0) as int,
                        label_count(a0, c0) as int,
                        occ_at(gr, a0, v as int, o) as int,
                        label_count(a0, o) as int,
                    ) by {
                        lemma_scored_bounds(gr, a0, k, v as int, o);
                        lemma_near_top_mono(
                            occ_at(gr, a0, v as int, c0) as int,
                            label_count(a0, c0) as int,
                            occ_at(gr, a0, v as int, o) as int,
                            label_count(a0, o) as int,
                            m_occ as int,
                            m_size as int,
                        );
                    }
                    assert(best_at(gr, a0, v as int, c0));
                }
            }
        }
    }
    if keep {
        assert(stable_at(gr, a0, v as int));
        return false;
    }
    proof {
        // v is not stable: something is scored, and v's own community (if
        // any) is not within the threshold of the maximum.
        assert(scored(gr, a0, v as int, mc));
        match a0[v as int] {
            Some(c0) => {
                if best_at(gr, a0, v as int, c0) {
                    assert(scored(gr, a0, v as int, c0));
                    assert(near_top(
                        occ_at(gr, a0, v as int, c0) as int,
                        label_count(a0, c0) as int,
                        m_occ as int,
                        m_size as int,
                    ));
                    assert(false);
                }
            },
            None => {},
        }
        assert(!stable_at(gr, a0, v as int));
    }

    // --- Collect the best-communities set --- //
    let mut best: Vec<usize> = Vec::new();
    let mut c2: usize = 0;
    while c2 < k
        invariant
            g.wf(),
            st.wf(*g),
            *g == gr,
            st.assignment@ == a0,
            (v as nat) < g.vertex_count(),
            k == st.sizes@.len(),
            c2 <= k,
            occ@.len() == k,
            forall|o: usize| o < k ==> (#[trigger] occ@[o as int]) == occ_at(gr, a0, v as int, o),
            forall|o: usize| o < k ==> (#[trigger] occ@[o as int]) <= 1 + MAX_VERTICES,
            mc < k && scored(gr, a0, v as int, mc),
            mo == m_occ && ms == m_size && 1 <= ms <= MAX_VERTICES,
            mo == occ_at(gr, a0, v as int, mc) && ms == label_count(a0, mc),
            forall|o: usize|
                #[trigger] scored(gr, a0, v as int, o) ==> occ_at(gr, a0, v as int, o) * ms <= mo
                    * label_count(a0, o),
            forall|j: int| 0 <= j < best@.len() ==> best_at(gr, a0, v as int, #[trigger] best@[j]),
            mc < c2 ==> best@.len() >= 1,
        decreases k - c2,
    {
        let oc2 = occ[c2];
        if oc2 > 0 {
            proof {
                lemma_scored_bounds(gr, a0, k, v as int, c2);
            }
            let s2 = st.sizes[c2];
            assert(occ@[mc as int] <= 1 + MAX_VERTICES);
            if near_top_check(oc2, s2, mo, ms) {
                proof {
                    assert forall|o: usize| #[trigger] scored(gr, a0, v as int, o) implies near_top(
                        occ_at(gr, a0, v as int, c2) as int,
                        label_count(a0, c2) as int,
                        occ_at(gr, a0, v as int, o) as int,
                        label_count(a0, o) as int,
                    ) by {
                        lemma_scored_bounds(gr, a0, k, v as int, o);
                        lemma_near_top_mono(
                            occ_at(gr, a0, v as int, c2) as int,
                            label_count(a0, c2) as int,
                            occ_at(gr, a0, v as int, o) as int,
                            label_count(a0, o) as int,
                            m_occ as int,
                            m_size as int,
                        );
                    }
                    assert(best_at(gr, a0, v as int, c2));
                }
                best.push(c2);
            } else {
                proof {
                    if c2 == mc {
                        lemma_near_top_self(mo as int, ms as int);
                        assert(false);
                    }
                }
            }
        } else {
            assert(c2 != mc);
        }
        c2 += 1;
    }

    // --- Move v to a random member of the best-communities set --- //
    let newc = pick_one(&best, rng);
    assert(best_at(gr, a0, v as int, newc)) by {
        let j = choose|j: int| 0 <= j < best@.len() && best@[j] == newc;
    }
    let ghost from = a0[v as int];
    proof {
        match from {
            Some(c0) => {
                assert(!best_at(gr, a0, v as int, c0));
                assert(newc != c0);
            },
            None => {},
        }
    }

    // --- Update previous community status --- //
    if let Some(c0) = selfc {
        proof {
            lemma_label_count_below_at(a0, c0, v as int, a0.len() as int);
        }
        let s0 = st.sizes[c0];
        st.sizes.set(c0, s0 - 1);
    }
    // --- Update new community status --- //
    proof {
        lemma_label_count_below_le(a0, newc, a0.len() as int);
    }
    let snew = st.sizes[newc];
    assert(snew == label_count(a0, newc) && snew <= MAX_VERTICES);
    st.sizes.set(newc, snew + 1);
    st.assignment.set(v, Some(newc));

    proof {
        let a1 = st.assignment@;
        assert(a1 == a0.update(v as int, Some(newc)));
        assert forall|cc: int| 0 <= cc < k implies (#[trigger] st.sizes@[cc]) == label_count(
            a1,
            cc as usize,
        ) by {
            lemma_label_count_below_update(a0, v as int, Some(newc), cc as usize, a0.len() as int);
        }
        assert(st.sizes@ =~= sizes_after_move(old(st).sizes@, from, newc));
        assert(labels_ok(a1, k));
        assert(st.wf(gr));
        assert((exists|cx: usize|
            {
                &&& best_at(gr, a0, v as int, cx)
                &&& a0[v as int] != Some(cx)
                &&& st.assignment@ == a0.update(v as int, Some(cx))
                &&& st.sizes@ == sizes_after_move(old(st).sizes@, a0[v as int], cx)
            })) by {
            assert(best_at(gr, a0, v as int, newc) && a0[v as int] != Some(newc)
                && st.assignment@ == a0.update(v as int, Some(newc)) && st.sizes@
                == sizes_after_move(old(st).sizes@, a0[v as int], newc));
        }
    }
    true
}

/// One full pass: every vertex, in the given order, receives one
/// asynchronous update, each score reading the current ledgers, not a
/// snapshot. Returns whether any vertex changed community. The pass reports
/// no change exactly when the incoming assignment was already stable, and
/// then it leaves the state untouched: a converged state is a fixed point.
pub fn one_pass(g: &AdjGraph, st: &mut State, order: &Vec<usize>, rng: &mut rand::rngs::StdRng) -> (
    changed: bool)
    requires
        g.wf(),
        old(st).wf(*g),
        is_vertex_perm(order@, g.vertex_count()),
    ensures
        final(st).wf(*g),
        final(st).sizes@.len() == old(st).sizes@.len(),
        changed == !stable(*g, old(st).assignment@),
        !changed ==> *final(st) == *old(st),
        forall|u: int|
            0 <= u < old(st).assignment@.len() && old(st).assignment@[u] is Some
                ==> final(st).assignment@[u] is Some,
{
    let ghost s0 = *st;
    let ghost gr = *g;
    proof {
        lemma_perm_properties(order@, g.vertex_count());
    }
    let len = order.len();
    let mut changed = false;
    let mut i: usize = 0;
    while i < len
        invariant
            g.wf(),
            *g == gr,
            st.wf(*g),
            st.sizes@.len() == s0.sizes@.len(),
            s0.assignment@.len() == len,
            len == order@.len(),
            len == g.vertex_count(),
            i <= len,
            forall|j: int| 0 <= j < len ==> (#[trigger] order@[j]) < len,
            !changed ==> *st == s0 && (forall|j: int|
                0 <= j < i ==> stable_at(gr, s0.assignment@, (#[trigger] order@[j]) as int)),
            changed ==> !stable(gr, s0.assignment@),
            forall|u: int|
                0 <= u < len && s0.assignment@[u] is Some ==> (#[trigger] st.assignment@[u]) is Some,
        decreases len - i,
    {
        let v = order[i];
        let ghost pre = *st;
        let moved = update_vertex(g, st, v, rng);
        proof {
            if moved && !changed {
                assert(!stable_at(gr, s0.assignment@, v as int));
                assert(!stable(gr, s0.assignment@));
            }
        }
        if moved {
            changed = true;
        }
        i += 1;
    }
    proof {
        if !changed {
            assert forall|v: int| 0 <= v < s0.assignment@.len() implies stable_at(
                gr,
                s0.assignment@,
                v,
            ) by {
                assert(order@.contains(v as usize));
                let j = choose|j: int| 0 <= j < order@.len() && order@[j] == v as usize;
                assert(stable_at(gr, s0.assignment@, (order@[j]) as int));
            }
            assert(stable(gr, s0.assignment@));
        }
    }
    changed
}

/// Seeds the initial communities: the first `k` vertices of the shuffled
/// order each receive a unique label from `0 .. k`, forming a community of
/// size one and density one; every other vertex starts unassigned.
pub fn seed_state(g: &AdjGraph, k: usize, order: &Vec<usize>) -> (st: State)
    requires
        g.wf(),
        1 <= k,
        (k as nat) <= g.vertex_count(),
        is_vertex_perm(order@, g.vertex_count()),
    ensures
        st.wf(*g),
        st.sizes@.len() == k,
        forall|i: int| 0 <= i < k ==> st.assignment@[(#[trigger] order@[i]) as int] == Some(i as usize),
        forall|c: int| 0 <= c < k ==> (#[trigger] st.sizes@[c]) == 1,
        assigned_count(st.assignment@) == k,
{
    proof {
        lemma_perm_properties(order@, g.vertex_count());
    }
    let n = g.adj.len();
    let mut a: Vec<Option<usize>> = repeat_val(n, None);
    proof {
        lemma_counts_all_none(a@, n as int);
    }
    let mut i: usize = 0;
    while i < k
        invariant
            g.wf(),
            i <= k,
            k <= n,
            n == g.vertex_count(),
            a@.len() == n,
            order@.len() == n,
            forall|j: int| 0 <= j < n ==> (#[trigger] order@[j]) < n,
            forall|j1: int, j2: int| 0 <= j1 < j2 < n ==> order@[j1] != order@[j2],
            forall|j: int| 0 <= j < i ==> a@[(#[trigger] order@[j]) as int] == Some(j as usize),
            forall|v: int|
                0 <= v < n && (#[trigger] a@[v]) is Some ==> exists|j: int|
                    0 <= j < i && order@[j] as int == v,
            forall|c: usize|
                #[trigger] label_count(a@, c) == if (c as int) < i {
                    1nat
                } else {
                    0nat
                },
            assigned_count(a@) == i,
        decreases k - i,
    {
        let pos = order[i];
        proof {
            if a@[pos as int] is Some {
                let j = choose|j: int| 0 <= j < i && order@[j] as int == pos as int;
                assert(false);
            }
            assert forall|c: usize|
                label_count(a@.update(pos as int, Some(i)), c) == if (c as int) < i + 1 {
                    1nat
                } else {
                    0nat
                } by {
                assert(label_count(a@, c) == if (c as int) < i {
                    1nat
                } else {
                    0nat
                });
                crate::counting::lemma_label_count_below_update(
                    a@,
                    pos as int,
                    Some(i),
                    c,
                    a@.len() as int,
                );
            }
            lemma_assigned_below_update(a@, pos as int, Some(i), a@.len() as int);
        }
        a.set(pos, Some(i));
        i += 1;
    }
    let sizes = repeat_val(k, 1usize);
    let st = State { assignment: a, sizes };
    proof {
        assert forall|u: int|
            0 <= u < st.assignment@.len() implies ((#[trigger] st.assignment@[u]) matches Some(cu)
            ==> cu < k) by {
            if st.assignment@[u] is Some {
                let j = choose|j: int| 0 <= j < k && order@[j] as int == u;
                assert(st.assignment@[order@[j] as int] == Some(j as usize));
            }
        }
        assert(st.wf(*g));
    }
    st
}

/// Runs passes until one changes nothing (convergence) or the iteration cap
/// is reached, reshuffling the processing order before every pass. Returns
/// how many passes ran and whether the run converged. A run that starts
/// from a stable assignment converges after exactly one pass and leaves the
/// assignment untouched.
pub fn propagate(
    g: &AdjGraph,
    st: &mut State,
    order: &mut Vec<usize>,
    max_iter: u8,
    rng: &mut rand::rngs::StdRng,
) -> (r: (u8, bool))
    requires
        g.wf(),
        old(st).wf(*g),
        is_vertex_perm(old(order)@, g.vertex_count()),
    ensures
        final(st).wf(*g),
        final(st).sizes@.len() == old(st).sizes@.len(),
        is_vertex_perm(final(order)@, g.vertex_count()),
        r.0 <= max_iter,
        r.1 ==> stable(*g, final(st).assignment@),
        !r.1 ==> r.0 == max_iter,
        stable(*g, old(st).assignment@) && max_iter >= 1 ==> r.0 == 1 && r.1 && *final(st) == *old(
            st,
        ),
        forall|u: int|
            0 <= u < old(st).assignment@.len() && old(st).assignment@[u] is Some
                ==> final(st).assignment@[u] is Some,
{
    let ghost s0 = *st;
    let ghost gr = *g;
    let mut passes: u8 = 0;
    let mut converged = false;
    while passes < max_iter && !converged
        invariant
            g.wf(),
            *g == gr,
            st.wf(*g),
            st.sizes@.len() == s0.sizes@.len(),
            s0.assignment@.len() == g.vertex_count(),
            is_vertex_perm(order@, g.vertex_count()),
            passes <= max_iter,
            converged ==> stable(gr, st.assignment@) && passes >= 1,
            stable(gr, s0.assignment@) ==> *st == s0 && (passes == 0 || (converged && passes
                == 1)),
            forall|u: int|
                0 <= u < s0.assignment@.len() && s0.assignment@[u] is Some ==> (#[trigger] st.assignment@[u]) is Some,
        decreases max_iter - passes,
    {
        shuffle_vertices(order, rng);
        let ghost pre = *st;
        let changed = one_pass(g, st, order, rng);
        passes += 1;
        if !changed {
            converged = true;
        }
    }
    (passes, converged)
}

/// The iteration cap in force: the caller's, or the default of 100.
pub open spec fn effective_iter(max_iter: Option<u8>) -> int {
    match max_iter {
        Some(m) => m as int,
        None => DEFAULT_ITER as int,
    }
}

/// The pass cap applied when the caller supplies none.
pub const DEFAULT_ITER: u8 = 100;

/// The one configuration fault: `max_communities` must satisfy
/// `1 <= max_communities <= vertex count` (so the graph must be non-empty).
#[derive(Clone, Copy, Debug, PartialEq, Eq, Structural)]
pub enum FluidcError {
    InvalidConfiguration,
}

/// The outcome of one run: the final assignment map, the final community
/// sizes (community `c`'s density is `1 / sizes[c]`), the number of passes
/// run, and whether the run converged before the cap.
pub struct Outcome {
    pub assignment: Vec<Option<usize>>,
    pub sizes: Vec<usize>,
    pub passes: u8,
    pub converged: bool,
}

/// The Fluid Communities algorithm on the library's graph type: seed
/// `max_communities` randomly chosen vertices, propagate labels by density
/// scores until convergence or the pass cap, and return the final ledgers.
pub fn fluidc_on(
    g: &AdjGraph,
    max_communities: usize,
    max_iter: Option<u8>,
    seed: Option<u64>,
) -> (r: Result<Outcome, FluidcError>)
    requires
        g.wf(),
    ensures
        r is Err <==> (max_communities == 0 || (max_communities as nat) > g.vertex_count()),
        r matches Ok(o) ==> {
            &&& o.assignment@.len() == g.vertex_count()
            &&& o.sizes@.len() == max_communities
            &&& labels_ok(o.assignment@, max_communities)
            &&& forall|c: int|
                0 <= c < max_communities ==> (#[trigger] o.sizes@[c]) == label_count(
                    o.assignment@,
                    c as usize,
                )
            &&& o.passes as int <= effective_iter(max_iter)
            &&& (o.converged ==> stable(*g, o.assignment@))
            &&& (!o.converged ==> o.passes as int == effective_iter(max_iter))
            &&& assigned_count(o.assignment@) >= max_communities
            &&& (g.edgeless() && effective_iter(max_iter) >= 1 ==> o.passes == 1 && o.converged)
        },
{
    let n = g.vertex_count_exec();
    if max_communities == 0 || max_communities > n {
        return Err(FluidcError::InvalidConfiguration);
    }
    let mut rng = match seed {
        Some(s) => rng_from_seed(s),
        None => rng_from_entropy(),
    };

    // --- Establish a randomized vertex order --- //
    let mut order: Vec<usize> = Vec::new();
    let mut v: usize = 0;
    while v < n
        invariant
            v <= n,
            order@.len() == v,
            forall|j: int| 0 <= j < v ==> (#[trigger] order@[j]) == j,
        decreases n - v,
    {
        order.push(v);
        v += 1;
    }
    proof {
        assert(order@ =~= id_order(g.vertex_count()));
    }
    shuffle_vertices(&mut order, &mut rng);

    // --- Establish initial communities --- //
    let mut st = seed_state(g, max_communities, &order);
    let ghost seeded = st.assignment@;
    proof {
        if g.edgeless() {
            lemma_edgeless_stable(*g, st.assignment@, max_communities);
        }
    }

    // --- Produce progressively more accurate communities --- //
    let cap = match max_iter {
        Some(m) => m,
        None => DEFAULT_ITER,
    };
    let (passes, converged) = propagate(g, &mut st, &mut order, cap, &mut rng);
    proof {
        lemma_assigned_below_mono(seeded, st.assignment@, seeded.len() as int);
    }
    Ok(Outcome { assignment: st.assignment, sizes: st.sizes, passes, converged })
}

} // verus!
