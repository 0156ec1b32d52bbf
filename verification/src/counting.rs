//! Counting specifications over an assignment map (vertex index to optional
//! community label), and facts about random permutations of the vertices.

use vstd::prelude::*;
use vstd::multiset::group_multiset_axioms;
use vstd::multiset::lemma_insert_increases_count_by_1;
use vstd::multiset::lemma_insert_other_elements_unchanged;
use vstd::seq_lib::group_to_multiset_ensures;

verus! {

/// Number of entries among the first `i` of `a` that carry label `c`.
pub open spec fn label_count_below(a: Seq<Option<usize>>, c: usize, i: int) -> nat
    decreases i,
{
    if i <= 0 {
        0
    } else {
        label_count_below(a, c, i - 1) + (if a[i - 1] == Some(c) {
            1nat
        } else {
            0nat
        })
    }
}

/// The size of community `c`: how many vertices of `a` carry label `c`.
pub open spec fn label_count(a: Seq<Option<usize>>, c: usize) -> nat {
    label_count_below(a, c, a.len() as int)
}

/// Number of entries among the first `i` of `a` that carry any label.
pub open spec fn assigned_below(a: Seq<Option<usize>>, i: int) -> nat
    decreases i,
{
    if i <= 0 {
        0
    } else {
        assigned_below(a, i - 1) + (if a[i - 1] is Some {
            1nat
        } else {
            0nat
        })
    }
}

/// How many vertices of `a` carry a label at all.
pub open spec fn assigned_count(a: Seq<Option<usize>>) -> nat {
    assigned_below(a, a.len() as int)
}

/// The vertices among the first `i` of `a` that carry label `c`, in
/// increasing vertex order.
pub open spec fn members_below(a: Seq<Option<usize>>, c: usize, i: int) -> Seq<usize>
    decreases i,
{
    if i <= 0 {
        Seq::empty()
    } else {
        members_below(a, c, i - 1) + (if a[i - 1] == Some(c) {
            seq![(i - 1) as usize]
        } else {
            Seq::empty()
        })
    }
}

/// The members of community `c` under assignment `a`, in increasing order.
pub open spec fn members_of(a: Seq<Option<usize>>, c: usize) -> Seq<usize> {
    members_below(a, c, a.len() as int)
}

/// Every label that `a` hands out lies below `k`.
pub open spec fn labels_ok(a: Seq<Option<usize>>, k: usize) -> bool {
    forall|u: int| 0 <= u < a.len() ==> ((#[trigger] a[u]) matches Some(cu) ==> cu < k)
}

/// How a pointwise update of the assignment changes one community's size.
pub proof fn lemma_label_count_below_update(
    a: Seq<Option<usize>>,
    v: int,
    x: Option<usize>,
    c: usize,
    i: int,
)
    requires
        0 <= v < a.len(),
        0 <= i <= a.len(),
    ensures
        label_count_below(a.update(v, x), c, i) as int == label_count_below(a, c, i) as int + (
        if v < i {
            (if x == Some(c) {
                1int
            } else {
                0int
            }) - (if a[v] == Some(c) {
                1int
            } else {
                0int
            })
        } else {
            0int
        }),
    decreases i,
{
    if i > 0 {
        lemma_label_count_below_update(a, v, x, c, i - 1);
        assert(a.update(v, x)[i - 1] == (if v == i - 1 {
            x
        } else {
            a[i - 1]
        }));
    }
}

/// The same, for the count of assigned vertices.
pub proof fn lemma_assigned_below_update(a: Seq<Option<usize>>, v: int, x: Option<usize>, i: int)
    requires
        0 <= v < a.len(),
        0 <= i <= a.len(),
    ensures
        assigned_below(a.update(v, x), i) as int == assigned_below(a, i) as int + (if v < i {
            (if x is Some {
                1int
            } else {
                0int
            }) - (if a[v] is Some {
                1int
            } else {
                0int
            })
        } else {
            0int
        }),
    decreases i,
{
    if i > 0 {
        lemma_assigned_below_update(a, v, x, i - 1);
        assert(a.update(v, x)[i - 1] == (if v == i - 1 {
            x
        } else {
            a[i - 1]
        }));
    }
}

/// A community with a member has positive size.
pub proof fn lemma_label_count_below_at(a: Seq<Option<usize>>, c: usize, v: int, i: int)
    requires
        0 <= v < i <= a.len(),
        a[v] == Some(c),
    ensures
        label_count_below(a, c, i) >= 1,
    decreases i,
{
    if v < i - 1 {
        lemma_label_count_below_at(a, c, v, i - 1);
    }
}

/// A community's size never exceeds the number of counted entries.
pub proof fn lemma_label_count_below_le(a: Seq<Option<usize>>, c: usize, i: int)
    requires
        0 <= i <= a.len(),
    ensures
        label_count_below(a, c, i) <= i,
    decreases i,
{
    if i > 0 {
        lemma_label_count_below_le(a, c, i - 1);
    }
}

/// The member list of a community holds exactly the vertices carrying its label.
pub proof fn lemma_members_below_contains(a: Seq<Option<usize>>, c: usize, i: int, v: usize)
    requires
        0 <= i <= a.len(),
        a.len() <= usize::MAX as nat,
    ensures
        members_below(a, c, i).contains(v) <==> ((v as int) < i && a[v as int] == Some(c)),
    decreases i,
{
    if i > 0 {
        lemma_members_below_contains(a, c, i - 1, v);
        let pre = members_below(a, c, i - 1);
        let whole = members_below(a, c, i);
        if a[i - 1] != Some(c) {
            assert(whole =~= pre);
        }
        if (v as int) < i && a[v as int] == Some(c) {
            if (v as int) < i - 1 {
                let j = choose|j: int| 0 <= j < pre.len() && pre[j] == v;
                assert(whole[j] == v);
            } else {
                assert(whole[pre.len() as int] == v);
            }
        }
        if whole.contains(v) {
            let j = choose|j: int| 0 <= j < whole.len() && whole[j] == v;
            if j < pre.len() {
                assert(pre[j] == v);
            } else {
                assert(a[i - 1] == Some(c) && v == (i - 1) as usize);
            }
        }
    }
}

/// Member lists and community sizes agree.
pub proof fn lemma_members_below_len(a: Seq<Option<usize>>, c: usize, i: int)
    requires
        0 <= i <= a.len(),
    ensures
        members_below(a, c, i).len() == label_count_below(a, c, i),
    decreases i,
{
    if i > 0 {
        lemma_members_below_len(a, c, i - 1);
    }
}

/// In an assignment with no labels at all, every count is zero.
pub proof fn lemma_counts_all_none(a: Seq<Option<usize>>, i: int)
    requires
        0 <= i <= a.len(),
        forall|u: int| 0 <= u < a.len() ==> (#[trigger] a[u]) is None,
    ensures
        forall|c: usize| #[trigger] label_count_below(a, c, i) == 0,
        assigned_below(a, i) == 0,
    decreases i,
{
    if i > 0 {
        lemma_counts_all_none(a, i - 1);
        assert(a[i - 1] is None);
        assert forall|c: usize| #[trigger] label_count_below(a, c, i) == 0 by {
            assert(label_count_below(a, c, i - 1) == 0);
        }
    }
}

/// Keeping every assigned vertex assigned never shrinks the assigned count.
pub proof fn lemma_assigned_below_mono(a1: Seq<Option<usize>>, a2: Seq<Option<usize>>, i: int)
    requires
        a1.len() == a2.len(),
        0 <= i <= a1.len(),
        forall|u: int| 0 <= u < a1.len() && (#[trigger] a1[u]) is Some ==> a2[u] is Some,
    ensures
        assigned_below(a1, i) <= assigned_below(a2, i),
    decreases i,
{
    if i > 0 {
        lemma_assigned_below_mono(a1, a2, i - 1);
    }
}

/// The vertices in their natural order: `0, 1, .., n - 1`.
pub open spec fn id_order(n: nat) -> Seq<usize> {
    Seq::new(n, |i: int| i as usize)
}

/// `s` is some reordering of the vertices `0 .. n`.
pub open spec fn is_vertex_perm(s: Seq<usize>, n: nat) -> bool {
    s.to_multiset() == id_order(n).to_multiset()
}

proof fn lemma_id_order_count(n: nat, x: usize)
    requires
        n <= usize::MAX as nat,
    ensures
        id_order(n).to_multiset().count(x) == if (x as nat) < n {
            1nat
        } else {
            0nat
        },
    decreases n,
{
    broadcast use group_to_multiset_ensures;
    broadcast use group_multiset_axioms;

    if n == 0 {
        assert(!id_order(0).contains(x));
    } else {
        let last = (n - 1) as usize;
        let pre = id_order((n - 1) as nat);
        lemma_id_order_count((n - 1) as nat, x);
        assert(id_order(n) =~= pre.push(last));
        assert(pre.push(last).to_multiset() =~= pre.to_multiset().insert(last));
        if x == last {
            lemma_insert_increases_count_by_1(pre.to_multiset(), last);
            assert((last as nat) < n);
            assert(!((last as nat) < (n - 1) as nat));
        } else {
            lemma_insert_other_elements_unchanged(pre.to_multiset(), last, x);
        }
    }
}

/// What a shuffled vertex sequence keeps: length, bounds, distinctness, and
/// coverage of every vertex.
pub proof fn lemma_perm_properties(s: Seq<usize>, n: nat)
    requires
        is_vertex_perm(s, n),
        n <= usize::MAX as nat,
    ensures
        s.len() == n,
        forall|i: int| 0 <= i < s.len() ==> (#[trigger] s[i]) < n,
        forall|i: int, j: int| 0 <= i < j < s.len() ==> s[i] != s[j],
        forall|v: usize| (v as nat) < n ==> s.contains(v),
{
    broadcast use group_to_multiset_ensures;
    broadcast use group_multiset_axioms;

    assert(id_order(n).len() == n);
    assert(s.to_multiset().len() == s.len());
    assert(id_order(n).to_multiset().len() == id_order(n).len());
    assert(s.len() == n);
    assert forall|i: int| 0 <= i < s.len() implies (#[trigger] s[i]) < n by {
        lemma_id_order_count(n, s[i]);
        assert(s.contains(s[i]));
    }
    assert forall|i: int, j: int| 0 <= i < j < s.len() implies s[i] != s[j] by {
        if s[i] == s[j] {
            lemma_id_order_count(n, s[i]);
            let shorter = s.remove(i);
            assert(shorter.to_multiset() == s.to_multiset().remove(s[i]));
            assert(shorter[j - 1] == s[j]);
            assert(shorter.contains(s[j]));
            assert(shorter.to_multiset().count(s[j]) > 0);
            assert(s.to_multiset().count(s[i]) >= 2);
        }
    }
    assert forall|v: usize| (v as nat) < n implies s.contains(v) by {
        lemma_id_order_count(n, v);
        assert(s.to_multiset().count(v) == 1);
    }
}

} // verus!
