//! The result assembler: inverting the final assignment map into a grouping
//! from community label to member vertices, and the partition facts that the
//! grouping enjoys.

use std::collections::HashMap;
use vstd::prelude::*;
use vstd::set_lib::lemma_len_subset;
use vstd::std_specs::hash::group_hash_axioms;
use crate::counting::label_count;
use crate::counting::labels_ok;
use crate::counting::lemma_members_below_contains;
use crate::counting::lemma_members_below_len;
use crate::counting::members_below;
use crate::counting::members_of;

verus! {

broadcast use group_hash_axioms;

/// The members of community `c`, collected in increasing vertex order.
pub fn collect_members(a: &Vec<Option<usize>>, c: usize) -> (grp: Vec<usize>)
    ensures
        grp@ == members_of(a@, c),
{
    let n = a.len();
    let mut grp: Vec<usize> = Vec::new();
    let mut v: usize = 0;
    while v < n
        invariant
            n == a@.len(),
            v <= n,
            grp@ == members_below(a@, c, v as int),
        decreases n - v,
    {
        if let Some(cv) = a[v] {
            if cv == c {
                grp.push(v);
            }
        }
        proof {
            assert(grp@ =~= members_below(a@, c, v + 1));
        }
        v += 1;
    }
    grp
}

/// Inverts the assignment into the result: community label to the members
/// carrying it, in increasing vertex order. A community with no members is
/// absent from the result, never present with an empty list.
pub fn assemble_groups(a: &Vec<Option<usize>>, k: usize) -> (m: HashMap<usize, Vec<usize>>)
    requires
        labels_ok(a@, k),
    ensures
        forall|c: usize| #[trigger] m@.contains_key(c) <==> members_of(a@, c).len() > 0,
        forall|c: usize| #[trigger] m@.contains_key(c) ==> m@[c]@ == members_of(a@, c),
        forall|c: usize| #[trigger] m@.contains_key(c) ==> c < k,
        forall|c: usize| #[trigger] m@.contains_key(c) ==> m@[c]@.len() == label_count(a@, c),
{
    let n = a.len();
    let mut m: HashMap<usize, Vec<usize>> = HashMap::new();
    let mut c: usize = 0;
    while c < k
        invariant
            labels_ok(a@, k),
            n == a@.len(),
            c <= k,
            forall|x: usize| #[trigger] m@.contains_key(x) ==> x < c,
            forall|x: usize|
                x < c ==> (#[trigger] m@.contains_key(x) <==> members_of(a@, x).len() > 0),
            forall|x: usize| #[trigger] m@.contains_key(x) ==> m@[x]@ == members_of(a@, x),
        decreases k - c,
    {
        let grp = collect_members(a, c);
        if grp.len() > 0 {
            m.insert(c, grp);
        }
        c += 1;
    }
    proof {
        assert forall|c2: usize| !(c2 < k) implies members_of(a@, c2).len() == 0 by {
            if members_of(a@, c2).len() > 0 {
                let v = members_of(a@, c2)[0];
                assert(members_of(a@, c2).contains(v));
                lemma_members_below_contains(a@, c2, a@.len() as int, v);
            }
        }
        assert forall|c2: usize| #[trigger] m@.contains_key(c2) implies m@[c2]@.len()
            == label_count(a@, c2) by {
            lemma_members_below_len(a@, c2, a@.len() as int);
        }
    }
    m
}

/// Partition of the labelled vertices: a vertex carrying a label lies in the
/// group of that label and in no other, and a vertex carrying no label lies
/// in no group at all; so the groups are pairwise disjoint and their union
/// is exactly the set of labelled vertices.
pub proof fn lemma_groups_partition(a: Seq<Option<usize>>, v: usize)
    requires
        (v as int) < a.len(),
        a.len() <= usize::MAX as nat,
    ensures
        a[v as int] matches Some(cv) ==> members_of(a, cv).contains(v),
        forall|c: usize| a[v as int] != Some(c) ==> !(#[trigger] members_of(a, c).contains(v)),
{
    match a[v as int] {
        Some(cv) => {
            lemma_members_below_contains(a, cv, a.len() as int, v);
        },
        None => {},
    }
    assert forall|c: usize| a[v as int] != Some(c) implies !members_of(a, c).contains(v) by {
        lemma_members_below_contains(a, c, a.len() as int, v);
    }
}

/// Partition completeness on a total assignment: when every vertex carries
/// a label, every vertex lies in exactly one group, so the union of the
/// groups is the whole vertex set.
pub proof fn lemma_total_assignment_partitions(a: Seq<Option<usize>>)
    requires
        a.len() <= usize::MAX as nat,
        forall|v: int| 0 <= v < a.len() ==> (#[trigger] a[v]) is Some,
    ensures
        forall|v: usize|
            (v as int) < a.len() ==> #[trigger] members_of(a, a[v as int].unwrap()).contains(v),
        forall|v: usize, c: usize|
            (v as int) < a.len() && a[v as int] != Some(c) ==> !(#[trigger] members_of(
                a,
                c,
            ).contains(v)),
{
    assert forall|v: usize| (v as int) < a.len() implies #[trigger] members_of(
        a,
        a[v as int].unwrap(),
    ).contains(v) by {
        lemma_groups_partition(a, v);
    }
    assert forall|v: usize, c: usize|
        (v as int) < a.len() && a[v as int] != Some(c) implies !(#[trigger] members_of(
        a,
        c,
    ).contains(v)) by {
        lemma_groups_partition(a, v);
    }
}

proof fn lemma_usize_range_card(k: usize)
    ensures
        Set::new(|c: usize| c < k).finite(),
        Set::new(|c: usize| c < k).len() == k,
    decreases k,
{
    broadcast use vstd::set::group_set_axioms;

    if k == 0 {
        assert(Set::new(|c: usize| c < k) =~= Set::<usize>::empty());
    } else {
        let prev = (k - 1) as usize;
        lemma_usize_range_card(prev);
        assert(Set::new(|c: usize| c < k) =~= Set::new(|c: usize| c < prev).insert(prev));
    }
}

/// The community bound: every group label lies below `k`, so there are at
/// most `k` distinct groups in the result.
pub proof fn lemma_community_bound(m: Map<usize, Vec<usize>>, k: usize)
    requires
        m.dom().finite(),
        forall|c: usize| #[trigger] m.contains_key(c) ==> c < k,
    ensures
        m.dom().len() <= k,
{
    broadcast use vstd::set::group_set_axioms;

    lemma_usize_range_card(k);
    let bound = Set::new(|c: usize| c < k);
    assert(m.dom().subset_of(bound));
    lemma_len_subset(m.dom(), bound);
}

} // verus!
