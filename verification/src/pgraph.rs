//! Consuming a petgraph graph as the input collaborator. The core reads
//! from it only the two things the algorithm needs — the vertex enumeration
//! and an undirected-neighbour query — through trusted wrappers, and the
//! whole algorithm then runs verified on that adjacency.

use std::collections::HashMap;
use vstd::prelude::*;
use crate::assemble::assemble_groups;
use crate::counting::assigned_count;
use crate::counting::labels_ok;
use crate::counting::members_of;
use crate::fluid::fluidc_on;
use crate::fluid::FluidcError;
use crate::graph::AdjGraph;
use crate::graph::MAX_VERTICES;

verus! {

#[verifier::external_type_specification]
#[verifier::external_body]
#[verifier::reject_recursive_types(N)]
#[verifier::reject_recursive_types(E)]
#[verifier::reject_recursive_types(Ty)]
#[verifier::reject_recursive_types(Ix)]
pub struct ExPetgraph<N, E, Ty, Ix>(petgraph::graph::Graph<N, E, Ty, Ix>);

#[verifier::external_type_specification]
#[verifier::external_body]
pub struct ExUndirected(petgraph::Undirected);

/// The number of nodes of a petgraph graph.
pub uninterp spec fn pg_vertex_count(
    g: petgraph::graph::Graph<(), (), petgraph::Undirected, u32>,
) -> nat;

/// The undirected neighbours of node `v` of a petgraph graph, one entry per
/// incident edge, in the order `neighbors_undirected` yields them.
pub uninterp spec fn pg_neighbors(
    g: petgraph::graph::Graph<(), (), petgraph::Undirected, u32>,
    v: usize,
) -> Seq<usize>;

/// Relies on petgraph's `Graph::node_count`: the number of nodes, a value
/// of the graph alone.
#[verifier::external_body]
fn pg_node_count(g: &petgraph::graph::Graph<(), (), petgraph::Undirected, u32>) -> (n: usize)
    ensures
        n as nat == pg_vertex_count(*g),
{
    g.node_count()
}

/// Relies on petgraph's `Graph::neighbors_undirected`: all neighbours of a
/// node, one per incident edge, each of them a valid node index of the
/// graph.
#[verifier::external_body]
fn pg_adjacent(g: &petgraph::graph::Graph<(), (), petgraph::Undirected, u32>, v: usize) -> (r: Vec<
    usize,
>)
    requires
        (v as nat) < pg_vertex_count(*g),
    ensures
        r@ == pg_neighbors(*g, v),
        forall|i: int| 0 <= i < r@.len() ==> ((#[trigger] r@[i]) as nat) < pg_vertex_count(*g),
{
    g.neighbors_undirected(petgraph::graph::NodeIndex::new(v)).map(|u| u.index()).collect()
}

/// Reads a petgraph graph into the library's adjacency form. The result is
/// `None` exactly when the graph exceeds the library's size caps.
pub fn from_petgraph(g: &petgraph::graph::Graph<(), (), petgraph::Undirected, u32>) -> (r: Option<
    AdjGraph,
>)
    ensures
        r matches Some(h) ==> {
            &&& h.wf()
            &&& h.vertex_count() == pg_vertex_count(*g)
            &&& forall|v: int|
                0 <= v < h.adj@.len() ==> (#[trigger] h.adj@[v])@ == pg_neighbors(*g, v as usize)
        },
        r is None <==> (pg_vertex_count(*g) > MAX_VERTICES as nat || (exists|v: usize|
            (v as nat) < pg_vertex_count(*g) && (#[trigger] pg_neighbors(*g, v)).len()
                > MAX_VERTICES as nat)),
{
    let n = pg_node_count(g);
    if n > MAX_VERTICES {
        return None;
    }
    let mut adj: Vec<Vec<usize>> = Vec::new();
    let mut v: usize = 0;
    while v < n
        invariant
            v <= n,
            n as nat == pg_vertex_count(*g),
            n <= MAX_VERTICES,
            adj@.len() == v,
            forall|u: int| 0 <= u < v ==> (#[trigger] adj@[u])@ == pg_neighbors(*g, u as usize),
            forall|u: int| 0 <= u < v ==> (#[trigger] adj@[u])@.len() <= MAX_VERTICES as nat,
            forall|u: int, i: int|
                0 <= u < v && 0 <= i < adj@[u]@.len() ==> (#[trigger] adj@[u]@[i]) < n,
        decreases n - v,
    {
        let row = pg_adjacent(g, v);
        if row.len() > MAX_VERTICES {
            return None;
        }
        adj.push(row);
        v += 1;
    }
    let h = AdjGraph { adj };
    proof {
        assert(h.wf());
        assert forall|u: usize|
            (u as nat) < pg_vertex_count(*g) implies !((#[trigger] pg_neighbors(*g, u)).len()
            > MAX_VERTICES as nat) by {
            assert(h.adj@[u as int]@ == pg_neighbors(*g, u));
        }
    }
    Some(h)
}

/// Fluid Communities on a petgraph undirected graph. Seeds `max_communities`
/// randomly chosen vertices, propagates density-weighted labels over the
/// undirected neighbourhoods until convergence or the pass cap (`max_iter`,
/// default 100), and returns each surviving community's members, keyed by
/// community label; a vertex that never received a label (possible only
/// when it is isolated) appears in no group. Passing a seed makes the run
/// reproducible. The result is `Err(InvalidConfiguration)` exactly when
/// `max_communities` is zero or exceeds the vertex count (so also on an
/// empty graph), or the graph exceeds the library's size caps.
pub fn fluidc(
    graph: &petgraph::graph::Graph<(), (), petgraph::Undirected, u32>,
    max_communities: usize,
    max_iter: Option<u8>,
    seed: Option<u64>,
) -> (r: Result<HashMap<usize, Vec<usize>>, FluidcError>)
    ensures
        r is Err <==> (max_communities == 0 || (max_communities as nat) > pg_vertex_count(*graph)
            || pg_vertex_count(*graph) > MAX_VERTICES as nat || (exists|v: usize|
            (v as nat) < pg_vertex_count(*graph) && (#[trigger] pg_neighbors(*graph, v)).len()
                > MAX_VERTICES as nat)),
        r matches Ok(m) ==> (exists|asn: Seq<Option<usize>>|
            {
                &&& asn.len() == pg_vertex_count(*graph)
                &&& labels_ok(asn, max_communities)
                &&& assigned_count(asn) >= max_communities
                &&& forall|c: usize|
                    #[trigger] m@.contains_key(c) <==> members_of(asn, c).len() > 0
                &&& forall|c: usize| #[trigger] m@.contains_key(c) ==> m@[c]@ == members_of(asn, c)
            }),
{
    let g = match from_petgraph(graph) {
        Some(g) => g,
        None => {
            return Err(FluidcError::InvalidConfiguration);
        },
    };
    let out = match fluidc_on(&g, max_communities, max_iter, seed) {
        Ok(o) => o,
        Err(e) => {
            return Err(e);
        },
    };
    let m = assemble_groups(&out.assignment, max_communities);
    proof {
        let asn = out.assignment@;
        assert(asn.len() == pg_vertex_count(*graph) && labels_ok(asn, max_communities)
            && assigned_count(asn) >= max_communities && (forall|c: usize|
            #[trigger] m@.contains_key(c) <==> members_of(asn, c).len() > 0) && (forall|c: usize|
            #[trigger] m@.contains_key(c) ==> m@[c]@ == members_of(asn, c)));
    }
    Ok(m)
}

} // verus!
