//! The graph as the algorithm consumes it: an enumeration of vertices
//! `0 .. n` and one adjacency list per vertex.

use vstd::prelude::*;

verus! {

/// Upper bound on the vertex count and on the length of one adjacency list.
/// It keeps every integer score comparison within `u128`, and every size
/// counter within `usize` on any machine.
pub const MAX_VERTICES: usize = 0xFFFF_FFFE;

/// An undirected graph given by adjacency lists. Vertex identifiers are the
/// indices `0 .. adj.len()`; `adj[v]` lists the neighbours of `v`, one entry
/// per incident edge.
pub struct AdjGraph {
    pub adj: Vec<Vec<usize>>,
}

impl AdjGraph {
    /// The number of vertices.
    pub open spec fn vertex_count(self) -> nat {
        self.adj@.len()
    }

    /// The neighbour list of vertex `v`.
    pub open spec fn nbrs(self, v: int) -> Seq<usize> {
        self.adj@[v]@
    }

    /// Well-formedness: bounded size, and every neighbour entry is a vertex.
    pub open spec fn wf(self) -> bool {
        &&& self.adj@.len() <= MAX_VERTICES
        &&& forall|v: int|
            0 <= v < self.adj@.len() ==> (#[trigger] self.adj@[v])@.len() <= MAX_VERTICES
        &&& forall|v: int, i: int|
            0 <= v < self.adj@.len() && 0 <= i < self.adj@[v]@.len() ==> (#[trigger] self.adj@[v]@[i]) < self.adj@.len()
    }

    /// A graph with no edges at all: every adjacency list is empty.
    pub open spec fn edgeless(self) -> bool {
        forall|v: int| 0 <= v < self.adj@.len() ==> (#[trigger] self.adj@[v])@.len() == 0
    }

    /// The number of vertices, as executable code.
    pub fn vertex_count_exec(&self) -> (n: usize)
        ensures
            n == self.vertex_count(),
    {
        self.adj.len()
    }

    /// Builds a graph from adjacency lists, checking well-formedness: the
    /// result is `Some` exactly when the lists respect the size bounds and
    /// every entry names a vertex.
    pub fn from_adjacency(adj: Vec<Vec<usize>>) -> (r: Option<AdjGraph>)
        ensures
            r is Some <==> (AdjGraph { adj: adj }).wf(),
            r is Some ==> r.unwrap() == (AdjGraph { adj: adj }),
    {
        let n = adj.len();
        if n > MAX_VERTICES {
            return None;
        }
        let mut v: usize = 0;
        while v < n
            invariant
                n == adj@.len(),
                n <= MAX_VERTICES,
                v <= n,
                forall|u: int| 0 <= u < v ==> (#[trigger] adj@[u])@.len() <= MAX_VERTICES,
                forall|u: int, i: int|
                    0 <= u < v && 0 <= i < adj@[u]@.len() ==> (#[trigger] adj@[u]@[i]) < n,
            decreases n - v,
        {
            let row_len = adj[v].len();
            if row_len > MAX_VERTICES {
                return None;
            }
            let mut i: usize = 0;
            while i < row_len
                invariant
                    n == adj@.len(),
                    v < n,
                    row_len == adj@[v as int]@.len(),
                    i <= row_len,
                    forall|j: int| 0 <= j < i ==> (#[trigger] adj@[v as int]@[j]) < n,
                decreases row_len - i,
            {
                if adj[v][i] >= n {
                    return None;
                }
                i += 1;
            }
            v += 1;
        }
        Some(AdjGraph { adj })
    }
}

} // verus!
