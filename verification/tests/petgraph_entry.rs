use std::collections::HashMap;

use fluidc::assemble::assemble_groups;
use fluidc::fluid::fluidc_on;
use fluidc::fluid::FluidcError;
use fluidc::graph::AdjGraph;
use fluidc::pgraph::fluidc;
use petgraph::graph::NodeIndex;
use petgraph::graph::UnGraph;

fn two_cliques_petgraph() -> UnGraph<(), ()> {
    let mut g: UnGraph<(), ()> = UnGraph::new_undirected();
    let nodes: Vec<NodeIndex<u32>> = (0..6).map(|_| g.add_node(())).collect();
    for c in [[0usize, 1, 2], [3, 4, 5]] {
        for i in 0..3 {
            for j in (i + 1)..3 {
                g.add_edge(nodes[c[i]], nodes[c[j]], ());
            }
        }
    }
    g
}

fn two_cliques_adjacency() -> AdjGraph {
    let mut adj: Vec<Vec<usize>> = vec![Vec::new(); 6];
    for c in [[0usize, 1, 2], [3, 4, 5]] {
        for &a in &c {
            for &b in &c {
                if a != b {
                    adj[a].push(b);
                }
            }
        }
    }
    AdjGraph::from_adjacency(adj).expect("well-formed adjacency")
}

fn sorted_groups(m: &HashMap<usize, Vec<usize>>) -> Vec<Vec<usize>> {
    let mut gs: Vec<Vec<usize>> = m.values().cloned().collect();
    for g in gs.iter_mut() {
        g.sort();
    }
    gs.sort();
    gs
}

#[test]
fn petgraph_entry_matches_core_run() {
    // The petgraph entry point reads the same adjacency the core sees, and
    // the scores do not depend on neighbour order, so a fixed seed gives
    // the same grouping on both paths.
    let pg = two_cliques_petgraph();
    let core = two_cliques_adjacency();
    for seed in 0..10u64 {
        let via_petgraph = fluidc(&pg, 2, None, Some(seed)).unwrap();
        let out = fluidc_on(&core, 2, None, Some(seed)).unwrap();
        let direct = assemble_groups(&out.assignment, 2);
        assert_eq!(sorted_groups(&via_petgraph), sorted_groups(&direct));
    }
}

#[test]
fn petgraph_entry_finds_cliques() {
    let pg = two_cliques_petgraph();
    let mut found = false;
    for seed in 0..50u64 {
        let m = fluidc(&pg, 2, None, Some(seed)).unwrap();
        assert!(m.len() <= 2);
        if sorted_groups(&m) == vec![vec![0, 1, 2], vec![3, 4, 5]] {
            found = true;
        }
    }
    assert!(found);
}

#[test]
fn petgraph_entry_rejects_bad_configuration() {
    let empty: UnGraph<(), ()> = UnGraph::new_undirected();
    assert!(matches!(fluidc(&empty, 1, None, None), Err(FluidcError::InvalidConfiguration)));
    let pg = two_cliques_petgraph();
    assert!(matches!(fluidc(&pg, 0, None, None), Err(FluidcError::InvalidConfiguration)));
    assert!(matches!(fluidc(&pg, 7, None, None), Err(FluidcError::InvalidConfiguration)));
}
