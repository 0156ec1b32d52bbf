use std::collections::HashMap;

use fluidc::assemble::assemble_groups;
use fluidc::fluid::fluidc_on;
use fluidc::fluid::one_pass;
use fluidc::fluid::update_vertex;
use fluidc::fluid::FluidcError;
use fluidc::fluid::State;
use fluidc::graph::AdjGraph;
use rand::SeedableRng;

fn graph_from(adj: Vec<Vec<usize>>) -> AdjGraph {
    AdjGraph::from_adjacency(adj).expect("well-formed adjacency")
}

fn clique_adj(members: &[usize], n: usize) -> Vec<Vec<usize>> {
    let mut adj = vec![Vec::new(); n];
    for &a in members {
        for &b in members {
            if a != b {
                adj[a].push(b);
            }
        }
    }
    adj
}

fn sorted_groups(m: &HashMap<usize, Vec<usize>>) -> Vec<Vec<usize>> {
    let mut gs: Vec<Vec<usize>> = m.values().cloned().collect();
    for g in gs.iter_mut() {
        g.sort();
    }
    gs.sort();
    gs
}

fn path_graph(n: usize) -> AdjGraph {
    let mut adj = vec![Vec::new(); n];
    for v in 0..n - 1 {
        adj[v].push(v + 1);
        adj[v + 1].push(v);
    }
    graph_from(adj)
}

#[test]
fn partition_completeness_connected() {
    let g = path_graph(4);
    let out = fluidc_on(&g, 2, None, Some(11)).unwrap();
    let m = assemble_groups(&out.assignment, 2);
    let mut seen = vec![0usize; 4];
    for (_, members) in m.iter() {
        for &v in members {
            seen[v] += 1;
        }
    }
    // Every vertex of the connected graph lies in exactly one group.
    assert_eq!(seen, vec![1, 1, 1, 1]);
}

#[test]
fn community_bound() {
    for seed in 0..10u64 {
        let g = path_graph(7);
        let out = fluidc_on(&g, 3, None, Some(seed)).unwrap();
        let m = assemble_groups(&out.assignment, 3);
        assert!(m.len() <= 3);
    }
}

#[test]
fn determinism_under_fixed_seed() {
    let mut adj = clique_adj(&[0, 1, 2], 7);
    let more = clique_adj(&[3, 4, 5], 7);
    for v in 0..7 {
        adj[v].extend(more[v].iter().copied());
    }
    adj[2].push(6);
    adj[6].push(2);
    let g1 = graph_from(adj.clone());
    let g2 = graph_from(adj);
    let a = fluidc_on(&g1, 3, Some(50), Some(42)).unwrap();
    let b = fluidc_on(&g2, 3, Some(50), Some(42)).unwrap();
    assert_eq!(a.assignment, b.assignment);
    assert_eq!(a.sizes, b.sizes);
    assert_eq!(a.passes, b.passes);
    assert_eq!(a.converged, b.converged);
}

#[test]
fn edgeless_converges_in_one_pass() {
    let g = graph_from(vec![Vec::new(); 5]);
    let out = fluidc_on(&g, 3, None, Some(5)).unwrap();
    assert_eq!(out.passes, 1);
    assert!(out.converged);
    // Exactly the three seeds carry a label, one community each.
    assert_eq!(out.sizes, vec![1, 1, 1]);
    let m = assemble_groups(&out.assignment, 3);
    assert_eq!(m.len(), 3);
    for (_, members) in m.iter() {
        assert_eq!(members.len(), 1);
    }
}

#[test]
fn single_clique_preserves_tied_seed_communities() {
    // In a complete graph every surviving community scores exactly 1 at
    // every vertex, so the tie keeps both seed communities alive.
    let g = graph_from(clique_adj(&[0, 1, 2, 3, 4], 5));
    let out = fluidc_on(&g, 2, None, Some(7)).unwrap();
    assert!(out.converged);
    let m = assemble_groups(&out.assignment, 2);
    assert_eq!(m.len(), 2);
    let mut total = 0;
    for (_, members) in m.iter() {
        total += members.len();
    }
    assert_eq!(total, 5);
}

#[test]
fn two_disjoint_cliques_found_exactly() {
    let mut adj = clique_adj(&[0, 1, 2], 6);
    let more = clique_adj(&[3, 4, 5], 6);
    for v in 0..6 {
        adj[v].extend(more[v].iter().copied());
    }
    let mut found = false;
    for seed in 0..50u64 {
        let g = graph_from(adj.clone());
        let out = fluidc_on(&g, 2, None, Some(seed)).unwrap();
        let m = assemble_groups(&out.assignment, 2);
        assert!(m.len() <= 2);
        if out.converged && sorted_groups(&m) == vec![vec![0, 1, 2], vec![3, 4, 5]] {
            found = true;
        }
    }
    // Whenever the two seeds fall into different cliques, the output is
    // exactly the two cliques; some seed among the first fifty does so.
    assert!(found);
}

#[test]
fn density_recomputed_after_single_move() {
    // Vertex 3 carries label 0 but sits amid community 1: it must move, and
    // both communities' densities are recomputed from the updated sizes.
    let g = graph_from(vec![Vec::new(), vec![3], vec![3], vec![1, 2]]);
    let mut st = State {
        assignment: vec![Some(0), Some(1), Some(1), Some(0)],
        sizes: vec![2, 2],
    };
    let mut rng = rand::rngs::StdRng::seed_from_u64(0);
    let moved = update_vertex(&g, &mut st, 3, &mut rng);
    assert!(moved);
    assert_eq!(st.assignment, vec![Some(0), Some(1), Some(1), Some(1)]);
    assert_eq!(st.sizes, vec![1, 3]);
    // Densities exactly match the updated membership counts.
    assert_eq!(1.0f32 / (st.sizes[0] as f32), 1.0f32);
    assert_eq!(1.0f32 / (st.sizes[1] as f32), 1.0f32 / 3.0f32);
}

#[test]
fn converged_state_is_a_fixed_point() {
    let mut adj = clique_adj(&[0, 1, 2], 6);
    let more = clique_adj(&[3, 4, 5], 6);
    for v in 0..6 {
        adj[v].extend(more[v].iter().copied());
    }
    let g = graph_from(adj);
    let out = fluidc_on(&g, 2, None, Some(3)).unwrap();
    assert!(out.converged);
    let before = out.assignment.clone();
    let mut st = State { assignment: out.assignment, sizes: out.sizes };
    let order: Vec<usize> = (0..6).collect();
    let mut rng = rand::rngs::StdRng::seed_from_u64(99);
    let changed = one_pass(&g, &mut st, &order, &mut rng);
    assert!(!changed);
    assert_eq!(st.assignment, before);
}

#[test]
fn invalid_configuration_rejected() {
    let g = path_graph(3);
    assert!(matches!(fluidc_on(&g, 0, None, Some(1)), Err(FluidcError::InvalidConfiguration)));
    assert!(matches!(fluidc_on(&g, 4, None, Some(1)), Err(FluidcError::InvalidConfiguration)));
    let empty = graph_from(Vec::new());
    assert!(matches!(fluidc_on(&empty, 1, None, Some(1)), Err(FluidcError::InvalidConfiguration)));
}

#[test]
fn zero_iteration_cap_runs_no_pass() {
    let g = path_graph(4);
    let out = fluidc_on(&g, 2, Some(0), Some(8)).unwrap();
    assert_eq!(out.passes, 0);
    assert!(!out.converged);
    // Only the two seeds carry a label.
    assert_eq!(out.sizes, vec![1, 1]);
}

#[test]
fn adjacency_validation() {
    assert!(AdjGraph::from_adjacency(vec![vec![1]]).is_none());
    assert!(AdjGraph::from_adjacency(vec![vec![1], vec![0]]).is_some());
}
