use gpu_annealing::graph::DependencyGraph;

fn chain_of_two() -> DependencyGraph {
    let mut g = DependencyGraph::new();
    let a = g.add_node();
    let b = g.add_node();
    g.add_edge(a, b);
    g
}

fn position(order: &[usize], v: usize) -> usize {
    order.iter().position(|&x| x == v).unwrap()
}

#[test]
fn dag_of_two_is_accepted() {
    let g = chain_of_two();
    assert!(g.check_acyclic().is_ok());
    assert!(g.is_acyclic());
    assert_eq!(g.node_count(), 2);
}

#[test]
fn dag_of_two_is_listed_in_dependency_order() {
    let g = chain_of_two();
    let order = g.topological_order();
    assert_eq!(order.len(), 2);
    assert_eq!(order, vec![0, 1]);
}

#[test]
fn two_node_cycle_is_refused() {
    let mut g = chain_of_two();
    g.add_edge(1, 0);
    let r = g.check_acyclic();
    assert_eq!(r, Err("Graph contains a cycle; must be a DAG"));
    assert!(!g.is_acyclic());
    assert!(g.topological_order().is_empty());
}

#[test]
fn self_loop_is_a_cycle() {
    let mut g = DependencyGraph::new();
    let a = g.add_node();
    g.add_edge(a, a);
    assert!(g.check_acyclic().is_err());
    assert!(g.topological_order().is_empty());
}

#[test]
fn longer_cycle_is_refused() {
    let g = DependencyGraph::from_edges(4, &vec![(0, 1), (1, 2), (2, 3), (3, 1)]);
    assert!(g.check_acyclic().is_err());
}

#[test]
fn add_node_returns_consecutive_indices() {
    let mut g = DependencyGraph::new();
    assert_eq!(g.node_count(), 0);
    assert_eq!(g.add_node(), 0);
    assert_eq!(g.add_node(), 1);
    assert_eq!(g.add_node(), 2);
    assert_eq!(g.node_count(), 3);
}

#[test]
fn empty_graph_is_acyclic_with_empty_order() {
    let g = DependencyGraph::new();
    assert!(g.check_acyclic().is_ok());
    assert!(g.topological_order().is_empty());
}

#[test]
fn reversed_chain_is_listed_from_the_source() {
    let g = DependencyGraph::from_edges(3, &vec![(2, 1), (1, 0)]);
    assert_eq!(g.topological_order(), vec![2, 1, 0]);
}

#[test]
fn diamond_order_respects_every_edge() {
    let edges = vec![(0, 1), (0, 2), (1, 3), (2, 3), (4, 0)];
    let g = DependencyGraph::from_edges(6, &edges);
    let order = g.topological_order();
    assert_eq!(order.len(), 6);
    let mut sorted = order.clone();
    sorted.sort();
    assert_eq!(sorted, vec![0, 1, 2, 3, 4, 5]);
    for &(a, b) in &edges {
        assert!(position(&order, a) < position(&order, b));
    }
}

#[test]
fn from_edges_matches_step_by_step_building() {
    let built = chain_of_two();
    let direct = DependencyGraph::from_edges(2, &vec![(0, 1)]);
    assert_eq!(built.node_count(), direct.node_count());
    assert_eq!(built.topological_order(), direct.topological_order());
}

#[test]
fn unconnected_nodes_come_back_in_toposort_order() {
    let g = DependencyGraph::from_edges(2, &vec![]);
    assert_eq!(g.topological_order(), vec![1, 0]);
}

#[test]
fn edge_count_follows_added_edges() {
    let mut g = chain_of_two();
    assert_eq!(g.edge_count(), 1);
    g.add_edge(0, 0);
    assert_eq!(g.edge_count(), 2);
    assert_eq!(DependencyGraph::new().edge_count(), 0);
}

#[test]
fn later_edges_come_first_among_successors() {
    // Node 0 has successors 1 and 2; 2 was added last, so the search visits it
    // first and finishes it first.
    let g = DependencyGraph::from_edges(3, &vec![(0, 1), (0, 2)]);
    let order = g.topological_order();
    assert_eq!(order[0], 0);
    assert_eq!(order.len(), 3);
}
