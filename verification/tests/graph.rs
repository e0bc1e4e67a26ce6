use stately::graph::Graph;

#[test]
fn an_empty_graph_has_no_cycle() {
    let graph: Graph<u32> = Graph::new(Vec::new());

    assert!(!graph.is_cyclical());
}

#[test]
fn nodes_without_edges_have_no_cycle() {
    let graph = Graph::new(vec![1u32, 2, 3]);

    assert!(!graph.is_cyclical());
}

#[test]
fn a_self_loop_is_a_cycle() {
    let mut graph = Graph::new(vec![1u32, 2]);

    graph.add_edge(2, 2);

    assert!(graph.is_cyclical());
}

#[test]
fn a_mutual_loop_is_a_cycle() {
    let mut graph = Graph::new(vec!['a', 'b']);

    graph.add_edge('a', 'b');
    graph.add_edge('b', 'a');

    assert!(graph.is_cyclical());
}

#[test]
fn a_chain_has_no_cycle() {
    let mut graph = Graph::new(vec![1u32, 2, 3, 4]);

    graph.add_edge(1, 2);
    graph.add_edge(2, 3);
    graph.add_edge(3, 4);

    assert!(!graph.is_cyclical());
}

#[test]
fn a_chain_given_backwards_has_no_cycle() {
    let mut graph = Graph::new(vec![4u32, 3, 2, 1]);

    graph.add_edge(1, 2);
    graph.add_edge(2, 3);
    graph.add_edge(3, 4);

    assert!(!graph.is_cyclical());
}

#[test]
fn two_ways_to_one_node_are_no_cycle() {
    let mut graph = Graph::new(vec![1u32, 2, 3, 4]);

    graph.add_edge(1, 2);
    graph.add_edge(1, 3);
    graph.add_edge(2, 4);
    graph.add_edge(3, 4);

    assert!(!graph.is_cyclical());
}

#[test]
fn a_cycle_in_a_part_of_its_own_is_found() {
    let mut graph = Graph::new(vec![1u32, 2, 3, 4, 5]);

    graph.add_edge(1, 2);
    graph.add_edge(3, 4);
    graph.add_edge(4, 5);
    graph.add_edge(5, 3);

    assert!(graph.is_cyclical());
}

#[test]
fn a_cycle_behind_a_chain_is_found() {
    let mut graph = Graph::new(vec![1u32, 2, 3, 4]);

    graph.add_edge(1, 2);
    graph.add_edge(2, 3);
    graph.add_edge(3, 4);
    graph.add_edge(4, 2);

    assert!(graph.is_cyclical());
}

#[test]
fn a_node_given_twice_is_one_node() {
    let mut graph = Graph::new(vec![7u32, 7, 8]);

    graph.add_edge(7, 8);

    assert!(!graph.is_cyclical());

    graph.add_edge(8, 7);

    assert!(graph.is_cyclical());
}

#[test]
fn an_edge_given_twice_is_one_edge() {
    let mut graph = Graph::new(vec![1u32, 2]);

    graph.add_edge(1, 2);
    graph.add_edge(1, 2);

    assert!(!graph.is_cyclical());
}

#[test]
fn asking_twice_gives_the_same_answer() {
    let mut graph = Graph::new(vec![1u32, 2, 3]);

    graph.add_edge(1, 2);
    graph.add_edge(2, 3);

    assert!(!graph.is_cyclical());
    assert!(!graph.is_cyclical());

    graph.add_edge(3, 1);

    assert!(graph.is_cyclical());
    assert!(graph.is_cyclical());
}

#[test]
fn an_edge_may_lead_to_what_is_no_node() {
    let mut graph = Graph::new(vec![1u32, 2]);

    graph.add_edge(1, 9);
    graph.add_edge(1, 9);
    graph.add_edge(2, 9);
    graph.add_edge(2, 1);
}

#[test]
fn a_cycle_is_found_from_any_node() {
    let mut graph = Graph::new(vec![3u32, 1, 2, 4]);

    graph.add_edge(1, 2);
    graph.add_edge(2, 4);
    graph.add_edge(4, 2);
    graph.add_edge(3, 1);

    assert!(graph.is_cyclical());
}
