//! Tests of the graph model: insertion, removal, degrees, neighbors and
//! the error cases.

use fleury::Graph;
use fleury::GraphError;

#[test]
fn add_vertex_returns_dense_identifiers() {
    let mut g = Graph::new();
    assert_eq!(g.add_vertex(10), 0);
    assert_eq!(g.add_vertex(20), 1);
    assert_eq!(g.add_vertex(10), 2);
    assert_eq!(g.vertex_count(), 3);
    assert_eq!(g.vertex_label(0), 10);
    assert_eq!(g.vertex_label(1), 20);
    assert_eq!(g.vertex_label(2), 10);
}

#[test]
fn add_edge_rejects_missing_endpoints() {
    let mut g = Graph::new();
    let v = g.add_vertex(1);
    assert_eq!(g.add_edge(v, 5, "bad".to_string()), Err(GraphError::InvalidVertex));
    assert_eq!(g.add_edge(9, v, "bad".to_string()), Err(GraphError::InvalidVertex));
    assert_eq!(g.edge_count(), 0);
}

#[test]
fn remove_edge_consumes_exactly_one_instance() {
    let mut g = Graph::new();
    let a = g.add_vertex(1);
    let b = g.add_vertex(2);
    let e1 = g.add_edge(a, b, "first".to_string()).unwrap();
    let e2 = g.add_edge(a, b, "second".to_string()).unwrap();
    assert_eq!(g.degree(a), 2);
    assert_eq!(g.remove_edge(e1), Ok(()));
    assert_eq!(g.degree(a), 1);
    assert_eq!(g.edge_count(), 1);
    // A consumed identifier is stale: removing it again fails.
    assert_eq!(g.remove_edge(e1), Err(GraphError::EdgeNotFound));
    assert_eq!(g.remove_edge(99), Err(GraphError::EdgeNotFound));
    assert_eq!(g.remove_edge(e2), Ok(()));
    assert_eq!(g.edge_count(), 0);
}

#[test]
fn degree_counts_self_loop_twice() {
    let mut g = Graph::new();
    let a = g.add_vertex(1);
    let b = g.add_vertex(2);
    g.add_edge(a, a, "loop".to_string()).unwrap();
    g.add_edge(a, b, "side".to_string()).unwrap();
    assert_eq!(g.degree(a), 3);
    assert_eq!(g.degree(b), 1);
}

#[test]
fn neighbors_lists_one_entry_per_incident_edge_in_insertion_order() {
    let mut g = Graph::new();
    let a = g.add_vertex(1);
    let b = g.add_vertex(2);
    let c = g.add_vertex(3);
    g.add_edge(a, b, "a-b".to_string()).unwrap();
    g.add_edge(c, a, "c-a".to_string()).unwrap();
    g.add_edge(a, b, "a-b again".to_string()).unwrap();
    g.add_edge(a, a, "loop".to_string()).unwrap();
    g.add_edge(b, c, "b-c".to_string()).unwrap();
    assert_eq!(g.neighbors(a), vec![b, c, b, a]);
    assert_eq!(g.neighbors(b), vec![a, a, c]);
    assert_eq!(g.neighbors(c), vec![a, b]);
}

#[test]
fn find_edge_returns_first_live_connection() {
    let mut g = Graph::new();
    let a = g.add_vertex(1);
    let b = g.add_vertex(2);
    let c = g.add_vertex(3);
    let e0 = g.add_edge(a, b, "a-b".to_string()).unwrap();
    let e1 = g.add_edge(b, a, "b-a".to_string()).unwrap();
    assert_eq!(g.find_edge(a, b), Some(e0));
    assert_eq!(g.find_edge(b, a), Some(e0));
    g.remove_edge(e0).unwrap();
    assert_eq!(g.find_edge(a, b), Some(e1));
    assert_eq!(g.find_edge(a, c), None);
}

#[test]
fn edge_endpoints_reports_live_slots_only() {
    let mut g = Graph::new();
    let a = g.add_vertex(1);
    let b = g.add_vertex(2);
    let e = g.add_edge(a, b, "a-b".to_string()).unwrap();
    assert_eq!(g.edge_endpoints(e), Some((a, b)));
    g.remove_edge(e).unwrap();
    assert_eq!(g.edge_endpoints(e), None);
    assert_eq!(g.edge_endpoints(17), None);
}

#[test]
fn edge_label_reports_live_slots_only() {
    let mut g = Graph::new();
    let a = g.add_vertex(1);
    let b = g.add_vertex(2);
    let e = g.add_edge(a, b, "a-b".to_string()).unwrap();
    assert_eq!(g.edge_label(e), Some("a-b".to_string()));
    g.remove_edge(e).unwrap();
    assert_eq!(g.edge_label(e), None);
    assert_eq!(g.edge_label(3), None);
}

#[test]
fn duplicate_is_independent_of_the_original() {
    let mut g = Graph::new();
    let a = g.add_vertex(1);
    let b = g.add_vertex(2);
    let e = g.add_edge(a, b, "a-b".to_string()).unwrap();
    let mut copy = g.duplicate();
    assert_eq!(copy.vertex_count(), 2);
    assert_eq!(copy.edge_count(), 1);
    copy.remove_edge(e).unwrap();
    assert_eq!(copy.edge_count(), 0);
    assert_eq!(g.edge_count(), 1);
    assert_eq!(g.edge_endpoints(e), Some((a, b)));
}
