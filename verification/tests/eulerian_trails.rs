//! Scenario tests for the feasibility verdict and the trail builder.

use fleury::Graph;
use fleury::analyzer::count_odd_degree;
use fleury::analyzer::has_eulerian_trail;
use fleury::analyzer::lowest_odd_degree_vertex;
use fleury::analyzer::odd_degree_vertices;
use fleury::fleury::apply_fleury;
use fleury::fleury::fleury_start_point;
use fleury::fleury::fleury_trail;

fn triangle() -> Graph {
    let mut g = Graph::new();
    let v1 = g.add_vertex(1);
    let v2 = g.add_vertex(2);
    let v3 = g.add_vertex(3);
    g.add_edge(v1, v2, "1-2".to_string()).unwrap();
    g.add_edge(v2, v3, "2-3".to_string()).unwrap();
    g.add_edge(v3, v1, "3-1".to_string()).unwrap();
    g
}

fn path_of_four() -> Graph {
    let mut g = Graph::new();
    let v1 = g.add_vertex(1);
    let v2 = g.add_vertex(2);
    let v3 = g.add_vertex(3);
    let v4 = g.add_vertex(4);
    g.add_edge(v1, v2, "1-2".to_string()).unwrap();
    g.add_edge(v2, v3, "2-3".to_string()).unwrap();
    g.add_edge(v3, v4, "3-4".to_string()).unwrap();
    g
}

fn star_of_four_leaves() -> Graph {
    let mut g = Graph::new();
    let center = g.add_vertex(0);
    for label in 1..=4 {
        let leaf = g.add_vertex(label);
        g.add_edge(center, leaf, format!("0-{}", label)).unwrap();
    }
    g
}

fn two_triangles() -> Graph {
    let mut g = Graph::new();
    let mut v = Vec::new();
    for label in 1..=6 {
        v.push(g.add_vertex(label));
    }
    g.add_edge(v[0], v[1], "1-2".to_string()).unwrap();
    g.add_edge(v[1], v[2], "2-3".to_string()).unwrap();
    g.add_edge(v[2], v[0], "3-1".to_string()).unwrap();
    g.add_edge(v[3], v[4], "4-5".to_string()).unwrap();
    g.add_edge(v[4], v[5], "5-6".to_string()).unwrap();
    g.add_edge(v[5], v[3], "6-4".to_string()).unwrap();
    g
}

/// The demonstration graph: six vertices, eight edges, odd degrees at the
/// vertices labelled 1 (degree five) and 2 (degree three).
fn demo_graph() -> Graph {
    let mut g = Graph::new();
    let n1 = g.add_vertex(1);
    let n2 = g.add_vertex(2);
    let n3 = g.add_vertex(3);
    let n4 = g.add_vertex(4);
    let n5 = g.add_vertex(5);
    let n6 = g.add_vertex(6);
    g.add_edge(n1, n2, "1-2".to_string()).unwrap();
    g.add_edge(n1, n3, "1-3".to_string()).unwrap();
    g.add_edge(n1, n4, "1-4".to_string()).unwrap();
    g.add_edge(n1, n5, "1-5".to_string()).unwrap();
    g.add_edge(n1, n6, "1-6".to_string()).unwrap();
    g.add_edge(n2, n3, "2-3".to_string()).unwrap();
    g.add_edge(n2, n5, "2-5".to_string()).unwrap();
    g.add_edge(n4, n6, "4-6".to_string()).unwrap();
    g
}

#[test]
fn connectivity_differs_from_the_cyclicity_proxy() {
    // A triangle is connected; two disjoint triangles are not, although
    // the cyclicity proxy accepts both.
    assert!(triangle().is_connected());
    let two = two_triangles();
    assert!(!two.is_connected());
    assert!(has_eulerian_trail(&two));
    // An open path is connected, although the proxy rejects it.
    assert!(path_of_four().is_connected());
}

#[test]
fn isolated_vertices_do_not_break_connectivity() {
    let mut g = triangle();
    g.add_vertex(99);
    assert!(g.is_connected());
    // A graph with no edges at all is connected in the Eulerian sense.
    let mut empty = Graph::new();
    assert!(empty.is_connected());
    empty.add_vertex(1);
    assert!(empty.is_connected());
}

#[test]
fn circuit_triangle_is_feasible() {
    let g = triangle();
    assert_eq!(count_odd_degree(&g), 0);
    assert!(has_eulerian_trail(&g));
}

#[test]
fn circuit_triangle_trail_closes_and_consumes_all_edges() {
    let g = triangle();
    let trail = apply_fleury(&g).expect("triangle qualifies");
    assert_eq!(trail, vec![(1, 2), (2, 3), (3, 1)]);
    assert_eq!(trail.len(), g.edge_count());
    assert_eq!(trail[0].0, trail[trail.len() - 1].1);
}

#[test]
fn open_path_is_rejected_by_cyclicity_proxy() {
    // An acyclic path carries a walkable trail, yet the feasibility rule
    // asks for a cycle, so the answer is false and nothing is built.
    let g = path_of_four();
    assert_eq!(count_odd_degree(&g), 2);
    assert!(!has_eulerian_trail(&g));
    assert!(apply_fleury(&g).is_none());
}

#[test]
fn open_path_builder_walks_it_end_to_end() {
    let g = path_of_four();
    // Both odd vertices have degree one; the tie goes to the first one.
    assert_eq!(fleury_start_point(&g), 0);
    let trail = fleury_trail(&g);
    assert_eq!(trail, vec![(1, 2), (2, 3), (3, 4)]);
}

#[test]
fn star_with_four_odd_leaves_is_infeasible() {
    let g = star_of_four_leaves();
    assert_eq!(count_odd_degree(&g), 4);
    assert!(!has_eulerian_trail(&g));
    assert!(apply_fleury(&g).is_none());
}

#[test]
fn disconnected_pair_of_triangles_passes_proxy_with_partial_trail() {
    // All degrees are even and the edges contain a cycle, so the
    // cyclicity proxy accepts the graph even though it is disconnected;
    // the builder then exhausts only the component it starts in.
    let g = two_triangles();
    assert!(has_eulerian_trail(&g));
    let trail = apply_fleury(&g).expect("the proxy accepts it");
    assert_eq!(trail, vec![(1, 2), (2, 3), (3, 1)]);
    assert!(trail.len() < g.edge_count());
}

#[test]
fn demo_graph_has_open_trail_consuming_every_edge() {
    let g = demo_graph();
    assert_eq!(odd_degree_vertices(&g), vec![0, 1]);
    // Vertex 1 (label 2) has degree three, less than vertex 0's five.
    assert_eq!(lowest_odd_degree_vertex(&g), 1);
    assert!(has_eulerian_trail(&g));
    let trail = apply_fleury(&g).expect("the demonstration graph qualifies");
    assert_eq!(
        trail,
        vec![(2, 1), (1, 3), (3, 2), (2, 5), (5, 1), (1, 4), (4, 6), (6, 1)]
    );
    assert_eq!(trail.len(), g.edge_count());
}

#[test]
fn self_loop_alone_is_a_circuit() {
    let mut g = Graph::new();
    let v = g.add_vertex(7);
    g.add_edge(v, v, "loop".to_string()).unwrap();
    assert_eq!(g.degree(v), 2);
    assert_eq!(count_odd_degree(&g), 0);
    assert!(has_eulerian_trail(&g));
    let trail = apply_fleury(&g).expect("a self-loop is a cycle");
    assert_eq!(trail, vec![(7, 7)]);
}

#[test]
fn parallel_edges_form_a_circuit() {
    let mut g = Graph::new();
    let a = g.add_vertex(1);
    let b = g.add_vertex(2);
    g.add_edge(a, b, "first".to_string()).unwrap();
    g.add_edge(a, b, "second".to_string()).unwrap();
    assert_eq!(g.degree(a), 2);
    assert_eq!(g.degree(b), 2);
    assert!(has_eulerian_trail(&g));
    let trail = apply_fleury(&g).expect("two parallel edges form a cycle");
    assert_eq!(trail, vec![(1, 2), (2, 1)]);
}

#[test]
fn first_available_rule_can_stop_early_on_a_connected_circuit() {
    // Two parallel pairs sharing the middle vertex: connected, all
    // degrees even, so a full circuit exists; but the walk takes the
    // first edge back to its start and strands the second pair.  This is
    // the cost of skipping the bridge test, kept for fidelity.
    let mut g = Graph::new();
    let a = g.add_vertex(1);
    let b = g.add_vertex(2);
    let c = g.add_vertex(3);
    g.add_edge(a, b, "out".to_string()).unwrap();
    g.add_edge(b, a, "back".to_string()).unwrap();
    g.add_edge(b, c, "out again".to_string()).unwrap();
    g.add_edge(c, b, "back again".to_string()).unwrap();
    assert!(g.is_connected());
    assert!(has_eulerian_trail(&g));
    let trail = apply_fleury(&g).expect("all degrees even and cyclic");
    assert_eq!(trail, vec![(1, 2), (2, 1)]);
    assert!(trail.len() < g.edge_count());
}

#[test]
fn queries_are_idempotent_and_do_not_mutate() {
    let g = demo_graph();
    let d_first = g.degree(0);
    let d_second = g.degree(0);
    assert_eq!(d_first, d_second);
    let n_first = g.neighbors(1);
    let n_second = g.neighbors(1);
    assert_eq!(n_first, n_second);
    let o_first = odd_degree_vertices(&g);
    let o_second = odd_degree_vertices(&g);
    assert_eq!(o_first, o_second);
    assert_eq!(g.edge_count(), 8);
    assert_eq!(g.degree(0), d_first);
}

#[test]
fn builder_leaves_the_given_graph_unchanged() {
    let g = triangle();
    let before = g.edge_count();
    let _ = apply_fleury(&g);
    let _ = fleury_trail(&g);
    assert_eq!(g.edge_count(), before);
    assert_eq!(g.degree(0), 2);
}

#[test]
fn trail_length_never_exceeds_edge_count() {
    for g in [triangle(), two_triangles(), demo_graph()] {
        if let Some(trail) = apply_fleury(&g) {
            assert!(trail.len() <= g.edge_count());
        }
    }
    // On genuinely feasible inputs every edge is consumed.
    let g = triangle();
    assert_eq!(apply_fleury(&g).unwrap().len(), g.edge_count());
    let g = demo_graph();
    assert_eq!(apply_fleury(&g).unwrap().len(), g.edge_count());
}
