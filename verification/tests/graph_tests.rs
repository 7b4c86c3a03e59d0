use eisenbahn::graph::{GraphError, TrackGraph};
use eisenbahn::num::Vec2i;

#[test]
fn round_trip_edge_query() {
    // Adding two nodes and an edge, then asking either node for its
    // edges, returns exactly one edge referencing the other node.
    let mut g = TrackGraph::new();
    let a = g.add_node();
    let b = g.add_node();
    let e = g.add_edge(a, b, 7).unwrap();

    let from_a = g.edges_of(a);
    assert_eq!(from_a.len(), 1);
    assert_eq!(from_a[0].0, b);
    assert_eq!(from_a[0].1, e);

    let from_b = g.edges_of(b);
    assert_eq!(from_b.len(), 1);
    assert_eq!(from_b[0].0, a);
    assert_eq!(from_b[0].1, e);
}

#[test]
fn self_loop_is_rejected() {
    let mut g = TrackGraph::new();
    let a = g.add_node();
    assert_eq!(g.add_edge(a, a, 1), Err(GraphError::SelfLoop));
    assert_eq!(g.edges_of(a).len(), 0);
}

#[test]
fn removing_sole_edge_keeps_nodes() {
    // Graph-level pruning policy: removing the only edge incident to a
    // node never deletes the node itself.
    let mut g = TrackGraph::new();
    let a = g.add_node();
    let b = g.add_node();
    let e = g.add_edge(a, b, 3).unwrap();
    g.remove_edge(e);
    assert!(g.contains_node(a));
    assert!(g.contains_node(b));
    assert!(!g.contains_edge_id(e));
    assert_eq!(g.degree(a), 0);
    assert_eq!(g.degree(b), 0);
}

#[test]
fn remove_node_removes_incident_edges() {
    let mut g = TrackGraph::new();
    let a = g.add_node();
    let b = g.add_node();
    let c = g.add_node();
    let eab = g.add_edge(a, b, 1).unwrap();
    let ebc = g.add_edge(b, c, 1).unwrap();
    g.remove_node(b);
    assert!(!g.contains_node(b));
    assert!(!g.contains_edge_id(eab));
    assert!(!g.contains_edge_id(ebc));
    assert!(g.contains_node(a));
    assert!(g.contains_node(c));
}

#[test]
fn remove_edge_between_takes_oldest() {
    let mut g = TrackGraph::new();
    let a = g.add_node();
    let b = g.add_node();
    let e1 = g.add_edge(a, b, 1).unwrap();
    let e2 = g.add_edge(a, b, 2).unwrap();
    let removed = g.remove_edge_between(a, b).unwrap();
    assert_eq!(removed, e1);
    assert!(g.contains_edge_id(e2));
    assert_eq!(g.remove_edge_between(b, a), Some(e2));
    assert_eq!(g.remove_edge_between(a, b), None);
}

#[test]
fn multi_edges_are_kept_apart() {
    let mut g = TrackGraph::new();
    let a = g.add_node();
    let b = g.add_node();
    let e1 = g.add_edge(a, b, 1).unwrap();
    let e2 = g.add_edge(a, b, 9).unwrap();
    assert_ne!(e1, e2);
    assert_eq!(g.degree(a), 2);
}

#[test]
fn extend_and_split() {
    let mut g = TrackGraph::new();
    let (a, b, e) = g.add_unconnected_track(10);
    assert_ne!(a, b);
    assert!(g.contains_edge_id(e));

    let (c, e2) = g.extend_track(b, 5);
    assert!(g.contains_node(c));
    assert!(g.contains_edge_id(e2));
    assert_eq!(g.degree(b), 2);

    let (m, left, right) = g.split_track(a, b, e, 4, 6);
    assert!(!g.contains_edge_id(e));
    assert!(g.contains_edge_id(left));
    assert!(g.contains_edge_id(right));
    assert_eq!(g.degree(m), 2);
    assert_eq!(g.degree(a), 1);
}

fn chain_positions() -> Vec<Vec2i> {
    vec![
        Vec2i { x: 0, y: 0 },
        Vec2i { x: 0, y: 10 },
        Vec2i { x: 0, y: 15 },
        Vec2i { x: 10, y: 15 },
    ]
}

#[test]
fn shortest_path_on_chain_and_shortcut() {
    // Chain A-B-C-D at (0,0),(0,10),(0,15),(10,15): the only route costs
    // 10 + 5 + 10 = 25. A direct B-D edge of length floor(sqrt(125)) = 11
    // then makes [A,B,D] the cheaper route at 10 + 11 = 21.
    let mut g = TrackGraph::new();
    let a = g.add_node();
    let b = g.add_node();
    let c = g.add_node();
    let d = g.add_node();
    g.add_edge(a, b, 10).unwrap();
    g.add_edge(b, c, 5).unwrap();
    g.add_edge(c, d, 10).unwrap();
    let positions = chain_positions();

    let (cost, path) = g.shortest_path(&positions, a, d).unwrap();
    assert_eq!(cost, 25);
    assert_eq!(path, vec![a, b, c, d]);

    g.add_edge(b, d, 11).unwrap();
    let (cost2, path2) = g.shortest_path(&positions, a, d).unwrap();
    assert_eq!(cost2, 21);
    assert_eq!(path2, vec![a, b, d]);
}

#[test]
fn shortest_path_none_when_disconnected() {
    let mut g = TrackGraph::new();
    let a = g.add_node();
    let b = g.add_node();
    let positions = vec![Vec2i { x: 0, y: 0 }, Vec2i { x: 5, y: 5 }];
    assert_eq!(g.shortest_path(&positions, a, b), None);
}

#[test]
fn shortest_path_to_self_is_free() {
    let mut g = TrackGraph::new();
    let a = g.add_node();
    let positions = vec![Vec2i { x: 2, y: 3 }];
    let (cost, path) = g.shortest_path(&positions, a, a).unwrap();
    assert_eq!(cost, 0);
    assert_eq!(path, vec![a]);
}

#[test]
fn shortest_path_uses_live_positions_not_stored_weights() {
    // The stored weight is stale on purpose; the query must price the
    // edge from the live positions.
    let mut g = TrackGraph::new();
    let a = g.add_node();
    let b = g.add_node();
    g.add_edge(a, b, 1_000_000).unwrap();
    let positions = vec![Vec2i { x: 0, y: 0 }, Vec2i { x: 0, y: 42 }];
    let (cost, _) = g.shortest_path(&positions, a, b).unwrap();
    assert_eq!(cost, 42);
}

#[test]
fn contains_edge_sees_either_direction() {
    let mut g = TrackGraph::new();
    let a = g.add_node();
    let b = g.add_node();
    let c = g.add_node();
    assert!(!g.contains_edge(a, b));
    let e = g.add_edge(a, b, 1).unwrap();
    assert!(g.contains_edge(a, b));
    assert!(g.contains_edge(b, a));
    assert!(!g.contains_edge(a, c));
    g.remove_edge(e);
    assert!(!g.contains_edge(a, b));
}
