use eisenbahn::editor::{nearest_within, EditorEvent, TrackEditor, TrackEditorMode};
use eisenbahn::marks::{Element, GhostAction, GhostRegistry, SelectionState};
use eisenbahn::num::Vec2i;

fn at(x: i64, y: i64) -> Vec2i {
    Vec2i { x, y }
}

#[test]
fn press_opens_session() {
    let mut ed = TrackEditor::new();
    assert_eq!(ed.mode(), TrackEditorMode::Idle);
    ed.press(at(0, 0));
    assert_eq!(ed.mode(), TrackEditorMode::PathBuilding);
    let s = ed.session.unwrap();
    assert!(ed.graph.contains_node(s.anchor));
    assert!(ed.graph.contains_node(s.cursor));
    assert!(ed.graph.contains_edge_id(s.edge));
    assert_eq!(ed.selected, vec![s.anchor]);
}

#[test]
fn press_again_commits_and_continues() {
    let mut ed = TrackEditor::new();
    ed.press(at(0, 0));
    let first = ed.session.unwrap();
    ed.pointer_moved(at(0, 100));
    ed.press(at(0, 100));
    assert_eq!(ed.mode(), TrackEditorMode::PathBuilding);
    let second = ed.session.unwrap();
    // The frozen cursor becomes the new anchor and the selection.
    assert_eq!(second.anchor, first.cursor);
    assert_eq!(ed.selected, vec![first.cursor]);
    // The committed edge still stands and the chain grew by one node.
    assert!(ed.graph.contains_edge_id(first.edge));
    assert!(ed.graph.contains_edge_id(second.edge));
    assert_ne!(second.cursor, first.cursor);
}

#[test]
fn press_near_existing_node_snaps_and_ends_chain() {
    let mut ed = TrackEditor::new();
    ed.press(at(0, 0));
    let first = ed.session.unwrap();
    ed.pointer_moved(at(0, 100));
    ed.press(at(0, 100));
    let second = ed.session.unwrap();
    // The original anchor is eligible again; pressing within the snap
    // radius of it re-wires the loose end there and ends the chain.
    ed.pointer_moved(at(0, 2));
    ed.press(at(0, 2));
    assert_eq!(ed.mode(), TrackEditorMode::Idle);
    assert!(ed.session.is_none());
    // The in-progress cursor and its provisional edge are gone.
    assert!(!ed.graph.contains_node(second.cursor));
    assert!(!ed.graph.contains_edge_id(second.edge));
    // The loose end was wired to the existing node: the new anchor keeps
    // degree two (committed edge plus the re-wired one).
    assert_eq!(ed.graph.degree(second.anchor), 2);
    let n = ed.graph.edges_of(first.anchor);
    assert_eq!(n.len(), 2);
}

#[test]
fn attraction_is_stable_within_a_frame() {
    // Recomputing the attraction candidate twice on an unchanged frame
    // yields the same candidate.
    let mut ed = TrackEditor::new();
    ed.press(at(0, 0));
    ed.pointer_moved(at(0, 100));
    ed.press(at(0, 100));
    let r1 = ed.attraction(at(0, 5));
    let r2 = ed.attraction(at(0, 5));
    assert_eq!(r1, r2);
    assert!(r1.is_some());
    let r3 = ed.attraction(at(50, 50));
    let r4 = ed.attraction(at(50, 50));
    assert_eq!(r3, r4);
    assert_eq!(r3, None);
}

#[test]
fn attraction_radius_is_strict() {
    let mut ed = TrackEditor::new();
    ed.press(at(0, 0));
    ed.pointer_moved(at(0, 100));
    ed.press(at(0, 100));
    // The node at the origin is the only eligible one.
    assert!(ed.attraction(at(0, 9)).is_some());
    assert_eq!(ed.attraction(at(0, 10)), None);
}

#[test]
fn cancel_retracts_dangling_stub() {
    // Editor-level pruning: cancelling removes the cursor, its edges, and
    // every neighbour the removal leaves at degree one or less.
    let mut ed = TrackEditor::new();
    ed.press(at(0, 0));
    let first = ed.session.unwrap();
    ed.pointer_moved(at(0, 100));
    ed.press(at(0, 100));
    let second = ed.session.unwrap();
    ed.cancel();
    assert_eq!(ed.mode(), TrackEditorMode::Idle);
    // Cursor and provisional edge are gone.
    assert!(!ed.graph.contains_node(second.cursor));
    assert!(!ed.graph.contains_edge_id(second.edge));
    // The frozen middle node dropped to degree one, so it went too,
    // taking the committed edge with it.
    assert!(!ed.graph.contains_node(second.anchor));
    assert!(!ed.graph.contains_edge_id(first.edge));
    // The first anchor was not the cursor's neighbour, so it stays even
    // though it is now isolated.
    assert!(ed.graph.contains_node(first.anchor));
    assert!(ed.selected.is_empty());
}

#[test]
fn cancel_when_idle_is_a_no_op() {
    let mut ed = TrackEditor::new();
    ed.cancel();
    assert_eq!(ed.mode(), TrackEditorMode::Idle);
    assert_eq!(ed.drain_events().len(), 0);
}

#[test]
fn events_drive_ghost_and_selection_state() {
    let mut ed = TrackEditor::new();
    ed.press(at(0, 0));
    let s = ed.session.unwrap();
    let mut ghosts = GhostRegistry::new();
    let mut selection = SelectionState::new();
    for ev in ed.drain_events() {
        match ev {
            EditorEvent::Selection(u) => selection.apply_update(&u),
            EditorEvent::Ghosts(g) => {
                ghosts.apply(&g);
            }
        }
    }
    // The anchor is selected; the cursor and provisional edge are ghosts.
    assert_eq!(selection.selected, vec![Element::Node(s.anchor)]);
    assert!(ghosts.ghosts.contains(&Element::Node(s.cursor)));
    assert!(ghosts.ghosts.contains(&Element::Edge(s.edge)));
    assert!(!ghosts.ghosts.contains(&Element::Node(s.anchor)));

    // Committing deghosts the segment and moves the selection on.
    ed.pointer_moved(at(0, 100));
    ed.press(at(0, 100));
    let s2 = ed.session.unwrap();
    for ev in ed.drain_events() {
        match ev {
            EditorEvent::Selection(u) => selection.apply_update(&u),
            EditorEvent::Ghosts(g) => {
                ghosts.apply(&g);
            }
        }
    }
    assert_eq!(selection.selected, vec![Element::Node(s.cursor)]);
    assert!(!ghosts.ghosts.contains(&Element::Node(s.cursor)));
    assert!(!ghosts.ghosts.contains(&Element::Edge(s.edge)));
    assert!(ghosts.ghosts.contains(&Element::Node(s2.cursor)));
    assert!(ghosts.ghosts.contains(&Element::Edge(s2.edge)));
}

#[test]
fn cancel_event_despawns_ghosts() {
    let mut ed = TrackEditor::new();
    ed.press(at(0, 0));
    let s = ed.session.unwrap();
    ed.drain_events();
    ed.cancel();
    let evs = ed.drain_events();
    assert_eq!(evs.len(), 2);
    match &evs[0] {
        EditorEvent::Ghosts(g) => {
            assert!(matches!(g.action, GhostAction::Remove));
            assert_eq!(g.entities, vec![Element::Node(s.cursor), Element::Edge(s.edge)]);
        }
        _ => panic!("expected a ghost event first"),
    }
    match &evs[1] {
        EditorEvent::Selection(u) => assert!(u.entities.is_empty()),
        _ => panic!("expected a selection clear"),
    }
}

#[test]
fn pointer_moved_reports_stale_edges() {
    let mut ed = TrackEditor::new();
    ed.press(at(0, 0));
    let s = ed.session.unwrap();
    let stale = ed.pointer_moved(at(5, 5));
    assert_eq!(stale, vec![s.edge]);
    assert_eq!(ed.positions[s.cursor.idx], at(5, 5));
}

#[test]
fn find_route_follows_built_track() {
    let mut ed = TrackEditor::new();
    ed.press(at(0, 0));
    let first = ed.session.unwrap();
    ed.pointer_moved(at(0, 100));
    ed.press(at(0, 100));
    let second = ed.session.unwrap();
    ed.pointer_moved(at(100, 100));
    ed.press(at(100, 100));
    let third = ed.session.unwrap();
    ed.cancel();
    // Cancel retracts the dangling stub: the cursor goes, and the last
    // committed node drops to degree one and goes with it. What remains
    // is the first committed segment (0,0)-(0,100).
    assert!(ed.graph.contains_node(first.anchor));
    assert!(ed.graph.contains_node(second.anchor));
    assert!(!ed.graph.contains_node(third.anchor));
    let (cost, path) = ed.find_route(first.anchor, second.anchor).unwrap();
    assert_eq!(cost, 100);
    assert_eq!(path, vec![first.anchor, second.anchor]);
}

#[test]
fn nearest_within_picks_first_closest() {
    let points = vec![at(0, 0), at(5, 0)];
    assert_eq!(nearest_within(&points, at(4, 0), 10), Some(1));
    assert_eq!(nearest_within(&points, at(100, 0), 10), None);
    // Equal distances keep the earlier point.
    let twins = vec![at(0, 0), at(0, 0)];
    assert_eq!(nearest_within(&twins, at(1, 0), 10), Some(0));
    // The radius is strict.
    let single = vec![at(0, 0)];
    assert_eq!(nearest_within(&single, at(10, 0), 10), None);
    assert_eq!(nearest_within(&single, at(9, 0), 10), Some(0));
    assert_eq!(nearest_within(&Vec::new(), at(0, 0), 10), None);
}
