use eisenbahn::graph::{EdgeId, NodeId};
use eisenbahn::marks::{
    Element, GhostEvent, GhostRegistry, RemoveSelection, SelectionState, UpdateSelection,
};

fn node(i: usize) -> Element {
    Element::Node(NodeId { idx: i })
}

fn edge(i: usize) -> Element {
    Element::Edge(EdgeId { idx: i })
}

#[test]
fn ghost_update_replaces_the_whole_set() {
    // After add([X, Y]) an update([X]) leaves only X ghosted and Y back
    // to its normal appearance.
    let x = node(0);
    let y = node(1);
    let mut reg = GhostRegistry::new();
    reg.apply(&GhostEvent::add(vec![x, y]));
    assert!(reg.ghosts.contains(&x));
    assert!(reg.ghosts.contains(&y));
    reg.apply(&GhostEvent::update(vec![x]));
    assert!(reg.ghosts.contains(&x));
    assert!(!reg.ghosts.contains(&y));
    assert_eq!(reg.ghosts.len(), 1);
}

#[test]
fn ghost_add_is_idempotent() {
    let x = edge(3);
    let mut reg = GhostRegistry::new();
    reg.apply(&GhostEvent::add(vec![x, x]));
    reg.apply(&GhostEvent::add(vec![x]));
    assert_eq!(reg.ghosts, vec![x]);
}

#[test]
fn ghost_remove_despawns_matching() {
    let x = node(0);
    let y = node(1);
    let z = edge(0);
    let mut reg = GhostRegistry::new();
    reg.apply(&GhostEvent::add(vec![x, y, z]));
    let despawned = reg.apply(&GhostEvent::remove(vec![y, node(9)]));
    assert_eq!(despawned, vec![y]);
    assert!(reg.ghosts.contains(&x));
    assert!(!reg.ghosts.contains(&y));
    assert!(reg.ghosts.contains(&z));
}

#[test]
fn ghost_remove_empty_despawns_all() {
    let x = node(0);
    let y = edge(1);
    let mut reg = GhostRegistry::new();
    reg.apply(&GhostEvent::add(vec![x, y]));
    let despawned = reg.apply(&GhostEvent::remove(Vec::new()));
    assert_eq!(despawned.len(), 2);
    assert!(despawned.contains(&x));
    assert!(despawned.contains(&y));
    assert!(reg.ghosts.is_empty());
}

#[test]
fn ghost_deghost_keeps_entities() {
    let x = node(0);
    let y = node(1);
    let mut reg = GhostRegistry::new();
    reg.apply(&GhostEvent::add(vec![x, y]));
    let despawned = reg.apply(&GhostEvent::deghost(vec![x]));
    assert!(despawned.is_empty());
    assert!(!reg.ghosts.contains(&x));
    assert!(reg.ghosts.contains(&y));
}

#[test]
fn ghost_deghost_empty_clears_all() {
    let x = node(0);
    let mut reg = GhostRegistry::new();
    reg.apply(&GhostEvent::add(vec![x]));
    reg.apply(&GhostEvent::deghost(Vec::new()));
    assert!(reg.ghosts.is_empty());
}

#[test]
fn selection_update_replaces_entirely() {
    let mut sel = SelectionState::new();
    sel.apply_update(&UpdateSelection { entities: vec![node(0), edge(0)] });
    assert_eq!(sel.selected, vec![node(0), edge(0)]);
    sel.apply_update(&UpdateSelection { entities: vec![node(1)] });
    assert_eq!(sel.selected, vec![node(1)]);
    sel.apply_update(&UpdateSelection { entities: Vec::new() });
    assert!(sel.selected.is_empty());
}

#[test]
fn selection_remove_drops_matching() {
    let mut sel = SelectionState::new();
    sel.apply_update(&UpdateSelection { entities: vec![node(0), node(1), node(2)] });
    sel.apply_remove(&RemoveSelection { entities: vec![node(1)] });
    assert_eq!(sel.selected, vec![node(0), node(2)]);
}
