use eisenbahn::graph::{EdgeId, NodeId};
use eisenbahn::num::Vec2i;
use eisenbahn::train::{track_hover_hit, track_pos_to_vec2, EdgeComp, TrackPosition};

fn at(x: i64, y: i64) -> Vec2i {
    Vec2i { x, y }
}

fn geom(a: Vec2i, b: Vec2i) -> EdgeComp {
    EdgeComp { a: NodeId { idx: 0 }, b: NodeId { idx: 1 }, pos_a: a, pos_b: b }
}

#[test]
fn hover_projects_onto_segment() {
    let geoms = vec![(EdgeId { idx: 0 }, geom(at(0, 0), at(0, 10)))];
    let hit = track_hover_hit(&geoms, at(3, 5)).unwrap();
    assert_eq!(hit.distance, 3);
    assert_eq!(hit.world_pos, at(0, 5));
    assert_eq!(hit.track.current_track, EdgeId { idx: 0 });
    assert_eq!(hit.track.lin_pos, 5);
}

#[test]
fn hover_clamps_to_endpoints() {
    let geoms = vec![(EdgeId { idx: 0 }, geom(at(0, 0), at(0, 10)))];
    // Beyond endpoint b the projection clamps to the far end.
    let hit = track_hover_hit(&geoms, at(0, 14)).unwrap();
    assert_eq!(hit.track.lin_pos, 10);
    assert_eq!(hit.world_pos, at(0, 10));
    // Before endpoint a it clamps to the near end.
    let hit2 = track_hover_hit(&geoms, at(0, -4)).unwrap();
    assert_eq!(hit2.track.lin_pos, 0);
    assert_eq!(hit2.world_pos, at(0, 0));
}

#[test]
fn hover_rejects_far_pointers() {
    let geoms = vec![(EdgeId { idx: 0 }, geom(at(0, 0), at(0, 10)))];
    assert!(track_hover_hit(&geoms, at(20, 5)).is_some());
    assert!(track_hover_hit(&geoms, at(21, 5)).is_none());
}

#[test]
fn hover_prefers_strictly_closer_and_keeps_first_on_tie() {
    let near = (EdgeId { idx: 7 }, geom(at(0, 0), at(0, 10)));
    let far = (EdgeId { idx: 8 }, geom(at(6, 0), at(6, 10)));
    // The pointer at (2,5) is 2 from the first edge and 4 from the second.
    let hit = track_hover_hit(&vec![far, near], at(2, 5)).unwrap();
    assert_eq!(hit.track.current_track, EdgeId { idx: 7 });
    // Two identical edges tie; the earlier one wins.
    let twin_a = (EdgeId { idx: 1 }, geom(at(0, 0), at(0, 10)));
    let twin_b = (EdgeId { idx: 2 }, geom(at(0, 0), at(0, 10)));
    let hit2 = track_hover_hit(&vec![twin_a, twin_b], at(1, 5)).unwrap();
    assert_eq!(hit2.track.current_track, EdgeId { idx: 1 });
}

#[test]
fn resolve_interpolates_between_endpoints() {
    let pos = TrackPosition { current_track: EdgeId { idx: 0 }, lin_pos: 5 };
    assert_eq!(track_pos_to_vec2(&pos, &geom(at(0, 0), at(0, 10))), at(0, 5));
    let end = TrackPosition { current_track: EdgeId { idx: 0 }, lin_pos: 10 };
    assert_eq!(track_pos_to_vec2(&end, &geom(at(0, 0), at(0, 10))), at(0, 10));
    let start = TrackPosition { current_track: EdgeId { idx: 0 }, lin_pos: 0 };
    assert_eq!(track_pos_to_vec2(&start, &geom(at(0, 0), at(0, 10))), at(0, 0));
}

#[test]
fn moving_endpoints_keeps_absolute_offset() {
    // The train keeps its absolute offset, re-clamped to the new length,
    // and stays on the segment between the new endpoints.
    let pos = TrackPosition { current_track: EdgeId { idx: 0 }, lin_pos: 5 };
    // Lengthening the edge keeps the train 5 units from `a`, not at the
    // old ratio (which would be 10 on a 20-long edge).
    assert_eq!(track_pos_to_vec2(&pos, &geom(at(0, 0), at(0, 20))), at(0, 5));
    // Shortening the edge below the offset re-clamps to the new end.
    assert_eq!(track_pos_to_vec2(&pos, &geom(at(0, 0), at(0, 4))), at(0, 4));
    // Moving `a` moves the measured origin.
    assert_eq!(track_pos_to_vec2(&pos, &geom(at(0, 2), at(0, 20))), at(0, 7));
}

#[test]
fn degenerate_edge_resolves_to_its_point() {
    let pos = TrackPosition { current_track: EdgeId { idx: 0 }, lin_pos: 5 };
    assert_eq!(track_pos_to_vec2(&pos, &geom(at(3, 3), at(3, 3))), at(3, 3));
}

#[test]
fn diagonal_resolution_rounds_towards_zero() {
    // Segment (0,0)-(30,40) has length 50; offset 25 lands halfway at
    // (15,20) exactly.
    let pos = TrackPosition { current_track: EdgeId { idx: 0 }, lin_pos: 25 };
    assert_eq!(track_pos_to_vec2(&pos, &geom(at(0, 0), at(30, 40))), at(15, 20));
}
