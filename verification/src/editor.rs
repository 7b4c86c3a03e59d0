//! The interactive track editor: a two-state machine (`Idle`,
//! `PathBuilding`) driven by pointer presses, pointer movement and cancel,
//! owning the track graph, the authoritative node positions and the
//! outgoing selection/ghost event queue.
//!
//! During a build session the anchor node is committed and selected, the
//! cursor node follows the pointer, and one provisional (ghost) edge joins
//! them. Because the editor owns the positions, every query here works on
//! live geometry; the per-frame synchronization step of the rendering
//! collaborator only redraws what `pointer_moved` reports.

use vstd::prelude::*;

use crate::graph::EdgeId;
use crate::graph::EdgeRec;
use crate::graph::NodeId;
use crate::graph::TrackGraph;
use crate::graph::edges_of_spec;
use crate::graph::kill_incident;
use crate::marks::Element;
use crate::marks::GhostAction;
use crate::marks::GhostEvent;
use crate::marks::UpdateSelection;
use crate::num::Vec2i;
use crate::num::dist;
use crate::num::dist_spec;
use crate::num::dist_sq;
use crate::num::in_world;
use crate::train::EdgeComp;

verus! {

/// Attraction candidates farther than this from the pointer are ignored.
pub const SNAP_RADIUS: u64 = 10;

/// The editor's two states.
#[derive(Clone, Copy, PartialEq, Eq, Structural, Debug)]
pub enum TrackEditorMode {
    Idle,
    PathBuilding,
}

/// An in-progress build: the committed anchor, the cursor node hooked to
/// the pointer, and the provisional edge joining them.
#[derive(Clone, Copy, PartialEq, Eq, Structural, Debug)]
pub struct Session {
    pub anchor: NodeId,
    pub cursor: NodeId,
    pub edge: EdgeId,
}

/// What the editor tells the rendering collaborator, drained each frame.
pub enum EditorEvent {
    Selection(UpdateSelection),
    Ghosts(GhostEvent),
}

/// `e` replaces the selection with exactly `targets`.
pub open spec fn is_selection_event(e: EditorEvent, targets: Seq<Element>) -> bool {
    match e {
        EditorEvent::Selection(u) => u.entities@ == targets,
        EditorEvent::Ghosts(_) => false,
    }
}

/// `e` is a ghost event with the given action and targets.
pub open spec fn is_ghost_event(e: EditorEvent, act: GhostAction, targets: Seq<Element>) -> bool {
    match e {
        EditorEvent::Selection(_) => false,
        EditorEvent::Ghosts(g) => g.action == act && g.entities@ == targets,
    }
}

/// Some listed handle names node slot `i`.
pub open spec fn selected_contains(sel: Seq<NodeId>, i: int) -> bool {
    exists|j: int| 0 <= j < sel.len() && sel[j].idx == i
}

/// The whole editing state.
pub struct TrackEditor {
    pub graph: TrackGraph,
    pub positions: Vec<Vec2i>,
    pub selected: Vec<NodeId>,
    pub session: Option<Session>,
    pub events: Vec<EditorEvent>,
}

impl TrackEditor {
    /// The graph is well formed, every node slot has an in-world
    /// position, and an open session names a live anchor, a distinct live
    /// cursor joined to it by the live provisional edge, the anchor being
    /// the selection.
    pub open spec fn wf(self) -> bool {
        &&& self.graph.wf()
        &&& self.positions@.len() == self.graph.nodes@.len()
        &&& forall|k: int| 0 <= k < self.positions@.len() ==> in_world(#[trigger] self.positions@[k])
        &&& forall|j: int|
            0 <= j < self.selected@.len() ==> self.graph.node_live(
                (#[trigger] self.selected@[j]).idx as int,
            )
        &&& match self.session {
            None => true,
            Some(s) => {
                &&& self.graph.node_live(s.anchor.idx as int)
                &&& self.graph.node_live(s.cursor.idx as int)
                &&& s.anchor.idx != s.cursor.idx
                &&& self.graph.edge_live(s.edge.idx as int)
                &&& self.graph.edges@[s.edge.idx as int].a == s.anchor.idx
                &&& self.graph.edges@[s.edge.idx as int].b == s.cursor.idx
                &&& selected_contains(self.selected@, s.anchor.idx as int)
            },
        }
    }

    /// Which state the machine is in.
    pub open spec fn mode_spec(self) -> TrackEditorMode {
        if self.session is Some {
            TrackEditorMode::PathBuilding
        } else {
            TrackEditorMode::Idle
        }
    }

    /// A fresh editor: empty network, idle.
    pub fn new() -> (ed: TrackEditor)
        ensures
            ed.wf(),
            ed.graph.nodes@ == Seq::<bool>::empty(),
            ed.graph.edges@ == Seq::<EdgeRec>::empty(),
            ed.positions@ == Seq::<Vec2i>::empty(),
            ed.selected@ == Seq::<NodeId>::empty(),
            ed.session is None,
            ed.events@.len() == 0,
    {
        TrackEditor {
            graph: TrackGraph::new(),
            positions: Vec::new(),
            selected: Vec::new(),
            session: None,
            events: Vec::new(),
        }
    }

    /// Which state the machine is in.
    pub fn mode(&self) -> (m: TrackEditorMode)
        ensures
            m == self.mode_spec(),
    {
        match self.session {
            Some(_) => TrackEditorMode::PathBuilding,
            None => TrackEditorMode::Idle,
        }
    }

    /// Hands the queued events to the caller and leaves the queue empty.
    pub fn drain_events(&mut self) -> (evs: Vec<EditorEvent>)
        ensures
            evs@ == old(self).events@,
            final(self).events@.len() == 0,
            final(self).graph == old(self).graph,
            final(self).positions == old(self).positions,
            final(self).selected == old(self).selected,
            final(self).session == old(self).session,
    {
        let mut out: Vec<EditorEvent> = Vec::new();
        core::mem::swap(&mut self.events, &mut out);
        out
    }

    /// Node slot `i` may attract the pointer: it is live, it is not the
    /// cursor of an open session, and it is not selected.
    pub open spec fn eligible(self, i: int) -> bool {
        &&& self.graph.node_live(i)
        &&& match self.session {
            None => true,
            Some(s) => i != s.cursor.idx,
        }
        &&& !selected_contains(self.selected@, i)
    }

    /// The first nearest eligible node slot among `[0, k)`.
    pub open spec fn best_upto(self, ptr: Vec2i, k: int) -> Option<int>
        decreases k,
    {
        if k <= 0 {
            None
        } else {
            let prev = self.best_upto(ptr, k - 1);
            if !self.eligible(k - 1) {
                prev
            } else {
                match prev {
                    None => Some(k - 1),
                    Some(b) => if dist_spec(ptr, self.positions@[k - 1]) < dist_spec(
                        ptr,
                        self.positions@[b],
                    ) {
                        Some(k - 1)
                    } else {
                        Some(b)
                    },
                }
            }
        }
    }

    /// The attraction candidate: the first nearest eligible node, kept
    /// only when strictly within the snap radius.
    pub open spec fn attract_spec(self, ptr: Vec2i) -> Option<NodeId> {
        match self.best_upto(ptr, self.positions@.len() as int) {
            None => None,
            Some(b) => if dist_spec(ptr, self.positions@[b]) < SNAP_RADIUS {
                Some(NodeId { idx: b as usize })
            } else {
                None
            },
        }
    }

    /// Recomputes the attraction candidate for this frame: the nearest
    /// node that is neither the cursor nor selected, if strictly within
    /// the snap radius; earlier slots win ties.
    pub fn attraction(&self, ptr: Vec2i) -> (r: Option<NodeId>)
        requires
            self.wf(),
            in_world(ptr),
        ensures
            r == self.attract_spec(ptr),
            match r {
                Some(c) => self.eligible(c.idx as int) && dist_spec(ptr, self.positions@[c.idx as int])
                    < SNAP_RADIUS,
                None => true,
            },
    {
        let mut best: Option<(usize, u64)> = None;
        let mut i: usize = 0;
        while i < self.positions.len()
            invariant
                self.wf(),
                in_world(ptr),
                i <= self.positions@.len(),
                match best {
                    None => self.best_upto(ptr, i as int) is None,
                    Some(pair) => self.best_upto(ptr, i as int) == Some(pair.0 as int) && pair.0 < i
                        && self.eligible(pair.0 as int) && pair.1 as int == dist_spec(
                        ptr,
                        self.positions@[pair.0 as int],
                    ),
                },
            decreases self.positions@.len() - i,
        {
            let live = i < self.graph.nodes.len() && self.graph.nodes[i];
            let not_cursor = match self.session {
                Some(s) => i != s.cursor.idx,
                None => true,
            };
            let not_selected = !contains_node_id(&self.selected, i);
            if live && not_cursor && not_selected {
                assert(self.eligible(i as int));
                let d = dist(ptr, self.positions[i]);
                match best {
                    None => {
                        best = Some((i, d));
                    },
                    Some(pair) => {
                        if d < pair.1 {
                            best = Some((i, d));
                        }
                    },
                }
            } else {
                assert(!self.eligible(i as int));
            }
            i = i + 1;
        }
        match best {
            None => None,
            Some(pair) => {
                if pair.1 < SNAP_RADIUS {
                    Some(NodeId { idx: pair.0 })
                } else {
                    None
                }
            },
        }
    }
}

/// Whether some handle in `v` names node slot `i`.
fn contains_node_id(v: &Vec<NodeId>, i: usize) -> (r: bool)
    ensures
        r == selected_contains(v@, i as int),
{
    let mut j: usize = 0;
    while j < v.len()
        invariant
            j <= v@.len(),
            forall|k: int| 0 <= k < j ==> (#[trigger] v@[k]).idx != i,
        decreases v@.len() - j,
    {
        if v[j].idx == i {
            return true;
        }
        j = j + 1;
    }
    false
}

/// Two attraction computations on an unchanged frame agree: the candidate
/// is a function of the editor state and the pointer alone, with no
/// hidden state carried between frames.
pub proof fn lemma_attraction_recompute_stable(
    ed: TrackEditor,
    ptr: Vec2i,
    r1: Option<NodeId>,
    r2: Option<NodeId>,
)
    requires
        r1 == ed.attract_spec(ptr),
        r2 == ed.attract_spec(ptr),
    ensures
        r1 == r2,
{
}

/// The live edges with their current endpoint geometry, oldest first.
pub open spec fn geom_spec(es: Seq<EdgeRec>, ps: Seq<Vec2i>) -> Seq<(EdgeId, EdgeComp)>
    decreases es.len(),
{
    if es.len() == 0 {
        Seq::empty()
    } else {
        let rest = geom_spec(es.drop_last(), ps);
        let e = es.last();
        if e.live {
            rest.push(
                (
                    EdgeId { idx: (es.len() - 1) as usize },
                    EdgeComp {
                        a: NodeId { idx: e.a },
                        b: NodeId { idx: e.b },
                        pos_a: ps[e.a as int],
                        pos_b: ps[e.b as int],
                    },
                ),
            )
        } else {
            rest
        }
    }
}

impl TrackEditor {
    /// Moves the cursor node to the pointer and reports the edges whose
    /// drawn geometry is now stale, for the synchronization step to
    /// redraw before any hit-testing; the positions held here are already
    /// live.
    pub fn pointer_moved(&mut self, ptr: Vec2i) -> (stale: Vec<EdgeId>)
        requires
            old(self).wf(),
            in_world(ptr),
        ensures
            final(self).wf(),
            final(self).graph == old(self).graph,
            final(self).selected == old(self).selected,
            final(self).session == old(self).session,
            final(self).events == old(self).events,
            match old(self).session {
                None => final(self).positions == old(self).positions && stale@.len() == 0,
                Some(s) => {
                    &&& final(self).positions@ == old(self).positions@.update(
                        s.cursor.idx as int,
                        ptr,
                    )
                    &&& stale@.len() == edges_of_spec(
                        old(self).graph.edges@,
                        s.cursor.idx as int,
                    ).len()
                    &&& forall|j: int|
                        0 <= j < stale@.len() ==> stale@[j] == edges_of_spec(
                            old(self).graph.edges@,
                            s.cursor.idx as int,
                        )[j].1
                },
            },
    {
        match self.session {
            None => Vec::new(),
            Some(s) => {
                self.positions.set(s.cursor.idx, ptr);
                let incident = self.graph.edges_of(s.cursor);
                let mut out: Vec<EdgeId> = Vec::new();
                let mut i: usize = 0;
                while i < incident.len()
                    invariant
                        i <= incident@.len(),
                        out@.len() == i as int,
                        forall|j: int| 0 <= j < i ==> out@[j] == incident@[j].1,
                    decreases incident@.len() - i,
                {
                    let pair = incident[i];
                    out.push(pair.1);
                    i = i + 1;
                }
                out
            },
        }
    }

    /// The live edge geometry for hover hit-testing, derived from the
    /// live positions.
    pub fn edge_geometry(&self) -> (geoms: Vec<(EdgeId, EdgeComp)>)
        requires
            self.wf(),
        ensures
            geoms@ == geom_spec(self.graph.edges@, self.positions@),
            forall|j: int|
                0 <= j < geoms@.len() ==> in_world((#[trigger] geoms@[j]).1.pos_a) && in_world(
                    geoms@[j].1.pos_b,
                ),
    {
        let mut out: Vec<(EdgeId, EdgeComp)> = Vec::new();
        let mut i: usize = 0;
        while i < self.graph.edges.len()
            invariant
                self.wf(),
                i <= self.graph.edges@.len(),
                out@ == geom_spec(self.graph.edges@.take(i as int), self.positions@),
                forall|j: int|
                    0 <= j < out@.len() ==> in_world((#[trigger] out@[j]).1.pos_a) && in_world(
                        out@[j].1.pos_b,
                    ),
            decreases self.graph.edges@.len() - i,
        {
            proof {
                assert(self.graph.edges@.take(i + 1).drop_last() =~= self.graph.edges@.take(
                    i as int,
                ));
                assert(self.graph.edges@.take(i + 1).last() == self.graph.edges@[i as int]);
            }
            let e = self.graph.edges[i];
            if e.live {
                assert(self.graph.edge_live(i as int));
                out.push(
                    (
                        EdgeId { idx: i },
                        EdgeComp {
                            a: NodeId { idx: e.a },
                            b: NodeId { idx: e.b },
                            pos_a: self.positions[e.a],
                            pos_b: self.positions[e.b],
                        },
                    ),
                );
            }
            i = i + 1;
        }
        proof {
            assert(self.graph.edges@.take(self.graph.edges@.len() as int) =~= self.graph.edges@);
        }
        out
    }

    /// Cheapest route between two live nodes over the live positions the
    /// editor holds; see `TrackGraph::shortest_path`.
    pub fn find_route(&self, from: NodeId, to: NodeId) -> (r: Option<(u64, Vec<NodeId>)>)
        requires
            self.wf(),
            self.graph.node_live(from.idx as int),
            self.graph.node_live(to.idx as int),
        ensures
            match r {
                None => forall|q: Seq<usize>|
                    !crate::graph::is_route(
                        crate::graph::cost_seq(self.graph.edges@, self.positions@),
                        q,
                        from.idx as int,
                        to.idx as int,
                    ),
                Some(cp) => {
                    &&& crate::graph::is_route(
                        crate::graph::cost_seq(self.graph.edges@, self.positions@),
                        crate::graph::ids_of(cp.1@),
                        from.idx as int,
                        to.idx as int,
                    )
                    &&& cp.0 as int == crate::graph::route_cost(
                        crate::graph::cost_seq(self.graph.edges@, self.positions@),
                        crate::graph::ids_of(cp.1@),
                    )
                    &&& forall|q: Seq<usize>|
                        crate::graph::is_route(
                            crate::graph::cost_seq(self.graph.edges@, self.positions@),
                            q,
                            from.idx as int,
                            to.idx as int,
                        ) ==> crate::graph::route_cost(
                            crate::graph::cost_seq(self.graph.edges@, self.positions@),
                            q,
                        ) >= cp.0 as int
                    &&& forall|k: int|
                        0 <= k < cp.1@.len() ==> self.graph.node_live(
                            (#[trigger] cp.1@[k]).idx as int,
                        )
                },
            },
    {
        self.graph.shortest_path(&self.positions, from, to)
    }
}

/// Left-to-right pruning of a cancelled build's former neighbours: each
/// one still live and reduced to degree one or less is removed together
/// with its incident edges.
pub open spec fn prune_spec(
    nodes: Seq<bool>,
    edges: Seq<EdgeRec>,
    nbrs: Seq<(NodeId, EdgeId)>,
) -> (Seq<bool>, Seq<EdgeRec>)
    decreases nbrs.len(),
{
    if nbrs.len() == 0 {
        (nodes, edges)
    } else {
        let prev = prune_spec(nodes, edges, nbrs.drop_last());
        let nb = nbrs.last().0.idx as int;
        if 0 <= nb < prev.0.len() && prev.0[nb] && edges_of_spec(prev.1, nb).len() <= 1 {
            (prev.0.update(nb, false), kill_incident(prev.1, nb))
        } else {
            prev
        }
    }
}

impl TrackEditor {
    /// One primary press. From `Idle` it opens a build session: the
    /// anchor is the attraction candidate when one is in snap range,
    /// else a new node at the pointer; a cursor node and a provisional
    /// ghost edge are spawned at the pointer, and the anchor becomes the
    /// selection. While building, a candidate in range ends the chain:
    /// the cursor and its provisional edge are discarded and the anchor
    /// is wired straight to the candidate. With no candidate the cursor
    /// is frozen at the pointer, promoted to the selection, its edge is
    /// committed with a refreshed weight, and a fresh cursor and ghost
    /// edge continue the chain from it.
    pub fn press(&mut self, ptr: Vec2i)
        requires
            old(self).wf(),
            in_world(ptr),
            old(self).graph.nodes@.len() + 2 <= crate::graph::NODE_CAP,
            old(self).graph.edges@.len() + 1 <= crate::graph::EDGE_CAP,
        ensures
            final(self).wf(),
            final(self).events@.len() >= old(self).events@.len(),
            forall|j: int|
                0 <= j < old(self).events@.len() ==> final(self).events@[j] == old(self).events@[j],
            ({
                let nn = old(self).graph.nodes@.len();
                let ne = old(self).graph.edges@.len();
                let cand = old(self).attract_spec(ptr);
                let ql = old(self).events@.len() as int;
                match old(self).session {
                    None => match cand {
                        None => {
                            let anchor = (NodeId { idx: nn as usize });
                            let cursor = (NodeId { idx: (nn + 1) as usize });
                            let edge = (EdgeId { idx: ne as usize });
                            &&& final(self).graph.nodes@ == old(self).graph.nodes@.push(true).push(
                                true,
                            )
                            &&& final(self).positions@ == old(self).positions@.push(ptr).push(ptr)
                            &&& final(self).graph.edges@ == old(self).graph.edges@.push(
                                (EdgeRec {
                                    live: true,
                                    a: anchor.idx,
                                    b: cursor.idx,
                                    weight: 0,
                                }),
                            )
                            &&& final(self).selected@ == seq![anchor]
                            &&& final(self).session == Some(
                                (Session { anchor, cursor, edge }),
                            )
                            &&& final(self).events@.len() == ql + 2
                            &&& is_selection_event(
                                final(self).events@[ql],
                                seq![Element::Node(anchor)],
                            )
                            &&& is_ghost_event(
                                final(self).events@[ql + 1],
                                GhostAction::Add,
                                seq![Element::Node(cursor), Element::Edge(edge)],
                            )
                        },
                        Some(c) => {
                            let cursor = (NodeId { idx: nn as usize });
                            let edge = (EdgeId { idx: ne as usize });
                            &&& final(self).graph.nodes@ == old(self).graph.nodes@.push(true)
                            &&& final(self).positions@ == old(self).positions@.push(ptr)
                            &&& final(self).graph.edges@ == old(self).graph.edges@.push(
                                (EdgeRec {
                                    live: true,
                                    a: c.idx,
                                    b: cursor.idx,
                                    weight: dist_spec(
                                        old(self).positions@[c.idx as int],
                                        ptr,
                                    ) as u64,
                                }),
                            )
                            &&& final(self).selected@ == seq![c]
                            &&& final(self).session == Some(
                                (Session { anchor: c, cursor, edge }),
                            )
                            &&& final(self).events@.len() == ql + 2
                            &&& is_selection_event(final(self).events@[ql], seq![Element::Node(c)])
                            &&& is_ghost_event(
                                final(self).events@[ql + 1],
                                GhostAction::Add,
                                seq![Element::Node(cursor), Element::Edge(edge)],
                            )
                        },
                    },
                    Some(s) => match cand {
                        Some(c) => {
                            &&& final(self).graph.nodes@ == old(self).graph.nodes@.update(
                                s.cursor.idx as int,
                                false,
                            )
                            &&& final(self).graph.edges@ == kill_incident(
                                old(self).graph.edges@,
                                s.cursor.idx as int,
                            ).push(
                                (EdgeRec {
                                    live: true,
                                    a: s.anchor.idx,
                                    b: c.idx,
                                    weight: dist_spec(
                                        old(self).positions@[s.anchor.idx as int],
                                        old(self).positions@[c.idx as int],
                                    ) as u64,
                                }),
                            )
                            &&& final(self).positions@ == old(self).positions@
                            &&& final(self).selected@ == Seq::<NodeId>::empty()
                            &&& final(self).session is None
                            &&& final(self).events@.len() == ql + 2
                            &&& is_ghost_event(
                                final(self).events@[ql],
                                GhostAction::Remove,
                                seq![Element::Node(s.cursor), Element::Edge(s.edge)],
                            )
                            &&& is_selection_event(final(self).events@[ql + 1], Seq::empty())
                        },
                        None => {
                            let cursor = (NodeId { idx: nn as usize });
                            let edge = (EdgeId { idx: ne as usize });
                            &&& final(self).graph.nodes@ == old(self).graph.nodes@.push(true)
                            &&& final(self).positions@ == old(self).positions@.update(
                                s.cursor.idx as int,
                                ptr,
                            ).push(ptr)
                            &&& final(self).graph.edges@ == old(self).graph.edges@.update(
                                s.edge.idx as int,
                                (EdgeRec {
                                    weight: dist_spec(
                                        old(self).positions@[s.anchor.idx as int],
                                        ptr,
                                    ) as u64,
                                    ..old(self).graph.edges@[s.edge.idx as int]
                                }),
                            ).push(
                                (EdgeRec { live: true, a: s.cursor.idx, b: cursor.idx, weight: 0 }),
                            )
                            &&& final(self).selected@ == seq![s.cursor]
                            &&& final(self).session == Some(
                                (Session { anchor: s.cursor, cursor, edge }),
                            )
                            &&& final(self).events@.len() == ql + 3
                            &&& is_ghost_event(
                                final(self).events@[ql],
                                GhostAction::Deghost,
                                seq![Element::Node(s.cursor), Element::Edge(s.edge)],
                            )
                            &&& is_selection_event(
                                final(self).events@[ql + 1],
                                seq![Element::Node(s.cursor)],
                            )
                            &&& is_ghost_event(
                                final(self).events@[ql + 2],
                                GhostAction::Add,
                                seq![Element::Node(cursor), Element::Edge(edge)],
                            )
                        },
                    },
                }
            }),
    {
        let cand = self.attraction(ptr);
        proof {
            assert(dist_sq(ptr, ptr) == 0) by (nonlinear_arith);
            assert(dist_spec(ptr, ptr) == 0);
        }
        match self.session {
            None => {
                let anchor = match cand {
                    Some(c) => c,
                    None => {
                        let a = self.graph.add_node();
                        self.positions.push(ptr);
                        a
                    },
                };
                let mut sel: Vec<NodeId> = Vec::new();
                sel.push(anchor);
                self.selected = sel;
                let cursor = self.graph.add_node();
                self.positions.push(ptr);
                let w = dist(self.positions[anchor.idx], ptr);
                let er = self.graph.add_edge(anchor, cursor, w);
                let edge = match er {
                    Ok(e) => e,
                    Err(_) => unreached(),
                };
                self.session = Some(Session { anchor, cursor, edge });
                let mut sel_targets: Vec<Element> = Vec::new();
                sel_targets.push(Element::Node(anchor));
                self.events.push(EditorEvent::Selection(UpdateSelection { entities: sel_targets }));
                self.events.push(
                    EditorEvent::Ghosts(
                        GhostEvent::add(vec![Element::Node(cursor), Element::Edge(edge)]),
                    ),
                );
                proof {
                    assert forall|k: int|
                        0 <= k < self.positions@.len() implies in_world(
                        #[trigger] self.positions@[k],
                    ) by {
                        if k < old(self).positions@.len() {
                            assert(in_world(old(self).positions@[k]));
                        }
                    };
                    assert(self.selected@[0] == anchor);
                    assert(selected_contains(self.selected@, anchor.idx as int));
                }
            },
            Some(s) => {
                match cand {
                    Some(c) => {
                        self.graph.remove_node(s.cursor);
                        let w = dist(self.positions[s.anchor.idx], self.positions[c.idx]);
                        let er = self.graph.add_edge(s.anchor, c, w);
                        let _ = match er {
                            Ok(e) => e,
                            Err(_) => unreached(),
                        };
                        self.session = None;
                        self.selected = Vec::new();
                        self.events.push(
                            EditorEvent::Ghosts(
                                GhostEvent::remove(
                                    vec![Element::Node(s.cursor), Element::Edge(s.edge)],
                                ),
                            ),
                        );
                        self.events.push(
                            EditorEvent::Selection(UpdateSelection { entities: Vec::new() }),
                        );
                        proof {
                            assert forall|k: int|
                                0 <= k < self.positions@.len() implies in_world(
                                #[trigger] self.positions@[k],
                            ) by {
                                assert(in_world(old(self).positions@[k]));
                            };
                        }
                    },
                    None => {
                        self.positions.set(s.cursor.idx, ptr);
                        let w = dist(self.positions[s.anchor.idx], ptr);
                        self.graph.update_weight(s.edge, w);
                        self.events.push(
                            EditorEvent::Ghosts(
                                GhostEvent::deghost(
                                    vec![Element::Node(s.cursor), Element::Edge(s.edge)],
                                ),
                            ),
                        );
                        let mut sel: Vec<NodeId> = Vec::new();
                        sel.push(s.cursor);
                        self.selected = sel;
                        let mut sel_targets: Vec<Element> = Vec::new();
                        sel_targets.push(Element::Node(s.cursor));
                        self.events.push(
                            EditorEvent::Selection(UpdateSelection { entities: sel_targets }),
                        );
                        let cursor = self.graph.add_node();
                        self.positions.push(ptr);
                        let er = self.graph.add_edge(s.cursor, cursor, 0);
                        let edge = match er {
                            Ok(e) => e,
                            Err(_) => unreached(),
                        };
                        self.session = Some(Session { anchor: s.cursor, cursor, edge });
                        self.events.push(
                            EditorEvent::Ghosts(
                                GhostEvent::add(vec![Element::Node(cursor), Element::Edge(edge)]),
                            ),
                        );
                        proof {
                            assert forall|k: int|
                                0 <= k < self.positions@.len() implies in_world(
                                #[trigger] self.positions@[k],
                            ) by {
                                if k < old(self).positions@.len() && k != s.cursor.idx as int {
                                    assert(in_world(old(self).positions@[k]));
                                }
                            };
                            assert(self.selected@[0] == s.cursor);
                            assert(selected_contains(self.selected@, s.cursor.idx as int));
                        }
                    },
                }
            },
        }
    }
}

impl TrackEditor {
    /// Cancels an in-progress build in one synchronous step: the cursor
    /// node goes together with every edge incident to it, and each former
    /// neighbour left at degree one or less is then removed with its
    /// remaining edges — retracting a dangling stub, not only isolated
    /// nodes. The ghosts are despawned and the selection cleared. Idle,
    /// this does nothing.
    pub fn cancel(&mut self)
        requires
            old(self).wf(),
        ensures
            final(self).wf(),
            final(self).session is None,
            final(self).positions == old(self).positions,
            match old(self).session {
                None => *final(self) == *old(self),
                Some(s) => {
                    let pruned = prune_spec(
                        old(self).graph.nodes@.update(s.cursor.idx as int, false),
                        kill_incident(old(self).graph.edges@, s.cursor.idx as int),
                        edges_of_spec(old(self).graph.edges@, s.cursor.idx as int),
                    );
                    let ql = old(self).events@.len() as int;
                    &&& final(self).graph.nodes@ == pruned.0
                    &&& final(self).graph.edges@ == pruned.1
                    &&& final(self).selected@ == Seq::<NodeId>::empty()
                    &&& final(self).events@.len() == ql + 2
                    &&& forall|j: int|
                        0 <= j < ql ==> final(self).events@[j] == old(self).events@[j]
                    &&& is_ghost_event(
                        final(self).events@[ql],
                        GhostAction::Remove,
                        seq![Element::Node(s.cursor), Element::Edge(s.edge)],
                    )
                    &&& is_selection_event(final(self).events@[ql + 1], Seq::empty())
                },
            },
    {
        match self.session {
            None => {
            },
            Some(s) => {
                self.session = None;
                self.selected = Vec::new();
                let nbrs = self.graph.edges_of(s.cursor);
                self.graph.remove_node(s.cursor);
                let mut i: usize = 0;
                while i < nbrs.len()
                    invariant
                        old(self).wf(),
                        old(self).session == Some(s),
                        self.graph.wf(),
                        self.graph.nodes@.len() == old(self).graph.nodes@.len(),
                        nbrs@ == edges_of_spec(old(self).graph.edges@, s.cursor.idx as int),
                        i <= nbrs@.len(),
                        ({
                            let pruned = prune_spec(
                                old(self).graph.nodes@.update(s.cursor.idx as int, false),
                                kill_incident(old(self).graph.edges@, s.cursor.idx as int),
                                nbrs@.take(i as int),
                            );
                            self.graph.nodes@ == pruned.0 && self.graph.edges@ == pruned.1
                        }),
                        self.positions == old(self).positions,
                        self.events == old(self).events,
                        self.selected@ == Seq::<NodeId>::empty(),
                        self.session is None,
                    decreases nbrs@.len() - i,
                {
                    proof {
                        assert(nbrs@.take(i + 1).drop_last() =~= nbrs@.take(i as int));
                        assert(nbrs@.take(i + 1).last() == nbrs@[i as int]);
                    }
                    let nb = nbrs[i].0;
                    if self.graph.contains_node(nb) {
                        let deg = self.graph.degree(nb);
                        if deg <= 1 {
                            self.graph.remove_node(nb);
                        }
                    }
                    i = i + 1;
                }
                proof {
                    assert(nbrs@.take(nbrs@.len() as int) =~= nbrs@);
                }
                self.events.push(
                    EditorEvent::Ghosts(
                        GhostEvent::remove(vec![Element::Node(s.cursor), Element::Edge(s.edge)]),
                    ),
                );
                self.events.push(
                    EditorEvent::Selection(UpdateSelection { entities: Vec::new() }),
                );
                proof {
                    assert forall|k: int|
                        0 <= k < self.positions@.len() implies in_world(
                        #[trigger] self.positions@[k],
                    ) by {
                        assert(in_world(old(self).positions@[k]));
                    };
                }
            },
        }
    }
}

/// The first index among `[0, k)` whose point is nearest to `ptr`.
pub open spec fn nearest_upto(points: Seq<Vec2i>, ptr: Vec2i, k: int) -> Option<int>
    decreases k,
{
    if k <= 0 {
        None
    } else {
        let prev = nearest_upto(points, ptr, k - 1);
        match prev {
            None => Some(k - 1),
            Some(b) => if dist_spec(ptr, points[k - 1]) < dist_spec(ptr, points[b]) {
                Some(k - 1)
            } else {
                Some(b)
            },
        }
    }
}

/// Picks the first nearest of the given points, kept only when strictly
/// within `radius`: the viewer uses this to decide which selectable
/// thing (a building, say) a click lands on.
pub fn nearest_within(points: &Vec<Vec2i>, ptr: Vec2i, radius: u64) -> (r: Option<usize>)
    requires
        in_world(ptr),
        forall|k: int| 0 <= k < points@.len() ==> in_world(#[trigger] points@[k]),
    ensures
        match nearest_upto(points@, ptr, points@.len() as int) {
            None => r is None,
            Some(b) => if dist_spec(ptr, points@[b]) < radius {
                r == Some(b as usize)
            } else {
                r is None
            },
        },
{
    let mut best: Option<(usize, u64)> = None;
    let mut i: usize = 0;
    while i < points.len()
        invariant
            in_world(ptr),
            forall|k: int| 0 <= k < points@.len() ==> in_world(#[trigger] points@[k]),
            i <= points@.len(),
            match best {
                None => i == 0 && nearest_upto(points@, ptr, i as int) is None,
                Some(pair) => nearest_upto(points@, ptr, i as int) == Some(pair.0 as int) && pair.0
                    < i && pair.1 as int == dist_spec(ptr, points@[pair.0 as int]),
            },
        decreases points@.len() - i,
    {
        let d = dist(ptr, points[i]);
        match best {
            None => {
                best = Some((i, d));
            },
            Some(pair) => {
                if d < pair.1 {
                    best = Some((i, d));
                }
            },
        }
        i = i + 1;
    }
    match best {
        None => None,
        Some(pair) => {
            if pair.1 < radius {
                Some(pair.0)
            } else {
                None
            }
        },
    }
}

} // verus!
