//! The track network: an undirected multigraph over junction nodes, stored
//! as a slot arena whose indices are never reused, so a stale handle can
//! never alias a later node or edge.
//!
//! Positions are not stored here; the caller (the editor, standing in for
//! the rendering collaborator) owns them and passes them to the distance
//! sensitive queries, so a path query always works on live geometry.

use vstd::prelude::*;

use crate::num::Vec2i;
use crate::num::dist;
use crate::num::dist_spec;
use crate::num::in_world;
use crate::num::lemma_dist_bound;
use petgraph::graph::NodeIndex;
use petgraph::visit::EdgeRef;

verus! {

/// Upper bound on node slots; stays below the index limit of the path
/// search backend.
pub const NODE_CAP: usize = 0xFFFF_0000;

/// Upper bound on edge slots; keeps every route cost below `2^61`.
pub const EDGE_CAP: usize = 0x4000_0000;

/// Stable handle of a junction node.
#[derive(Clone, Copy, PartialEq, Eq, Structural, Debug)]
pub struct NodeId {
    pub idx: usize,
}

/// Stable handle of a track segment.
#[derive(Clone, Copy, PartialEq, Eq, Structural, Debug)]
pub struct EdgeId {
    pub idx: usize,
}

/// One edge slot: endpoints, the weight recorded at creation or update
/// time, and whether the slot still holds a live edge.
#[derive(Clone, Copy, PartialEq, Eq, Structural, Debug)]
pub struct EdgeRec {
    pub live: bool,
    pub a: usize,
    pub b: usize,
    pub weight: u64,
}

/// Rejected graph mutations.
#[derive(Clone, Copy, PartialEq, Eq, Structural, Debug)]
pub enum GraphError {
    /// An edge may not connect a node to itself.
    SelfLoop,
}

/// The undirected multigraph of track nodes and segments.
pub struct TrackGraph {
    pub nodes: Vec<bool>,
    pub edges: Vec<EdgeRec>,
}

/// All live edges incident to `n`, oldest first, each as the far endpoint
/// paired with the edge handle.
pub open spec fn edges_of_spec(es: Seq<EdgeRec>, n: int) -> Seq<(NodeId, EdgeId)>
    decreases es.len(),
{
    if es.len() == 0 {
        Seq::empty()
    } else {
        let rest = edges_of_spec(es.drop_last(), n);
        let e = es.last();
        if e.live && (e.a == n || e.b == n) {
            rest.push(
                (
                    NodeId { idx: if e.a == n { e.b } else { e.a } },
                    EdgeId { idx: (es.len() - 1) as usize },
                ),
            )
        } else {
            rest
        }
    }
}

/// `es` with every live edge incident to `n` marked dead.
pub open spec fn kill_incident(es: Seq<EdgeRec>, n: int) -> Seq<EdgeRec> {
    Seq::new(
        es.len(),
        |i: int|
            if es[i].live && (es[i].a == n || es[i].b == n) {
                (EdgeRec { live: false, ..es[i] })
            } else {
                es[i]
            },
    )
}

/// Round trip between insertion and incidence queries: appending one live
/// edge extends the incident list of each of its endpoints by exactly
/// that edge, referencing the other endpoint, and leaves the incident
/// list of every other node unchanged.
pub proof fn lemma_edges_of_after_add(es: Seq<EdgeRec>, rec: EdgeRec, n: int)
    requires
        rec.live,
    ensures
        (rec.a == n || rec.b == n) ==> edges_of_spec(es.push(rec), n) == edges_of_spec(es, n).push(
            (
                NodeId { idx: if rec.a == n { rec.b } else { rec.a } },
                EdgeId { idx: es.len() as usize },
            ),
        ),
        !(rec.a == n || rec.b == n) ==> edges_of_spec(es.push(rec), n) == edges_of_spec(es, n),
{
    assert(es.push(rec).drop_last() =~= es);
    assert(es.push(rec).last() == rec);
}

/// Index of the first live edge at or after `k` joining `u` and `v`.
pub open spec fn first_between(es: Seq<EdgeRec>, u: int, v: int, k: int) -> Option<int>
    decreases es.len() - k,
{
    if k < 0 || k >= es.len() {
        None
    } else if es[k].live && ((es[k].a == u && es[k].b == v) || (es[k].a == v && es[k].b == u)) {
        Some(k)
    } else {
        first_between(es, u, v, k + 1)
    }
}

impl TrackGraph {
    /// Slot `i` holds a live node.
    pub open spec fn node_live(self, i: int) -> bool {
        0 <= i < self.nodes@.len() && self.nodes@[i]
    }

    /// Slot `i` holds a live edge.
    pub open spec fn edge_live(self, i: int) -> bool {
        0 <= i < self.edges@.len() && self.edges@[i].live
    }

    /// The live edge in slot `i` joins two distinct live nodes.
    pub open spec fn edge_ok(self, i: int) -> bool {
        self.edges@[i].a < self.nodes@.len() && self.edges@[i].b < self.nodes@.len()
            && self.edges@[i].a != self.edges@[i].b && self.nodes@[self.edges@[i].a as int]
            && self.nodes@[self.edges@[i].b as int]
    }

    /// Every live edge joins two distinct live nodes, and the arenas stay
    /// under their caps.
    pub open spec fn wf(self) -> bool {
        &&& self.nodes@.len() <= NODE_CAP
        &&& self.edges@.len() <= EDGE_CAP
        &&& forall|i: int| #[trigger] self.edge_live(i) ==> self.edge_ok(i)
    }

    /// An empty network.
    pub fn new() -> (g: TrackGraph)
        ensures
            g.wf(),
            g.nodes@ == Seq::<bool>::empty(),
            g.edges@ == Seq::<EdgeRec>::empty(),
    {
        TrackGraph { nodes: Vec::new(), edges: Vec::new() }
    }

    /// Whether `n` names a live node.
    pub fn contains_node(&self, n: NodeId) -> (r: bool)
        ensures
            r == self.node_live(n.idx as int),
    {
        n.idx < self.nodes.len() && self.nodes[n.idx]
    }

    /// Whether `e` names a live edge.
    pub fn contains_edge_id(&self, e: EdgeId) -> (r: bool)
        ensures
            r == self.edge_live(e.idx as int),
    {
        e.idx < self.edges.len() && self.edges[e.idx].live
    }

    /// Whether some live edge joins `a` and `b`.
    pub fn contains_edge(&self, a: NodeId, b: NodeId) -> (r: bool)
        ensures
            r == (first_between(self.edges@, a.idx as int, b.idx as int, 0) is Some),
    {
        let mut i: usize = 0;
        while i < self.edges.len()
            invariant
                i <= self.edges@.len(),
                first_between(self.edges@, a.idx as int, b.idx as int, 0) == first_between(
                    self.edges@,
                    a.idx as int,
                    b.idx as int,
                    i as int,
                ),
            decreases self.edges@.len() - i,
        {
            let e = self.edges[i];
            if e.live && ((e.a == a.idx && e.b == b.idx) || (e.a == b.idx && e.b == a.idx)) {
                return true;
            }
            i = i + 1;
        }
        false
    }

    /// Creates an isolated node and hands back its fresh handle.
    pub fn add_node(&mut self) -> (n: NodeId)
        requires
            old(self).wf(),
            old(self).nodes@.len() < NODE_CAP,
        ensures
            final(self).wf(),
            n.idx == old(self).nodes@.len(),
            final(self).nodes@ == old(self).nodes@.push(true),
            final(self).edges@ == old(self).edges@,
    {
        let idx = self.nodes.len();
        self.nodes.push(true);
        proof {
            assert forall|i: int| self.edge_live(i) implies self.edge_ok(i) by {
                assert(old(self).edge_live(i));
            };
        }
        NodeId { idx }
    }

    /// Inserts an edge between two distinct live nodes; a self-loop is
    /// rejected and leaves the graph untouched.
    pub fn add_edge(&mut self, a: NodeId, b: NodeId, weight: u64) -> (r: Result<
        EdgeId,
        GraphError,
    >)
        requires
            old(self).wf(),
            old(self).node_live(a.idx as int),
            old(self).node_live(b.idx as int),
            old(self).edges@.len() < EDGE_CAP,
        ensures
            final(self).wf(),
            match r {
                Ok(e) => {
                    &&& a.idx != b.idx
                    &&& e.idx == old(self).edges@.len()
                    &&& final(self).nodes@ == old(self).nodes@
                    &&& final(self).edges@ == old(self).edges@.push(
                        (EdgeRec { live: true, a: a.idx, b: b.idx, weight }),
                    )
                },
                Err(err) => {
                    &&& a.idx == b.idx
                    &&& err == GraphError::SelfLoop
                    &&& *final(self) == *old(self)
                },
            },
    {
        if a.idx == b.idx {
            return Err(GraphError::SelfLoop);
        }
        let idx = self.edges.len();
        self.edges.push(EdgeRec { live: true, a: a.idx, b: b.idx, weight });
        proof {
            assert forall|i: int| self.edge_live(i) implies self.edge_ok(i) by {
                if i < old(self).edges@.len() {
                    assert(old(self).edge_live(i));
                }
            };
        }
        Ok(EdgeId { idx })
    }

    /// Overwrites the recorded weight of a live edge.
    pub fn update_weight(&mut self, e: EdgeId, weight: u64)
        requires
            old(self).wf(),
            old(self).edge_live(e.idx as int),
        ensures
            final(self).wf(),
            final(self).nodes@ == old(self).nodes@,
            final(self).edges@ == old(self).edges@.update(
                e.idx as int,
                (EdgeRec { weight, ..old(self).edges@[e.idx as int] }),
            ),
    {
        let mut rec = self.edges[e.idx];
        rec.weight = weight;
        self.edges.set(e.idx, rec);
        proof {
            assert forall|i: int| self.edge_live(i) implies self.edge_ok(i) by {
                assert(old(self).edge_live(i));
            };
        }
    }

    /// Removes one edge. No node is removed: whether a now isolated
    /// endpoint should go is the editor's policy, not the graph's.
    pub fn remove_edge(&mut self, e: EdgeId)
        requires
            old(self).wf(),
            old(self).edge_live(e.idx as int),
        ensures
            final(self).wf(),
            final(self).nodes@ == old(self).nodes@,
            final(self).edges@ == old(self).edges@.update(
                e.idx as int,
                (EdgeRec { live: false, ..old(self).edges@[e.idx as int] }),
            ),
    {
        let mut rec = self.edges[e.idx];
        rec.live = false;
        self.edges.set(e.idx, rec);
        proof {
            assert forall|i: int| self.edge_live(i) implies self.edge_ok(i) by {
                assert(old(self).edge_live(i));
            };
        }
    }

    /// Removes the oldest live edge joining `a` and `b`, if any; the nodes
    /// themselves stay.
    pub fn remove_edge_between(&mut self, a: NodeId, b: NodeId) -> (r: Option<EdgeId>)
        requires
            old(self).wf(),
        ensures
            final(self).wf(),
            final(self).nodes@ == old(self).nodes@,
            match r {
                Some(e) => {
                    &&& first_between(old(self).edges@, a.idx as int, b.idx as int, 0) == Some(
                        e.idx as int,
                    )
                    &&& final(self).edges@ == old(self).edges@.update(
                        e.idx as int,
                        (EdgeRec { live: false, ..old(self).edges@[e.idx as int] }),
                    )
                },
                None => {
                    &&& first_between(old(self).edges@, a.idx as int, b.idx as int, 0)
                        is None
                    &&& *final(self) == *old(self)
                },
            },
    {
        let mut i: usize = 0;
        while i < self.edges.len()
            invariant
                old(self).wf(),
                *self == *old(self),
                i <= self.edges@.len(),
                first_between(self.edges@, a.idx as int, b.idx as int, 0) == first_between(
                    self.edges@,
                    a.idx as int,
                    b.idx as int,
                    i as int,
                ),
            decreases self.edges@.len() - i,
        {
            let e = self.edges[i];
            if e.live && ((e.a == a.idx && e.b == b.idx) || (e.a == b.idx && e.b == a.idx)) {
                let mut rec = e;
                rec.live = false;
                self.edges.set(i, rec);
                proof {
                    assert forall|j: int| self.edge_live(j) implies self.edge_ok(j) by {
                        assert(old(self).edge_live(j));
                    };
                }
                return Some(EdgeId { idx: i });
            }
            i = i + 1;
        }
        None
    }

    /// The live edges incident to `n`, oldest first, each with the far
    /// endpoint.
    pub fn edges_of(&self, n: NodeId) -> (r: Vec<(NodeId, EdgeId)>)
        requires
            self.wf(),
        ensures
            r@ == edges_of_spec(self.edges@, n.idx as int),
    {
        let mut out: Vec<(NodeId, EdgeId)> = Vec::new();
        let mut i: usize = 0;
        while i < self.edges.len()
            invariant
                i <= self.edges@.len(),
                out@ == edges_of_spec(self.edges@.take(i as int), n.idx as int),
            decreases self.edges@.len() - i,
        {
            let e = self.edges[i];
            proof {
                assert(self.edges@.take(i + 1).drop_last() =~= self.edges@.take(i as int));
                assert(self.edges@.take(i + 1).last() == self.edges@[i as int]);
            }
            if e.live && (e.a == n.idx || e.b == n.idx) {
                let other = if e.a == n.idx {
                    e.b
                } else {
                    e.a
                };
                out.push((NodeId { idx: other }, EdgeId { idx: i }));
            }
            i = i + 1;
        }
        proof {
            assert(self.edges@.take(self.edges@.len() as int) =~= self.edges@);
        }
        out
    }

    /// How many live edges touch `n`.
    pub fn degree(&self, n: NodeId) -> (r: usize)
        requires
            self.wf(),
        ensures
            r == edges_of_spec(self.edges@, n.idx as int).len(),
    {
        let incident = self.edges_of(n);
        incident.len()
    }

    /// Removes a node together with every edge incident to it.
    pub fn remove_node(&mut self, n: NodeId)
        requires
            old(self).wf(),
            old(self).node_live(n.idx as int),
        ensures
            final(self).wf(),
            final(self).nodes@ == old(self).nodes@.update(n.idx as int, false),
            final(self).edges@ == kill_incident(old(self).edges@, n.idx as int),
    {
        self.nodes.set(n.idx, false);
        let mut i: usize = 0;
        while i < self.edges.len()
            invariant
                self.nodes@ == old(self).nodes@.update(n.idx as int, false),
                self.edges@.len() == old(self).edges@.len(),
                forall|j: int|
                    0 <= j < i ==> self.edges@[j] == kill_incident(old(self).edges@, n.idx as int)[j],
                forall|j: int| i <= j < self.edges@.len() ==> self.edges@[j] == old(self).edges@[j],
            decreases self.edges@.len() - i,
        {
            let e = self.edges[i];
            if e.live && (e.a == n.idx || e.b == n.idx) {
                let mut rec = e;
                rec.live = false;
                self.edges.set(i, rec);
            }
            i = i + 1;
        }
        proof {
            assert(self.edges@ =~= kill_incident(old(self).edges@, n.idx as int));
            assert forall|j: int| self.edge_live(j) implies self.edge_ok(j) by {
                assert(old(self).edge_live(j));
                assert(self.edges@[j] == old(self).edges@[j]);
            };
        }
    }
}

/// Whether one weighted hop joins `u` and `v` in either direction.
pub open spec fn hop_connects(e: (usize, usize, u64), u: int, v: int) -> bool {
    (e.0 == u && e.1 == v) || (e.0 == v && e.1 == u)
}

/// Whether some hop of `es` joins `u` and `v`.
pub open spec fn connects(es: Seq<(usize, usize, u64)>, u: int, v: int) -> bool {
    exists|i: int| 0 <= i < es.len() && #[trigger] hop_connects(es[i], u, v)
}

/// The cheapest weight among the hops of `es` joining `u` and `v`
/// (meaningful only when some hop does).
pub open spec fn hop_cost(es: Seq<(usize, usize, u64)>, u: int, v: int) -> int
    decreases es.len(),
{
    if es.len() == 0 {
        0
    } else {
        let rest = es.drop_last();
        if hop_connects(es.last(), u, v) {
            if connects(rest, u, v) && hop_cost(rest, u, v) < es.last().2 {
                hop_cost(rest, u, v)
            } else {
                es.last().2 as int
            }
        } else {
            hop_cost(rest, u, v)
        }
    }
}

/// `p` walks from `from` to `to` along hops of `es`.
pub open spec fn is_route(es: Seq<(usize, usize, u64)>, p: Seq<usize>, from: int, to: int) -> bool {
    &&& p.len() >= 1
    &&& p[0] == from
    &&& p[p.len() - 1] == to
    &&& forall|k: int| 0 <= k < p.len() - 1 ==> connects(es, #[trigger] p[k] as int, p[k + 1] as int)
}

/// The cost of the walk `p`, each step priced at the cheapest hop.
pub open spec fn route_cost(es: Seq<(usize, usize, u64)>, p: Seq<usize>) -> int
    decreases p.len(),
{
    if p.len() <= 1 {
        0
    } else {
        route_cost(es, p.drop_last()) + hop_cost(es, p[p.len() - 2] as int, p[p.len() - 1] as int)
    }
}

/// The total weight of all hops.
pub open spec fn sum_weights(es: Seq<(usize, usize, u64)>) -> int
    decreases es.len(),
{
    if es.len() == 0 {
        0
    } else {
        sum_weights(es.drop_last()) + es.last().2
    }
}

/// The live edges of `es` as weighted hops, the weight of each being the
/// floor distance between its endpoints' current positions.
pub open spec fn cost_seq(es: Seq<EdgeRec>, ps: Seq<Vec2i>) -> Seq<(usize, usize, u64)>
    decreases es.len(),
{
    if es.len() == 0 {
        Seq::empty()
    } else {
        let rest = cost_seq(es.drop_last(), ps);
        let e = es.last();
        if e.live {
            rest.push((e.a, e.b, dist_spec(ps[e.a as int], ps[e.b as int]) as u64))
        } else {
            rest
        }
    }
}

/// The node handles of a path, as raw slot indices.
pub open spec fn ids_of(p: Seq<NodeId>) -> Seq<usize> {
    p.map_values(|nd: NodeId| nd.idx)
}

/// Each hop produced by `cost_seq` joins two distinct live node slots and
/// weighs less than `2^31`.
pub proof fn lemma_cost_seq_props(es: Seq<EdgeRec>, nodes: Seq<bool>, ps: Seq<Vec2i>)
    requires
        ps.len() == nodes.len(),
        forall|k: int| 0 <= k < ps.len() ==> in_world(#[trigger] ps[k]),
        forall|i: int|
            0 <= i < es.len() && (#[trigger] es[i]).live ==> es[i].a < nodes.len() && es[i].b
                < nodes.len() && es[i].a != es[i].b && nodes[es[i].a as int] && nodes[es[i].b as int],
    ensures
        cost_seq(es, ps).len() <= es.len(),
        forall|j: int|
            0 <= j < cost_seq(es, ps).len() ==> {
                let h = #[trigger] cost_seq(es, ps)[j];
                h.0 < nodes.len() && h.1 < nodes.len() && h.0 != h.1 && nodes[h.0 as int]
                    && nodes[h.1 as int] && h.2 < 0x8000_0000
            },
    decreases es.len(),
{
    if es.len() > 0 {
        lemma_cost_seq_props(es.drop_last(), nodes, ps);
        let e = es.last();
        if e.live {
            assert(es[es.len() - 1].live);
            lemma_dist_bound(ps[e.a as int], ps[e.b as int]);
        }
    }
}

/// A sequence of hops each at most `w` weighs at most `len * w` in total.
pub proof fn lemma_sum_weights_bound(es: Seq<(usize, usize, u64)>, w: int)
    requires
        0 <= w,
        forall|j: int| 0 <= j < es.len() ==> (#[trigger] es[j]).2 <= w,
    ensures
        0 <= sum_weights(es) <= es.len() * w,
    decreases es.len(),
{
    if es.len() == 0 {
        assert(es.len() * w == 0) by (nonlinear_arith)
            requires
                es.len() == 0,
        ;
    } else {
        lemma_sum_weights_bound(es.drop_last(), w);
        assert((es.len() - 1) * w + w == es.len() * w) by (nonlinear_arith);
    }
}

/// Relies on petgraph's `astar` run with the all-zero heuristic, which the
/// crate documents as behaving like `dijkstra`: over non-negative weights
/// it returns a cheapest route together with its exact cost, and `None`
/// exactly when no route exists. The weight-sum bound keeps every cost
/// addition inside `u64`; the index bounds keep graph building panic-free.
#[verifier::external_body]
fn astar_route(n: usize, edges: &Vec<(usize, usize, u64)>, from: usize, to: usize) -> (r: Option<
    (u64, Vec<usize>),
>)
    requires
        n < 0xFFFF_FF00,
        edges@.len() < 0xFFFF_FF00,
        from < n,
        to < n,
        forall|i: int| 0 <= i < edges@.len() ==> (#[trigger] edges@[i]).0 < n && edges@[i].1 < n,
        sum_weights(edges@) < 0x4000_0000_0000_0000,
    ensures
        match r {
            None => forall|q: Seq<usize>| !is_route(edges@, q, from as int, to as int),
            Some((c, p)) => {
                &&& is_route(edges@, p@, from as int, to as int)
                &&& c as int == route_cost(edges@, p@)
                &&& forall|q: Seq<usize>|
                    is_route(edges@, q, from as int, to as int) ==> route_cost(edges@, q) >= c as int
                &&& forall|k: int| 0 <= k < p@.len() ==> p@[k] < n
            },
        },
{
    let mut g = petgraph::graph::UnGraph::<(), u64>::with_capacity(n, edges.len());
    let mut i: usize = 0;
    while i < n { g.add_node(()); i += 1; }
    for e in edges.iter() { g.add_edge(NodeIndex::new(e.0), NodeIndex::new(e.1), e.2); }
    let goal = NodeIndex::new(to);
    let found = petgraph::algo::astar(&g, NodeIndex::new(from), |v| v == goal, |er| *er.weight(), |_| 0u64);
    found.map(|(c, p)| (c, p.into_iter().map(|ix| ix.index()).collect()))
}

impl TrackGraph {
    /// Cheapest route between two live nodes over the live geometry:
    /// every edge is priced at the floor distance between its endpoints'
    /// current positions, so stale recorded weights cannot leak into the
    /// query. `None` exactly when no route exists.
    pub fn shortest_path(&self, positions: &Vec<Vec2i>, from: NodeId, to: NodeId) -> (r: Option<
        (u64, Vec<NodeId>),
    >)
        requires
            self.wf(),
            self.node_live(from.idx as int),
            self.node_live(to.idx as int),
            positions@.len() == self.nodes@.len(),
            forall|k: int| 0 <= k < positions@.len() ==> in_world(#[trigger] positions@[k]),
        ensures
            match r {
                None => forall|q: Seq<usize>|
                    !is_route(
                        cost_seq(self.edges@, positions@),
                        q,
                        from.idx as int,
                        to.idx as int,
                    ),
                Some((c, path)) => {
                    &&& is_route(
                        cost_seq(self.edges@, positions@),
                        ids_of(path@),
                        from.idx as int,
                        to.idx as int,
                    )
                    &&& c as int == route_cost(cost_seq(self.edges@, positions@), ids_of(path@))
                    &&& forall|q: Seq<usize>|
                        is_route(
                            cost_seq(self.edges@, positions@),
                            q,
                            from.idx as int,
                            to.idx as int,
                        ) ==> route_cost(cost_seq(self.edges@, positions@), q) >= c as int
                    &&& forall|k: int|
                        0 <= k < path@.len() ==> self.node_live((#[trigger] path@[k]).idx as int)
                },
            },
    {
        let ghost cs = cost_seq(self.edges@, positions@);
        let mut hops: Vec<(usize, usize, u64)> = Vec::new();
        let mut i: usize = 0;
        while i < self.edges.len()
            invariant
                self.wf(),
                positions@.len() == self.nodes@.len(),
                forall|k: int| 0 <= k < positions@.len() ==> in_world(#[trigger] positions@[k]),
                i <= self.edges@.len(),
                hops@ == cost_seq(self.edges@.take(i as int), positions@),
            decreases self.edges@.len() - i,
        {
            let e = self.edges[i];
            proof {
                assert(self.edges@.take(i + 1).drop_last() =~= self.edges@.take(i as int));
                assert(self.edges@.take(i + 1).last() == self.edges@[i as int]);
            }
            if e.live {
                assert(self.edge_live(i as int));
                let w = dist(positions[e.a], positions[e.b]);
                hops.push((e.a, e.b, w));
            }
            i = i + 1;
        }
        proof {
            assert(self.edges@.take(self.edges@.len() as int) =~= self.edges@);
            assert(hops@ == cs);
            assert forall|j: int|
                0 <= j < self.edges@.len() && (#[trigger] self.edges@[j]).live implies self.edges@[j].a
                < self.nodes@.len() && self.edges@[j].b < self.nodes@.len() && self.edges@[j].a
                != self.edges@[j].b && self.nodes@[self.edges@[j].a as int]
                && self.nodes@[self.edges@[j].b as int] by {
                assert(self.edge_live(j));
            };
            lemma_cost_seq_props(self.edges@, self.nodes@, positions@);
            assert forall|j: int| 0 <= j < hops@.len() implies (#[trigger] hops@[j]).2
                <= 0x7FFF_FFFF by {}
            lemma_sum_weights_bound(hops@, 0x7FFF_FFFF);
            assert(hops@.len() * 0x7FFF_FFFF < 0x4000_0000_0000_0000) by (nonlinear_arith)
                requires
                    hops@.len() <= 0x4000_0000,
            ;
        }
        let found = astar_route(self.nodes.len(), &hops, from.idx, to.idx);
        match found {
            None => None,
            Some((c, raw)) => {
                proof {
                    assert forall|k: int| 0 <= k < raw@.len() implies self.node_live(
                        raw@[k] as int,
                    ) by {
                        if k < raw@.len() - 1 {
                            assert(connects(cs, raw@[k] as int, raw@[k + 1] as int));
                            let i = choose|i: int|
                                0 <= i < cs.len() && #[trigger] hop_connects(
                                    cs[i],
                                    raw@[k] as int,
                                    raw@[k + 1] as int,
                                );
                            assert(cs[i].0 < self.nodes@.len() && self.nodes@[cs[i].0 as int]
                                && cs[i].1 < self.nodes@.len() && self.nodes@[cs[i].1 as int]);
                        } else {
                            assert(raw@[k] == to.idx);
                        }
                    };
                }
                let mut path: Vec<NodeId> = Vec::new();
                let mut k: usize = 0;
                while k < raw.len()
                    invariant
                        k <= raw@.len(),
                        path@.len() == k as int,
                        forall|j: int| 0 <= j < k ==> (#[trigger] path@[j]).idx == raw@[j],
                    decreases raw@.len() - k,
                {
                    path.push(NodeId { idx: raw[k] });
                    k = k + 1;
                }
                proof {
                    assert(ids_of(path@) =~= raw@);
                }
                Some((c, path))
            },
        }
    }
}

impl TrackGraph {
    /// Two fresh nodes joined by one fresh track segment.
    pub fn add_unconnected_track(&mut self, weight: u64) -> (r: (NodeId, NodeId, EdgeId))
        requires
            old(self).wf(),
            old(self).nodes@.len() + 2 <= NODE_CAP,
            old(self).edges@.len() < EDGE_CAP,
        ensures
            final(self).wf(),
            r.0.idx == old(self).nodes@.len(),
            r.1.idx == old(self).nodes@.len() + 1,
            r.2.idx == old(self).edges@.len(),
            final(self).nodes@ == old(self).nodes@.push(true).push(true),
            final(self).edges@ == old(self).edges@.push(
                (EdgeRec { live: true, a: r.0.idx, b: r.1.idx, weight }),
            ),
    {
        let a = self.add_node();
        let b = self.add_node();
        let er = self.add_edge(a, b, weight);
        match er {
            Ok(e) => (a, b, e),
            Err(_) => unreached(),
        }
    }

    /// Extends the network from `node` with a fresh endpoint and a fresh
    /// segment to it.
    pub fn extend_track(&mut self, node: NodeId, weight: u64) -> (r: (NodeId, EdgeId))
        requires
            old(self).wf(),
            old(self).node_live(node.idx as int),
            old(self).nodes@.len() < NODE_CAP,
            old(self).edges@.len() < EDGE_CAP,
        ensures
            final(self).wf(),
            r.0.idx == old(self).nodes@.len(),
            r.1.idx == old(self).edges@.len(),
            final(self).nodes@ == old(self).nodes@.push(true),
            final(self).edges@ == old(self).edges@.push(
                (EdgeRec { live: true, a: node.idx, b: r.0.idx, weight }),
            ),
    {
        let end = self.add_node();
        let er = self.add_edge(node, end, weight);
        match er {
            Ok(e) => (end, e),
            Err(_) => unreached(),
        }
    }

    /// Splits the live segment `e` joining `a` and `b`: the segment is
    /// removed and a fresh middle node is joined to both ends.
    pub fn split_track(&mut self, a: NodeId, b: NodeId, e: EdgeId, weight_left: u64, weight_right: u64) -> (r: (
        NodeId,
        EdgeId,
        EdgeId,
    ))
        requires
            old(self).wf(),
            old(self).edge_live(e.idx as int),
            old(self).edges@[e.idx as int].a == a.idx,
            old(self).edges@[e.idx as int].b == b.idx,
            old(self).nodes@.len() < NODE_CAP,
            old(self).edges@.len() + 2 <= EDGE_CAP,
        ensures
            final(self).wf(),
            r.0.idx == old(self).nodes@.len(),
            r.1.idx == old(self).edges@.len(),
            r.2.idx == old(self).edges@.len() + 1,
            final(self).nodes@ == old(self).nodes@.push(true),
            final(self).edges@ == old(self).edges@.update(
                e.idx as int,
                (EdgeRec { live: false, ..old(self).edges@[e.idx as int] }),
            ).push((EdgeRec { live: true, a: a.idx, b: r.0.idx, weight: weight_left })).push(
                (EdgeRec { live: true, a: b.idx, b: r.0.idx, weight: weight_right }),
            ),
    {
        proof {
            assert(old(self).edge_live(e.idx as int));
            assert(old(self).edge_ok(e.idx as int));
        }
        self.remove_edge(e);
        let c = self.add_node();
        let er1 = self.add_edge(a, c, weight_left);
        let f = match er1 {
            Ok(x) => x,
            Err(_) => unreached(),
        };
        let er2 = self.add_edge(b, c, weight_right);
        let g = match er2 {
            Ok(x) => x,
            Err(_) => unreached(),
        };
        (c, f, g)
    }
}

} // verus!
