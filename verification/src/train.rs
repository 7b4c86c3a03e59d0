//! Train placement along track edges: hover hit-testing against the live
//! edge geometry and resolving a linear position back to a world point.
//!
//! A train never stores an authoritative world position: it keeps an edge
//! handle and an absolute offset from endpoint `a`, and its world position
//! is recomputed from the endpoints' current positions, the offset being
//! re-clamped to the segment's current length.

use vstd::prelude::*;

use crate::graph::EdgeId;
use crate::graph::NodeId;
use crate::num::Vec2i;
use crate::num::dist;
use crate::num::dist_spec;
use crate::num::in_span;
use crate::num::in_world;
use crate::num::lemma_mul_bound;

verus! {

/// Hover candidates farther than this from the pointer are rejected.
pub const HOVER_RADIUS: u64 = 20;

/// A train's place on the network: the hosting edge and the absolute
/// offset from endpoint `a`, clamped to the edge length.
#[derive(Clone, Copy, PartialEq, Eq, Structural, Debug)]
pub struct TrackPosition {
    pub current_track: EdgeId,
    pub lin_pos: u64,
}

/// The live geometry of one edge: its endpoint handles and their current
/// world positions, as the synchronization step keeps them.
#[derive(Clone, Copy, PartialEq, Eq, Structural, Debug)]
pub struct EdgeComp {
    pub a: NodeId,
    pub b: NodeId,
    pub pos_a: Vec2i,
    pub pos_b: Vec2i,
}

/// A successful hover hit: how far the pointer was, the projected world
/// point, and the track position a train placed there would get.
#[derive(Clone, Copy, PartialEq, Eq, Structural, Debug)]
pub struct TrackHit {
    pub distance: u64,
    pub world_pos: Vec2i,
    pub track: TrackPosition,
}

/// The floor length of the segment.
pub open spec fn seg_len(g: EdgeComp) -> int {
    dist_spec(g.pos_a, g.pos_b)
}

/// Dot product of the segment direction with the pointer offset from `a`.
pub open spec fn seg_dot(g: EdgeComp, p: Vec2i) -> int {
    (g.pos_b.x - g.pos_a.x) * (p.x - g.pos_a.x) + (g.pos_b.y - g.pos_a.y) * (p.y - g.pos_a.y)
}

/// The pointer's offset along the segment, clamped to `[0, seg_len]`.
pub open spec fn lin_pos_spec(g: EdgeComp, p: Vec2i) -> int {
    if seg_len(g) == 0 {
        0
    } else if seg_dot(g, p) <= 0 {
        0
    } else if seg_dot(g, p) / seg_len(g) >= seg_len(g) {
        seg_len(g)
    } else {
        seg_dot(g, p) / seg_len(g)
    }
}

/// `d * t / w`, rounded towards zero; zero for a degenerate segment.
pub open spec fn scaled_spec(d: int, t: int, w: int) -> int {
    if w == 0 {
        0
    } else if d >= 0 {
        d * t / w
    } else {
        -((-d) * t / w)
    }
}

/// The world point at offset `t` from `a` along the segment.
pub open spec fn point_at_spec(g: EdgeComp, t: int) -> Vec2i {
    Vec2i {
        x: (g.pos_a.x + scaled_spec(g.pos_b.x - g.pos_a.x, t, seg_len(g))) as i64,
        y: (g.pos_a.y + scaled_spec(g.pos_b.y - g.pos_a.y, t, seg_len(g))) as i64,
    }
}

/// How far the pointer is from its projection onto the segment.
pub open spec fn hover_dist_spec(g: EdgeComp, p: Vec2i) -> int {
    dist_spec(p, point_at_spec(g, lin_pos_spec(g, p)))
}

/// The component displacement stays between zero and `d` inclusive.
pub proof fn lemma_scaled_bounds(d: int, t: int, w: int)
    requires
        0 <= t <= w,
    ensures
        d >= 0 ==> 0 <= scaled_spec(d, t, w) <= d,
        d < 0 ==> d <= scaled_spec(d, t, w) <= 0,
{
    if w > 0 {
        let m = if d >= 0 {
            d
        } else {
            -d
        };
        assert(0 <= m * t) by (nonlinear_arith)
            requires
                0 <= m,
                0 <= t,
        ;
        assert(m * t <= w * m) by (nonlinear_arith)
            requires
                0 <= m,
                0 <= t <= w,
        ;
        vstd::arithmetic::div_mod::lemma_div_pos_is_pos(m * t, w);
        vstd::arithmetic::div_mod::lemma_div_is_ordered(m * t, w * m, w);
        vstd::arithmetic::div_mod::lemma_div_multiples_vanish(m, w);
        assert(m * t / w <= m);
    }
}

/// The clamped offset of the pointer along one edge's segment.
pub fn lin_pos_of(g: &EdgeComp, p: Vec2i) -> (t: u64)
    requires
        in_world(g.pos_a),
        in_world(g.pos_b),
        in_world(p),
    ensures
        t as int == lin_pos_spec(*g, p),
        0 <= t as int <= seg_len(*g),
{
    let w = dist(g.pos_a, g.pos_b);
    if w == 0 {
        return 0;
    }
    let ux = g.pos_b.x - g.pos_a.x;
    let uy = g.pos_b.y - g.pos_a.y;
    let vx = p.x - g.pos_a.x;
    let vy = p.y - g.pos_a.y;
    proof {
        lemma_mul_bound(ux as int, vx as int, 1_000_000_000);
        lemma_mul_bound(uy as int, vy as int, 1_000_000_000);
        assert(1_000_000_000 * 1_000_000_000 == 0x0DE0_B6B3_A764_0000) by (nonlinear_arith);
    }
    let dot = ux * vx + uy * vy;
    if dot <= 0 {
        return 0;
    }
    let q = (dot as u64) / w;
    if q >= w {
        w
    } else {
        q
    }
}

/// `d * t / w` on machine words, rounded towards zero.
fn scaled(d: i64, t: u64, w: u64) -> (r: i64)
    requires
        -2_000_000_000 <= d <= 2_000_000_000,
        t <= w,
        w <= 4_300_000_000,
    ensures
        r as int == scaled_spec(d as int, t as int, w as int),
        d >= 0 ==> 0 <= r <= d,
        d < 0 ==> d <= r <= 0,
{
    proof {
        lemma_scaled_bounds(d as int, t as int, w as int);
    }
    if w == 0 {
        return 0;
    }
    if d >= 0 {
        proof {
            assert(0 <= d * t <= 8_600_000_000_000_000_000) by (nonlinear_arith)
                requires
                    0 <= d <= 2_000_000_000,
                    0 <= t <= 4_300_000_000,
            ;
        }
        let prod = (d as u64) * t;
        (prod / w) as i64
    } else {
        proof {
            assert(0 <= (-d) * t <= 8_600_000_000_000_000_000) by (nonlinear_arith)
                requires
                    0 <= -d <= 2_000_000_000,
                    0 <= t <= 4_300_000_000,
            ;
        }
        let mag = (-d) as u64;
        let prod = mag * t;
        -((prod / w) as i64)
    }
}

/// The world point at offset `t` from `a` along the edge's segment.
pub fn point_at(g: &EdgeComp, t: u64) -> (q: Vec2i)
    requires
        in_world(g.pos_a),
        in_world(g.pos_b),
        t as int <= seg_len(*g),
    ensures
        q == point_at_spec(*g, t as int),
        in_span(q),
{
    proof {
        crate::num::lemma_dist_bound(g.pos_a, g.pos_b);
    }
    let w = dist(g.pos_a, g.pos_b);
    let sx = scaled(g.pos_b.x - g.pos_a.x, t, w);
    let sy = scaled(g.pos_b.y - g.pos_a.y, t, w);
    Vec2i { x: g.pos_a.x + sx, y: g.pos_a.y + sy }
}

/// Resolves a train's stored position against the edge's current
/// geometry: the absolute offset is re-clamped to the segment's current
/// length and interpolated between the live endpoint positions.
pub fn track_pos_to_vec2(pos: &TrackPosition, edge: &EdgeComp) -> (q: Vec2i)
    requires
        in_world(edge.pos_a),
        in_world(edge.pos_b),
    ensures
        ({
            let t = if pos.lin_pos as int <= seg_len(*edge) {
                pos.lin_pos as int
            } else {
                seg_len(*edge)
            };
            q == point_at_spec(*edge, t)
        }),
        in_span(q),
{
    proof {
        crate::num::lemma_dist_bound(edge.pos_a, edge.pos_b);
    }
    let w = dist(edge.pos_a, edge.pos_b);
    let t = if pos.lin_pos <= w {
        pos.lin_pos
    } else {
        w
    };
    point_at(edge, t)
}

/// A train keeps to its hosting segment: after its edge's endpoints move,
/// resolving the same absolute offset against the new geometry lands on
/// the point at that offset re-clamped to the new length, and that point
/// lies within the axis-aligned span of the new endpoints.
pub proof fn lemma_train_keeps_to_segment(g: EdgeComp, lin: u64)
    requires
        in_world(g.pos_a),
        in_world(g.pos_b),
    ensures
        ({
            let t = if lin as int <= seg_len(g) {
                lin as int
            } else {
                seg_len(g)
            };
            let q = point_at_spec(g, t);
            &&& g.pos_a.x <= g.pos_b.x ==> g.pos_a.x <= q.x <= g.pos_b.x
            &&& g.pos_b.x <= g.pos_a.x ==> g.pos_b.x <= q.x <= g.pos_a.x
            &&& g.pos_a.y <= g.pos_b.y ==> g.pos_a.y <= q.y <= g.pos_b.y
            &&& g.pos_b.y <= g.pos_a.y ==> g.pos_b.y <= q.y <= g.pos_a.y
        }),
{
    let t = if lin as int <= seg_len(g) {
        lin as int
    } else {
        seg_len(g)
    };
    crate::num::lemma_dist_bound(g.pos_a, g.pos_b);
    lemma_scaled_bounds(g.pos_b.x - g.pos_a.x, t, seg_len(g));
    lemma_scaled_bounds(g.pos_b.y - g.pos_a.y, t, seg_len(g));
}

/// The edge chosen by hovering at `p`: scanning in order, an edge within
/// `HOVER_RADIUS` replaces the incumbent only when strictly closer.
pub open spec fn hit_spec(geoms: Seq<(EdgeId, EdgeComp)>, p: Vec2i) -> Option<int>
    decreases geoms.len(),
{
    if geoms.len() == 0 {
        None
    } else {
        let prev = hit_spec(geoms.drop_last(), p);
        let g = geoms.last().1;
        if hover_dist_spec(g, p) <= HOVER_RADIUS {
            match prev {
                None => Some(geoms.len() - 1),
                Some(b) => if hover_dist_spec(g, p) < hover_dist_spec(geoms[b].1, p) {
                    Some(geoms.len() - 1)
                } else {
                    Some(b)
                },
            }
        } else {
            prev
        }
    }
}

/// Projects the pointer onto every live edge and picks the closest one
/// within `HOVER_RADIUS`; earlier edges win ties. The hit carries the
/// projected world point and the track position a train placed there
/// would get.
pub fn track_hover_hit(geoms: &Vec<(EdgeId, EdgeComp)>, p: Vec2i) -> (r: Option<TrackHit>)
    requires
        in_world(p),
        forall|i: int|
            0 <= i < geoms@.len() ==> in_world((#[trigger] geoms@[i]).1.pos_a) && in_world(
                geoms@[i].1.pos_b,
            ),
    ensures
        match r {
            None => hit_spec(geoms@, p) is None,
            Some(h) => {
                &&& hit_spec(geoms@, p) is Some
                &&& {
                    let bi = hit_spec(geoms@, p)->0;
                    &&& 0 <= bi < geoms@.len()
                    &&& h.track.current_track == geoms@[bi].0
                    &&& h.track.lin_pos as int == lin_pos_spec(geoms@[bi].1, p)
                    &&& h.world_pos == point_at_spec(geoms@[bi].1, lin_pos_spec(geoms@[bi].1, p))
                    &&& h.distance as int == hover_dist_spec(geoms@[bi].1, p)
                    &&& h.distance <= HOVER_RADIUS
                }
            },
        },
{
    let mut best: Option<(usize, TrackHit)> = None;
    let mut i: usize = 0;
    while i < geoms.len()
        invariant
            in_world(p),
            forall|j: int|
                0 <= j < geoms@.len() ==> in_world((#[trigger] geoms@[j]).1.pos_a) && in_world(
                    geoms@[j].1.pos_b,
                ),
            i <= geoms@.len(),
            match best {
                None => hit_spec(geoms@.take(i as int), p) is None,
                Some(pair) => {
                    &&& hit_spec(geoms@.take(i as int), p) == Some(pair.0 as int)
                    &&& pair.0 < i
                    &&& pair.1.track.current_track == geoms@[pair.0 as int].0
                    &&& pair.1.track.lin_pos as int == lin_pos_spec(geoms@[pair.0 as int].1, p)
                    &&& pair.1.world_pos == point_at_spec(
                        geoms@[pair.0 as int].1,
                        lin_pos_spec(geoms@[pair.0 as int].1, p),
                    )
                    &&& pair.1.distance as int == hover_dist_spec(geoms@[pair.0 as int].1, p)
                    &&& pair.1.distance <= HOVER_RADIUS
                },
            },
        decreases geoms@.len() - i,
    {
        proof {
            assert(geoms@.take(i + 1).drop_last() =~= geoms@.take(i as int));
            assert(geoms@.take(i + 1).last() == geoms@[i as int]);
            assert(forall|b: int|
                0 <= b < i ==> geoms@.take(i + 1)[b] == geoms@[b]);
        }
        let pair = geoms[i];
        let g = pair.1;
        let t = lin_pos_of(&g, p);
        let q = point_at(&g, t);
        let d = dist(p, q);
        if d <= HOVER_RADIUS {
            let hit = TrackHit {
                distance: d,
                world_pos: q,
                track: TrackPosition { current_track: pair.0, lin_pos: t },
            };
            match best {
                None => {
                    best = Some((i, hit));
                },
                Some(incumbent) => {
                    if d < incumbent.1.distance {
                        best = Some((i, hit));
                    }
                },
            }
        }
        i = i + 1;
    }
    proof {
        assert(geoms@.take(geoms@.len() as int) =~= geoms@);
    }
    match best {
        None => None,
        Some(pair) => Some(pair.1),
    }
}

} // verus!
