//! Scalar and planar helpers: inclusive ranges, integer square root and
//! floor Euclidean distances on integer world coordinates.

use vstd::prelude::*;

verus! {

/// Positions are kept within this bound componentwise so that every squared
/// distance the crate computes fits in an `i64`.
pub const COORD_LIMIT: i64 = 500_000_000;

/// An inclusive interval of scalars.
#[derive(Clone, Copy, PartialEq, Eq, Structural, Debug)]
pub struct Range {
    pub left: i64,
    pub right: i64,
}

impl Range {
    pub open spec fn contain_spec(self, value: i64) -> bool {
        self.left <= value && value <= self.right
    }

    pub open spec fn clamp_spec(self, value: i64) -> i64 {
        if value < self.right {
            if value < self.left {
                self.left
            } else {
                value
            }
        } else {
            if self.right < self.left {
                self.left
            } else {
                self.right
            }
        }
    }

    /// Whether `value` lies inside the interval, both ends included.
    pub fn contain(&self, value: i64) -> (r: bool)
        ensures
            r == self.contain_spec(value),
    {
        self.left <= value && value <= self.right
    }

    /// The greater of `left` and the lesser of `right` and `value`.
    pub fn clamp(&self, value: i64) -> (r: i64)
        ensures
            r == self.clamp_spec(value),
    {
        let low = if value < self.right {
            value
        } else {
            self.right
        };
        if low < self.left {
            self.left
        } else {
            low
        }
    }
}

/// A point or displacement on the integer world plane.
#[derive(Clone, Copy, PartialEq, Eq, Structural, Debug)]
pub struct Vec2i {
    pub x: i64,
    pub y: i64,
}

/// Both coordinates within the world bound.
pub open spec fn in_world(p: Vec2i) -> bool {
    &&& -COORD_LIMIT <= p.x <= COORD_LIMIT
    &&& -COORD_LIMIT <= p.y <= COORD_LIMIT
}

/// The wider band that interpolated points along in-world segments can
/// reach; distances stay computable inside it.
pub open spec fn in_span(p: Vec2i) -> bool {
    &&& -1_500_000_000 <= p.x <= 1_500_000_000
    &&& -1_500_000_000 <= p.y <= 1_500_000_000
}

/// Two values bounded in magnitude have a bounded product.
pub proof fn lemma_mul_bound(x: int, y: int, m: int)
    requires
        0 <= m,
        -m <= x <= m,
        -m <= y <= m,
    ensures
        -(m * m) <= x * y <= m * m,
{
    assert(-(m * m) <= x * y <= m * m) by (nonlinear_arith)
        requires
            0 <= m,
            -m <= x <= m,
            -m <= y <= m,
    ;
}

/// A value bounded in magnitude has a bounded square.
pub proof fn lemma_square_bound(x: int, m: int)
    requires
        0 <= m,
        -m <= x <= m,
    ensures
        0 <= x * x <= m * m,
{
    assert(0 <= x * x <= m * m) by (nonlinear_arith)
        requires
            0 <= m,
            -m <= x <= m,
    ;
}

/// The floor of the square root of `n`.
pub open spec fn sqrt_floor(n: nat) -> nat
    decreases n,
{
    if n == 0 {
        0
    } else {
        let s = sqrt_floor((n - 1) as nat);
        if (s + 1) * (s + 1) <= n {
            s + 1
        } else {
            s
        }
    }
}

/// `r` is the floor square root of `n`.
pub open spec fn is_sqrt(n: nat, r: nat) -> bool {
    r * r <= n && n < (r + 1) * (r + 1)
}

pub proof fn lemma_sqrt_floor_bounds(n: nat)
    ensures
        is_sqrt(n, sqrt_floor(n)),
    decreases n,
{
    if n > 0 {
        let m = (n - 1) as nat;
        lemma_sqrt_floor_bounds(m);
        let s = sqrt_floor(m);
        let r = sqrt_floor(n);
        if (s + 1) * (s + 1) <= n {
            assert(r == s + 1);
            assert(n < (s + 2) * (s + 2)) by (nonlinear_arith)
                requires
                    m < (s + 1) * (s + 1),
                    n == m + 1,
            ;
            assert(is_sqrt(n, r));
        } else {
            assert(r == s);
            assert(is_sqrt(n, r));
        }
    } else {
        assert(sqrt_floor(0) == 0);
        assert((0nat + 1) * (0nat + 1) == 1) by (nonlinear_arith);
        assert(is_sqrt(0, 0));
    }
}

/// Two naturals bracketing the same `n` between consecutive squares are equal.
pub proof fn lemma_sqrt_unique(n: nat, a: nat, b: nat)
    requires
        a * a <= n < (a + 1) * (a + 1),
        b * b <= n < (b + 1) * (b + 1),
    ensures
        a == b,
{
    assert(a == b) by (nonlinear_arith)
        requires
            a * a <= n < (a + 1) * (a + 1),
            b * b <= n < (b + 1) * (b + 1),
    ;
}

/// Integer square root, rounding down.
pub fn isqrt(n: u64) -> (r: u64)
    ensures
        r == sqrt_floor(n as nat),
{
    let mut lo: u64 = 0;
    let mut hi: u64 = 0x1_0000_0000;
    while lo + 1 < hi
        invariant
            lo < hi <= 0x1_0000_0000,
            (lo as int) * (lo as int) <= n as int,
            (n as int) < (hi as int) * (hi as int),
        decreases hi - lo,
    {
        let mid = lo + (hi - lo) / 2;
        proof {
            lemma_square_bound(mid as int, 0x1_0000_0000);
        }
        if (mid as u128) * (mid as u128) <= n as u128 {
            lo = mid;
        } else {
            hi = mid;
        }
    }
    proof {
        lemma_sqrt_floor_bounds(n as nat);
        lemma_sqrt_unique(n as nat, lo as nat, sqrt_floor(n as nat));
    }
    lo
}

/// The squared Euclidean distance between two points.
pub open spec fn dist_sq(a: Vec2i, b: Vec2i) -> int {
    (a.x - b.x) * (a.x - b.x) + (a.y - b.y) * (a.y - b.y)
}

/// The floor of the Euclidean distance between two points.
pub open spec fn dist_spec(a: Vec2i, b: Vec2i) -> int {
    sqrt_floor(dist_sq(a, b) as nat) as int
}

/// For in-span points the squared distance fits in a `u64`, each square
/// in an `i64`.
pub proof fn lemma_dist_sq_bounds(a: Vec2i, b: Vec2i)
    requires
        in_span(a),
        in_span(b),
    ensures
        0 <= dist_sq(a, b) <= 18_000_000_000_000_000_000,
        0 <= (a.x - b.x) * (a.x - b.x) <= 9_000_000_000_000_000_000,
        0 <= (a.y - b.y) * (a.y - b.y) <= 9_000_000_000_000_000_000,
{
    lemma_square_bound(a.x - b.x, 3_000_000_000);
    lemma_square_bound(a.y - b.y, 3_000_000_000);
    assert(3_000_000_000 * 3_000_000_000 == 9_000_000_000_000_000_000) by (nonlinear_arith);
}

/// The floor distance of in-world points is below `2^31`.
pub proof fn lemma_dist_bound(a: Vec2i, b: Vec2i)
    requires
        in_world(a),
        in_world(b),
    ensures
        0 <= dist_spec(a, b) < 0x8000_0000,
{
    lemma_square_bound(a.x - b.x, 1_000_000_000);
    lemma_square_bound(a.y - b.y, 1_000_000_000);
    assert(1_000_000_000 * 1_000_000_000 == 0x0DE0_B6B3_A764_0000) by (nonlinear_arith);
    lemma_sqrt_floor_bounds(dist_sq(a, b) as nat);
    let s = sqrt_floor(dist_sq(a, b) as nat);
    assert(s < 0x8000_0000) by (nonlinear_arith)
        requires
            s * s <= 0x1BC1_6D67_4EC8_0000,
    ;
}

/// Floor Euclidean distance between two in-span points.
pub fn dist(a: Vec2i, b: Vec2i) -> (r: u64)
    requires
        in_span(a),
        in_span(b),
    ensures
        r == dist_spec(a, b),
{
    proof {
        lemma_dist_sq_bounds(a, b);
    }
    let dx = a.x - b.x;
    let dy = a.y - b.y;
    let sq = (dx * dx) as u64 + (dy * dy) as u64;
    isqrt(sq)
}

/// Maps a world position to window coordinates: the window's origin sits
/// at its top-left corner, so the vertical axis flips around the centre.
pub fn vec2_to_pos2(pos: Vec2i, window_size: Vec2i) -> (r: Vec2i)
    requires
        in_world(pos),
        0 <= window_size.x <= COORD_LIMIT,
        0 <= window_size.y <= COORD_LIMIT,
    ensures
        r.x == pos.x + window_size.x / 2,
        r.y == window_size.y / 2 - pos.y,
{
    Vec2i { x: pos.x + window_size.x / 2, y: window_size.y / 2 - pos.y }
}

} // verus!
