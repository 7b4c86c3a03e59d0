//! Factory buildings and their per-tick resource simulation.
//!
//! Every building keeps named resource ledgers `{stock, rate, max_stock}`.
//! One tick advances each stock by `rate * dt`, clamping below at zero.
//! When any resource of a building would exceed its capacity, that whole
//! building's tick is abandoned and its stocks stay put; this mirrors the
//! established behaviour rather than clamping the one resource at its cap.

use vstd::prelude::*;
use vstd::string::StringExecFns;

verus! {

/// Bound on stocks and capacities.
pub const STOCK_LIMIT: i64 = 1_000_000_000_000;

/// Bound on the magnitude of production/consumption rates (per second).
pub const RATE_LIMIT: i64 = 1_000_000_000;

/// Bound on the milliseconds one tick may cover.
pub const TICK_LIMIT: u64 = 1_000_000_000;

/// One resource ledger: current stock, signed rate per second, capacity.
#[derive(Clone, Copy, PartialEq, Eq, Structural, Debug)]
pub struct ResourceData {
    pub stock: i64,
    pub rate: i64,
    pub max_stock: i64,
}

/// A ledger within bounds: the stock sits in `[0, max_stock]`.
pub open spec fn res_wf(r: ResourceData) -> bool {
    &&& 0 <= r.stock <= r.max_stock <= STOCK_LIMIT
    &&& -RATE_LIMIT <= r.rate <= RATE_LIMIT
}

/// A named factory holding resource ledgers under distinct names.
pub struct Building {
    pub name: String,
    pub resources: Vec<(String, ResourceData)>,
}

/// The stock change `rate * dt_ms / 1000`, rounded towards zero.
pub open spec fn delta_spec(rate: int, dt_ms: int) -> int {
    if rate >= 0 {
        rate * dt_ms / 1000
    } else {
        -((-rate) * dt_ms / 1000)
    }
}

/// The unclamped stock a ledger would reach after one tick.
pub open spec fn stepped_stock(r: ResourceData, dt_ms: int) -> int {
    r.stock + delta_spec(r.rate as int, dt_ms)
}

/// Negative stocks clamp to zero.
pub open spec fn clamped_floor(x: int) -> int {
    if x < 0 {
        0
    } else {
        x
    }
}

/// Some resource of `b` would exceed its capacity within this tick.
pub open spec fn overshoots(b: Building, dt_ms: int) -> bool {
    exists|i: int|
        0 <= i < b.resources@.len() && stepped_stock(
            (#[trigger] b.resources@[i]).1,
            dt_ms,
        ) > b.resources@[i].1.max_stock
}

/// How one tick of `dt_ms` relates a building's state before and after:
/// names, rates and capacities are untouched; stocks either all advance
/// (clamped below at zero) or, when any resource would overshoot its
/// capacity, all stay put.
pub open spec fn tick_rel(pre: Building, post: Building, dt_ms: int) -> bool {
    &&& post.name@ == pre.name@
    &&& post.resources@.len() == pre.resources@.len()
    &&& forall|i: int|
        0 <= i < pre.resources@.len() ==> (#[trigger] post.resources@[i]).0@
            == pre.resources@[i].0@ && post.resources@[i].1.rate == pre.resources@[i].1.rate
            && post.resources@[i].1.max_stock == pre.resources@[i].1.max_stock
            && post.resources@[i].1.stock as int == (if overshoots(pre, dt_ms) {
            pre.resources@[i].1.stock as int
        } else {
            clamped_floor(stepped_stock(pre.resources@[i].1, dt_ms))
        })
}

impl Building {
    /// Every ledger is in bounds and no name repeats.
    pub open spec fn wf(self) -> bool {
        &&& forall|i: int|
            0 <= i < self.resources@.len() ==> res_wf((#[trigger] self.resources@[i]).1)
        &&& forall|i: int, j: int|
            0 <= i < j < self.resources@.len() ==> (#[trigger] self.resources@[i]).0@ != (
            #[trigger] self.resources@[j]).0@
    }

    /// A factory producing resource A while consuming resource B.
    pub fn a_factory() -> (b: Building)
        ensures
            b.wf(),
            b.name@ == "A Factory"@,
            b.resources@.len() == 2,
            b.resources@[0].0@ == "A"@,
            b.resources@[0].1 == (ResourceData { stock: 0, rate: 1, max_stock: 50 }),
            b.resources@[1].0@ == "B"@,
            b.resources@[1].1 == (ResourceData { stock: 50, rate: -1i64, max_stock: 50 }),
    {
        proof {
            reveal_strlit("A");
            reveal_strlit("B");
            assert("A"@[0] == 'A' && "B"@[0] == 'B');
            assert("A"@ != "B"@);
        }
        let mut resources: Vec<(String, ResourceData)> = Vec::new();
        resources.push((String::from_str("A"), ResourceData { stock: 0, rate: 1, max_stock: 50 }));
        resources.push(
            (String::from_str("B"), ResourceData { stock: 50, rate: -1i64, max_stock: 50 }),
        );
        Building { name: String::from_str("A Factory"), resources }
    }

    /// A factory producing resource B while consuming resource A.
    pub fn b_factory() -> (b: Building)
        ensures
            b.wf(),
            b.name@ == "B Factory"@,
            b.resources@.len() == 2,
            b.resources@[0].0@ == "A"@,
            b.resources@[0].1 == (ResourceData { stock: 50, rate: -1i64, max_stock: 50 }),
            b.resources@[1].0@ == "B"@,
            b.resources@[1].1 == (ResourceData { stock: 0, rate: 1, max_stock: 50 }),
    {
        proof {
            reveal_strlit("A");
            reveal_strlit("B");
            assert("A"@[0] == 'A' && "B"@[0] == 'B');
            assert("A"@ != "B"@);
        }
        let mut resources: Vec<(String, ResourceData)> = Vec::new();
        resources.push(
            (String::from_str("A"), ResourceData { stock: 50, rate: -1i64, max_stock: 50 }),
        );
        resources.push((String::from_str("B"), ResourceData { stock: 0, rate: 1, max_stock: 50 }));
        Building { name: String::from_str("B Factory"), resources }
    }

    /// Advances every ledger of this building by one tick of `dt_ms`
    /// milliseconds, abandoning the whole update when any resource would
    /// exceed its capacity.
    pub fn tick(&mut self, dt_ms: u64)
        requires
            old(self).wf(),
            dt_ms <= TICK_LIMIT,
        ensures
            final(self).wf(),
            tick_rel(*old(self), *final(self), dt_ms as int),
    {
        let n = self.resources.len();
        let mut i: usize = 0;
        let mut over = false;
        while i < n
            invariant
                old(self).wf(),
                *self == *old(self),
                n == self.resources@.len(),
                dt_ms <= TICK_LIMIT,
                i <= n,
                over <==> exists|j: int|
                    0 <= j < i && stepped_stock(
                        (#[trigger] self.resources@[j]).1,
                        dt_ms as int,
                    ) > self.resources@[j].1.max_stock,
            decreases n - i,
        {
            let d = self.resources[i].1;
            let step = delta(d.rate, dt_ms);
            if d.stock + step > d.max_stock {
                over = true;
            }
            i = i + 1;
        }
        if over {
            return ;
        }
        let mut out: Vec<(String, ResourceData)> = Vec::new();
        let mut k: usize = 0;
        while k < n
            invariant
                old(self).wf(),
                *self == *old(self),
                n == self.resources@.len(),
                dt_ms <= TICK_LIMIT,
                !overshoots(*self, dt_ms as int),
                k <= n,
                out@.len() == k as int,
                forall|j: int|
                    0 <= j < k ==> (#[trigger] out@[j]).0@ == self.resources@[j].0@
                        && out@[j].1.rate == self.resources@[j].1.rate && out@[j].1.max_stock
                        == self.resources@[j].1.max_stock && out@[j].1.stock as int
                        == clamped_floor(stepped_stock(self.resources@[j].1, dt_ms as int)),
            decreases n - k,
        {
            let name_k = self.resources[k].0.clone();
            let d = self.resources[k].1;
            let step = delta(d.rate, dt_ms);
            proof {
                assert(self.resources@[k as int].1 == d);
                assert(!(stepped_stock(d, dt_ms as int) > d.max_stock));
            }
            let new_stock = if d.stock + step < 0 {
                0
            } else {
                d.stock + step
            };
            out.push((name_k, ResourceData { stock: new_stock, rate: d.rate, max_stock: d.max_stock }));
            k = k + 1;
        }
        self.resources = out;
        proof {
            assert forall|i2: int, j2: int|
                0 <= i2 < j2 < self.resources@.len() implies (#[trigger] self.resources@[i2]).0@
                != (#[trigger] self.resources@[j2]).0@ by {
                assert(old(self).resources@[i2].0@ != old(self).resources@[j2].0@);
            };
        }
    }
}

/// The stock change `rate * dt_ms / 1000`, rounded towards zero.
fn delta(rate: i64, dt_ms: u64) -> (d: i64)
    requires
        -RATE_LIMIT <= rate <= RATE_LIMIT,
        dt_ms <= TICK_LIMIT,
    ensures
        d as int == delta_spec(rate as int, dt_ms as int),
        -1_000_000_000_000_000 <= d <= 1_000_000_000_000_000,
{
    if rate >= 0 {
        proof {
            assert(rate * dt_ms <= 0x0DE0_B6B3_A764_0000) by (nonlinear_arith)
                requires
                    0 <= rate <= RATE_LIMIT,
                    0 <= dt_ms <= TICK_LIMIT,
            ;
        }
        let prod = (rate as u64) * dt_ms;
        let q = prod / 1000;
        proof {
            assert(prod / 1000 <= 1_000_000_000_000_000) by (nonlinear_arith)
                requires
                    0 <= prod <= 0x0DE0_B6B3_A764_0000,
            ;
        }
        q as i64
    } else {
        proof {
            assert((-rate) * dt_ms <= 0x0DE0_B6B3_A764_0000) by (nonlinear_arith)
                requires
                    0 <= -rate <= RATE_LIMIT,
                    0 <= dt_ms <= TICK_LIMIT,
            ;
        }
        let mag = (-rate) as u64;
        let prod = mag * dt_ms;
        let q = prod / 1000;
        proof {
            assert(prod / 1000 <= 1_000_000_000_000_000) by (nonlinear_arith)
                requires
                    0 <= prod <= 0x0DE0_B6B3_A764_0000,
            ;
        }
        -(q as i64)
    }
}

/// Advances every building independently by one tick: one building's
/// overshoot abandons only that building's update, never its neighbours'.
pub fn tick_all(buildings: &mut Vec<Building>, dt_ms: u64)
    requires
        forall|i: int| 0 <= i < old(buildings)@.len() ==> (#[trigger] old(buildings)@[i]).wf(),
        dt_ms <= TICK_LIMIT,
    ensures
        final(buildings)@.len() == old(buildings)@.len(),
        forall|i: int|
            0 <= i < old(buildings)@.len() ==> (#[trigger] final(buildings)@[i]).wf() && tick_rel(
                old(buildings)@[i],
                final(buildings)@[i],
                dt_ms as int,
            ),
{
    let n = buildings.len();
    let mut i: usize = 0;
    while i < n
        invariant
            forall|j: int| 0 <= j < old(buildings)@.len() ==> (#[trigger] old(buildings)@[j]).wf(),
            dt_ms <= TICK_LIMIT,
            n == buildings@.len(),
            buildings@.len() == old(buildings)@.len(),
            i <= n,
            forall|j: int| i <= j < n ==> #[trigger] buildings@[j] == old(buildings)@[j],
            forall|j: int|
                0 <= j < i ==> (#[trigger] buildings@[j]).wf() && tick_rel(
                    old(buildings)@[j],
                    buildings@[j],
                    dt_ms as int,
                ),
        decreases n - i,
    {
        let b = &mut buildings[i];
        b.tick(dt_ms);
        i = i + 1;
    }
}

} // verus!
