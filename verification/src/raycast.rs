//! Grid traversal: walks a ray through tile space one gridline crossing at a
//! time (a DDA), keeping the remaining parametric distance to the next
//! vertical and to the next horizontal gridline.
//!
//! The traversal is a pull-based iterator: `RayWalker::next` hands out one
//! `RayStep` per tile crossing, and the caller decides whether to continue,
//! so a single pass can combine wall-stopping and sprite-collection logic.
//! A direction component that is exactly zero is handled by substituting a
//! very large distance-to-next-gridline, so that axis essentially never
//! crosses and no division by zero occurs.

use crate::fx::{iabs, lemma_div_abs_bound, lemma_div_abs_shrink, lemma_div_shrinks, lemma_mul_abs_bound, Fx};
use vstd::prelude::*;

verus! {

/// Substitute for "distance to the next gridline" on an axis whose
/// direction component is zero: far larger than any admissible
/// `max_distance`, so that axis never crosses.
pub const HUGE_REMAINING: i64 = 0x100_0000_0000;

/// Largest admissible magnitude for a direction component (raw units).
pub const DIR_LIMIT: i64 = 0x1_0000_0000;

/// Largest admissible `max_distance` (raw units).
pub const DIST_LIMIT: i64 = 0x400_0000;

/// Largest admissible magnitude for an origin coordinate (raw units).
pub const ORIGIN_LIMIT: i64 = 0x100_0000_0000;

/// A ray to cast: origin, direction (not necessarily unit length) and the
/// distance at which the traversal gives up.
#[derive(Clone, Copy, PartialEq, Eq, Structural, Debug)]
pub struct Raycast {
    pub x: Fx,
    pub y: Fx,
    pub dx: Fx,
    pub dy: Fx,
    pub max_distance: Fx,
}

impl Raycast {
    /// The numeric limits under which the traversal is free of overflow.
    pub open spec fn wf(self) -> bool {
        &&& iabs(self.x.raw as int) <= ORIGIN_LIMIT
        &&& iabs(self.y.raw as int) <= ORIGIN_LIMIT
        &&& iabs(self.dx.raw as int) <= DIR_LIMIT
        &&& iabs(self.dy.raw as int) <= DIR_LIMIT
        &&& 0 <= self.max_distance.raw <= DIST_LIMIT
    }
}

impl Default for Raycast {
    /// A zero ray with the default traversal range of 30 tiles.
    fn default() -> (r: Self)
        ensures
            r == (Raycast {
                x: Fx { raw: 0 },
                y: Fx { raw: 0 },
                dx: Fx { raw: 0 },
                dy: Fx { raw: 0 },
                max_distance: Fx { raw: 1966080 },
            }),
            r.wf(),
    {
        Raycast {
            x: Fx { raw: 0 },
            y: Fx { raw: 0 },
            dx: Fx { raw: 0 },
            dy: Fx { raw: 0 },
            max_distance: Fx { raw: 1966080 },
        }
    }
}

/// One tile crossing: total distance travelled, the integer coordinates of
/// the tile entered, the sub-tile offsets where the ray crossed in, and the
/// continuous position of the crossing.
#[derive(Clone, Copy, PartialEq, Eq, Structural, Debug)]
pub struct RayStep {
    pub total: Fx,
    pub ix: i64,
    pub iy: i64,
    pub frac_x: Fx,
    pub frac_y: Fx,
    pub pos_x: Fx,
    pub pos_y: Fx,
}

/// The remaining distance to the first gridline crossing on one axis: the
/// fraction of the origin tile left to cross, divided by the direction
/// component, or the huge substitute for a zero component.
pub open spec fn spec_first_rem(origin: Fx, d: Fx) -> int {
    if d.raw == 0 {
        HUGE_REMAINING as int
    } else if d.raw > 0 {
        ((65536 - origin.raw as int % 65536int) * 65536) / (d.raw as int)
    } else {
        ((origin.raw as int % 65536int) * 65536) / (-d.raw as int)
    }
}

/// The traversal state a cast starts from.
pub open spec fn spec_walker_init(cast: Raycast) -> RayWalker {
    RayWalker {
        ox: cast.x,
        oy: cast.y,
        dx: cast.dx,
        dy: cast.dy,
        max_distance: cast.max_distance,
        ix: (cast.x.raw as int / 65536int) as i64,
        iy: (cast.y.raw as int / 65536int) as i64,
        x_rem: Fx { raw: spec_first_rem(cast.x, cast.dx) as i64 },
        y_rem: Fx { raw: spec_first_rem(cast.y, cast.dy) as i64 },
        total: Fx { raw: 0 },
    }
}

/// The traversal state: origin and direction of the ray, the tile the ray
/// is currently in, the remaining parametric distance to the next vertical
/// (`x_rem`) and horizontal (`y_rem`) gridline, and the distance travelled.
#[derive(Clone, Copy, PartialEq, Eq, Structural, Debug)]
pub struct RayWalker {
    pub ox: Fx,
    pub oy: Fx,
    pub dx: Fx,
    pub dy: Fx,
    pub max_distance: Fx,
    pub ix: i64,
    pub iy: i64,
    pub x_rem: Fx,
    pub y_rem: Fx,
    pub total: Fx,
}

/// Which way a direction component steps its tile coordinate.
pub open spec fn spec_sign(d: Fx) -> int {
    if d.raw > 0 {
        1
    } else if d.raw < 0 {
        -1
    } else {
        0
    }
}

/// Distance to cross one full tile along an axis: `1 / |d|`, or the huge
/// substitute when the component is zero.
pub open spec fn spec_inv_raw(d: Fx) -> int {
    if d.raw == 0 {
        HUGE_REMAINING as int
    } else {
        0x1_0000_0000int / iabs(d.raw as int)
    }
}

impl RayWalker {
    /// The traversal has exhausted its range.
    pub open spec fn spec_done(self) -> bool {
        self.total.raw >= self.max_distance.raw
    }

    /// The next crossing is a vertical gridline.
    pub open spec fn spec_step_x(self) -> bool {
        self.x_rem.raw < self.y_rem.raw
    }

    /// Decreases with every step the walker hands out.
    pub open spec fn measure(self) -> int {
        let dist: int = if self.max_distance.raw - self.total.raw >= 0 {
            self.max_distance.raw - self.total.raw
        } else {
            0
        };
        4 * dist + (if self.x_rem.raw == 0 {
            1int
        } else {
            0
        }) + (if self.y_rem.raw == 0 {
            1int
        } else {
            0
        })
    }

    /// Well-formedness: the numeric bounds every step preserves.
    pub open spec fn wf(self) -> bool {
        &&& iabs(self.ox.raw as int) <= ORIGIN_LIMIT
        &&& iabs(self.oy.raw as int) <= ORIGIN_LIMIT
        &&& iabs(self.dx.raw as int) <= DIR_LIMIT
        &&& iabs(self.dy.raw as int) <= DIR_LIMIT
        &&& 0 <= self.max_distance.raw <= DIST_LIMIT
        &&& 0 <= self.total.raw <= DIST_LIMIT + HUGE_REMAINING
        &&& 0 <= self.x_rem.raw <= HUGE_REMAINING
        &&& 0 <= self.y_rem.raw <= HUGE_REMAINING
        &&& self.dx.raw != 0 ==> self.x_rem.raw <= DIR_LIMIT
        &&& self.dy.raw != 0 ==> self.y_rem.raw <= DIR_LIMIT
        &&& self.dx.raw == 0 ==> self.x_rem.raw + self.total.raw >= HUGE_REMAINING
        &&& self.dy.raw == 0 ==> self.y_rem.raw + self.total.raw >= HUGE_REMAINING
        &&& iabs(self.ix as int) + self.measure() <= 0x400_0000_0000
        &&& iabs(self.iy as int) + self.measure() <= 0x400_0000_0000
    }

    /// The continuous position along one axis after travelling `total`.
    pub open spec fn spec_pos_along(origin: Fx, d: Fx, total: Fx) -> Fx {
        Fx { raw: (origin.raw + (d.raw * total.raw) / 65536int) as i64 }
    }

    /// The gridline crossed by the next vertical step, in tile units.
    pub open spec fn spec_gridline_x(self) -> int {
        if self.dx.raw > 0 {
            self.ix + 1
        } else {
            self.ix as int
        }
    }

    /// The gridline crossed by the next horizontal step, in tile units.
    pub open spec fn spec_gridline_y(self) -> int {
        if self.dy.raw > 0 {
            self.iy + 1
        } else {
            self.iy as int
        }
    }

    /// The state after one step (meaningful only when not done).
    pub open spec fn spec_next_state(self) -> RayWalker {
        if self.spec_step_x() {
            RayWalker {
                total: Fx { raw: (self.total.raw + self.x_rem.raw) as i64 },
                y_rem: Fx { raw: (self.y_rem.raw - self.x_rem.raw) as i64 },
                x_rem: Fx { raw: spec_inv_raw(self.dx) as i64 },
                ix: (self.ix + spec_sign(self.dx)) as i64,
                ..self
            }
        } else {
            RayWalker {
                total: Fx { raw: (self.total.raw + self.y_rem.raw) as i64 },
                x_rem: Fx { raw: (self.x_rem.raw - self.y_rem.raw) as i64 },
                y_rem: Fx { raw: spec_inv_raw(self.dy) as i64 },
                iy: (self.iy + spec_sign(self.dy)) as i64,
                ..self
            }
        }
    }

    /// The step record handed out (meaningful only when not done). The
    /// crossed axis lands exactly on its gridline, so its fractional offset
    /// is zero; the other axis is derived from the distance travelled.
    pub open spec fn spec_step_of(self) -> RayStep {
        let n = self.spec_next_state();
        if self.spec_step_x() {
            let pos_x = Fx { raw: (self.spec_gridline_x() * 65536) as i64 };
            let pos_y = Self::spec_pos_along(self.oy, self.dy, n.total);
            RayStep {
                total: n.total,
                ix: n.ix,
                iy: n.iy,
                frac_x: Fx { raw: 0 },
                frac_y: Fx { raw: (pos_y.raw as int % 65536int) as i64 },
                pos_x,
                pos_y,
            }
        } else {
            let pos_x = Self::spec_pos_along(self.ox, self.dx, n.total);
            let pos_y = Fx { raw: (self.spec_gridline_y() * 65536) as i64 };
            RayStep {
                total: n.total,
                ix: n.ix,
                iy: n.iy,
                frac_x: Fx { raw: (pos_x.raw as int % 65536int) as i64 },
                frac_y: Fx { raw: 0 },
                pos_x,
                pos_y,
            }
        }
    }

    /// Starts a traversal at the ray's origin tile. The remaining distance
    /// to the first gridline on an axis is the fraction of the origin tile
    /// left to cross, divided by the direction component.
    pub fn new(cast: Raycast) -> (r: RayWalker)
        requires
            cast.wf(),
        ensures
            r.wf(),
            r.ox == cast.x,
            r.oy == cast.y,
            r.dx == cast.dx,
            r.dy == cast.dy,
            r.max_distance == cast.max_distance,
            r.total.raw == 0,
            r.ix == cast.x.raw as int / 65536int,
            r.iy == cast.y.raw as int / 65536int,
            r == spec_walker_init(cast),
    {
        let ix: i64 = cast.x.floor_int();
        let iy: i64 = cast.y.floor_int();
        let x_rem: Fx = Self::first_remaining(cast.x, cast.dx);
        let y_rem: Fx = Self::first_remaining(cast.y, cast.dy);
        RayWalker {
            ox: cast.x,
            oy: cast.y,
            dx: cast.dx,
            dy: cast.dy,
            max_distance: cast.max_distance,
            ix,
            iy,
            x_rem,
            y_rem,
            total: Fx { raw: 0 },
        }
    }

    /// Distance to the first gridline crossing on one axis.
    fn first_remaining(origin: Fx, d: Fx) -> (r: Fx)
        requires
            iabs(origin.raw as int) <= ORIGIN_LIMIT,
            iabs(d.raw as int) <= DIR_LIMIT,
        ensures
            0 <= r.raw <= HUGE_REMAINING,
            d.raw != 0 ==> r.raw <= DIR_LIMIT,
            d.raw == 0 ==> r.raw == HUGE_REMAINING,
            r.raw == spec_first_rem(origin, d),
    {
        if d.raw == 0 {
            Fx { raw: HUGE_REMAINING }
        } else if d.raw > 0 {
            let frac: Fx = origin.fract();
            let num: Fx = Fx { raw: 65536 - frac.raw };
            proof {
                lemma_div_shrinks(num.raw as int * 65536, d.raw as int);
            }
            num.div(d)
        } else {
            let frac: Fx = origin.fract();
            let nd: Fx = d.neg();
            proof {
                lemma_div_shrinks(frac.raw as int * 65536, nd.raw as int);
            }
            frac.div(nd)
        }
    }

    /// Hands out the next tile crossing, or `None` once the traversal has
    /// covered `max_distance`.
    pub fn next(&mut self) -> (r: Option<RayStep>)
        requires
            old(self).wf(),
        ensures
            final(self).wf(),
            old(self).spec_done() ==> r is None && *final(self) == *old(self),
            !old(self).spec_done() ==> r == Some(old(self).spec_step_of()) && *final(self)
                == old(self).spec_next_state(),
            r is Some ==> final(self).measure() < old(self).measure(),
            r is Some ==> final(self).total.raw >= old(self).total.raw,
    {
        if self.total.raw >= self.max_distance.raw {
            return None;
        }
        let ghost pre: RayWalker = *self;
        if self.x_rem.raw < self.y_rem.raw {
            let step_dist: Fx = self.x_rem;
            let total2: Fx = self.total.add(step_dist);
            self.total = total2;
            self.y_rem = self.y_rem.sub(step_dist);
            self.x_rem = Self::inv_component(self.dx);
            let gx: i64 = if self.dx.raw > 0 {
                self.ix + 1
            } else {
                self.ix
            };
            if self.dx.raw > 0 {
                self.ix = self.ix + 1;
            } else if self.dx.raw < 0 {
                self.ix = self.ix - 1;
            }
            let pos_x: Fx = Fx { raw: gx * 65536 };
            let pos_y: Fx = Self::pos_along(self.oy, self.dy, total2);
            let frac_y: Fx = pos_y.fract();
            proof {
                assert(self.measure() < pre.measure());
            }
            Some(
                RayStep {
                    total: total2,
                    ix: self.ix,
                    iy: self.iy,
                    frac_x: Fx { raw: 0 },
                    frac_y,
                    pos_x,
                    pos_y,
                },
            )
        } else {
            let step_dist: Fx = self.y_rem;
            let total2: Fx = self.total.add(step_dist);
            self.total = total2;
            self.x_rem = self.x_rem.sub(step_dist);
            self.y_rem = Self::inv_component(self.dy);
            let gy: i64 = if self.dy.raw > 0 {
                self.iy + 1
            } else {
                self.iy
            };
            if self.dy.raw > 0 {
                self.iy = self.iy + 1;
            } else if self.dy.raw < 0 {
                self.iy = self.iy - 1;
            }
            let pos_y: Fx = Fx { raw: gy * 65536 };
            let pos_x: Fx = Self::pos_along(self.ox, self.dx, total2);
            let frac_x: Fx = pos_x.fract();
            proof {
                assert(self.measure() < pre.measure());
            }
            Some(
                RayStep {
                    total: total2,
                    ix: self.ix,
                    iy: self.iy,
                    frac_x,
                    frac_y: Fx { raw: 0 },
                    pos_x,
                    pos_y,
                },
            )
        }
    }

    /// Distance to cross one full tile along an axis: `1 / |d|`, clamped to
    /// the huge substitute when the component is zero.
    fn inv_component(d: Fx) -> (r: Fx)
        requires
            iabs(d.raw as int) <= DIR_LIMIT,
        ensures
            r.raw == spec_inv_raw(d),
            0 < r.raw <= HUGE_REMAINING,
            d.raw != 0 ==> r.raw <= DIR_LIMIT,
    {
        if d.raw == 0 {
            Fx { raw: HUGE_REMAINING }
        } else {
            let a: Fx = d.abs();
            proof {
                lemma_div_shrinks(65536int * 65536, a.raw as int);
                assert(0x1_0000_0000int / (a.raw as int) >= 1) by (nonlinear_arith)
                    requires
                        1 <= a.raw <= 0x1_0000_0000,
                ;
            }
            Fx { raw: 65536 }.div(a)
        }
    }

    /// The continuous position along one axis after travelling `total`.
    fn pos_along(origin: Fx, d: Fx, total: Fx) -> (r: Fx)
        requires
            iabs(origin.raw as int) <= ORIGIN_LIMIT,
            iabs(d.raw as int) <= DIR_LIMIT,
            0 <= total.raw <= DIST_LIMIT + HUGE_REMAINING,
        ensures
            r == Self::spec_pos_along(origin, d, total),
    {
        proof {
            lemma_mul_abs_bound(
                d.raw as int,
                total.raw as int,
                DIR_LIMIT as int,
                (DIST_LIMIT + HUGE_REMAINING) as int,
            );
            lemma_div_abs_bound(d.raw as int * total.raw, 0x4010_0000_0000_0000_0000int, 65536);
        }
        let scaled: Fx = d.mul(total);
        origin.add(scaled)
    }
}

/// The state after `k` steps of the traversal.
pub open spec fn spec_walk(s: RayWalker, k: nat) -> RayWalker
    decreases k,
{
    if k == 0 {
        s
    } else {
        spec_walk(s, (k - 1) as nat).spec_next_state()
    }
}

/// Bounds on the per-tile crossing distance.
pub proof fn lemma_inv_raw_bounds(d: Fx)
    requires
        iabs(d.raw as int) <= DIR_LIMIT,
    ensures
        0 < spec_inv_raw(d) <= HUGE_REMAINING,
        d.raw != 0 ==> spec_inv_raw(d) <= DIR_LIMIT,
{
    if d.raw != 0 {
        lemma_div_shrinks(0x1_0000_0000int, iabs(d.raw as int));
        assert(0x1_0000_0000int / iabs(d.raw as int) >= 1) by (nonlinear_arith)
            requires
                1 <= iabs(d.raw as int) <= 0x1_0000_0000int,
        ;
    }
}

/// One step of a live traversal keeps the state well formed and shrinks its
/// measure.
pub proof fn lemma_next_preserves_wf(s: RayWalker)
    requires
        s.wf(),
        !s.spec_done(),
    ensures
        s.spec_next_state().wf(),
        s.spec_next_state().measure() < s.measure(),
{
    lemma_inv_raw_bounds(s.dx);
    lemma_inv_raw_bounds(s.dy);
}

/// `k` live steps keep the state well formed; the ray itself never changes.
pub proof fn lemma_walk_wf(s: RayWalker, k: nat)
    requires
        s.wf(),
        forall|j: nat| j < k ==> !spec_walk(s, j).spec_done(),
    ensures
        spec_walk(s, k).wf(),
        spec_walk(s, k).ox == s.ox,
        spec_walk(s, k).oy == s.oy,
        spec_walk(s, k).dx == s.dx,
        spec_walk(s, k).dy == s.dy,
        spec_walk(s, k).max_distance == s.max_distance,
    decreases k,
{
    if k > 0 {
        lemma_walk_wf(s, (k - 1) as nat);
        assert(!spec_walk(s, (k - 1) as nat).spec_done());
        lemma_next_preserves_wf(spec_walk(s, (k - 1) as nat));
    }
}

/// For a ray with nonzero direction, one step enters an edge-adjacent tile
/// (exactly one coordinate changes, by exactly one) and never shortens the
/// distance travelled.
pub proof fn lemma_step_contiguous(s: RayWalker)
    requires
        s.wf(),
        !s.spec_done(),
        s.dx.raw != 0 || s.dy.raw != 0,
    ensures
        s.spec_next_state().total.raw >= s.total.raw,
        iabs(s.spec_next_state().ix - s.ix) + iabs(s.spec_next_state().iy - s.iy) == 1,
{
    if s.spec_step_x() {
        if s.dx.raw == 0 {
            // The remaining distance on a zero axis still exceeds the whole
            // traversal range, while the other axis' cannot: the zero axis
            // can never be the nearer crossing.
            assert(s.y_rem.raw <= DIR_LIMIT);
            assert(s.x_rem.raw >= HUGE_REMAINING - s.total.raw);
            assert(false);
        }
    } else {
        if s.dy.raw == 0 {
            assert(s.x_rem.raw <= DIR_LIMIT);
            assert(s.y_rem.raw >= HUGE_REMAINING - s.total.raw);
            assert(false);
        }
    }
}

/// For any ray with nonzero direction, the whole sequence of tiles visited
/// is contiguous and its distances are non-decreasing: after any number of
/// live steps, the next step still enters an edge-adjacent tile at a
/// distance at least as large.
pub proof fn lemma_ray_contiguous(s: RayWalker, k: nat)
    requires
        s.wf(),
        s.dx.raw != 0 || s.dy.raw != 0,
        forall|j: nat| j <= k ==> !spec_walk(s, j).spec_done(),
    ensures
        spec_walk(s, (k + 1) as nat).total.raw >= spec_walk(s, k).total.raw,
        iabs(spec_walk(s, (k + 1) as nat).ix - spec_walk(s, k).ix) + iabs(
            spec_walk(s, (k + 1) as nat).iy - spec_walk(s, k).iy,
        ) == 1,
{
    lemma_walk_wf(s, k);
    lemma_step_contiguous(spec_walk(s, k));
    assert(spec_walk(s, (k + 1) as nat) == spec_walk(s, k).spec_next_state());
}

/// An axis-aligned ray (zero vertical component) always crosses the
/// vertical gridline next, stepping one tile along its axis.
pub proof fn lemma_axis_aligned_step(s: RayWalker)
    requires
        s.wf(),
        !s.spec_done(),
        s.dy.raw == 0,
        s.dx.raw != 0,
    ensures
        s.spec_step_x(),
        s.spec_next_state().ix == s.ix + spec_sign(s.dx),
        s.spec_next_state().iy == s.iy,
{
    assert(s.x_rem.raw <= DIR_LIMIT);
    assert(s.y_rem.raw >= HUGE_REMAINING - s.total.raw);
}

/// An axis-aligned ray unit-steps along its axis: after `k` live steps the
/// tile visited is exactly `(ix + k * sign(dx), iy)`.
pub proof fn lemma_axis_aligned_walk(s: RayWalker, k: nat)
    requires
        s.wf(),
        s.dy.raw == 0,
        s.dx.raw != 0,
        forall|j: nat| j < k ==> !spec_walk(s, j).spec_done(),
    ensures
        spec_walk(s, k).ix == s.ix + k * spec_sign(s.dx),
        spec_walk(s, k).iy == s.iy,
    decreases k,
{
    if k > 0 {
        lemma_axis_aligned_walk(s, (k - 1) as nat);
        lemma_walk_wf(s, (k - 1) as nat);
        assert(!spec_walk(s, (k - 1) as nat).spec_done());
        lemma_axis_aligned_step(spec_walk(s, (k - 1) as nat));
        if s.dx.raw > 0 {
            assert(k * spec_sign(s.dx) == (k - 1) * spec_sign(s.dx) + 1) by (nonlinear_arith)
                requires
                    k >= 1,
                    spec_sign(s.dx) == 1,
            ;
        } else {
            assert(k * spec_sign(s.dx) == (k - 1) * spec_sign(s.dx) - 1) by (nonlinear_arith)
                requires
                    k >= 1,
                    spec_sign(s.dx) == -1,
            ;
        }
    } else {
        assert(k * spec_sign(s.dx) == 0) by (nonlinear_arith)
            requires
                k == 0,
        ;
    }
}


/// The first remaining distance on an axis obeys the bounds every later
/// step preserves.
pub proof fn lemma_first_rem_bounds(origin: Fx, d: Fx)
    requires
        iabs(origin.raw as int) <= ORIGIN_LIMIT,
        iabs(d.raw as int) <= DIR_LIMIT,
    ensures
        0 <= spec_first_rem(origin, d) <= HUGE_REMAINING,
        d.raw != 0 ==> spec_first_rem(origin, d) <= DIR_LIMIT,
        d.raw == 0 ==> spec_first_rem(origin, d) == HUGE_REMAINING,
{
    if d.raw > 0 {
        assert(0 <= (65536 - origin.raw as int % 65536int) * 65536 <= 0x1_0000_0000)
            by (nonlinear_arith)
            requires
                0 <= origin.raw as int % 65536int < 65536,
        ;
        lemma_div_shrinks((65536 - origin.raw as int % 65536int) * 65536, d.raw as int);
    } else if d.raw < 0 {
        assert(0 <= (origin.raw as int % 65536int) * 65536 <= 0x1_0000_0000) by (nonlinear_arith)
            requires
                0 <= origin.raw as int % 65536int < 65536,
        ;
        lemma_div_shrinks((origin.raw as int % 65536int) * 65536, -d.raw as int);
    }
}

/// The state a well-formed cast starts from is well formed.
pub proof fn lemma_walker_init_wf(cast: Raycast)
    requires
        cast.wf(),
    ensures
        spec_walker_init(cast).wf(),
{
    lemma_first_rem_bounds(cast.x, cast.dx);
    lemma_first_rem_bounds(cast.y, cast.dy);
    lemma_div_abs_shrink(cast.x.raw as int, ORIGIN_LIMIT as int, 65536int);
    lemma_div_abs_shrink(cast.y.raw as int, ORIGIN_LIMIT as int, 65536int);
}

} // verus!
