//! A range iterator over fixed-point values: yields the starting value,
//! then every whole-number boundary it crosses, and finally the goal
//! itself, once.
//!
//! The compositor walks source-bitmap rows with it: each yielded pair of
//! consecutive values brackets the part of one source row that the crop
//! covers.

use crate::fx::Fx;
use vstd::prelude::*;

verus! {

/// Largest admissible magnitude for a range endpoint (raw units).
pub const RANGE_LIMIT: i64 = 0x8000_0000_0000;

/// A fixed-point range from a current value up to a goal.
#[derive(Clone, Copy, PartialEq, Eq, Structural, Debug)]
pub struct FxRange {
    pub current: Fx,
    pub goal: Fx,
    pub exhausted: bool,
}

/// What one step of the range yields, and the state after it: the current
/// value (stepping to the next whole-number boundary), or the goal once
/// the current value has passed it, or nothing.
pub open spec fn spec_range_next(s: FxRange) -> Option<(Fx, FxRange)> {
    if s.current.raw < s.goal.raw {
        Some(
            (
                s.current,
                FxRange {
                    current: Fx { raw: (s.current.raw as int / 65536int * 65536 + 65536) as i64 },
                    ..s
                },
            ),
        )
    } else if !s.exhausted {
        Some((s.goal, FxRange { exhausted: true, ..s }))
    } else {
        None
    }
}

impl FxRange {
    /// Endpoint bounds under which stepping is free of overflow.
    pub open spec fn wf(self) -> bool {
        &&& 0 <= self.current.raw <= RANGE_LIMIT + 65536
        &&& 0 <= self.goal.raw <= RANGE_LIMIT
    }

    /// Decreases with every value the range yields.
    pub open spec fn measure(self) -> int {
        if self.current.raw < self.goal.raw {
            self.goal.raw as int / 65536int - self.current.raw as int / 65536int + 2
        } else if !self.exhausted {
            1
        } else {
            0
        }
    }

    /// Hands out the next value of the range, if any.
    pub fn next(&mut self) -> (r: Option<Fx>)
        requires
            old(self).wf(),
        ensures
            final(self).wf(),
            match spec_range_next(*old(self)) {
                Some((v, s)) => r == Some(v) && *final(self) == s,
                None => r is None && *final(self) == *old(self),
            },
            r is Some ==> final(self).measure() < old(self).measure(),
    {
        if self.current.raw < self.goal.raw {
            let c: Fx = self.current;
            let f: i64 = c.floor_int();
            self.current = Fx { raw: f * 65536 + 65536 };
            proof {
                assert(f * 65536 == (c.raw as int / 65536int) * 65536);
                vstd::arithmetic::div_mod::lemma_fundamental_div_mod(c.raw as int, 65536);
                vstd::arithmetic::div_mod::lemma_div_is_ordered(
                    c.raw as int,
                    self.goal.raw as int,
                    65536,
                );
            }
            Some(c)
        } else if !self.exhausted {
            self.exhausted = true;
            Some(self.goal)
        } else {
            None
        }
    }
}

/// A well-formed range's measure is never negative.
pub proof fn lemma_measure_nonneg(s: FxRange)
    requires
        s.wf(),
    ensures
        s.measure() >= 0,
{
    if s.current.raw < s.goal.raw {
        vstd::arithmetic::div_mod::lemma_div_is_ordered(
            s.current.raw as int,
            s.goal.raw as int,
            65536,
        );
    }
}

/// The range from `from` up to `to`.
pub fn range(from: Fx, to: Fx) -> (r: FxRange)
    requires
        0 <= from.raw <= RANGE_LIMIT,
        0 <= to.raw <= RANGE_LIMIT,
    ensures
        r == (FxRange { current: from, goal: to, exhausted: false }),
        r.wf(),
{
    FxRange { current: from, goal: to, exhausted: false }
}

} // verus!
