//! A small xorshift pseudo-random generator.
//!
//! Seeding from the clock belongs to the caller; with a fixed seed the
//! sequence is fully determined, and the contracts pin every draw.

use crate::fx::Fx;
use vstd::prelude::*;

verus! {

/// One xorshift round.
pub open spec fn spec_xorshift(s: u32) -> u32 {
    let a = s ^ (s << 13u32);
    let b = a ^ (a >> 17u32);
    b ^ (b << 5u32)
}

/// A pseudo-random generator: the current state is the last draw.
#[derive(Clone, Copy, PartialEq, Eq, Structural, Debug)]
pub struct Random(pub u32);

impl Random {
    /// A generator starting from the given seed.
    pub fn with_seed(seed: u32) -> (r: Self)
        ensures
            r.0 == seed,
    {
        Random(seed)
    }

    /// Generates a random 32 bit number.
    pub fn get_32(&mut self) -> (r: u32)
        ensures
            final(self).0 == spec_xorshift(old(self).0),
            r == final(self).0,
    {
        let mut s: u32 = self.0;
        s = s ^ (s << 13u32);
        s = s ^ (s >> 17u32);
        s = s ^ (s << 5u32);
        self.0 = s;
        s
    }

    /// Generates a random number in `[0, 1)`: the low 16 bits of a draw,
    /// as a fixed-point fraction.
    pub fn get_unit(&mut self) -> (r: Fx)
        ensures
            final(self).0 == spec_xorshift(old(self).0),
            r.raw == (spec_xorshift(old(self).0) & 0xffffu32),
            0 <= r.raw < 65536,
    {
        let v: u32 = self.get_32();
        let low: u32 = v & 0xffffu32;
        proof {
            assert((v & 0xffffu32) < 0x10000u32) by (bit_vector);
        }
        Fx { raw: low as i64 }
    }
}

} // verus!
