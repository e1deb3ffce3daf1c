//! A small seedable pseudo-random number source.
//!
//! Map generation and world setup draw from this generator; seeding it
//! makes both deterministic in tests.

use vstd::prelude::*;

verus! {

/// A xorshift pseudo-random generator over a 64-bit state.
#[derive(Clone, Copy, Debug)]
pub struct Rng {
    pub state: u64,
}

impl Rng {
    /// Creates a generator from a seed. A zero seed is replaced by a
    /// fixed odd constant, since the all-zero state is a fixed point
    /// of the xorshift step.
    pub fn new(seed: u64) -> (r: Rng)
        ensures
            r.state != 0,
            seed != 0 ==> r.state == seed,
    {
        if seed == 0 {
            Rng { state: 0x9e3779b97f4a7c15 }
        } else {
            Rng { state: seed }
        }
    }

    /// Advances the state and returns the next raw 64-bit value.
    pub fn next_u64(&mut self) -> (r: u64) {
        let mut s = self.state;
        s = s ^ (s << 13);
        s = s ^ (s >> 7);
        s = s ^ (s << 17);
        self.state = s;
        s
    }

    /// Rolls `n` dice with `sides` faces each and returns their sum,
    /// which always lies between `n` and `n * sides`.
    pub fn roll_dice(&mut self, n: i32, sides: i32) -> (r: i32)
        requires
            1 <= n <= 1000,
            1 <= sides <= 1000,
        ensures
            n <= r <= n * sides,
    {
        let mut total: i32 = 0;
        let mut i: i32 = 0;
        while i < n
            invariant
                0 <= i <= n,
                n <= 1000,
                1 <= sides <= 1000,
                i <= total <= i * sides,
            decreases n - i,
        {
            let raw = self.next_u64();
            let roll: i32 = ((raw % (sides as u64)) as i32) + 1;
            assert(1 <= roll <= sides);
            proof {
                assert(total + roll <= (i + 1) * sides && (i + 1) * sides <= 1001000)
                    by (nonlinear_arith)
                    requires
                        total <= i * sides,
                        roll <= sides,
                        0 <= i < 1000,
                        1 <= sides <= 1000,
                ;
            }
            total = total + roll;
            i = i + 1;
        }
        total
    }
}

} // verus!
