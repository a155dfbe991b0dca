//! A small deterministic pseudo-random generator, threaded explicitly
//! through every caller that needs randomness so runs are reproducible.

use vstd::prelude::*;

verus! {

/// The successor of an LCG state.
pub open spec fn lcg_next(s: u32) -> u32 {
    ((s * 1664525 + 1013904223) % 0x100000000) as u32
}

/// Linear congruential generator with the classic multiplier and
/// increment; the state is the value handed out.
#[derive(Debug, Clone, Copy, PartialEq, Eq, Structural)]
pub struct Rng {
    pub state: u32,
}

impl Rng {
    /// A generator seeded with the fixed default seed.
    pub fn new() -> (r: Rng)
        ensures
            r.state == 12345,
    {
        Rng { state: 12345 }
    }

    pub fn with_seed(seed: u32) -> (r: Rng)
        ensures
            r.state == seed,
    {
        Rng { state: seed }
    }

    /// Advances the state by one LCG step and returns it.
    pub fn next_random(&mut self) -> (r: u32)
        ensures
            final (self).state == lcg_next(old(self).state),
            r == final (self).state,
    {
        proof {
            assert((old(self).state * 1664525 + 1013904223) % 0x100000000 < 0x100000000) by {
                vstd::arithmetic::div_mod::lemma_mod_bound(
                    old(self).state * 1664525 + 1013904223,
                    0x100000000,
                );
            }
        }
        let wide = (self.state as u64) * 1664525 + 1013904223;
        let next = (wide % 0x100000000) as u32;
        proof {
            assert(wide == old(self).state * 1664525 + 1013904223);
        }
        self.state = next;
        next
    }

    /// A draw in `min ..= max`: the next LCG value folded into the range.
    pub fn random_int_range(&mut self, min: i32, max: i32) -> (r: i32)
        requires
            min <= max,
            max - min < 1000000,
        ensures
            min <= r <= max,
            r == min + (lcg_next(old(self).state) as int) % (max - min + 1),
            final (self).state == lcg_next(old(self).state),
    {
        let range = ((max - min) + 1) as u32;
        let draw = self.next_random();
        let off = (draw % range) as i32;
        proof {
            vstd::arithmetic::div_mod::lemma_mod_bound(draw as int, range as int);
        }
        min + off
    }

    /// A draw in `min ..= max`, for microsecond durations: the next LCG
    /// value folded into the range.
    pub fn random_micros_range(&mut self, min: i64, max: i64) -> (r: i64)
        requires
            0 <= min <= max,
            max - min < 0x100000000,
        ensures
            min <= r <= max,
            r == min + (lcg_next(old(self).state) as int) % (max - min + 1),
            final (self).state == lcg_next(old(self).state),
    {
        let range = ((max - min) + 1) as u64;
        let draw = self.next_random();
        let off = ((draw as u64) % range) as i64;
        proof {
            vstd::arithmetic::div_mod::lemma_mod_bound(draw as int, range as int);
        }
        min + off
    }
}

} // verus!
