//! The system abstraction: a uniform per-frame step over the world.

use super::world::World;
use vstd::prelude::*;

verus! {

/// Upper bound on the frame delta accepted by systems, in microseconds
/// (100 seconds), so that scaled movement arithmetic cannot overflow.
pub const MAX_FRAME_DT: i64 = 100000000;

/// A system is anything that can be run once per frame against the world
/// with the elapsed time in microseconds. The game loop calls an ordered
/// list of systems; ordering is the caller's responsibility.
pub trait System {
    fn run(&mut self, world: &mut World, dt: i64)
        requires
            old(world).wf(),
            old(world).bounded(),
            0 <= dt <= MAX_FRAME_DT,
        ensures
            final (world).wf(),
    ;
}

} // verus!
