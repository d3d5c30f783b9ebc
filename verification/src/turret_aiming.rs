//! The sight: the point in the world that the turrets aim at.

use vstd::prelude::*;

verus! {

/// Where a new sight stands along the x axis, far from anything.
pub const SIGHT_START_X: i64 = 1_000_000;

/// The point that the turrets aim at.
#[derive(Clone, Copy, Debug, PartialEq, Eq, Structural)]
pub struct Sight {
    pub x: i64,
    pub y: i64,
    pub z: i64,
}

/// A sight before it has been moved.
pub fn sight() -> (s: Sight)
    ensures
        s == (Sight { x: SIGHT_START_X, y: 0, z: 0 }),
{
    Sight { x: SIGHT_START_X, y: 0, z: 0 }
}

} // verus!
