//! Bullets: how hard they hit and how they split.

use vstd::prelude::*;

verus! {

/// A probability of one, in thousandths.
pub const CERTAIN: u32 = 1000;

/// What a bullet carries. The probability of a split is in thousandths.
#[derive(Clone, Copy, Debug, PartialEq, Eq, Structural)]
pub struct Bullet {
    pub damage: u32,
    pub split_probability: u32,
}

impl Bullet {
    pub fn new(damage: u32, split_probability: u32) -> (bullet: Self)
        ensures
            bullet == (Bullet { damage, split_probability }),
    {
        Self { damage, split_probability }
    }

    /// A bullet with half the damage of this one, rounded down, that is
    /// certain to split again.
    pub fn split(&self) -> (half: Self)
        ensures
            half == (Bullet { damage: self.damage / 2, split_probability: CERTAIN }),
    {
        Bullet { damage: self.damage / 2, split_probability: CERTAIN }
    }

    /// Whether firing this bullet puts anything into the world: a bullet
    /// without damage is not spawned.
    pub fn is_live(&self) -> (live: bool)
        ensures
            live == (self.damage > 0),
    {
        self.damage > 0
    }
}

} // verus!
