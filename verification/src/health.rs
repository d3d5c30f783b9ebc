//! Health, and what damage does to it.

use vstd::prelude::*;

verus! {

#[derive(Clone, Copy, Debug, PartialEq, Eq, Structural)]
pub struct Health {
    pub current: u32,
    pub max: u32,
}

impl Health {
    /// Full health.
    pub fn new(health: u32) -> (r: Self)
        ensures
            r == (Health { current: health, max: health }),
    {
        Self { current: health, max: health }
    }

    /// Raises the limit, and the health with it.
    pub fn increase_max(&mut self, amount: u32)
        requires
            old(self).current + amount <= u32::MAX,
            old(self).max + amount <= u32::MAX,
        ensures
            final(self).current == old(self).current + amount,
            final(self).max == old(self).max + amount,
    {
        self.current += amount;
        self.max += amount;
    }

    /// Raises the limit to `new_max`, and the health by as much.
    pub fn set_max_to(&mut self, new_max: u32)
        requires
            old(self).max <= new_max,
            old(self).current + (new_max - old(self).max) <= u32::MAX,
        ensures
            final(self).max == new_max,
            final(self).current == old(self).current + (new_max - old(self).max),
    {
        let diff = new_max - self.max;
        self.increase_max(diff);
    }

    /// Whether a hit of `value` kills.
    pub open spec fn dies_of(self, value: u32) -> bool {
        self.current <= value
    }

    /// Takes a hit of `value`. A hit that the health does not outlast kills
    /// and leaves the health as it was; any other hit is taken off.
    pub fn damage(&mut self, value: u32) -> (dead: bool)
        ensures
            dead == old(self).dies_of(value),
            final(self).max == old(self).max,
            dead ==> final(self).current == old(self).current,
            !dead ==> final(self).current == old(self).current - value,
    {
        if self.current <= value {
            true
        } else {
            self.current -= value;
            false
        }
    }
}

/// How strong the apples of a tree are.
#[derive(Clone, Copy, Debug, PartialEq, Eq, Structural)]
pub struct AppleStrength {
    pub health: u32,
    pub damage: u32,
    pub speed: u32,
}

impl AppleStrength {
    /// Apples are as strong as their tree's level, in every respect.
    pub fn from_tree_level(level: u32) -> (r: Self)
        ensures
            r == (AppleStrength { health: level, damage: level, speed: level }),
    {
        AppleStrength { health: level, damage: level, speed: level }
    }
}

} // verus!
