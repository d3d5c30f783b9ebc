//! The turret: a cooldown between shots and the damage of each shot.

use vstd::prelude::*;
use bevy::time::Timer;
use crate::bullet::{Bullet, CERTAIN};
use crate::timer::{fresh, rewound, ticked, timer_finished, timer_new, timer_reset, timer_state, timer_tick};

verus! {

/// Cooldown between two shots, in milliseconds.
pub const RATE_OF_FIRE_MILLIS: u64 = 1000;

pub struct Turret {
    pub rate_of_fire: Timer,
    pub firing: bool,
}

/// Damage of each bullet that a turret fires.
pub struct TurretDamage(pub u32);

impl TurretDamage {
    /// One upgrade: each shot does one more point of damage.
    pub fn upgrade(&mut self)
        requires
            old(self).0 < u32::MAX,
        ensures
            final(self).0 == old(self).0 + 1,
    {
        self.0 += 1;
    }
}

impl Default for TurretDamage {
    fn default() -> (r: Self)
        ensures
            r.0 == 1,
    {
        Self(1)
    }
}

/// A turret as it is mounted: it holds its fire, the cooldown starts from
/// nothing, and each shot does one point of damage.
pub fn turret() -> (r: (Turret, TurretDamage))
    ensures
        timer_state(r.0.rate_of_fire) == fresh(RATE_OF_FIRE_MILLIS, false),
        !r.0.firing,
        r.1.0 == 1,
{
    let timer = timer_new(RATE_OF_FIRE_MILLIS, false);
    (Turret { rate_of_fire: timer, firing: false }, TurretDamage(1))
}

impl Turret {
    /// Whether the turret fires on a step of `delta` nanoseconds: the
    /// cooldown has run out after the step and the trigger is held.
    pub open spec fn fires(self, delta: nat) -> bool {
        self.firing && ticked(timer_state(self.rate_of_fire), delta).finished
    }

    /// Advances the cooldown by `delta_nanos`. If the cooldown has then run
    /// out and the trigger is held, a bullet leaves and the cooldown starts
    /// over.
    pub fn tick_and_fire(&mut self, delta_nanos: u64, damage: &TurretDamage) -> (shot: Option<Bullet>)
        ensures
            final(self).firing == old(self).firing,
            old(self).fires(delta_nanos as nat) ==> shot == Some(
                Bullet { damage: damage.0, split_probability: CERTAIN },
            ) && timer_state(final(self).rate_of_fire) == rewound(
                ticked(timer_state(old(self).rate_of_fire), delta_nanos as nat),
            ),
            !old(self).fires(delta_nanos as nat) ==> shot.is_none() && timer_state(
                final(self).rate_of_fire,
            ) == ticked(timer_state(old(self).rate_of_fire), delta_nanos as nat),
    {
        timer_tick(&mut self.rate_of_fire, delta_nanos);
        if timer_finished(&self.rate_of_fire) && self.firing {
            timer_reset(&mut self.rate_of_fire);
            Some(Bullet::new(damage.0, CERTAIN))
        } else {
            None
        }
    }
}

} // verus!
