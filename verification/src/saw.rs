//! The saw: what it can cut, and how often.

use vstd::prelude::*;
use bevy::time::Timer;
use crate::timer::{fresh, rewound, ticked, timer_finished, timer_new, timer_reset, timer_set_duration, timer_state, timer_tick, nanos_of_millis, TimerState};

verus! {

/// Time between two cuts of a new saw, in milliseconds.
pub const SAW_DEFAULT_RATE_OF_FIRE_MILLIS: u64 = 500;

pub const SAW_DEFAULT_DAMAGE: u32 = 1;

/// The saw on the tractor. The time between two cuts is in milliseconds.
pub struct TractorSaw {
    pub rate_of_fire: u64,
    pub damage: u32,
}

impl TractorSaw {
    /// One upgrade: each cut does one more point of damage.
    pub fn upgrade(&mut self)
        requires
            old(self).damage < u32::MAX,
        ensures
            final(self).damage == old(self).damage + 1,
            final(self).rate_of_fire == old(self).rate_of_fire,
    {
        self.damage += 1;
    }
}

/// Anything the saw can cut. It holds the time that must pass before the
/// next cut.
pub struct Sawable {
    timer: Timer,
}

impl Sawable {
    /// The state of the cooldown.
    pub closed spec fn cooldown(self) -> TimerState {
        timer_state(self.timer)
    }

    /// Lets `delta_nanos` pass on the cooldown.
    pub fn tick(&mut self, delta_nanos: u64)
        ensures
            final(self).cooldown() == ticked(old(self).cooldown(), delta_nanos as nat),
    {
        timer_tick(&mut self.timer, delta_nanos);
    }

    /// One look at a thing that the saw may be touching. If it touches and
    /// the cooldown has run out, the thing takes the saw's damage, and the
    /// cooldown starts over with the saw's own rate.
    pub fn saw(&mut self, touching: bool, saw: &TractorSaw) -> (damage: Option<u32>)
        ensures
            touching && old(self).cooldown().finished ==> damage == Some(saw.damage)
                && final(self).cooldown() == rewound(
                TimerState { duration: nanos_of_millis(saw.rate_of_fire), ..old(self).cooldown() },
            ),
            !(touching && old(self).cooldown().finished) ==> damage.is_none()
                && final(self).cooldown() == old(self).cooldown(),
    {
        if touching && timer_finished(&self.timer) {
            timer_set_duration(&mut self.timer, saw.rate_of_fire);
            timer_reset(&mut self.timer);
            Some(saw.damage)
        } else {
            None
        }
    }
}

impl Default for Sawable {
    /// A thing that can be cut as soon as any time has passed.
    fn default() -> (r: Self)
        ensures
            r.cooldown() == fresh(0, false),
    {
        Self { timer: timer_new(0, false) }
    }
}

impl Default for TractorSaw {
    fn default() -> (r: Self)
        ensures
            r.rate_of_fire == SAW_DEFAULT_RATE_OF_FIRE_MILLIS,
            r.damage == SAW_DEFAULT_DAMAGE,
    {
        Self { rate_of_fire: SAW_DEFAULT_RATE_OF_FIRE_MILLIS, damage: SAW_DEFAULT_DAMAGE }
    }
}

} // verus!
