//! Upgrades, and the one that arrives by itself.

use vstd::prelude::*;
use bevy::time::Timer;
use crate::timer::{fresh, ticked, timer_finished, timer_new, timer_state, timer_tick, TimerState};

verus! {

/// Time between two automatic upgrades, in milliseconds.
pub const AUTO_UPGRADE_MILLIS: u64 = 2000;

#[derive(Clone, Copy, Debug, PartialEq, Eq, Structural)]
pub enum UpgradeBulletEvent {
    Damage,
    SplitProbability,
    Speed,
}

#[derive(Clone, Copy, Debug, PartialEq, Eq, Structural)]
pub enum UpgradeTractorEvent {
    Health,
    Acceleration,
    TurnRate,
    SawDamage,
}

/// Raises the damage of the bullets at a fixed pace.
pub struct AutoUpgrade {
    timer: Timer,
}

impl AutoUpgrade {
    /// The state of the repeating timer.
    pub closed spec fn pace(self) -> TimerState {
        timer_state(self.timer)
    }

    pub fn new() -> (r: Self)
        ensures
            r.pace() == fresh(AUTO_UPGRADE_MILLIS, true),
    {
        Self { timer: timer_new(AUTO_UPGRADE_MILLIS, true) }
    }

    /// Lets `delta_nanos` pass. An upgrade of the damage is due on each step
    /// in which the timer came round.
    pub fn tick(&mut self, delta_nanos: u64) -> (due: Option<UpgradeBulletEvent>)
        ensures
            final(self).pace() == ticked(old(self).pace(), delta_nanos as nat),
            due == if final(self).pace().finished {
                Some(UpgradeBulletEvent::Damage)
            } else {
                None
            },
    {
        timer_tick(&mut self.timer, delta_nanos);
        if timer_finished(&self.timer) {
            Some(UpgradeBulletEvent::Damage)
        } else {
            None
        }
    }
}

} // verus!
