//! The engine's timer, as far as the combat rules use it.
//!
//! The executable functions of this module call `bevy::time::Timer` and are
//! believed, not proved: each states what the engine's source does.

use vstd::prelude::*;
use bevy::time::Timer;
use bevy::time::TimerMode;
use std::time::Duration;

verus! {

#[verifier::external_type_specification]
#[verifier::external_body]
pub struct ExTimer(Timer);

/// What a timer holds, as far as the rules of the game read it. Times are in
/// nanoseconds.
pub struct TimerState {
    pub elapsed: nat,
    pub duration: nat,
    pub repeating: bool,
    pub paused: bool,
    pub finished: bool,
}

/// The state of an engine timer.
pub uninterp spec fn timer_state(timer: Timer) -> TimerState;

pub open spec fn nanos_of_millis(millis: u64) -> nat {
    millis as nat * 1_000_000
}

/// The longest time a `Duration` can hold.
pub open spec fn longest_duration() -> nat {
    u64::MAX as nat * 1_000_000_000 + 999_999_999
}

/// A timer that was just made.
pub open spec fn fresh(millis: u64, repeating: bool) -> TimerState {
    TimerState {
        elapsed: 0,
        duration: nanos_of_millis(millis),
        repeating,
        paused: false,
        finished: false,
    }
}

/// The state after `delta` nanoseconds have been handed to a timer.
///
/// A paused timer keeps its time. A timer that runs once stays finished, with
/// its time held at the duration. A repeating timer wraps round and is
/// finished only on a tick that reached the duration.
pub open spec fn ticked(s: TimerState, delta: nat) -> TimerState {
    if s.paused {
        TimerState { finished: !s.repeating && s.finished, ..s }
    } else if !s.repeating && s.finished {
        s
    } else {
        let sum = s.elapsed + delta;
        let e = if sum > longest_duration() {
            longest_duration()
        } else {
            sum
        };
        if e < s.duration {
            TimerState { elapsed: e, finished: false, ..s }
        } else if !s.repeating {
            TimerState { elapsed: s.duration, finished: true, ..s }
        } else if s.duration == 0 {
            TimerState { elapsed: 0, finished: true, ..s }
        } else {
            TimerState {
                elapsed: (e % s.duration) % 0x1_0000_0000_0000_0000,
                finished: true,
                ..s
            }
        }
    }
}

/// The state after a reset: no time has elapsed and the timer has not
/// finished. Whether it is paused does not change.
pub open spec fn rewound(s: TimerState) -> TimerState {
    TimerState { elapsed: 0, finished: false, ..s }
}

/// `Timer::new`, with the duration given in milliseconds: the timer runs,
/// nothing has elapsed and it has not finished.
#[verifier::external_body]
pub(crate) fn timer_new(millis: u64, repeating: bool) -> (timer: Timer)
    ensures
        timer_state(timer) == fresh(millis, repeating),
{
    let mode = if repeating { TimerMode::Repeating } else { TimerMode::Once };
    Timer::new(Duration::from_millis(millis), mode)
}

/// `Timer::tick`, with the step given in nanoseconds.
#[verifier::external_body]
pub(crate) fn timer_tick(timer: &mut Timer, delta_nanos: u64)
    ensures
        timer_state(*final(timer)) == ticked(timer_state(*old(timer)), delta_nanos as nat),
{
    timer.tick(Duration::from_nanos(delta_nanos));
}

/// `Timer::finished`: the flag that the last tick or reset left.
#[verifier::external_body]
pub(crate) fn timer_finished(timer: &Timer) -> (r: bool)
    ensures
        r == timer_state(*timer).finished,
{
    timer.finished()
}

/// `Timer::reset`.
#[verifier::external_body]
pub(crate) fn timer_reset(timer: &mut Timer)
    ensures
        timer_state(*final(timer)) == rewound(timer_state(*old(timer))),
{
    timer.reset();
}

/// `Timer::set_duration`, with the duration given in milliseconds: only the
/// duration changes.
#[verifier::external_body]
pub(crate) fn timer_set_duration(timer: &mut Timer, millis: u64)
    ensures
        timer_state(*final(timer)) == (TimerState {
            duration: nanos_of_millis(millis),
            ..timer_state(*old(timer))
        }),
{
    timer.set_duration(Duration::from_millis(millis));
}

} // verus!
