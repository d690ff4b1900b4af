//! The timers of the game engine, as far as the rules of the simulation
//! read and reset them.

use vstd::prelude::*;
use bevy::time::Timer;

verus! {

/// `Timer` of bevy, taken as it is: nothing of what it holds is known here
/// but what `has_finished` and `elapsed_nanos` name.
#[verifier::external_type_specification]
#[verifier::external_body]
pub struct ExTimer(bevy::time::Timer);

/// Whether `timer` is in its finished state.
pub uninterp spec fn has_finished(timer: Timer) -> bool;

/// The time that has elapsed on `timer`, in nanoseconds.
pub uninterp spec fn elapsed_nanos(timer: Timer) -> nat;

/// `Timer::finished` of bevy: it reads the finished state of the timer. The
/// contract gives that state its name and claims nothing else.
#[verifier::external_body]
pub(crate) fn timer_finished(timer: &Timer) -> (r: bool)
    ensures
        r == has_finished(*timer),
{
    timer.finished()
}

/// `Timer::reset` of bevy: it puts the elapsed time back to zero and leaves
/// the finished state. The contract claims both, and nothing of the
/// duration or the mode of the timer.
#[verifier::external_body]
pub(crate) fn timer_reset(timer: &mut Timer)
    ensures
        !has_finished(*final(timer)),
        elapsed_nanos(*final(timer)) == 0,
{
    timer.reset();
}

} // verus!
