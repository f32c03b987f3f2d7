//! Starting and stopping the aggregator: what its loop does with each thing
//! that ends a wait, and the states its handle goes through.

use crate::record::TimeMsg;
use vstd::prelude::*;

verus! {

/// The states of the handle on a running aggregator.
#[derive(Debug, Clone, Copy, PartialEq, Eq, Structural)]
pub enum Phase {
    /// The aggregator takes in readings.
    Running,
    /// It has been told to stop and has not yet been seen to end.
    StopRequested,
    /// It has ended and its thread has been joined.
    Stopped,
}

impl Phase {
    /// The state after a stop was asked for.
    pub open spec fn stop_asked(self) -> Phase {
        match self {
            Phase::Running => Phase::StopRequested,
            Phase::StopRequested => Phase::StopRequested,
            Phase::Stopped => Phase::Stopped,
        }
    }

    /// The state after the aggregator's thread was joined.
    pub open spec fn thread_joined(self) -> Phase {
        match self {
            Phase::Running => Phase::Running,
            Phase::StopRequested => Phase::Stopped,
            Phase::Stopped => Phase::Stopped,
        }
    }

    /// Asks for a stop: a running aggregator is now asked to stop, any other
    /// state stays.
    pub fn request_stop(self) -> (next: Phase)
        ensures
            next == self.stop_asked(),
    {
        match self {
            Phase::Running => Phase::StopRequested,
            Phase::StopRequested => Phase::StopRequested,
            Phase::Stopped => Phase::Stopped,
        }
    }

    /// Notes that the thread has been joined: an aggregator that was asked to
    /// stop is now stopped. Joining without having asked changes nothing.
    pub fn joined(self) -> (next: Phase)
        ensures
            next == self.thread_joined(),
    {
        match self {
            Phase::Running => Phase::Running,
            Phase::StopRequested => Phase::Stopped,
            Phase::Stopped => Phase::Stopped,
        }
    }

    /// Whether the loop may go on taking in readings.
    pub fn is_running(self) -> (running: bool)
        ensures
            running == (self == Phase::Running),
    {
        match self {
            Phase::Running => true,
            Phase::StopRequested => false,
            Phase::Stopped => false,
        }
    }
}

/// Stopping goes one way: asking and then joining ends in `Stopped` from any
/// state, and neither step ever leads back to an earlier state.
pub proof fn lemma_stop_is_final(phase: Phase)
    ensures
        phase.stop_asked().thread_joined() == Phase::Stopped,
        phase.stop_asked() != Phase::Running,
        Phase::Stopped.stop_asked() == Phase::Stopped,
        Phase::Stopped.thread_joined() == Phase::Stopped,
{
}

/// What ended a wait on the transport.
#[derive(Debug, PartialEq, Eq)]
pub enum Wake {
    /// A reading arrived.
    Reading(TimeMsg),
    /// The wait ran out with nothing on the transport.
    Idle,
    /// Every sender is gone and the transport is empty.
    Closed,
}

/// What the loop does next.
#[derive(Debug, PartialEq, Eq)]
pub enum Step {
    /// Hand this reading to the aggregator, then wait again.
    Absorb(TimeMsg),
    /// Wait again.
    Wait,
    /// Leave the loop.
    Finish,
}

/// The loop's rule. A stop that was asked for ends the loop whatever the
/// wait brought, and a reading that arrived with it is dropped. Otherwise a
/// reading is taken in, an idle wait is repeated, and a closed transport ends
/// the loop, since nothing can arrive on it any more.
pub open spec fn plan(stop_requested: bool, wake: Wake) -> Step {
    if stop_requested {
        Step::Finish
    } else {
        match wake {
            Wake::Reading(msg) => Step::Absorb(msg),
            Wake::Idle => Step::Wait,
            Wake::Closed => Step::Finish,
        }
    }
}

/// Decides what the loop does after a wait that ended with `wake`, given
/// whether a stop has been asked for.
pub fn next_step(stop_requested: bool, wake: Wake) -> (step: Step)
    ensures
        step == plan(stop_requested, wake),
{
    if stop_requested {
        Step::Finish
    } else {
        match wake {
            Wake::Reading(msg) => Step::Absorb(msg),
            Wake::Idle => Step::Wait,
            Wake::Closed => Step::Finish,
        }
    }
}

/// With every sender gone the loop ends at the next wake at the latest,
/// whether or not a stop has been asked for; and once a stop has been asked
/// for, it ends at the next wake of any kind.
pub proof fn lemma_loop_ends(stop_requested: bool, wake: Wake)
    ensures
        wake == Wake::Closed ==> plan(stop_requested, wake) == Step::Finish,
        stop_requested ==> plan(stop_requested, wake) == Step::Finish,
{
}

} // verus!
