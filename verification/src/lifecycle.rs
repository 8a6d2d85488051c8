//! Whether an instance has to be started, and whether it may be.

use vstd::prelude::*;
use crate::failure::Failure;
use crate::instance::{InstanceDescriptor, PowerState};

verus! {

/// What has to be done before the wait for readiness begins.
#[derive(Clone, Copy, Debug, PartialEq, Eq, Structural)]
pub enum StartDecision {
    /// Nothing: the instance is not stopped.
    Nothing,
    /// A start request goes to the provider.
    Start,
}

/// A state that an instance does not leave for a running one.
pub open spec fn is_terminal(state: PowerState) -> bool {
    state == PowerState::Terminated || state == PowerState::ShuttingDown
}

/// The decision for an instance in the given state. A stopped instance is
/// started only where the operator allowed it, an instance in a terminal
/// state is given up, and in every other state there is nothing to do.
pub open spec fn start_decision(state: PowerState, authorized_to_start: bool) -> Result<
    StartDecision,
    Failure,
> {
    if state == PowerState::Stopped {
        if authorized_to_start {
            Ok(StartDecision::Start)
        } else {
            Err(Failure::InstanceStoppedUnauthorized)
        }
    } else if is_terminal(state) {
        Err(Failure::InstanceUnavailable)
    } else {
        Ok(StartDecision::Nothing)
    }
}

/// Decides whether the instance is to be started. The decision is made at
/// once: waiting for the instance to come up is the poller's work.
pub fn ensure_running(descriptor: &InstanceDescriptor, authorized_to_start: bool) -> (r: Result<
    StartDecision,
    Failure,
>)
    ensures
        r == start_decision(descriptor.power_state, authorized_to_start),
        r == Ok::<StartDecision, Failure>(StartDecision::Start) <==> descriptor.power_state
            == PowerState::Stopped && authorized_to_start,
        descriptor.power_state == PowerState::Stopped && !authorized_to_start ==> r == Err::<
            StartDecision,
            Failure,
        >(Failure::InstanceStoppedUnauthorized),
{
    match descriptor.power_state {
        PowerState::Stopped => {
            if authorized_to_start {
                Ok(StartDecision::Start)
            } else {
                Err(Failure::InstanceStoppedUnauthorized)
            }
        },
        PowerState::Terminated | PowerState::ShuttingDown => Err(Failure::InstanceUnavailable),
        _ => Ok(StartDecision::Nothing),
    }
}

} // verus!
