//! One run, from the lookup of the instance to the hand-over of its
//! address.
//!
//! The stages follow each other in one order: resolve the instance, start
//! it where that is needed and allowed, wait for its address, wait for its
//! shell port, and then either persist the address or hand it to the shell.
//! The first failure ends the run, and no later stage is tried.

use vstd::prelude::*;
use crate::failure::Failure;
use crate::instance::{first_match, resolved, InstanceDescriptor, Resolution};
use crate::lifecycle::{ensure_running, start_decision, StartDecision};
use crate::instance::PowerState;
use crate::poller::{next, DeadlineWindow, Directive, Observation, Poller, PollerState};

verus! {

/// What is done with the address once the instance is ready.
#[derive(Clone, Copy, Debug, PartialEq, Eq, Structural)]
pub enum Completion {
    /// It is written into the configuration file.
    Persist,
    /// It is handed to the shell.
    HandOff,
}

/// What the operator asked for.
#[derive(Clone, Debug, PartialEq, Eq)]
pub struct Plan {
    pub resolution: Resolution,
    pub completion: Completion,
    /// Whether a stopped instance may be started.
    pub authorized_to_start: bool,
    /// The budget of the wait for readiness, in milliseconds.
    pub budget_ms: u64,
    /// The port of the remote shell.
    pub port: u16,
}

/// Where the run stands.
#[derive(Clone, Debug, PartialEq, Eq)]
pub enum Stage {
    /// The provider was asked for the instance.
    Resolving,
    /// The provider was asked to start the instance.
    Starting { instance_id: String },
    /// The wait for readiness goes on.
    Waiting { instance_id: String, poller: Poller },
    /// The instance is ready at this address.
    Finished { address: String },
    /// The run failed.
    Failed { failure: Failure },
}

/// What the caller reports.
#[derive(Clone, Debug, PartialEq, Eq)]
pub enum Event {
    /// The provider answered a query with these instances.
    Matches { instances: Vec<InstanceDescriptor> },
    /// The provider accepted the start request.
    Started,
    /// A connection attempt succeeded.
    Connected,
    /// A connection attempt failed.
    Refused,
}

/// What the caller is to do.
#[derive(Clone, Debug, PartialEq, Eq)]
pub enum Action {
    /// Ask the provider for the instance.
    Lookup { resolution: Resolution },
    /// Ask the provider to start the instance.
    Start { instance_id: String },
    /// Wait `delay_ms`, then ask the provider for the instance again.
    Describe { instance_id: String, delay_ms: u64 },
    /// Try to connect, for at most `timeout_ms`.
    Connect { address: String, port: u16, timeout_ms: u64 },
    /// Write the address into the configuration file.
    Persist { address: String },
    /// Hand the address to the shell.
    HandOff { address: String },
    /// Give up and report the failure.
    Abort { failure: Failure },
    /// Nothing: the event was not asked for, or the run is over.
    Idle,
}

/// The end of a run that failed.
pub open spec fn failed(failure: Failure) -> (Stage, Action) {
    (Stage::Failed { failure }, Action::Abort { failure })
}

/// The beginning of the wait for readiness: the window opens at `now_ms`,
/// and the first query is due at once.
pub open spec fn waiting(plan: Plan, instance_id: String, now_ms: u64) -> (Stage, Action) {
    (
        Stage::Waiting {
            instance_id,
            poller: Poller {
                window: DeadlineWindow { start_ms: now_ms, budget_ms: plan.budget_ms },
                port: plan.port,
                state: PollerState::AwaitingAddress,
            },
        },
        Action::Describe { instance_id, delay_ms: 0 },
    )
}

/// The action that ends a run which succeeded.
pub open spec fn completed(completion: Completion, address: String) -> Action {
    match completion {
        Completion::Persist => Action::Persist { address },
        Completion::HandOff => Action::HandOff { address },
    }
}

/// One step of the wait: the poller takes the observation, and its state
/// and directive become the stage and the action of the run.
pub open spec fn polled(
    plan: Plan,
    instance_id: String,
    poller: Poller,
    now_ms: u64,
    seen: Observation,
) -> (Stage, Action) {
    let (state, directive) = next(poller.window, poller.port, poller.state, now_ms, seen);
    match state {
        PollerState::Ready { address } => (
            Stage::Finished { address },
            completed(plan.completion, address),
        ),
        PollerState::TimedOut { phase } => failed(Failure::Timeout(phase)),
        _ => (
            Stage::Waiting {
                instance_id,
                poller: Poller { window: poller.window, port: poller.port, state },
            },
            match directive {
                Directive::Describe { delay_ms } => Action::Describe { instance_id, delay_ms },
                Directive::Connect { address, port, timeout_ms } => Action::Connect {
                    address,
                    port,
                    timeout_ms,
                },
                Directive::Stop => Action::Idle,
            },
        ),
    }
}

/// The stage that follows and the action that goes with it.
///
/// An event that the stage did not ask for changes nothing, and a run that
/// is over stays over.
pub open spec fn advanced(plan: Plan, stage: Stage, now_ms: u64, event: Event) -> (Stage, Action) {
    match stage {
        Stage::Resolving => match event {
            Event::Matches { instances } => match resolved(instances@) {
                Err(failure) => failed(failure),
                Ok(found) => match start_decision(found.power_state, plan.authorized_to_start) {
                    Err(failure) => failed(failure),
                    Ok(StartDecision::Start) => (
                        Stage::Starting { instance_id: found.instance_id },
                        Action::Start { instance_id: found.instance_id },
                    ),
                    Ok(StartDecision::Nothing) => waiting(plan, found.instance_id, now_ms),
                },
            },
            _ => (stage, Action::Idle),
        },
        Stage::Starting { instance_id } => match event {
            Event::Started => waiting(plan, instance_id, now_ms),
            _ => (stage, Action::Idle),
        },
        Stage::Waiting { instance_id, poller } => match poller.state {
            PollerState::AwaitingAddress => match event {
                Event::Matches { instances } => match resolved(instances@) {
                    Err(failure) => failed(failure),
                    Ok(found) => polled(
                        plan,
                        instance_id,
                        poller,
                        now_ms,
                        Observation::Described { assigned_address: found.assigned_address },
                    ),
                },
                _ => (stage, Action::Idle),
            },
            PollerState::AwaitingReachability { .. } => match event {
                Event::Connected => polled(
                    plan,
                    instance_id,
                    poller,
                    now_ms,
                    Observation::Connected,
                ),
                Event::Refused => polled(plan, instance_id, poller, now_ms, Observation::Refused),
                _ => (stage, Action::Idle),
            },
            _ => (stage, Action::Idle),
        },
        Stage::Finished { .. } => (stage, Action::Idle),
        Stage::Failed { .. } => (stage, Action::Idle),
    }
}

/// Begins a run: the provider is asked for the instance.
pub fn launch(plan: &Plan) -> (r: (Stage, Action))
    ensures
        r == (Stage::Resolving, Action::Lookup { resolution: plan.resolution }),
{
    (Stage::Resolving, Action::Lookup { resolution: plan.resolution.duplicate() })
}

fn begin_wait(plan: &Plan, instance_id: String, now_ms: u64) -> (r: (Stage, Action))
    ensures
        r == waiting(*plan, instance_id, now_ms),
{
    let begun = Poller::begin(now_ms, plan.budget_ms, plan.port);
    let again = instance_id.clone();
    (Stage::Waiting { instance_id, poller: begun.0 }, Action::Describe {
        instance_id: again,
        delay_ms: 0,
    })
}

fn fail(failure: Failure) -> (r: (Stage, Action))
    ensures
        r == failed(failure),
{
    (Stage::Failed { failure }, Action::Abort { failure })
}

fn poll(plan: &Plan, instance_id: String, poller: Poller, now_ms: u64, seen: Observation) -> (r: (
    Stage,
    Action,
))
    ensures
        r == polled(*plan, instance_id, poller, now_ms, seen),
{
    let stepped = poller.step(now_ms, seen);
    let after = stepped.0;
    let directive = stepped.1;
    match after.state {
        PollerState::Ready { address } => {
            let given = address.clone();
            let action = match plan.completion {
                Completion::Persist => Action::Persist { address: given },
                Completion::HandOff => Action::HandOff { address: given },
            };
            (Stage::Finished { address }, action)
        },
        PollerState::TimedOut { phase } => fail(Failure::Timeout(phase)),
        state => {
            let action = match directive {
                Directive::Describe { delay_ms } => Action::Describe {
                    instance_id: instance_id.clone(),
                    delay_ms,
                },
                Directive::Connect { address, port, timeout_ms } => Action::Connect {
                    address,
                    port,
                    timeout_ms,
                },
                Directive::Stop => Action::Idle,
            };
            (
                Stage::Waiting {
                    instance_id,
                    poller: Poller { window: after.window, port: after.port, state },
                },
                action,
            )
        },
    }
}

/// Takes one event, reported at `now_ms`.
pub fn advance(plan: &Plan, stage: Stage, now_ms: u64, event: Event) -> (r: (Stage, Action))
    ensures
        r == advanced(*plan, stage, now_ms, event),
{
    match stage {
        Stage::Resolving => match event {
            Event::Matches { instances } => match first_match(instances) {
                Err(failure) => fail(failure),
                Ok(found) => match ensure_running(&found, plan.authorized_to_start) {
                    Err(failure) => fail(failure),
                    Ok(StartDecision::Start) => {
                        let again = found.instance_id.clone();
                        (
                            Stage::Starting { instance_id: found.instance_id },
                            Action::Start { instance_id: again },
                        )
                    },
                    Ok(StartDecision::Nothing) => begin_wait(plan, found.instance_id, now_ms),
                },
            },
            _ => (Stage::Resolving, Action::Idle),
        },
        Stage::Starting { instance_id } => match event {
            Event::Started => begin_wait(plan, instance_id, now_ms),
            _ => (Stage::Starting { instance_id }, Action::Idle),
        },
        Stage::Waiting { instance_id, poller } => {
            let asks_address = match &poller.state {
                PollerState::AwaitingAddress => true,
                _ => false,
            };
            let asks_port = match &poller.state {
                PollerState::AwaitingReachability { .. } => true,
                _ => false,
            };
            if asks_address {
                match event {
                    Event::Matches { instances } => match first_match(instances) {
                        Err(failure) => fail(failure),
                        Ok(found) => poll(
                            plan,
                            instance_id,
                            poller,
                            now_ms,
                            Observation::Described { assigned_address: found.assigned_address },
                        ),
                    },
                    _ => (Stage::Waiting { instance_id, poller }, Action::Idle),
                }
            } else if asks_port {
                match event {
                    Event::Connected => poll(
                        plan,
                        instance_id,
                        poller,
                        now_ms,
                        Observation::Connected,
                    ),
                    Event::Refused => poll(plan, instance_id, poller, now_ms, Observation::Refused),
                    _ => (Stage::Waiting { instance_id, poller }, Action::Idle),
                }
            } else {
                (Stage::Waiting { instance_id, poller }, Action::Idle)
            }
        },
        Stage::Finished { address } => (Stage::Finished { address }, Action::Idle),
        Stage::Failed { failure } => (Stage::Failed { failure }, Action::Idle),
    }
}

/// A run that is over, with an address or with a failure, stays as it is
/// and asks for nothing more: after the first failure no later stage is
/// tried.
pub proof fn lemma_run_over_stays_over(plan: Plan, stage: Stage, now_ms: u64, event: Event)
    requires
        stage is Finished || stage is Failed,
    ensures
        advanced(plan, stage, now_ms, event) == (stage, Action::Idle),
{
}

/// A lookup that matches no instance fails the run with `InstanceNotFound`,
/// by token and by tag alike, and nothing is started or polled.
pub proof fn lemma_no_match_fails(plan: Plan, now_ms: u64, instances: Vec<InstanceDescriptor>)
    requires
        instances@.len() == 0,
    ensures
        advanced(plan, Stage::Resolving, now_ms, Event::Matches { instances }) == failed(
            Failure::InstanceNotFound,
        ),
{
}

/// A stopped instance that the operator did not allow to start fails the
/// run with `InstanceStoppedUnauthorized`.
pub proof fn lemma_stopped_unauthorized_fails(
    plan: Plan,
    now_ms: u64,
    instances: Vec<InstanceDescriptor>,
)
    requires
        instances@.len() > 0,
        instances@[0].power_state == PowerState::Stopped,
        !plan.authorized_to_start,
    ensures
        advanced(plan, Stage::Resolving, now_ms, Event::Matches { instances }) == failed(
            Failure::InstanceStoppedUnauthorized,
        ),
{
}

/// A start request goes out only for a stopped instance, only when the
/// operator allowed it, and only as the answer to the lookup.
pub proof fn lemma_start_needs_authorization(plan: Plan, stage: Stage, now_ms: u64, event: Event)
    requires
        advanced(plan, stage, now_ms, event).1 is Start,
    ensures
        plan.authorized_to_start,
        stage is Resolving,
        event is Matches,
        event->instances@.len() > 0,
        event->instances@[0].power_state == PowerState::Stopped,
{
}

/// The address is persisted or handed over only when a connection attempt
/// has succeeded during the wait for the port, and it is the address that
/// the attempt went to.
pub proof fn lemma_completion_needs_connection(
    plan: Plan,
    stage: Stage,
    now_ms: u64,
    event: Event,
)
    requires
        advanced(plan, stage, now_ms, event).1 is Persist || advanced(
            plan,
            stage,
            now_ms,
            event,
        ).1 is HandOff,
    ensures
        event is Connected,
        stage is Waiting,
        stage->poller.state is AwaitingReachability,
        advanced(plan, stage, now_ms, event) == (
            Stage::Finished { address: stage->poller.state->AwaitingReachability_address },
            completed(plan.completion, stage->poller.state->AwaitingReachability_address),
        ),
{
}

/// The window of a wait opens once: no step of the run changes it, so both
/// phases are measured from the same start.
pub proof fn lemma_window_opens_once(plan: Plan, stage: Stage, now_ms: u64, event: Event)
    requires
        stage is Waiting,
        advanced(plan, stage, now_ms, event).0 is Waiting,
    ensures
        advanced(plan, stage, now_ms, event).0->poller.window == stage->poller.window,
        advanced(plan, stage, now_ms, event).0->poller.port == stage->poller.port,
        advanced(plan, stage, now_ms, event).0->Waiting_instance_id == stage->Waiting_instance_id,
{
}

} // verus!
