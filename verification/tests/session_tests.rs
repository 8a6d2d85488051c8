use bite::failure::{Failure, Phase};
use bite::instance::{InstanceDescriptor, PowerState, Resolution};
use bite::poller::{DeadlineWindow, Poller, PollerState};
use bite::session::{advance, launch, Action, Completion, Event, Plan, Stage};

fn plan(completion: Completion, authorized: bool) -> Plan {
    Plan {
        resolution: Resolution::ByToken("i-0abc".to_string()),
        completion,
        authorized_to_start: authorized,
        budget_ms: 30_000,
        port: 22,
    }
}

fn by_tag(authorized: bool) -> Plan {
    Plan {
        resolution: Resolution::ByTag("web".to_string()),
        completion: Completion::HandOff,
        authorized_to_start: authorized,
        budget_ms: 30_000,
        port: 22,
    }
}

fn instance(state: PowerState, address: Option<&str>) -> InstanceDescriptor {
    InstanceDescriptor {
        instance_id: "i-0abc".to_string(),
        power_state: state,
        assigned_address: address.map(|a| a.to_string()),
    }
}

fn matches(state: PowerState, address: Option<&str>) -> Event {
    Event::Matches { instances: vec![instance(state, address)] }
}

fn no_matches() -> Event {
    Event::Matches { instances: Vec::new() }
}

fn waiting(start_ms: u64, state: PollerState) -> Stage {
    Stage::Waiting {
        instance_id: "i-0abc".to_string(),
        poller: Poller { window: DeadlineWindow { start_ms, budget_ms: 30_000 }, port: 22, state },
    }
}

fn reaching(address: &str) -> PollerState {
    PollerState::AwaitingReachability { address: address.to_string() }
}

fn describe(delay_ms: u64) -> Action {
    Action::Describe { instance_id: "i-0abc".to_string(), delay_ms }
}

fn connect(address: &str) -> Action {
    Action::Connect { address: address.to_string(), port: 22, timeout_ms: 1000 }
}

fn failed(failure: Failure) -> (Stage, Action) {
    (Stage::Failed { failure }, Action::Abort { failure })
}

fn all_events() -> Vec<Event> {
    vec![
        no_matches(),
        matches(PowerState::Running, Some("10.0.0.5")),
        matches(PowerState::Stopped, None),
        Event::Started,
        Event::Connected,
        Event::Refused,
    ]
}

#[test]
fn launch_asks_for_the_instance() {
    let p = plan(Completion::Persist, false);
    assert_eq!(
        launch(&p),
        (Stage::Resolving, Action::Lookup { resolution: Resolution::ByToken("i-0abc".to_string()) })
    );
    assert_eq!(
        launch(&by_tag(false)),
        (Stage::Resolving, Action::Lookup { resolution: Resolution::ByTag("web".to_string()) })
    );
}

#[test]
fn no_match_by_tag_is_not_found_and_ends_the_run() {
    let p = by_tag(true);
    let (stage, action) = advance(&p, Stage::Resolving, 1_000, no_matches());
    assert_eq!((stage.clone(), action), failed(Failure::InstanceNotFound));
    for event in all_events() {
        assert_eq!(advance(&p, stage.clone(), 2_000, event), (stage.clone(), Action::Idle));
    }
}

#[test]
fn no_match_by_token_is_not_found() {
    let p = plan(Completion::Persist, true);
    assert_eq!(advance(&p, Stage::Resolving, 1_000, no_matches()), failed(Failure::InstanceNotFound));
}

#[test]
fn stopped_without_authorization_fails_and_starts_nothing() {
    let p = plan(Completion::Persist, false);
    let (stage, action) = advance(&p, Stage::Resolving, 1_000, matches(PowerState::Stopped, None));
    assert_eq!((stage.clone(), action), failed(Failure::InstanceStoppedUnauthorized));
    for event in all_events() {
        let (next, action) = advance(&p, stage.clone(), 2_000, event);
        assert_eq!(next, stage);
        assert_eq!(action, Action::Idle);
    }
}

#[test]
fn stopped_with_authorization_is_started_then_polled() {
    let p = plan(Completion::Persist, true);
    let (stage, action) = advance(&p, Stage::Resolving, 1_000, matches(PowerState::Stopped, None));
    assert_eq!(stage, Stage::Starting { instance_id: "i-0abc".to_string() });
    assert_eq!(action, Action::Start { instance_id: "i-0abc".to_string() });
    let (stage, action) = advance(&p, stage, 1_500, Event::Started);
    assert_eq!(stage, waiting(1_500, PollerState::AwaitingAddress));
    assert_eq!(action, describe(0));
}

#[test]
fn a_run_on_a_terminal_state_is_unavailable() {
    for state in [PowerState::Terminated, PowerState::ShuttingDown] {
        for authorized in [false, true] {
            let p = plan(Completion::Persist, authorized);
            assert_eq!(
                advance(&p, Stage::Resolving, 1_000, matches(state, None)),
                failed(Failure::InstanceUnavailable)
            );
        }
    }
}

#[test]
fn a_running_instance_is_polled_at_once() {
    let p = plan(Completion::Persist, false);
    let (stage, action) =
        advance(&p, Stage::Resolving, 7_000, matches(PowerState::Running, Some("10.0.0.5")));
    assert_eq!(stage, waiting(7_000, PollerState::AwaitingAddress));
    assert_eq!(action, describe(0));
}

#[test]
fn the_first_of_several_matches_is_used() {
    let p = by_tag(false);
    let mut second = instance(PowerState::Stopped, None);
    second.instance_id = "i-other".to_string();
    let event = Event::Matches { instances: vec![instance(PowerState::Running, None), second] };
    let (stage, action) = advance(&p, Stage::Resolving, 7_000, event);
    assert_eq!(stage, waiting(7_000, PollerState::AwaitingAddress));
    assert_eq!(action, describe(0));
}

#[test]
fn a_run_that_persists_goes_through_every_stage() {
    let p = plan(Completion::Persist, true);
    let (stage, action) = launch(&p);
    assert_eq!(action, Action::Lookup { resolution: Resolution::ByToken("i-0abc".to_string()) });
    let (stage, action) = advance(&p, stage, 0, matches(PowerState::Stopped, None));
    assert_eq!(action, Action::Start { instance_id: "i-0abc".to_string() });
    let (stage, action) = advance(&p, stage, 100, Event::Started);
    assert_eq!(action, describe(0));
    let (stage, action) = advance(&p, stage, 200, matches(PowerState::Pending, None));
    assert_eq!(action, describe(1000));
    let (stage, action) = advance(&p, stage, 1_300, matches(PowerState::Pending, None));
    assert_eq!(action, describe(1000));
    let (stage, action) = advance(&p, stage, 2_400, matches(PowerState::Running, Some("10.0.0.5")));
    assert_eq!(stage, waiting(100, reaching("10.0.0.5")));
    assert_eq!(action, connect("10.0.0.5"));
    let (stage, action) = advance(&p, stage, 3_400, Event::Refused);
    assert_eq!(stage, waiting(100, reaching("10.0.0.5")));
    assert_eq!(action, connect("10.0.0.5"));
    let (stage, action) = advance(&p, stage, 3_500, Event::Connected);
    assert_eq!(stage, Stage::Finished { address: "10.0.0.5".to_string() });
    assert_eq!(action, Action::Persist { address: "10.0.0.5".to_string() });
    let (stage, action) = advance(&p, stage, 3_600, Event::Connected);
    assert_eq!(stage, Stage::Finished { address: "10.0.0.5".to_string() });
    assert_eq!(action, Action::Idle);
}

#[test]
fn a_run_that_hands_off_ends_with_the_address() {
    let p = by_tag(false);
    let stage = waiting(100, reaching("10.0.0.5"));
    let (stage, action) = advance(&p, stage, 3_500, Event::Connected);
    assert_eq!(stage, Stage::Finished { address: "10.0.0.5".to_string() });
    assert_eq!(action, Action::HandOff { address: "10.0.0.5".to_string() });
}

#[test]
fn the_wait_for_the_address_times_out() {
    let p = plan(Completion::Persist, false);
    let stage = waiting(1_000, PollerState::AwaitingAddress);
    let (stage, action) = advance(&p, stage, 31_000, matches(PowerState::Pending, None));
    assert_eq!(stage, waiting(1_000, PollerState::AwaitingAddress));
    assert_eq!(action, describe(1000));
    assert_eq!(
        advance(&p, stage, 31_001, matches(PowerState::Pending, None)),
        failed(Failure::Timeout(Phase::Address))
    );
}

#[test]
fn the_wait_for_the_port_times_out_on_the_same_window() {
    let p = plan(Completion::Persist, false);
    let stage = waiting(1_000, PollerState::AwaitingAddress);
    let (stage, action) =
        advance(&p, stage, 26_000, matches(PowerState::Running, Some("10.0.0.5")));
    assert_eq!(stage, waiting(1_000, reaching("10.0.0.5")));
    assert_eq!(action, connect("10.0.0.5"));
    let (stage, action) = advance(&p, stage, 31_000, Event::Refused);
    assert_eq!(action, connect("10.0.0.5"));
    assert_eq!(
        advance(&p, stage, 31_001, Event::Refused),
        failed(Failure::Timeout(Phase::Reachability))
    );
}

#[test]
fn an_instance_that_vanishes_during_the_wait_is_not_found() {
    let p = plan(Completion::Persist, false);
    let stage = waiting(1_000, PollerState::AwaitingAddress);
    assert_eq!(advance(&p, stage, 2_000, no_matches()), failed(Failure::InstanceNotFound));
}

#[test]
fn the_plan_gives_budget_and_port() {
    let mut p = plan(Completion::HandOff, false);
    p.budget_ms = 5_000;
    p.port = 2222;
    let (stage, _) = advance(&p, Stage::Resolving, 10, matches(PowerState::Running, None));
    assert_eq!(
        stage,
        Stage::Waiting {
            instance_id: "i-0abc".to_string(),
            poller: Poller {
                window: DeadlineWindow { start_ms: 10, budget_ms: 5_000 },
                port: 2222,
                state: PollerState::AwaitingAddress,
            },
        }
    );
    let (stage, action) = advance(&p, stage, 20, matches(PowerState::Running, Some("10.0.0.5")));
    assert_eq!(
        action,
        Action::Connect { address: "10.0.0.5".to_string(), port: 2222, timeout_ms: 1000 }
    );
    assert_eq!(advance(&p, stage, 5_011, Event::Refused), failed(Failure::Timeout(Phase::Reachability)));
}

#[test]
fn an_event_that_was_not_asked_for_changes_nothing() {
    let p = plan(Completion::Persist, true);
    for event in [Event::Started, Event::Connected, Event::Refused] {
        assert_eq!(advance(&p, Stage::Resolving, 1, event), (Stage::Resolving, Action::Idle));
    }
    let starting = Stage::Starting { instance_id: "i-0abc".to_string() };
    for event in [no_matches(), matches(PowerState::Stopped, None), Event::Connected, Event::Refused] {
        assert_eq!(advance(&p, starting.clone(), 1, event), (starting.clone(), Action::Idle));
    }
    let asking = waiting(0, PollerState::AwaitingAddress);
    for event in [Event::Started, Event::Connected, Event::Refused] {
        assert_eq!(advance(&p, asking.clone(), 99_000, event), (asking.clone(), Action::Idle));
    }
    let trying = waiting(0, reaching("10.0.0.5"));
    for event in [Event::Started, no_matches(), matches(PowerState::Running, Some("10.1.1.1"))] {
        assert_eq!(advance(&p, trying.clone(), 99_000, event), (trying.clone(), Action::Idle));
    }
}

#[test]
fn a_start_goes_out_only_with_authorization() {
    let stages = vec![
        Stage::Resolving,
        Stage::Starting { instance_id: "i-0abc".to_string() },
        waiting(0, PollerState::AwaitingAddress),
        waiting(0, reaching("10.0.0.5")),
        Stage::Finished { address: "10.0.0.5".to_string() },
        Stage::Failed { failure: Failure::InstanceNotFound },
    ];
    for authorized in [false, true] {
        let p = plan(Completion::Persist, authorized);
        for stage in stages.iter() {
            for event in all_events() {
                let stopped = event == matches(PowerState::Stopped, None);
                let (_, action) = advance(&p, stage.clone(), 5, event);
                let starts = matches!(action, Action::Start { .. });
                assert_eq!(starts, authorized && *stage == Stage::Resolving && stopped);
            }
        }
    }
}
