use bite::failure::Failure;
use bite::instance::{first_match, InstanceDescriptor, PowerState, Resolution};
use bite::lifecycle::{ensure_running, StartDecision};

fn instance(id: &str, state: PowerState, address: Option<&str>) -> InstanceDescriptor {
    InstanceDescriptor {
        instance_id: id.to_string(),
        power_state: state,
        assigned_address: address.map(|a| a.to_string()),
    }
}

#[test]
fn first_match_of_none_is_not_found() {
    assert_eq!(first_match(Vec::new()), Err(Failure::InstanceNotFound));
}

#[test]
fn first_match_of_one_is_that_one() {
    let only = instance("i-1", PowerState::Running, Some("10.0.0.1"));
    assert_eq!(first_match(vec![only.clone()]), Ok(only));
}

#[test]
fn first_match_of_several_is_the_first() {
    let a = instance("i-1", PowerState::Stopped, None);
    let b = instance("i-2", PowerState::Running, Some("10.0.0.2"));
    let c = instance("i-3", PowerState::Running, Some("10.0.0.3"));
    assert_eq!(first_match(vec![a.clone(), b, c]), Ok(a));
}

#[test]
fn duplicate_gives_the_same_query() {
    let by_token = Resolution::ByToken("i-1".to_string());
    let by_tag = Resolution::ByTag("web".to_string());
    assert_eq!(by_token.duplicate(), by_token);
    assert_eq!(by_tag.duplicate(), by_tag);
    assert_ne!(by_token.duplicate(), Resolution::ByTag("i-1".to_string()));
}

#[test]
fn stopped_without_authorization_fails() {
    let d = instance("i-1", PowerState::Stopped, None);
    assert_eq!(ensure_running(&d, false), Err(Failure::InstanceStoppedUnauthorized));
}

#[test]
fn stopped_with_authorization_is_started() {
    let d = instance("i-1", PowerState::Stopped, None);
    assert_eq!(ensure_running(&d, true), Ok(StartDecision::Start));
}

#[test]
fn terminal_states_are_unavailable() {
    for state in [PowerState::Terminated, PowerState::ShuttingDown] {
        for authorized in [false, true] {
            let d = instance("i-1", state, None);
            assert_eq!(ensure_running(&d, authorized), Err(Failure::InstanceUnavailable));
        }
    }
}

#[test]
fn other_states_need_nothing() {
    for state in
        [PowerState::Pending, PowerState::Running, PowerState::Stopping, PowerState::Unknown]
    {
        for authorized in [false, true] {
            let d = instance("i-1", state, Some("10.0.0.1"));
            assert_eq!(ensure_running(&d, authorized), Ok(StartDecision::Nothing));
        }
    }
}

#[test]
fn a_start_is_decided_only_for_a_stopped_instance_with_authorization() {
    let states = [
        PowerState::Pending,
        PowerState::Running,
        PowerState::ShuttingDown,
        PowerState::Terminated,
        PowerState::Stopping,
        PowerState::Stopped,
        PowerState::Unknown,
    ];
    for state in states {
        for authorized in [false, true] {
            let d = instance("i-1", state, None);
            let starts = ensure_running(&d, authorized) == Ok(StartDecision::Start);
            assert_eq!(starts, state == PowerState::Stopped && authorized);
        }
    }
}
