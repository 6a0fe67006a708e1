use coast_daemon::lifecycle::InstanceStatus;
use coast_daemon::start_flow::{
    already_running_message, busy_message, start_failure_message, start_step, HealthOutcome, StartAction, StartEvent,
    StartFailure, StartPhase, StartRefusal, MAX_READINESS_POLLS,
};

fn run(events: &[StartEvent]) -> Vec<StartAction> {
    let mut phase = StartPhase::Validate;
    let mut actions = Vec::new();
    for e in events {
        let (next, action) = start_step(phase, *e);
        phase = next;
        actions.push(action);
    }
    actions
}

#[test]
fn start_refusals() {
    assert_eq!(run(&[StartEvent::Looked(None, true)]), vec![StartAction::Refuse(StartRefusal::NotFound)]);
    for (s, r) in [
        (InstanceStatus::Running, StartRefusal::AlreadyRunning),
        (InstanceStatus::CheckedOut, StartRefusal::AlreadyRunning),
        (InstanceStatus::Provisioning, StartRefusal::Busy),
        (InstanceStatus::Starting, StartRefusal::Busy),
        (InstanceStatus::Idle, StartRefusal::NotStopped),
        (InstanceStatus::Enqueued, StartRefusal::NotStopped),
    ] {
        assert_eq!(start_step(StartPhase::Validate, StartEvent::Looked(Some(s), true)), (StartPhase::Done, StartAction::Refuse(r)));
    }
}

#[test]
fn start_with_compose_happy_path() {
    let actions = run(&[
        StartEvent::Looked(Some(InstanceStatus::Stopped), true),
        StartEvent::Succeeded,
        StartEvent::Succeeded,
        StartEvent::Succeeded,
        StartEvent::Health(HealthOutcome::Healthy),
        StartEvent::Failed,
        StartEvent::Services(true, false),
        StartEvent::Polled(false),
        StartEvent::Polled(true),
    ]);
    assert_eq!(
        actions,
        vec![
            StartAction::MarkStarting,
            StartAction::StartContainer,
            StartAction::WaitForDaemon,
            StartAction::CheckHealth,
            StartAction::Remount,
            StartAction::InspectServices,
            StartAction::ComposeUp,
            StartAction::PollAgain,
            StartAction::Finish,
        ]
    );
}

#[test]
fn start_without_docker_finishes_at_once() {
    let actions = run(&[StartEvent::Looked(Some(InstanceStatus::Stopped), false), StartEvent::Succeeded]);
    assert_eq!(actions, vec![StartAction::MarkStarting, StartAction::Finish]);
}

#[test]
fn start_polls_at_most_thirty_times() {
    let mut phase = StartPhase::Polling(0);
    let mut polls = 0;
    loop {
        polls += 1;
        let (next, action) = start_step(phase, StartEvent::Polled(false));
        phase = next;
        if action == StartAction::Finish {
            break;
        }
        assert_eq!(action, StartAction::PollAgain);
    }
    assert_eq!(polls, MAX_READINESS_POLLS);
    assert_eq!(phase, StartPhase::Done);
}

#[test]
fn start_failures_revert() {
    assert_eq!(
        start_step(StartPhase::StartingContainer, StartEvent::Failed),
        (StartPhase::Done, StartAction::Fail(StartFailure::ContainerStart))
    );
    assert_eq!(
        start_step(StartPhase::CheckingHealth, StartEvent::Health(HealthOutcome::TimedOut)),
        (StartPhase::Done, StartAction::Fail(StartFailure::DaemonUnresponsive))
    );
    assert_eq!(
        start_step(StartPhase::InspectingServices, StartEvent::Services(false, true)),
        (StartPhase::StartingBareServices, StartAction::StartBareServices)
    );
    assert_eq!(start_step(StartPhase::Done, StartEvent::Succeeded), (StartPhase::Done, StartAction::Ignore));
}

#[test]
fn start_messages() {
    assert_eq!(
        start_failure_message(StartFailure::DaemonUnhealthy, "dev-1", "1"),
        "Inner Docker daemon in instance 'dev-1' is not healthy (exit 1). Try `coast stop dev-1 && coast start dev-1`."
    );
    assert_eq!(
        start_failure_message(StartFailure::ContainerStart, "dev-1", "boom"),
        "Failed to start container for instance 'dev-1': boom. Try `coast rm dev-1` and `coast run` again."
    );
    assert!(already_running_message("feat-a", "running").contains("already running"));
    assert!(busy_message("feat-a", "provisioning").contains("currently"));
}
