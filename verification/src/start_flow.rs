//! The decisions of `coast start`, as a state machine: the handler performs the
//! action of each step and reports its outcome as the next event.
//!
//! A start proceeds only from a stopped instance. It marks the instance as
//! starting, starts its coast container, waits for the inner daemon, checks its
//! health, re-applies the workspace mount, then runs compose (polling readiness
//! up to [`MAX_READINESS_POLLS`] times) or the bare services, and finishes with the
//! instance running. Every failure after the instance was marked reverts it to
//! stopped.

use vstd::prelude::*;
use vstd::string::*;
use crate::lifecycle::{InstanceStatus, TransitionCheck, start_check, is_up, is_busy};
use crate::text::concat3;

verus! {

/// How many times `coast start` polls the compose services for readiness.
pub const MAX_READINESS_POLLS: u32 = 30;

/// Where a start stands.
#[derive(Debug, Clone, Copy, PartialEq, Eq, Structural)]
pub enum StartPhase {
    /// The instance has not been looked up yet.
    Validate,
    /// The instance is being marked as starting; whether the docker steps run
    /// (it has a container and a Docker client is available).
    Marking(bool),
    /// The coast container is being started.
    StartingContainer,
    /// The inner Docker daemon is awaited.
    WaitingForDaemon,
    /// `docker info` is run inside the container.
    CheckingHealth,
    /// The workspace mount is re-applied.
    Remounting,
    /// The project's services are looked up.
    InspectingServices,
    /// Compose services are polled for readiness; the number of polls done before
    /// the one being reported.
    Polling(u32),
    /// The bare services are started.
    StartingBareServices,
    /// The start is over.
    Done,
}

/// The outcome of `docker info` inside the coast container.
#[derive(Debug, Clone, Copy, PartialEq, Eq, Structural)]
pub enum HealthOutcome {
    /// It succeeded.
    Healthy,
    /// It ran and failed.
    Unhealthy,
    /// It could not be run.
    Unreachable,
    /// It did not answer in time.
    TimedOut,
}

/// What the handler reports after performing an action.
#[derive(Debug, Clone, Copy, PartialEq, Eq, Structural)]
pub enum StartEvent {
    /// The instance's status (`None`: there is no such instance) and whether the
    /// docker steps can run.
    Looked(Option<InstanceStatus>, bool),
    /// The action succeeded.
    Succeeded,
    /// The action failed.
    Failed,
    /// The health check's outcome.
    Health(HealthOutcome),
    /// Whether the project runs compose, and whether the container has bare services.
    Services(bool, bool),
    /// Whether every compose service reported running or healthy.
    Polled(bool),
}

/// Why a start is refused before anything changes.
#[derive(Debug, Clone, Copy, PartialEq, Eq, Structural)]
pub enum StartRefusal {
    NotFound,
    AlreadyRunning,
    Busy,
    NotStopped,
}

/// Why a start failed after the instance was marked as starting.
#[derive(Debug, Clone, Copy, PartialEq, Eq, Structural)]
pub enum StartFailure {
    ContainerStart,
    DaemonStart,
    DaemonUnhealthy,
    DaemonUnreachable,
    DaemonUnresponsive,
}

/// What the handler does next.
#[derive(Debug, Clone, Copy, PartialEq, Eq, Structural)]
pub enum StartAction {
    /// Answer with the refusal; nothing was changed.
    Refuse(StartRefusal),
    /// Mark the instance as starting, announce it and the four-step plan.
    MarkStarting,
    /// Start the coast container.
    StartContainer,
    /// Wait for the inner Docker daemon.
    WaitForDaemon,
    /// Run `docker info` in the container, with a timeout.
    CheckHealth,
    /// Re-apply the `/workspace` bind mount.
    Remount,
    /// Find out whether the project runs compose and the container bare services.
    InspectServices,
    /// Run `compose up`, then poll the services once.
    ComposeUp,
    /// Wait two seconds, then poll the services again.
    PollAgain,
    /// Start the bare services.
    StartBareServices,
    /// Mark the instance as running and answer with its port allocations.
    Finish,
    /// Revert the instance to stopped and answer with the failure.
    Fail(StartFailure),
    /// The event does not belong to this phase: nothing to do.
    Ignore,
}

/// The step of the start machine.
pub open spec fn start_step_spec(phase: StartPhase, event: StartEvent) -> (StartPhase, StartAction) {
    match (phase, event) {
        (StartPhase::Validate, StartEvent::Looked(None, _)) =>
            (StartPhase::Done, StartAction::Refuse(StartRefusal::NotFound)),
        (StartPhase::Validate, StartEvent::Looked(Some(s), docker)) =>
            if is_up(s) {
                (StartPhase::Done, StartAction::Refuse(StartRefusal::AlreadyRunning))
            } else if is_busy(s) {
                (StartPhase::Done, StartAction::Refuse(StartRefusal::Busy))
            } else if s is Stopped {
                (StartPhase::Marking(docker), StartAction::MarkStarting)
            } else {
                (StartPhase::Done, StartAction::Refuse(StartRefusal::NotStopped))
            },
        (StartPhase::Marking(true), StartEvent::Succeeded) => (StartPhase::StartingContainer, StartAction::StartContainer),
        (StartPhase::Marking(false), StartEvent::Succeeded) => (StartPhase::Done, StartAction::Finish),
        (StartPhase::StartingContainer, StartEvent::Succeeded) => (StartPhase::WaitingForDaemon, StartAction::WaitForDaemon),
        (StartPhase::StartingContainer, StartEvent::Failed) =>
            (StartPhase::Done, StartAction::Fail(StartFailure::ContainerStart)),
        (StartPhase::WaitingForDaemon, StartEvent::Succeeded) => (StartPhase::CheckingHealth, StartAction::CheckHealth),
        (StartPhase::WaitingForDaemon, StartEvent::Failed) =>
            (StartPhase::Done, StartAction::Fail(StartFailure::DaemonStart)),
        (StartPhase::CheckingHealth, StartEvent::Health(h)) => match h {
            HealthOutcome::Healthy => (StartPhase::Remounting, StartAction::Remount),
            HealthOutcome::Unhealthy => (StartPhase::Done, StartAction::Fail(StartFailure::DaemonUnhealthy)),
            HealthOutcome::Unreachable => (StartPhase::Done, StartAction::Fail(StartFailure::DaemonUnreachable)),
            HealthOutcome::TimedOut => (StartPhase::Done, StartAction::Fail(StartFailure::DaemonUnresponsive)),
        },
        (StartPhase::Remounting, StartEvent::Succeeded) => (StartPhase::InspectingServices, StartAction::InspectServices),
        (StartPhase::Remounting, StartEvent::Failed) => (StartPhase::InspectingServices, StartAction::InspectServices),
        (StartPhase::InspectingServices, StartEvent::Services(compose, bare)) =>
            if compose {
                (StartPhase::Polling(0), StartAction::ComposeUp)
            } else if bare {
                (StartPhase::StartingBareServices, StartAction::StartBareServices)
            } else {
                (StartPhase::Done, StartAction::Finish)
            },
        (StartPhase::Polling(n), StartEvent::Polled(ready)) =>
            if ready || n as int + 1 >= MAX_READINESS_POLLS {
                (StartPhase::Done, StartAction::Finish)
            } else {
                (StartPhase::Polling((n + 1) as u32), StartAction::PollAgain)
            },
        (StartPhase::StartingBareServices, StartEvent::Succeeded) => (StartPhase::Done, StartAction::Finish),
        (StartPhase::StartingBareServices, StartEvent::Failed) => (StartPhase::Done, StartAction::Finish),
        _ => (phase, StartAction::Ignore),
    }
}

/// One step of `coast start`: the next phase and what to do, given the outcome of
/// the previous action.
pub fn start_step(phase: StartPhase, event: StartEvent) -> (r: (StartPhase, StartAction))
    ensures
        r == start_step_spec(phase, event),
{
    match (phase, event) {
        (StartPhase::Validate, StartEvent::Looked(None, _)) =>
            (StartPhase::Done, StartAction::Refuse(StartRefusal::NotFound)),
        (StartPhase::Validate, StartEvent::Looked(Some(s), docker)) => match start_check(s) {
            TransitionCheck::AlreadyThere => (StartPhase::Done, StartAction::Refuse(StartRefusal::AlreadyRunning)),
            TransitionCheck::Busy => (StartPhase::Done, StartAction::Refuse(StartRefusal::Busy)),
            TransitionCheck::Proceed => (StartPhase::Marking(docker), StartAction::MarkStarting),
            TransitionCheck::Refused => (StartPhase::Done, StartAction::Refuse(StartRefusal::NotStopped)),
        },
        (StartPhase::Marking(true), StartEvent::Succeeded) => (StartPhase::StartingContainer, StartAction::StartContainer),
        (StartPhase::Marking(false), StartEvent::Succeeded) => (StartPhase::Done, StartAction::Finish),
        (StartPhase::StartingContainer, StartEvent::Succeeded) => (StartPhase::WaitingForDaemon, StartAction::WaitForDaemon),
        (StartPhase::StartingContainer, StartEvent::Failed) =>
            (StartPhase::Done, StartAction::Fail(StartFailure::ContainerStart)),
        (StartPhase::WaitingForDaemon, StartEvent::Succeeded) => (StartPhase::CheckingHealth, StartAction::CheckHealth),
        (StartPhase::WaitingForDaemon, StartEvent::Failed) =>
            (StartPhase::Done, StartAction::Fail(StartFailure::DaemonStart)),
        (StartPhase::CheckingHealth, StartEvent::Health(h)) => match h {
            HealthOutcome::Healthy => (StartPhase::Remounting, StartAction::Remount),
            HealthOutcome::Unhealthy => (StartPhase::Done, StartAction::Fail(StartFailure::DaemonUnhealthy)),
            HealthOutcome::Unreachable => (StartPhase::Done, StartAction::Fail(StartFailure::DaemonUnreachable)),
            HealthOutcome::TimedOut => (StartPhase::Done, StartAction::Fail(StartFailure::DaemonUnresponsive)),
        },
        (StartPhase::Remounting, StartEvent::Succeeded) => (StartPhase::InspectingServices, StartAction::InspectServices),
        (StartPhase::Remounting, StartEvent::Failed) => (StartPhase::InspectingServices, StartAction::InspectServices),
        (StartPhase::InspectingServices, StartEvent::Services(compose, bare)) =>
            if compose {
                (StartPhase::Polling(0), StartAction::ComposeUp)
            } else if bare {
                (StartPhase::StartingBareServices, StartAction::StartBareServices)
            } else {
                (StartPhase::Done, StartAction::Finish)
            },
        (StartPhase::Polling(n), StartEvent::Polled(ready)) =>
            if ready || n >= MAX_READINESS_POLLS - 1 {
                (StartPhase::Done, StartAction::Finish)
            } else {
                (StartPhase::Polling(n + 1), StartAction::PollAgain)
            },
        (StartPhase::StartingBareServices, StartEvent::Succeeded) => (StartPhase::Done, StartAction::Finish),
        (StartPhase::StartingBareServices, StartEvent::Failed) => (StartPhase::Done, StartAction::Finish),
        _ => (phase, StartAction::Ignore),
    }
}

/// What `coast start` keeps to: it marks an instance as starting only when the
/// instance is stopped; a refusal changes nothing and ends the start; every failure
/// ends it (the instance goes back to stopped); and readiness is polled at most
/// [`MAX_READINESS_POLLS`] times.
pub proof fn lemma_start_step(phase: StartPhase, event: StartEvent)
    ensures
        ({
            let (next, action) = start_step_spec(phase, event);
            &&& action is MarkStarting ==> (phase is Validate && (event matches StartEvent::Looked(Some(s), _)
                && s is Stopped))
            &&& (action is Refuse || action is Fail || action is Finish) ==> next is Done
            &&& action is Fail ==> !(phase is Validate)
            &&& ((phase matches StartPhase::Polling(n) && n < MAX_READINESS_POLLS) ==>
                    (next matches StartPhase::Polling(m) ==> m < MAX_READINESS_POLLS))
            &&& next matches StartPhase::Polling(m) ==> action is ComposeUp || action is PollAgain || action is Ignore
        }),
{
}

/// The error a failed start answers with (after reverting the instance to stopped);
/// `detail` is the error text, or the exit code of an unhealthy daemon, or the
/// timeout in seconds of an unresponsive one.
pub open spec fn start_failure_spec(f: StartFailure, name: Seq<char>, detail: Seq<char>) -> Seq<char> {
    match f {
        StartFailure::ContainerStart => "Failed to start container for instance '"@ + name + "': "@ + detail
            + ". Try `coast rm "@ + name + "` and `coast run` again."@,
        StartFailure::DaemonStart => "Inner Docker daemon in instance '"@ + name + "' failed to start: "@ + detail
            + ". Try `coast rm "@ + name + "` and `coast run` again."@,
        StartFailure::DaemonUnhealthy => "Inner Docker daemon in instance '"@ + name + "' is not healthy (exit "@
            + detail + "). Try `coast stop "@ + name + " && coast start "@ + name + "`."@,
        StartFailure::DaemonUnreachable => "Cannot reach inner Docker daemon in instance '"@ + name + "': "@ + detail
            + ". Try `coast stop "@ + name + " && coast start "@ + name + "`."@,
        StartFailure::DaemonUnresponsive => "Inner Docker daemon in instance '"@ + name
            + "' is unresponsive (timed out after "@ + detail
            + "s). The DinD container may need to be recreated. Try `coast rm "@ + name + " && coast run "@
            + name + "`."@,
    }
}

/// The error text of a failed start.
pub fn start_failure_message(f: StartFailure, name: &str, detail: &str) -> (msg: String)
    ensures
        msg@ == start_failure_spec(f, name@, detail@),
{
    match f {
        StartFailure::ContainerStart => {
            let mut m = concat3("Failed to start container for instance '", name, "': ");
            m.append(detail);
            m.append(". Try `coast rm ");
            m.append(name);
            m.append("` and `coast run` again.");
            m
        },
        StartFailure::DaemonStart => {
            let mut m = concat3("Inner Docker daemon in instance '", name, "' failed to start: ");
            m.append(detail);
            m.append(". Try `coast rm ");
            m.append(name);
            m.append("` and `coast run` again.");
            m
        },
        StartFailure::DaemonUnhealthy => {
            let mut m = concat3("Inner Docker daemon in instance '", name, "' is not healthy (exit ");
            m.append(detail);
            m.append("). Try `coast stop ");
            m.append(name);
            m.append(" && coast start ");
            m.append(name);
            m.append("`.");
            m
        },
        StartFailure::DaemonUnreachable => {
            let mut m = concat3("Cannot reach inner Docker daemon in instance '", name, "': ");
            m.append(detail);
            m.append(". Try `coast stop ");
            m.append(name);
            m.append(" && coast start ");
            m.append(name);
            m.append("`.");
            m
        },
        StartFailure::DaemonUnresponsive => {
            let mut m = concat3("Inner Docker daemon in instance '", name, "' is unresponsive (timed out after ");
            m.append(detail);
            m.append("s). The DinD container may need to be recreated. Try `coast rm ");
            m.append(name);
            m.append(" && coast run ");
            m.append(name);
            m.append("`.");
            m
        },
    }
}

/// The error of starting an instance that is already running or checked out.
pub fn already_running_message(name: &str, status_text: &str) -> (msg: String)
    ensures
        msg@ == "Instance '"@ + name@ + "' is already running (status: "@ + status_text@ + "). Run `coast stop "@
            + name@ + "` first if you want to restart it."@,
{
    let mut m = concat3("Instance '", name, "' is already running (status: ");
    m.append(status_text);
    m.append("). Run `coast stop ");
    m.append(name);
    m.append("` first if you want to restart it.");
    m
}

/// The error of an operation on an instance while another one is in progress.
pub fn busy_message(name: &str, status_text: &str) -> (msg: String)
    ensures
        msg@ == "Instance '"@ + name@ + "' is currently "@ + status_text@ + ". Wait for the operation to complete."@,
{
    let mut m = concat3("Instance '", name, "' is currently ");
    m.append(status_text);
    m.append(". Wait for the operation to complete.");
    m
}

} // verus!
