use coast_daemon::lifecycle::{
    compose_services_ready, existing_instance_action, health_watched, is_restorable, service_health_key,
    services_down, provisioned_status, start_check, stop_check,
    unassign_check, unassign_stopped_message, unassigned_status, workspace_mount_command, workspace_mount_command_in,
    UnassignCheck, ExistingInstance, InstanceStatus, TransitionCheck,
};

const ALL: [InstanceStatus; 10] = [
    InstanceStatus::Enqueued,
    InstanceStatus::Provisioning,
    InstanceStatus::Assigning,
    InstanceStatus::Unassigning,
    InstanceStatus::Starting,
    InstanceStatus::Stopping,
    InstanceStatus::Running,
    InstanceStatus::CheckedOut,
    InstanceStatus::Stopped,
    InstanceStatus::Idle,
];

#[test]
fn start_and_stop_checks() {
    assert_eq!(start_check(InstanceStatus::Stopped), TransitionCheck::Proceed);
    assert_eq!(start_check(InstanceStatus::Idle), TransitionCheck::Refused);
    assert_eq!(start_check(InstanceStatus::Enqueued), TransitionCheck::Refused);
    assert_eq!(start_check(InstanceStatus::Unassigning), TransitionCheck::Refused);
    assert_eq!(stop_check(InstanceStatus::Idle), TransitionCheck::Refused);
    assert_eq!(start_check(InstanceStatus::Running), TransitionCheck::AlreadyThere);
    assert_eq!(start_check(InstanceStatus::CheckedOut), TransitionCheck::AlreadyThere);
    assert_eq!(start_check(InstanceStatus::Starting), TransitionCheck::Busy);
    assert_eq!(stop_check(InstanceStatus::Running), TransitionCheck::Proceed);
    assert_eq!(stop_check(InstanceStatus::CheckedOut), TransitionCheck::Proceed);
    assert_eq!(stop_check(InstanceStatus::Stopped), TransitionCheck::AlreadyThere);
    assert_eq!(stop_check(InstanceStatus::Provisioning), TransitionCheck::Busy);
    for s in ALL {
        if start_check(s) == TransitionCheck::Busy {
            assert_eq!(stop_check(s), TransitionCheck::Busy);
        }
    }
}

#[test]
fn restore_filter_and_settled_statuses() {
    assert!(is_restorable(InstanceStatus::Running, true));
    assert!(is_restorable(InstanceStatus::CheckedOut, true));
    assert!(!is_restorable(InstanceStatus::Running, false));
    assert!(!is_restorable(InstanceStatus::Stopped, true));
    assert_eq!(provisioned_status(true, false), InstanceStatus::Running);
    assert_eq!(provisioned_status(false, true), InstanceStatus::Running);
    assert_eq!(provisioned_status(false, false), InstanceStatus::Idle);
    assert_eq!(unassigned_status(InstanceStatus::Idle), InstanceStatus::Running);
    assert_eq!(unassigned_status(InstanceStatus::CheckedOut), InstanceStatus::CheckedOut);
    assert_eq!(existing_instance_action(None), ExistingInstance::Create);
    assert_eq!(existing_instance_action(Some(InstanceStatus::Enqueued)), ExistingInstance::ReplaceEnqueued);
    assert_eq!(existing_instance_action(Some(InstanceStatus::Stopped)), ExistingInstance::AlreadyExists);
}

#[test]
fn compose_readiness() {
    let out = "{\"State\":\"running\"}\n{\"Health\":\"healthy\"}\n";
    assert!(compose_services_ready(true, out));
    assert!(compose_services_ready(true, "running\r\nhealthy"));
    assert!(!compose_services_ready(false, out));
    assert!(!compose_services_ready(true, ""));
    assert!(!compose_services_ready(true, "{\"State\":\"exited\"}\n"));
    assert!(!compose_services_ready(true, "running\n\nrunning\n"));
}

#[test]
fn workspace_mount_scripts() {
    assert_eq!(
        workspace_mount_command(None, ".coasts", "/home/u/proj"),
        "mkdir -p /workspace && mount --bind /host-project /workspace && mount --make-rshared /workspace"
    );
    assert_eq!(
        workspace_mount_command(Some("feat"), ".coasts", "/home/u/proj"),
        "mkdir -p /workspace && mount --bind /host-project/.coasts/feat /workspace && mount --make-rshared /workspace && mkdir -p '/home/u' && ln -sfn /host-project '/home/u/proj'"
    );
    assert_eq!(
        workspace_mount_command(Some("feat"), "wt", ""),
        "mkdir -p /workspace && mount --bind /host-project/wt/feat /workspace && mount --make-rshared /workspace"
    );
    assert!(workspace_mount_command(Some("f"), "wt", "/").ends_with("mkdir -p '' && ln -sfn /host-project '/'"));
}

#[test]
fn health_cache_watches_live_instances() {
    let watched: Vec<_> = ALL.iter().copied().filter(|s| health_watched(*s)).collect();
    assert_eq!(watched, vec![InstanceStatus::Running, InstanceStatus::CheckedOut, InstanceStatus::Idle]);
    assert_eq!(service_health_key("my-app", "dev-1"), "my-app:dev-1");
}

#[test]
fn services_down_counts_non_running() {
    let statuses = vec!["running".to_string(), "exited".to_string(), "restarting".to_string(), "running".to_string()];
    assert_eq!(services_down(&statuses), 2);
    assert_eq!(services_down(&[]), 0);
}

#[test]
fn workspace_mount_with_given_parent() {
    assert_eq!(
        workspace_mount_command_in(Some("feat"), ".coasts", "/home/u/proj", "/home/u"),
        "mkdir -p /workspace && mount --bind /host-project/.coasts/feat /workspace && mount --make-rshared /workspace \
         && mkdir -p '/home/u' && ln -sfn /host-project '/home/u/proj'"
    );
    assert_eq!(
        workspace_mount_command_in(None, ".coasts", "/home/u/proj", "/ignored"),
        "mkdir -p /workspace && mount --bind /host-project /workspace && mount --make-rshared /workspace"
    );
}

#[test]
fn unassign_checks() {
    assert_eq!(unassign_check(None), UnassignCheck::NotFound);
    assert_eq!(unassign_check(Some(InstanceStatus::Stopped)), UnassignCheck::Stopped);
    assert_eq!(unassign_check(Some(InstanceStatus::Running)), UnassignCheck::Proceed);
    assert_eq!(unassign_check(Some(InstanceStatus::Idle)), UnassignCheck::Proceed);
    assert_eq!(unassign_check(Some(InstanceStatus::CheckedOut)), UnassignCheck::Proceed);
    assert_eq!(unassign_check(Some(InstanceStatus::Assigning)), UnassignCheck::Busy);
    assert_eq!(
        unassign_stopped_message("dev-1", "stopped"),
        "Instance 'dev-1' is stopped (status: stopped). Run `coast start dev-1` to start it first."
    );
}
