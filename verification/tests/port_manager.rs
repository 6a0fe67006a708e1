use coast_daemon::port_manager::{allocation_step, AllocationStep};
use coast_daemon::port_manager::{after_canonical_spawn, after_dynamic_spawn, ForwardingStep};
use coast_daemon::port_manager::{
    bridge_error, canonical_start_error, docker_command_error, dynamic_start_error, no_free_port_error,
    spawn_error_message, wsl_detected, BridgeOp, EMPTY_SOCAT_COMMAND,
    build_socat_command, canonical_port_for, checkout_bridge_container_name, checkout_bridge_list_args,
    checkout_bridge_name_hash, checkout_bridge_run_args, checkout_bridge_shell_script, classify_bind_attempt,
    combine_kill_results, dynamic_port_candidate, dynamic_port_start_offset, is_port_available, kill_socat_result,
    parse_container_ids, parse_ps_process_status, process_looks_stale, remove_containers_args, restoration_commands,
    sanitize_docker_name_component, should_revert_to_running, socat_command_canonical, socat_command_dynamic,
    socat_pid_is_stale, spawn_check_step, BindAttempt, CheckoutBridgePort, ForwardingPair, KillSignalOutcome,
    PortBindStatus, PortForwarder, PortToRestore, ProcessStatus, SpawnCheck, MAX_ALLOCATION_ATTEMPTS,
    PORT_RANGE_END, PORT_RANGE_SIZE, PORT_RANGE_START,
};

/// Binding port 0 asks the OS for any free port, so the bind always succeeds.
fn bind_status_of_any_free_port() -> PortBindStatus {
    classify_bind_attempt(BindAttempt::Bound, false)
}

#[test]
fn test_checkout_bridge_container_name_sanitizes_components() {
    let name = checkout_bridge_container_name("My.App", "feat/branch");
    assert!(name.starts_with("coast-checkout-my-app-feat-branch-"));
}

#[test]
fn test_checkout_bridge_container_name_disambiguates_colliding_sanitized_names() {
    let dotted = checkout_bridge_container_name("My.App", "feat/branch");
    let dashed = checkout_bridge_container_name("my-app", "feat-branch");

    assert_ne!(dotted, dashed);
}

#[test]
fn test_checkout_bridge_shell_script_includes_all_ports() {
    let script = checkout_bridge_shell_script(&[
        CheckoutBridgePort { _logical_name: "web", canonical_port: 80, dynamic_port: 57072 },
        CheckoutBridgePort { _logical_name: "https", canonical_port: 443, dynamic_port: 64424 },
    ]);

    assert!(script.contains("TCP-LISTEN:80,fork,reuseaddr TCP:host.docker.internal:57072"));
    assert!(script.contains("TCP-LISTEN:443,fork,reuseaddr TCP:host.docker.internal:64424"));
    assert!(script.ends_with("wait\n"));
}

#[test]
fn test_is_port_available_on_free_port() {
    let status = bind_status_of_any_free_port();
    assert!(is_port_available(&status), "Port 0 (OS-assigned) should always be bindable");
}

#[test]
fn test_socat_command_canonical() {
    let cmd = socat_command_canonical(3000, "172.17.0.2", 3000);

    assert_eq!(cmd.len(), 3);
    assert_eq!(cmd[0], "socat");
    assert_eq!(cmd[1], "TCP-LISTEN:3000,fork,reuseaddr");
    assert_eq!(cmd[2], "TCP:172.17.0.2:3000");
}

#[test]
fn test_socat_command_canonical_different_ports() {
    let cmd = socat_command_canonical(8080, "10.0.0.5", 3000);

    assert_eq!(cmd[0], "socat");
    assert_eq!(cmd[1], "TCP-LISTEN:8080,fork,reuseaddr");
    assert_eq!(cmd[2], "TCP:10.0.0.5:3000");
}

#[test]
fn test_socat_command_dynamic() {
    let cmd = socat_command_dynamic(52345, "172.17.0.2", 3000);

    assert_eq!(cmd.len(), 3);
    assert_eq!(cmd[0], "socat");
    assert_eq!(cmd[1], "TCP-LISTEN:52345,fork,reuseaddr");
    assert_eq!(cmd[2], "TCP:172.17.0.2:3000");
}

#[test]
fn test_socat_command_dynamic_different_ports() {
    let cmd = socat_command_dynamic(60000, "192.168.1.100", 5432);

    assert_eq!(cmd[0], "socat");
    assert_eq!(cmd[1], "TCP-LISTEN:60000,fork,reuseaddr");
    assert_eq!(cmd[2], "TCP:192.168.1.100:5432");
}

#[test]
fn test_socat_commands_have_fork_and_reuseaddr() {
    let cmd = socat_command_canonical(3000, "172.17.0.2", 3000);
    assert!(cmd[1].contains("fork"));
    assert!(cmd[1].contains("reuseaddr"));

    let cmd = socat_command_dynamic(50000, "172.17.0.2", 3000);
    assert!(cmd[1].contains("fork"));
    assert!(cmd[1].contains("reuseaddr"));
}

#[test]
fn test_forwarding_pair_struct() {
    let pair = ForwardingPair { canonical_pid: 12345, dynamic_pid: 67890 };

    assert_eq!(pair.canonical_pid, 12345);
    assert_eq!(pair.dynamic_pid, 67890);

    let cloned = pair;
    assert_eq!(cloned, pair);

    let debug_str = format!("{:?}", pair);
    assert!(debug_str.contains("12345"));
    assert!(debug_str.contains("67890"));
}

#[test]
fn test_forwarding_pair_equality() {
    let pair1 = ForwardingPair { canonical_pid: 100, dynamic_pid: 200 };
    let pair2 = ForwardingPair { canonical_pid: 100, dynamic_pid: 200 };
    let pair3 = ForwardingPair { canonical_pid: 100, dynamic_pid: 300 };

    assert_eq!(pair1, pair2);
    assert_ne!(pair1, pair3);
}

#[test]
fn test_port_forwarder_new() {
    let forwarder = PortForwarder::new();
    assert!(forwarder.active_pairs().is_empty());
}

#[test]
fn test_port_forwarder_default() {
    let forwarder = PortForwarder::default();
    assert!(forwarder.active_pairs().is_empty());
}

#[test]
fn test_port_forwarder_is_active() {
    let forwarder = PortForwarder::new();
    assert!(!forwarder.is_active("test-key"));
}

#[test]
fn test_build_socat_command_format() {
    let cmd = build_socat_command(8080, "10.0.0.1", 80);

    assert_eq!(
        cmd,
        vec![
            "socat".to_string(),
            "TCP-LISTEN:8080,fork,reuseaddr".to_string(),
            "TCP:10.0.0.1:80".to_string(),
        ]
    );
}

#[test]
fn test_parse_ps_process_status_parses_state_and_command() {
    let parsed = parse_ps_process_status("S socat\n").unwrap();
    assert_eq!(parsed.state, 'S');
    assert_eq!(parsed.command, "socat");
}

#[test]
fn test_parse_ps_process_status_returns_none_for_empty_output() {
    assert!(parse_ps_process_status("").is_none());
}

#[test]
fn test_port_range_constants() {
    assert_eq!(PORT_RANGE_START, 49152);
    assert_eq!(PORT_RANGE_END, 65535);
    assert!(PORT_RANGE_START < PORT_RANGE_END, "range start must be less than end");

    let range_size = (PORT_RANGE_END - PORT_RANGE_START + 1) as u32;
    assert!(range_size > 16000, "Ephemeral range should have >16000 ports, got {range_size}");
}

#[test]
fn test_socat_command_with_ipv4_addresses() {
    let cmd = build_socat_command(3000, "172.17.0.2", 3000);
    assert_eq!(cmd[2], "TCP:172.17.0.2:3000");

    let cmd = build_socat_command(5432, "172.18.0.5", 5432);
    assert_eq!(cmd[2], "TCP:172.18.0.5:5432");

    let cmd = build_socat_command(8080, "127.0.0.1", 80);
    assert_eq!(cmd[2], "TCP:127.0.0.1:80");
}

#[test]
fn test_socat_command_canonical_with_localhost() {
    let cmd = socat_command_canonical(33000, "127.0.0.1", 59000);
    assert_eq!(cmd[0], "socat");
    assert_eq!(cmd[1], "TCP-LISTEN:33000,fork,reuseaddr");
    assert_eq!(cmd[2], "TCP:127.0.0.1:59000");
}

#[test]
fn test_socat_canonical_checkout_pattern() {
    let canonical = 3000u16;
    let dynamic = 52345u16;
    let cmd = socat_command_canonical(canonical, "127.0.0.1", dynamic);
    assert_eq!(
        cmd,
        vec![
            "socat".to_string(),
            format!("TCP-LISTEN:{canonical},fork,reuseaddr"),
            format!("TCP:127.0.0.1:{dynamic}"),
        ]
    );
}

fn two_ports() -> Vec<PortToRestore<'static>> {
    vec![
        PortToRestore { logical_name: "web", canonical_port: 3000, dynamic_port: 50000 },
        PortToRestore { logical_name: "backend", canonical_port: 8080, dynamic_port: 50001 },
    ]
}

#[test]
fn test_restoration_commands_running_instance() {
    let ports = two_ports();

    let cmds = restoration_commands(&ports, "172.17.0.2", false);

    assert_eq!(cmds.len(), 2, "running instance should only get dynamic socat");
    assert!(cmds.iter().all(|c| !c.is_canonical));
    assert_eq!(cmds[0].logical_name, "web");
    assert_eq!(cmds[0].cmd, vec!["socat", "TCP-LISTEN:50000,fork,reuseaddr", "TCP:172.17.0.2:3000"]);
    assert_eq!(cmds[1].cmd, vec!["socat", "TCP-LISTEN:50001,fork,reuseaddr", "TCP:172.17.0.2:8080"]);
}

#[test]
fn test_restoration_commands_checked_out_instance() {
    let ports = two_ports();

    let cmds = restoration_commands(&ports, "172.17.0.2", true);

    assert_eq!(cmds.len(), 4, "checked-out instance gets dynamic + canonical");

    let dynamic: Vec<_> = cmds.iter().filter(|c| !c.is_canonical).collect();
    let canonical: Vec<_> = cmds.iter().filter(|c| c.is_canonical).collect();

    assert_eq!(dynamic.len(), 2);
    assert_eq!(canonical.len(), 2);

    assert_eq!(canonical[0].cmd, vec!["socat", "TCP-LISTEN:3000,fork,reuseaddr", "TCP:127.0.0.1:50000"]);
    assert_eq!(canonical[1].cmd, vec!["socat", "TCP-LISTEN:8080,fork,reuseaddr", "TCP:127.0.0.1:50001"]);
}

#[test]
fn test_restoration_commands_empty_ports() {
    let cmds = restoration_commands(&[], "172.17.0.2", true);
    assert!(cmds.is_empty());
}

#[test]
fn test_restoration_commands_dynamic_before_canonical() {
    let ports = vec![PortToRestore { logical_name: "web", canonical_port: 3000, dynamic_port: 50000 }];
    let cmds = restoration_commands(&ports, "172.17.0.2", true);

    assert_eq!(cmds.len(), 2);
    assert!(!cmds[0].is_canonical, "dynamic should come first");
    assert!(cmds[1].is_canonical, "canonical should come second");
}

#[test]
fn test_restoration_commands_preserves_logical_name() {
    let ports = vec![
        PortToRestore { logical_name: "web", canonical_port: 3000, dynamic_port: 50000 },
        PortToRestore { logical_name: "postgres", canonical_port: 5432, dynamic_port: 50002 },
    ];
    let cmds = restoration_commands(&ports, "10.0.0.1", false);

    assert_eq!(cmds[0].logical_name, "web");
    assert_eq!(cmds[1].logical_name, "postgres");
}

// Own tests.

#[test]
fn forwarder_records_replaces_and_takes_pairs() {
    let mut f = PortForwarder::new();
    let a = ForwardingPair { canonical_pid: 1, dynamic_pid: 2 };
    let b = ForwardingPair { canonical_pid: 3, dynamic_pid: 4 };
    f.record_forwarding("p--i--web", a);
    f.record_forwarding("p--i--db", b);
    assert!(f.is_active("p--i--web"));
    assert_eq!(f.forwarding("p--i--db"), Some(b));
    f.record_forwarding("p--i--web", b);
    assert_eq!(f.active_pairs().len(), 2);
    assert_eq!(f.forwarding("p--i--web"), Some(b));
    assert_eq!(f.take_forwarding("p--i--web"), Some(b));
    assert!(!f.is_active("p--i--web"));
    assert_eq!(f.take_forwarding("p--i--web"), None);
    assert!(f.is_active("p--i--db"));
}

#[test]
fn checkout_bridge_name_exact_and_hash() {
    assert_eq!(checkout_bridge_name_hash("My.App", "feat/branch"), 0x78ae45e75f59026f);
    assert_eq!(
        checkout_bridge_container_name("My.App", "feat/branch"),
        "coast-checkout-my-app-feat-branch-78ae45e75f59026f"
    );
    assert_eq!(
        checkout_bridge_container_name("my-app", "feat-branch"),
        "coast-checkout-my-app-feat-branch-17f595cbc79c9882"
    );
    assert_eq!(checkout_bridge_container_name("", ""), "coast-checkout-default-default-af63bd4c8601b7df");
}

#[test]
fn checkout_bridge_name_is_truncated_to_docker_limit() {
    let long = "a".repeat(400);
    let name = checkout_bridge_container_name(&long, "x");
    assert!(name.len() <= 255);
    assert!(name.starts_with("coast-checkout-aaaa"));
}

#[test]
fn sanitize_examples() {
    assert_eq!(sanitize_docker_name_component("--My_App!!--"), "my_app");
    assert_eq!(sanitize_docker_name_component("///"), "default");
    assert_eq!(sanitize_docker_name_component("Ünïcode"), "n-code");
    assert_eq!(sanitize_docker_name_component(&sanitize_docker_name_component("A.B")), "a-b");
}

#[test]
fn bridge_shell_script_exact() {
    let script = checkout_bridge_shell_script(&[CheckoutBridgePort { _logical_name: "w", canonical_port: 1, dynamic_port: 2 }]);
    assert_eq!(script, "set -eu\nsocat TCP-LISTEN:1,fork,reuseaddr TCP:host.docker.internal:2 &\nwait\n");
}

#[test]
fn bridge_docker_args() {
    let ports = [CheckoutBridgePort { _logical_name: "web", canonical_port: 3000, dynamic_port: 50000 }];
    let args = checkout_bridge_run_args("proj", "inst", &ports);
    assert_eq!(args[0], "run");
    assert!(args.contains(&"coast.role=checkout-bridge".to_string()));
    assert!(args.contains(&"3000:3000".to_string()));
    assert!(args.iter().any(|a| a.contains("TCP:host.docker.internal:50000")));
    let list = checkout_bridge_list_args("proj", "inst");
    assert_eq!(
        list,
        vec![
            "ps",
            "-aq",
            "--filter",
            "label=coast.role=checkout-bridge",
            "--filter",
            "label=coast.project=proj",
            "--filter",
            "label=coast.instance=inst"
        ]
    );
}

#[test]
fn container_ids_and_removal_args() {
    let ids = parse_container_ids("  abc123 \n\n def456\n");
    assert_eq!(ids, vec!["abc123", "def456"]);
    assert!(parse_container_ids("").is_empty());
    assert_eq!(remove_containers_args(&ids), vec!["rm", "-f", "abc123", "def456"]);
}

#[test]
fn ps_status_and_staleness() {
    let zombie = parse_ps_process_status("  Z socat\n");
    assert_eq!(zombie, Some(ProcessStatus { state: 'Z', command: "socat".to_string() }));
    assert!(process_looks_stale(&zombie));
    let live = parse_ps_process_status("S socat");
    assert!(!socat_pid_is_stale(&live));
    let other = parse_ps_process_status("R bash\n");
    assert!(process_looks_stale(&other));
    assert!(process_looks_stale(&None));
}

#[test]
fn kill_outcomes_and_combined_errors() {
    assert_eq!(kill_socat_result(7, KillSignalOutcome::Delivered, false), Ok(()));
    assert_eq!(kill_socat_result(7, KillSignalOutcome::NoSuchProcess, false), Ok(()));
    assert_eq!(kill_socat_result(7, KillSignalOutcome::PermissionDenied("EPERM".to_string()), true), Ok(()));
    assert_eq!(
        kill_socat_result(7, KillSignalOutcome::Failed("boom".to_string()), true),
        Err("Failed to kill socat process group (PGID 7): boom. You may need to manually kill the process with `kill -9 -- -7`.".to_string())
    );
    let pair = ForwardingPair { canonical_pid: 10, dynamic_pid: 20 };
    assert_eq!(combine_kill_results(pair, Ok(()), Ok(())), Ok(()));
    assert_eq!(
        combine_kill_results(pair, Err("a".to_string()), Err("b".to_string())),
        Err("Failed to kill canonical socat (PID 10): a; Failed to kill dynamic socat (PID 20): b".to_string())
    );
    assert_eq!(
        combine_kill_results(pair, Ok(()), Err("b".to_string())),
        Err("Failed to kill dynamic socat (PID 20): b".to_string())
    );
}

#[test]
fn bind_classification() {
    assert_eq!(classify_bind_attempt(BindAttempt::Bound, true), PortBindStatus::Available);
    assert_eq!(classify_bind_attempt(BindAttempt::AddrInUse, false), PortBindStatus::InUse);
    assert!(!is_port_available(&PortBindStatus::InUse));
    assert_eq!(classify_bind_attempt(BindAttempt::PermissionDenied, true), PortBindStatus::InUse);
    assert_eq!(classify_bind_attempt(BindAttempt::PermissionDenied, false), PortBindStatus::PermissionDenied);
    let odd = classify_bind_attempt(BindAttempt::Failed("odd".to_string()), true);
    assert_eq!(odd, PortBindStatus::UnexpectedError("odd".to_string()));
    assert!(!is_port_available(&odd));
}

#[test]
fn dynamic_port_candidates_wrap_within_range() {
    let start = dynamic_port_start_offset(12345, 987654321);
    assert!(start < PORT_RANGE_SIZE);
    assert_eq!(dynamic_port_candidate(0, 0), PORT_RANGE_START);
    assert_eq!(dynamic_port_candidate(PORT_RANGE_SIZE - 1, 0), PORT_RANGE_END);
    assert_eq!(dynamic_port_candidate(PORT_RANGE_SIZE - 1, 1), PORT_RANGE_START);
    let mut seen = std::collections::HashSet::new();
    for a in 0..MAX_ALLOCATION_ATTEMPTS {
        assert!(seen.insert(dynamic_port_candidate(start, a)));
    }
}

#[test]
fn spawn_check_steps() {
    assert!(matches!(spawn_check_step(5000, true, true, false), SpawnCheck::Ready));
    assert!(matches!(spawn_check_step(5000, true, false, false), SpawnCheck::Retry));
    match spawn_check_step(5000, false, false, false) {
        SpawnCheck::Exited(m) => assert_eq!(m, "Spawned socat process for port 5000 exited before binding the port."),
        _ => panic!("expected Exited"),
    }
    match spawn_check_step(5000, true, false, true) {
        SpawnCheck::TimedOut(m) => assert_eq!(m, "Spawned socat process for port 5000 did not bind the port in time."),
        _ => panic!("expected TimedOut"),
    }
}

#[test]
fn restore_helpers() {
    let ports = two_ports();
    assert_eq!(canonical_port_for(&ports, "backend"), 8080);
    let cmds = restoration_commands(&ports, "172.17.0.2", true);
    assert!(should_revert_to_running(true, 0, &cmds));
    assert!(!should_revert_to_running(true, 1, &cmds));
    assert!(!should_revert_to_running(false, 0, &cmds));
}

#[test]
fn error_messages_exact() {
    assert_eq!(EMPTY_SOCAT_COMMAND, "Empty socat command");
    let cmd = vec!["coast-nonexistent".to_string(), "arg1".to_string()];
    let m = spawn_error_message(&cmd, "No such file");
    assert!(m.starts_with("Failed to spawn socat process `coast-nonexistent arg1`: No such file. Ensure socat"));
    assert_eq!(
        canonical_start_error(3000, "x"),
        "Failed to start canonical port forwarding on port 3000: x"
    );
    assert_eq!(
        dynamic_start_error(52000, 3000, "y"),
        "Failed to start dynamic port forwarding on port 52000: y. Canonical forwarder on port 3000 has been cleaned up."
    );
    assert!(no_free_port_error().starts_with("Could not find an available port after 1000 attempts in range 49152-65535."));
    assert_eq!(docker_command_error(&["ps".to_string(), "-aq".to_string()], "e"), "Failed to run docker command `docker ps -aq`: e");
    assert_eq!(docker_command_error(&[], "e"), "Failed to run docker command `docker `: e");
    assert_eq!(
        bridge_error(BridgeOp::Start, "p", "i", "  boom \n"),
        "Failed to start WSL checkout bridge for 'p/i': boom"
    );
    assert_eq!(
        bridge_error(BridgeOp::List, "p", "i", ""),
        "Failed to list checkout bridge containers for 'p/i': "
    );
}

#[test]
fn test_running_in_wsl_detects_environment_marker() {
    assert!(wsl_detected(true, false, None));
    assert!(wsl_detected(false, true, Some("6.1.0-generic")));
    assert!(wsl_detected(false, false, Some("5.15.90.1-Microsoft-standard-WSL2")));
    assert!(!wsl_detected(false, false, Some("6.1.0-generic")));
    assert!(!wsl_detected(false, false, None));
}

#[test]
fn allocation_steps() {
    assert_eq!(allocation_step(0, 0, true), AllocationStep::Use(49152));
    assert_eq!(allocation_step(16383, 1, true), AllocationStep::Use(49152));
    assert_eq!(allocation_step(5, 3, false), AllocationStep::TryNext(4));
    assert_eq!(allocation_step(5, MAX_ALLOCATION_ATTEMPTS - 1, false), AllocationStep::Exhausted);
}

#[test]
fn forwarding_start_steps() {
    assert!(matches!(after_canonical_spawn(3000, Ok(11)), ForwardingStep::SpawnDynamic(11)));
    match after_canonical_spawn(3000, Err("no socat".to_string())) {
        ForwardingStep::Fail(m) => assert_eq!(m, "Failed to start canonical port forwarding on port 3000: no socat"),
        _ => panic!("expected a failure"),
    }
    match after_dynamic_spawn(11, 3000, 52340, Ok(12)) {
        ForwardingStep::Record(p) => assert_eq!(p, ForwardingPair { canonical_pid: 11, dynamic_pid: 12 }),
        _ => panic!("expected the pair"),
    }
    match after_dynamic_spawn(11, 3000, 52340, Err("boom".to_string())) {
        ForwardingStep::KillCanonicalAndFail(pid, m) => {
            assert_eq!(pid, 11);
            assert_eq!(
                m,
                "Failed to start dynamic port forwarding on port 52340: boom. Canonical forwarder on port 3000 has been cleaned up."
            );
        }
        _ => panic!("expected the cleanup"),
    }
}

#[test]
fn forwarding_start_concluded() {
    let mut f = PortForwarder::new();
    let pair = f.conclude_start("dev-1:web", 11, 3000, 52340, Ok(12)).unwrap();
    assert_eq!(pair, ForwardingPair { canonical_pid: 11, dynamic_pid: 12 });
    assert!(f.is_active("dev-1:web"));
    match f.conclude_start("dev-1:api", 21, 8080, 52341, Err("boom".to_string())) {
        Err((pid, m)) => {
            assert_eq!(pid, 21);
            assert!(m.starts_with("Failed to start dynamic port forwarding on port 52341: boom."));
        }
        Ok(_) => panic!("expected a failure"),
    }
    assert!(!f.is_active("dev-1:api"));
    assert_eq!(f.take_forwarding("dev-1:web"), Some(pair));
    assert!(!f.is_active("dev-1:web"));
}
