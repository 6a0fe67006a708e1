use coast_daemon::records::{running_shared_projects, running_shared_services, socat_pids_to_kill, shared_service_reusable, PortAllocationRecord, SharedServiceRecord};
use coast_daemon::run_ports::PortMapping;

#[test]
fn test_port_allocation_record_to_port_mapping_conversion() {
    let record = PortAllocationRecord {
        project: "proj".to_string(),
        instance_name: "inst".to_string(),
        logical_name: "web".to_string(),
        canonical_port: 3000,
        dynamic_port: 52340,
        socat_pid: Some(12345),
        is_primary: false,
    };

    let mapping: PortMapping = PortMapping::from(&record);
    assert_eq!(mapping.logical_name, "web");
    assert_eq!(mapping.canonical_port, 3000);
    assert_eq!(mapping.dynamic_port, 52340);
    assert!(!mapping.is_primary);

    let mapping2: PortMapping = record.into();
    assert_eq!(mapping2.logical_name, "web");
}

fn shared(project: &str, service: &str, status: &str) -> SharedServiceRecord {
    SharedServiceRecord {
        project: project.to_string(),
        service_name: service.to_string(),
        container_id: None,
        status: status.to_string(),
    }
}

#[test]
fn running_shared_services_filters_by_status() {
    let records = vec![shared("a", "pg", "running"), shared("a", "redis", "stopped"), shared("b", "pg", "running")];
    assert_eq!(
        running_shared_services(&records),
        vec![("a".to_string(), "pg".to_string()), ("b".to_string(), "pg".to_string())]
    );
    assert!(running_shared_services(&[]).is_empty());
}

#[test]
fn shared_service_reuse_needs_running_record_and_container() {
    let running = shared("a", "pg", "running");
    let stopped = shared("a", "pg", "stopped");
    assert!(shared_service_reusable(Some(&running), true));
    assert!(!shared_service_reusable(Some(&running), false));
    assert!(!shared_service_reusable(Some(&stopped), true));
    assert!(!shared_service_reusable(None, true));
}

#[test]
fn primary_flag_carries_over() {
    let record = PortAllocationRecord {
        project: "p".to_string(),
        instance_name: "i".to_string(),
        logical_name: "db".to_string(),
        canonical_port: 5432,
        dynamic_port: 50000,
        socat_pid: None,
        is_primary: true,
    };
    let m = PortMapping::from(&record);
    assert!(m.is_primary);
    assert_eq!(m.dynamic_port, 50000);
}

#[test]
fn running_shared_projects_listed_once() {
    let rec = |project: &str, service: &str, status: &str| SharedServiceRecord {
        project: project.to_string(),
        service_name: service.to_string(),
        container_id: None,
        status: status.to_string(),
    };
    let records = vec![
        rec("a", "postgres", "running"),
        rec("b", "redis", "stopped"),
        rec("a", "redis", "running"),
        rec("c", "postgres", "running"),
    ];
    assert_eq!(running_shared_projects(&records), vec!["a".to_string(), "c".to_string()]);
    assert!(running_shared_projects(&records[1..2]).is_empty());
}

#[test]
fn stop_kills_recorded_socat_pids() {
    let alloc = |name: &str, pid: Option<i32>| PortAllocationRecord {
        project: "proj".to_string(),
        instance_name: "inst".to_string(),
        logical_name: name.to_string(),
        canonical_port: 3000,
        dynamic_port: 52340,
        socat_pid: pid,
        is_primary: false,
    };
    let allocs = vec![alloc("web", Some(4242)), alloc("db", None), alloc("api", Some(77))];
    assert_eq!(socat_pids_to_kill(&allocs), vec![4242, 77]);
    assert!(socat_pids_to_kill(&[]).is_empty());
}
