use coast_daemon::records::SharedServiceRecord;
use coast_daemon::shared_commands::{
    db_drop_target, db_dropped_message, find_postgres_service, format_port_bindings, named_volumes_of_binds,
    no_postgres_message, postgres_not_running_message, shared_action_message, shared_rm_message,
    shared_service_not_found_message, shared_services_message, DbDropTarget, HostPortBinding, SharedAction,
};

fn record(name: &str, cid: Option<&str>) -> SharedServiceRecord {
    SharedServiceRecord {
        project: "my-app".to_string(),
        service_name: name.to_string(),
        container_id: cid.map(str::to_string),
        status: "running".to_string(),
    }
}

fn binding(ip: Option<&str>, port: Option<&str>) -> HostPortBinding {
    HostPortBinding { host_ip: ip.map(str::to_string), host_port: port.map(str::to_string) }
}

#[test]
fn action_summaries() {
    let one = vec!["postgres".to_string()];
    assert_eq!(shared_action_message(SharedAction::Stop, &one), "Shared service 'postgres' stopped.");
    assert_eq!(shared_action_message(SharedAction::Start, &one), "Shared service 'postgres' started.");
    assert_eq!(shared_action_message(SharedAction::Restart, &one), "Shared service 'postgres' restarted.");
    let two = vec!["postgres".to_string(), "redis".to_string()];
    assert_eq!(shared_action_message(SharedAction::Stop, &two), "Stopped 2 shared services.");
    assert_eq!(shared_action_message(SharedAction::Restart, &[]), "Restarted 0 shared services.");
}

#[test]
fn not_found_message() {
    assert_eq!(
        shared_service_not_found_message("redis", "my-app"),
        "Shared service 'redis' not found in project 'my-app'. Run `coast shared-services ps` to see available services."
    );
}

#[test]
fn postgres_lookup() {
    let rows = vec![record("redis", Some("r1")), record("pgvector", Some("p1")), record("postgres", Some("p2"))];
    assert_eq!(find_postgres_service(&rows), Some(1));
    assert_eq!(find_postgres_service(&rows[..1]), None);
}

#[test]
fn db_drop_targets() {
    match db_drop_target(&[record("redis", None), record("postgres", Some("abc"))]) {
        DbDropTarget::Container { container_id, service } => {
            assert_eq!(container_id, "abc");
            assert_eq!(service, "postgres");
        }
        other => panic!("unexpected {other:?}"),
    }
    match db_drop_target(&[record("postgres", None)]) {
        DbDropTarget::NotRunning { service } => assert_eq!(service, "postgres"),
        other => panic!("unexpected {other:?}"),
    }
    assert!(matches!(db_drop_target(&[record("redis", Some("r"))]), DbDropTarget::NoPostgres));
}

#[test]
fn db_drop_messages() {
    assert_eq!(
        no_postgres_message("my-app"),
        "No postgres shared service found in project 'my-app'. Ensure a shared postgres service is configured and running."
    );
    assert_eq!(
        postgres_not_running_message("postgres"),
        "Shared postgres service 'postgres' has no container ID. It may not be running. Start it first with `coast shared-services start postgres`."
    );
    assert_eq!(
        db_dropped_message("app_db", "my-app"),
        "Database 'app_db' dropped from shared postgres in project 'my-app'. This action is irreversible."
    );
}

#[test]
fn removal_volumes_and_message() {
    let binds = vec![
        "pg_data:/var/lib/postgresql/data".to_string(),
        "/host/conf:/etc/conf:ro".to_string(),
        "./rel:/x".to_string(),
        "cache:/cache".to_string(),
    ];
    assert_eq!(named_volumes_of_binds(&binds), vec!["pg_data".to_string(), "cache".to_string()]);
    assert_eq!(shared_rm_message("postgres", "my-app", 0), "Shared service 'postgres' removed from project 'my-app'.");
    assert_eq!(
        shared_rm_message("postgres", "my-app", 2),
        "Shared service 'postgres' removed from project 'my-app'. Removed 2 volume(s)."
    );
    assert_eq!(shared_services_message("my-app"), "Shared services for project 'my-app'.");
}

#[test]
fn port_binding_column() {
    let ports = vec![
        ("5432/tcp".to_string(), Some(vec![binding(None, Some("5432")), binding(Some("127.0.0.1"), Some("15432"))])),
        ("9000/tcp".to_string(), None),
        ("6379/tcp".to_string(), Some(vec![binding(Some("0.0.0.0"), None)])),
        ("8080/tcp".to_string(), Some(vec![binding(Some("::"), Some("80"))])),
    ];
    assert_eq!(
        format_port_bindings(&ports),
        Some("0.0.0.0:5432->5432/tcp, 127.0.0.1:15432->5432/tcp, :::80->8080/tcp".to_string())
    );
    assert_eq!(format_port_bindings(&ports[1..3]), None);
    assert_eq!(format_port_bindings(&[]), None);
}
