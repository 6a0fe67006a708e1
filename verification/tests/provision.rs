use coast_daemon::provision::{
    allocated_port_note, artifact_dir_name, artifact_dir_path, coast_volume_container_path, containers_using_volume_args,
    copying_volume_note, creating_step, docker_containers_args, loading_step, primary_port_to_set, provision_plan,
    published_ports, snapshot_copy_failed_message,
};
use coast_daemon::run_ports::PortMapping;
use coast_daemon::run_setup::run_plan_steps;

fn mapping(name: &str, canonical: u16, dynamic: u16) -> PortMapping {
    PortMapping { logical_name: name.to_string(), canonical_port: canonical, dynamic_port: dynamic, is_primary: false }
}

#[test]
fn plan_for_host_build() {
    let p = provision_plan(true, false, 0, 0, 0);
    assert!(p.build_on_host && p.rewrite_compose && p.pipe_host_images);
    assert!(!p.build_in_container && !p.route_shared_services && !p.install_mcp);
}

#[test]
fn plan_for_archive_build() {
    let p = provision_plan(true, true, 2, 0, 1);
    assert!(!p.build_on_host && !p.rewrite_compose && !p.pipe_host_images);
    assert!(p.build_in_container && p.route_shared_services && p.install_mcp);
    let bare = provision_plan(false, false, 0, 1, 0);
    assert!(!bare.build_on_host && bare.install_mcp);
}

#[test]
fn step_numbers_name_plan_steps() {
    for has_compose in [false, true] {
        let plan = run_plan_steps(has_compose, true, false);
        assert_eq!(plan[creating_step(has_compose) as usize - 1], "Creating container");
        assert_eq!(plan[loading_step(has_compose) as usize - 1], "Loading cached images");
    }
}

#[test]
fn test_resolve_artifact_dir_with_build_id_missing_falls_back_to_latest() {
    let path = artifact_dir_path("/home/u/.coast/images", "myproj", Some("nonexistent-build-id"), false);
    assert!(path.contains("latest"), "should fall back to latest when build_id dir doesn't exist");
    assert_eq!(path, "/home/u/.coast/images/myproj/latest");
}

#[test]
fn test_resolve_artifact_dir_without_build_id_uses_latest() {
    let path = artifact_dir_path("/home/u/.coast/images", "myproj", None, false);
    assert!(path.contains("latest"), "should use latest when no build_id");
    assert!(path.contains("myproj"));
}

#[test]
fn artifact_dir_uses_existing_build() {
    assert_eq!(artifact_dir_name(Some("b-1"), true), "b-1");
    assert_eq!(artifact_dir_name(None, true), "latest");
    assert_eq!(artifact_dir_path("/i", "p", Some("b-1"), true), "/i/p/b-1");
}

#[test]
fn published_ports_map_dynamic_to_canonical() {
    let pre = vec![("web".to_string(), 3000, 52340), ("api".to_string(), 8080, 52341)];
    assert_eq!(published_ports(&pre), vec![(52340, 3000), (52341, 8080)]);
    assert!(published_ports(&[]).is_empty());
}

#[test]
fn snapshot_copy_commands() {
    assert_eq!(coast_volume_container_path("pgdata"), "/coast-volumes/pgdata");
    assert_eq!(containers_using_volume_args("pg"), vec!["ps", "-q", "--filter", "volume=pg"]);
    let ids = vec!["a1".to_string(), "b2".to_string()];
    assert_eq!(docker_containers_args("stop", &ids), vec!["stop", "a1", "b2"]);
    assert_eq!(docker_containers_args("start", &[]), vec!["start"]);
    assert_eq!(copying_volume_note("src_vol", "dst_vol"), "Copying volume src_vol \u{2192} dst_vol");
    assert_eq!(
        snapshot_copy_failed_message("data", "src_vol", "boom"),
        "snapshot copy failed for volume 'data' (source: 'src_vol'): boom. Verify the source volume exists with: docker volume ls | grep src_vol"
    );
}

#[test]
fn primary_port_only_for_single_port_builds() {
    let one = vec![mapping("web", 3000, 52340)];
    assert_eq!(primary_port_to_set(true, false, &one), Some("web".to_string()));
    assert_eq!(primary_port_to_set(true, true, &one), None);
    assert_eq!(primary_port_to_set(false, false, &one), None);
    let two = vec![mapping("web", 3000, 52340), mapping("api", 8080, 52341)];
    assert_eq!(primary_port_to_set(true, false, &two), None);
    assert_eq!(primary_port_to_set(true, false, &[]), None);
}

#[test]
fn allocated_port_notes() {
    assert_eq!(allocated_port_note(&mapping("web", 3000, 52340)), "web :3000 \u{2192} :52340");
}
