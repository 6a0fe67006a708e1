use coast_daemon::run_setup::{
    compose_rel_dir, nonempty_rel_dir, project_runs_compose,
    archive_build_needed, coastfile_info, dangling_action, dangling_removed_note, DanglingAction, ParsedCoastfile, branch_from_git_output, coastfile_autostart_disabled, host_branch_from_git_output,
    latest_link_name, run_plan_steps,
};

#[test]
fn run_plan_for_compose_project_with_worktree() {
    assert_eq!(
        run_plan_steps(true, false, true),
        vec![
            "Preparing instance",
            "Building images",
            "Creating container",
            "Loading cached images",
            "Starting services",
            "Allocating ports",
            "Assigning worktree",
        ]
    );
}

#[test]
fn run_plan_for_bare_project() {
    assert_eq!(
        run_plan_steps(false, false, false),
        vec!["Preparing instance", "Creating container", "Loading cached images", "Allocating ports"]
    );
}

#[test]
fn run_plan_starts_bare_services() {
    let steps = run_plan_steps(false, true, false);
    assert_eq!(steps.len(), 5);
    assert_eq!(steps[3], "Starting services");
    assert!(!steps.iter().any(|s| s == "Building images"));
}

#[test]
fn latest_link_names() {
    assert_eq!(latest_link_name(None), "latest");
    assert_eq!(latest_link_name(Some("light")), "latest-light");
}

#[test]
fn autostart_false_is_detected() {
    assert!(coastfile_autostart_disabled("[coast]\nname = \"x\"\nautostart = false\n"));
    assert!(coastfile_autostart_disabled("[coast]\r\n   autostart = false   \r\n"));
    assert!(coastfile_autostart_disabled("autostart = false # no services"));
}

#[test]
fn autostart_other_values_are_ignored() {
    assert!(!coastfile_autostart_disabled(""));
    assert!(!coastfile_autostart_disabled("autostart = true\n"));
    assert!(!coastfile_autostart_disabled("autostart=false\n"));
    assert!(!coastfile_autostart_disabled("# autostart = false\n"));
    assert!(!coastfile_autostart_disabled("autostart = falsey\n"));
}

#[test]
fn branch_from_git() {
    assert_eq!(branch_from_git_output(true, "feature/x\n"), Some("feature/x".to_string()));
    assert_eq!(branch_from_git_output(true, "HEAD\n"), None);
    assert_eq!(branch_from_git_output(true, "  \n"), None);
    assert_eq!(branch_from_git_output(false, "main\n"), None);
}

#[test]
fn host_branch_from_git() {
    assert_eq!(host_branch_from_git_output(true, " main \n"), Some("main".to_string()));
    assert_eq!(host_branch_from_git_output(true, "HEAD\n"), Some("HEAD".to_string()));
    assert_eq!(host_branch_from_git_output(false, "main\n"), None);
}

#[test]
fn archive_build_only_for_other_branch() {
    assert!(archive_build_needed(true, Some("feature"), Some("main")));
    assert!(!archive_build_needed(true, Some("main"), Some("main")));
    assert!(!archive_build_needed(false, Some("feature"), Some("main")));
    assert!(!archive_build_needed(true, None, Some("main")));
    assert!(!archive_build_needed(true, Some("feature"), None));
}

#[test]
fn coastfile_info_defaults_and_autostart() {
    let missing = coastfile_info(false, "", None);
    assert!(missing.has_compose && missing.compose_rel_dir.is_none() && !missing.has_services);
    let parsed = ParsedCoastfile { has_compose: true, compose_rel_dir: Some("infra".to_string()), service_count: 2 };
    let off = coastfile_info(true, "[coast]\nautostart = false\n", Some(parsed));
    assert!(!off.has_compose && off.compose_rel_dir.is_none() && !off.has_services);
    let broken = coastfile_info(true, "not toml", None);
    assert!(broken.has_compose && !broken.has_services);
}

#[test]
fn coastfile_info_from_parsed() {
    let parsed = ParsedCoastfile { has_compose: false, compose_rel_dir: None, service_count: 1 };
    let info = coastfile_info(true, "[coast]\nname = \"x\"\n", Some(parsed));
    assert!(!info.has_compose && info.has_services);
    let parsed = ParsedCoastfile { has_compose: true, compose_rel_dir: Some("infra".to_string()), service_count: 0 };
    let info = coastfile_info(true, "", Some(parsed));
    assert!(info.has_compose && !info.has_services);
    assert_eq!(info.compose_rel_dir.as_deref(), Some("infra"));
}

#[test]
fn dangling_containers() {
    assert_eq!(dangling_action(false, false), DanglingAction::Proceed);
    assert_eq!(dangling_action(false, true), DanglingAction::Proceed);
    assert_eq!(dangling_action(true, true), DanglingAction::Remove);
    assert_eq!(dangling_action(true, false), DanglingAction::Refuse);
    assert_eq!(dangling_removed_note("proj-coasts-dev-1"), "Removed dangling container proj-coasts-dev-1");
}

#[test]
fn compose_rel_dirs() {
    let cf = "/home/u/.coast/images/p/b1/coastfile.toml";
    assert_eq!(compose_rel_dir("/home/u/.coast/images/p/b1/infra/compose.yml", cf), Some("infra".to_string()));
    assert_eq!(compose_rel_dir("/home/u/.coast/images/p/b1/compose.yml", cf), None);
    assert_eq!(compose_rel_dir("/elsewhere/compose.yml", cf), None);
    assert_eq!(compose_rel_dir("/", cf), None);
    assert_eq!(nonempty_rel_dir(Some(String::new())), None);
    assert_eq!(nonempty_rel_dir(Some("a/b".to_string())), Some("a/b".to_string()));
}

#[test]
fn start_runs_compose_unless_declared_otherwise() {
    assert!(project_runs_compose(false, None));
    assert!(project_runs_compose(true, None));
    assert!(project_runs_compose(true, Some(true)));
    assert!(!project_runs_compose(true, Some(false)));
    assert!(project_runs_compose(false, Some(false)));
}
