use coast_daemon::lifecycle::workspace_mount_command;
use coast_daemon::manifest::{coast_image_of, project_root_of, start_workspace_mount};

#[test]
fn coast_image_read_from_manifest_text() {
    assert_eq!(coast_image_of(Some(r#"{"coast_image": "my-custom:latest"}"#)), Some("my-custom:latest".to_string()));
}

#[test]
fn coast_image_absent_without_field_or_manifest() {
    assert_eq!(coast_image_of(Some(r#"{"project_root": "/some/path"}"#)), None);
    assert_eq!(coast_image_of(None), None);
    assert_eq!(coast_image_of(Some("not json")), None);
    assert_eq!(coast_image_of(Some(r#"{"coast_image": 3}"#)), None);
    assert_eq!(coast_image_of(Some(r#"["coast_image"]"#)), None);
}

#[test]
fn project_root_read_from_manifest_text() {
    assert_eq!(
        project_root_of(Some(r#"{"project_root": "/home/u/proj", "coast_image": "x"}"#)),
        Some("/home/u/proj".to_string())
    );
    assert_eq!(project_root_of(Some(r#"{"coast_image": "x"}"#)), None);
    assert_eq!(project_root_of(None), None);
}

#[test]
fn start_mount_links_the_manifest_project_root() {
    let manifest = r#"{"project_root": "/home/u/proj"}"#;
    assert_eq!(
        start_workspace_mount(Some("feat"), ".coasts", Some(manifest)),
        "mkdir -p /workspace && mount --bind /host-project/.coasts/feat /workspace && mount --make-rshared /workspace && mkdir -p '/home/u' && ln -sfn /host-project '/home/u/proj'"
    );
    assert_eq!(
        start_workspace_mount(Some("feat"), ".coasts", Some(manifest)),
        workspace_mount_command(Some("feat"), ".coasts", "/home/u/proj")
    );
}

#[test]
fn start_mount_without_project_root_links_nothing() {
    assert_eq!(
        start_workspace_mount(Some("feat"), ".coasts", Some("{}")),
        "mkdir -p /workspace && mount --bind /host-project/.coasts/feat /workspace && mount --make-rshared /workspace"
    );
    assert_eq!(
        start_workspace_mount(None, ".coasts", None),
        "mkdir -p /workspace && mount --bind /host-project /workspace && mount --make-rshared /workspace"
    );
}
