use coast_daemon::archive_build::{
    archive_compose_override, archive_extract_args, archive_extract_failed_message, compose_file_candidates,
    dind_build_command, first_present, git_archive_args, git_archive_failed_message, sorted_unique_names,
};

const ENV_BLOCK: &str = "    environment:\n      WATCHPACK_POLLING: \"true\"\n";
const HOST: &str = "      - \"host.docker.internal:host-gateway\"\n";

#[test]
fn archive_override_full_example() {
    let text = archive_compose_override(
        true,
        &["data".to_string()],
        &[("web".to_string(), "web:tag".to_string()), ("api".to_string(), "api:t".to_string())],
        &["/s".to_string()],
        &["web".to_string(), "db".to_string()],
        &["web".to_string(), "db".to_string(), "web".to_string()],
    )
    .unwrap();
    let expected = format!(
        "# Auto-generated by Coast - do not edit\nvolumes:\n  data:\n    driver: local\n    driver_opts:\n      type: none\n      device: /coast-volumes/data\n      o: bind\nservices:\n  api:\n    image: api:t\n{ENV_BLOCK}  db:\n    volumes:\n      - /s:/s:ro\n    extra_hosts:\n{HOST}{ENV_BLOCK}  web:\n    image: web:tag\n    volumes:\n      - /s:/s:ro\n    extra_hosts:\n{HOST}{HOST}{ENV_BLOCK}"
    );
    assert_eq!(text, expected);
}

#[test]
fn archive_override_none_when_nothing_to_override() {
    assert!(archive_compose_override(false, &[], &[], &[], &["web".to_string()], &[]).is_none());
}

#[test]
fn archive_override_volumes_only() {
    let text = archive_compose_override(true, &[], &[], &[], &[], &[]).unwrap();
    assert_eq!(text, "# Auto-generated by Coast - do not edit\nvolumes:\n");
}

#[test]
fn archive_override_last_image_tag_wins_and_keys_need_secrets() {
    let text = archive_compose_override(
        false,
        &[],
        &[("a".to_string(), "one".to_string()), ("a".to_string(), "two".to_string())],
        &[],
        &["b".to_string()],
        &[],
    )
    .unwrap();
    assert_eq!(text, format!("# Auto-generated by Coast - do not edit\nservices:\n  a:\n    image: two\n{ENV_BLOCK}"));
}

#[test]
fn sorted_unique_names_orders_like_str() {
    let names: Vec<String> = ["web", "Web", "api", "web", "ap", "é", "z"].iter().map(|s| s.to_string()).collect();
    let mut expected: Vec<String> = names.clone();
    expected.sort();
    expected.dedup();
    assert_eq!(sorted_unique_names(&names), expected);
    assert!(sorted_unique_names(&[]).is_empty());
}

#[test]
fn dind_build_commands() {
    assert_eq!(
        dind_build_command("p-coast-built:i", ".", None),
        vec!["docker", "build", "-t", "p-coast-built:i", "/tmp/coast-build"]
    );
    assert_eq!(
        dind_build_command("t", "svc", Some("Dockerfile")),
        vec!["docker", "build", "-t", "t", "/tmp/coast-build/svc"]
    );
    assert_eq!(
        dind_build_command("t", "svc", Some("Dockerfile.dev")),
        vec!["docker", "build", "-t", "t", "-f", "/tmp/coast-build/svc/Dockerfile.dev", "/tmp/coast-build/svc"]
    );
}

#[test]
fn compose_candidates_and_first_present() {
    assert_eq!(
        compose_file_candidates(),
        vec!["docker-compose.yml", "docker-compose.yaml", "compose.yml", "compose.yaml"]
    );
    assert_eq!(first_present(&[false, false, true, true]), Some(2));
    assert_eq!(first_present(&[true, true, false, false]), Some(0));
    assert_eq!(first_present(&[false, false, false, false]), None);
}

#[test]
fn git_archive_commands() {
    assert_eq!(git_archive_args("feature/x"), vec!["archive", "feature/x"]);
    assert_eq!(archive_extract_args("cid"), vec!["exec", "-i", "cid", "tar", "-x", "-C", "/tmp/coast-build"]);
    assert_eq!(archive_extract_failed_message("bad tar"), "Failed to extract git archive into DinD: bad tar");
    assert_eq!(
        git_archive_failed_message("main", "no such file"),
        "Failed to run git archive for branch 'main': no such file"
    );
}
