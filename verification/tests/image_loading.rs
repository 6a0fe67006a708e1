use coast_daemon::image_loading::{filter_tarballs_to_load, select_project_tarballs, starts_with_chars};

#[test]
fn test_filter_tarballs_all_new() {
    let tarballs = vec!["node_20-alpine_abc123.tar".to_string(), "postgres_16_def456.tar".to_string()];
    let existing: Vec<String> = Vec::new();
    let (to_load, skipped) = filter_tarballs_to_load(tarballs, &existing);
    assert_eq!(to_load.len(), 2);
    assert_eq!(skipped, 0);
}

#[test]
fn test_filter_tarballs_some_existing() {
    let tarballs = vec!["node_20-alpine_abc123.tar".to_string(), "postgres_16_def456.tar".to_string()];
    let existing = vec!["node:20-alpine".to_string()];
    let (to_load, skipped) = filter_tarballs_to_load(tarballs, &existing);
    assert_eq!(to_load.len(), 1);
    assert_eq!(to_load[0], "postgres_16_def456.tar");
    assert_eq!(skipped, 1);
}

#[test]
fn test_filter_tarballs_all_existing() {
    let tarballs = vec!["node_20-alpine_abc123.tar".to_string()];
    let existing = vec!["node:20-alpine".to_string()];
    let (to_load, skipped) = filter_tarballs_to_load(tarballs, &existing);
    assert!(to_load.is_empty());
    assert_eq!(skipped, 1);
}

#[test]
fn test_filter_tarballs_image_with_slash_in_name() {
    let tarballs = vec!["library_nginx_1.25_abc.tar".to_string()];
    let existing = vec!["library/nginx:1.25".to_string()];
    let (to_load, skipped) = filter_tarballs_to_load(tarballs, &existing);
    assert!(to_load.is_empty());
    assert_eq!(skipped, 1);
}

#[test]
fn test_filter_tarballs_empty_input() {
    let (to_load, skipped) = filter_tarballs_to_load(vec![], &[]);
    assert!(to_load.is_empty());
    assert_eq!(skipped, 0);
}

// The cache directory is read by the caller; these tests hand the selection the
// file names such a directory holds.

#[test]
fn test_collect_project_tarballs_nonexistent_dir() {
    let result = select_project_tarballs(&[], "my-proj");
    assert!(result.is_empty());
}

#[test]
fn test_collect_project_tarballs_includes_own_and_base_images() {
    let names = vec![
        "node_20-alpine_abc.tar".to_string(),
        "coast-built_my-proj_web_def.tar".to_string(),
        "coast-built_other-proj_api_ghi.tar".to_string(),
        "readme.txt".to_string(),
    ];
    let result = select_project_tarballs(&names, "my-proj");
    assert!(result.contains(&"node_20-alpine_abc.tar".to_string()));
    assert!(result.contains(&"coast-built_my-proj_web_def.tar".to_string()));
    assert!(!result.contains(&"coast-built_other-proj_api_ghi.tar".to_string()));
    assert!(!result.contains(&"readme.txt".to_string()));
    assert_eq!(result.len(), 2);
}

#[test]
fn test_collect_project_tarballs_empty_dir() {
    let names: Vec<String> = Vec::new();
    let result = select_project_tarballs(&names, "my-proj");
    assert!(result.is_empty());
}

#[test]
fn test_collect_project_tarballs_project_with_special_chars() {
    let names = vec![
        "coast-built_my_org_app_svc_abc.tar".to_string(),
        "coast-built_other_proj_svc_abc.tar".to_string(),
    ];
    let result = select_project_tarballs(&names, "my/org:app");
    assert!(result.contains(&"coast-built_my_org_app_svc_abc.tar".to_string()));
    assert!(!result.contains(&"coast-built_other_proj_svc_abc.tar".to_string()));
}

#[test]
fn select_project_tarballs_keeps_order_and_skips_bare_extension() {
    let names = vec![
        "node_20-alpine_abc.tar".to_string(),
        ".tar".to_string(),
        "coast-built_my-proj_web_def.tar".to_string(),
    ];
    let result = select_project_tarballs(&names, "my-proj");
    assert_eq!(result, vec!["node_20-alpine_abc.tar", "coast-built_my-proj_web_def.tar"]);
}

#[test]
fn filter_keeps_order_and_counts_skipped() {
    let tarballs = vec!["b_1_x.tar".to_string(), "a_1_y.tar".to_string(), "c_2_z.tar".to_string()];
    let (to_load, skipped) = filter_tarballs_to_load(tarballs, &["a:1".to_string()]);
    assert_eq!(to_load, vec!["b_1_x.tar", "c_2_z.tar"]);
    assert_eq!(skipped, 1);
}

#[test]
fn starts_with_chars_examples() {
    let s: Vec<char> = "abc".chars().collect();
    let p: Vec<char> = "ab".chars().collect();
    assert!(starts_with_chars(&s, &p));
    assert!(!starts_with_chars(&p, &s));
    assert!(starts_with_chars(&s, &[]));
}
