use coast_daemon::compose::{rewrite_compose_value, rewrite_volume_with_rslave, CoastfileCompose, ComposeRewriteConfig, YamlValue};
use coast_daemon::yaml_text;
use coast_daemon::yaml_text::{
    compose_service_keys, parse_compose, rewrite_compose_text, secret_mount_service_keys, ComposeTextRewrite,
};

fn to_yaml(v: YamlValue) -> serde_yaml::Value {
    match v {
        YamlValue::Null => serde_yaml::Value::Null,
        YamlValue::Bool(b) => serde_yaml::Value::Bool(b),
        YamlValue::Number(n) => match n.parse::<serde_yaml::Number>() {
            Ok(x) => serde_yaml::Value::Number(x),
            Err(_) => serde_yaml::Value::String(n),
        },
        YamlValue::Str(s) => serde_yaml::Value::String(s),
        YamlValue::Sequence(items) => serde_yaml::Value::Sequence(items.into_iter().map(to_yaml).collect()),
        YamlValue::Mapping(m) => {
            serde_yaml::Value::Mapping(m.into_iter().map(|(k, v)| (to_yaml(k), to_yaml(v))).collect())
        }
        YamlValue::Tagged(t, b) => serde_yaml::Value::Tagged(Box::new(serde_yaml::value::TaggedValue {
            tag: serde_yaml::value::Tag::new(t),
            value: to_yaml(*b),
        })),
    }
}

/// The library's rewrite of a compose text (these compose files all have a mapping root).
fn rewrite_compose_yaml(compose_content: &str, config: &ComposeRewriteConfig) -> Option<String> {
    yaml_text::rewrite_compose_yaml(compose_content, config).expect("root is a mapping")
}

fn base_config() -> ComposeRewriteConfig {
    ComposeRewriteConfig {
        shared_service_names: vec![],
        coastfile: None,
        per_instance_image_tags: vec![],
        has_volume_mounts: false,
        bridge_gateway_ip: None,
        secret_container_paths: vec![],
        hot_services: vec![],
        default_hot: false,
    }
}

fn parse_output(yaml_str: &str) -> serde_yaml::Value {
    serde_yaml::from_str(yaml_str).unwrap()
}

fn get_service_names(yaml: &serde_yaml::Value) -> Vec<String> {
    yaml.get("services")
        .and_then(|s| s.as_mapping())
        .map(|m| m.keys().filter_map(|k| k.as_str().map(String::from)).collect())
        .unwrap_or_default()
}

#[test]
fn test_removes_shared_service_and_its_volume() {
    let compose = r#"
services:
  web:
    image: nginx:latest
    depends_on:
      - postgres
  postgres:
    image: postgres:16
    volumes:
      - pgdata:/var/lib/postgresql/data
volumes:
  pgdata:
"#;
    let config = ComposeRewriteConfig { shared_service_names: vec!["postgres".to_string()], ..base_config() };
    let result = rewrite_compose_yaml(compose, &config).unwrap();
    let yaml = parse_output(&result);

    let services = get_service_names(&yaml);
    assert!(services.contains(&"web".to_string()));
    assert!(!services.contains(&"postgres".to_string()));

    let volumes = yaml.get("volumes").and_then(|v| v.as_mapping());
    let has_pgdata = volumes
        .map(|m| m.contains_key(&serde_yaml::Value::String("pgdata".into())))
        .unwrap_or(false);
    assert!(!has_pgdata, "pgdata volume should be removed with its service");
}

#[test]
fn test_strips_depends_on_sequence_referencing_removed_service() {
    let compose = r#"
services:
  web:
    image: nginx
    depends_on:
      - redis
      - postgres
  redis:
    image: redis:7
  postgres:
    image: postgres:16
"#;
    let config = ComposeRewriteConfig { shared_service_names: vec!["postgres".to_string()], ..base_config() };
    let result = rewrite_compose_yaml(compose, &config).unwrap();
    let yaml = parse_output(&result);

    let web_deps = yaml
        .get("services")
        .and_then(|s| s.get("web"))
        .and_then(|w| w.get("depends_on"))
        .and_then(|d| d.as_sequence())
        .unwrap();
    let dep_names: Vec<&str> = web_deps.iter().filter_map(|v| v.as_str()).collect();
    assert_eq!(dep_names, vec!["redis"]);
}

#[test]
fn test_strips_depends_on_map_referencing_removed_service() {
    let compose = r#"
services:
  web:
    image: nginx
    depends_on:
      postgres:
        condition: service_healthy
      redis:
        condition: service_started
  redis:
    image: redis:7
  postgres:
    image: postgres:16
"#;
    let config = ComposeRewriteConfig { shared_service_names: vec!["postgres".to_string()], ..base_config() };
    let result = rewrite_compose_yaml(compose, &config).unwrap();
    let yaml = parse_output(&result);

    let web_deps = yaml
        .get("services")
        .and_then(|s| s.get("web"))
        .and_then(|w| w.get("depends_on"))
        .and_then(|d| d.as_mapping())
        .unwrap();
    assert!(web_deps.contains_key(&serde_yaml::Value::String("redis".into())));
    assert!(!web_deps.contains_key(&serde_yaml::Value::String("postgres".into())));
}

#[test]
fn test_removes_depends_on_entirely_when_all_deps_removed() {
    let compose = r#"
services:
  web:
    image: nginx
    depends_on:
      - postgres
  postgres:
    image: postgres:16
"#;
    let config = ComposeRewriteConfig { shared_service_names: vec!["postgres".to_string()], ..base_config() };
    let result = rewrite_compose_yaml(compose, &config).unwrap();
    let yaml = parse_output(&result);

    let has_depends_on = yaml
        .get("services")
        .and_then(|s| s.get("web"))
        .and_then(|w| w.get("depends_on"))
        .is_some();
    assert!(!has_depends_on, "depends_on should be removed entirely");
}

#[test]
fn test_image_override_replaces_build_directive() {
    let compose = r#"
services:
  app:
    build: .
    ports:
      - "3000:3000"
  worker:
    build:
      context: ./worker
"#;
    let config = ComposeRewriteConfig {
        per_instance_image_tags: vec![
            ("app".to_string(), "my-app:coast-abc123".to_string()),
            ("worker".to_string(), "my-worker:coast-abc123".to_string()),
        ],
        ..base_config()
    };
    let result = rewrite_compose_yaml(compose, &config).unwrap();
    let yaml = parse_output(&result);

    let app = yaml.get("services").unwrap().get("app").unwrap();
    assert_eq!(app.get("image").unwrap().as_str().unwrap(), "my-app:coast-abc123");
    assert!(app.get("build").is_none(), "build directive should be removed");
    assert!(app.get("ports").is_some(), "non-build fields should be preserved");

    let worker = yaml.get("services").unwrap().get("worker").unwrap();
    assert_eq!(worker.get("image").unwrap().as_str().unwrap(), "my-worker:coast-abc123");
    assert!(worker.get("build").is_none());
}

#[test]
fn test_extra_hosts_added_to_all_services() {
    let compose = r#"
services:
  web:
    image: nginx
  api:
    image: node:20
"#;
    let config = base_config();
    let result = rewrite_compose_yaml(compose, &config).unwrap();
    let yaml = parse_output(&result);

    for svc_name in &["web", "api"] {
        let hosts = yaml
            .get("services")
            .and_then(|s| s.get(*svc_name))
            .and_then(|s| s.get("extra_hosts"))
            .and_then(|h| h.as_sequence())
            .unwrap();
        let host_strs: Vec<&str> = hosts.iter().filter_map(|v| v.as_str()).collect();
        assert!(
            host_strs.contains(&"host.docker.internal:host-gateway"),
            "service {svc_name} should have host.docker.internal"
        );
    }
}

#[test]
fn test_shared_service_hostname_uses_bridge_gateway_ip() {
    let compose = r#"
services:
  web:
    image: nginx
"#;
    let config = ComposeRewriteConfig {
        shared_service_names: vec!["postgres".to_string()],
        bridge_gateway_ip: Some("172.17.0.1".to_string()),
        ..base_config()
    };
    let result = rewrite_compose_yaml(compose, &config).unwrap();
    let yaml = parse_output(&result);

    let hosts = yaml
        .get("services")
        .and_then(|s| s.get("web"))
        .and_then(|s| s.get("extra_hosts"))
        .and_then(|h| h.as_sequence())
        .unwrap();
    let host_strs: Vec<&str> = hosts.iter().filter_map(|v| v.as_str()).collect();
    assert!(host_strs.contains(&"postgres:172.17.0.1"));
}

#[test]
fn test_secret_mounts_injected_into_all_services() {
    let compose = r#"
services:
  web:
    image: nginx
  api:
    image: node:20
"#;
    let config = ComposeRewriteConfig {
        secret_container_paths: vec!["/run/secrets/db_password".to_string()],
        ..base_config()
    };
    let result = rewrite_compose_yaml(compose, &config).unwrap();
    let yaml = parse_output(&result);

    for svc_name in &["web", "api"] {
        let vols = yaml
            .get("services")
            .and_then(|s| s.get(*svc_name))
            .and_then(|s| s.get("volumes"))
            .and_then(|v| v.as_sequence())
            .unwrap();
        let vol_strs: Vec<&str> = vols.iter().filter_map(|v| v.as_str()).collect();
        assert!(
            vol_strs.contains(&"/run/secrets/db_password:/run/secrets/db_password:ro"),
            "service {svc_name} should have secret mount"
        );
    }
}

#[test]
fn test_no_changes_returns_none() {
    let result = rewrite_compose_yaml("not: valid: yaml: {{", &base_config());
    assert!(result.is_none());
}

#[test]
fn test_combined_shared_removal_and_image_override() {
    let compose = r#"
services:
  web:
    build: .
    depends_on:
      - postgres
  postgres:
    image: postgres:16
    volumes:
      - pgdata:/var/lib/postgresql/data
volumes:
  pgdata:
"#;
    let config = ComposeRewriteConfig {
        shared_service_names: vec!["postgres".to_string()],
        per_instance_image_tags: vec![("web".to_string(), "my-web:coast-xyz".to_string())],
        ..base_config()
    };
    let result = rewrite_compose_yaml(compose, &config).unwrap();
    let yaml = parse_output(&result);

    let services = get_service_names(&yaml);
    assert_eq!(services, vec!["web"]);

    let web = yaml.get("services").unwrap().get("web").unwrap();
    assert_eq!(web.get("image").unwrap().as_str().unwrap(), "my-web:coast-xyz");
    assert!(web.get("build").is_none());
    assert!(web.get("depends_on").is_none());
}

#[test]
fn test_rslave_short_form_bind_mount() {
    let compose = r#"
services:
  web:
    image: node:20
    volumes:
      - ./src:/app/src
"#;
    let config = ComposeRewriteConfig { hot_services: vec!["web".to_string()], ..base_config() };
    let result = rewrite_compose_yaml(compose, &config).unwrap();
    assert!(result.contains("./src:/app/src:rslave"), "short-form bind mount should get :rslave, got: {result}");
}

#[test]
fn test_rslave_short_form_with_existing_mode() {
    let compose = r#"
services:
  web:
    image: node:20
    volumes:
      - ./src:/app/src:rw
"#;
    let config = ComposeRewriteConfig { hot_services: vec!["web".to_string()], ..base_config() };
    let result = rewrite_compose_yaml(compose, &config).unwrap();
    assert!(
        result.contains("./src:/app/src:rw,rslave"),
        "existing mode should be preserved with rslave appended, got: {result}"
    );
}

#[test]
fn test_rslave_long_form_bind_mount() {
    let compose = r#"
services:
  web:
    image: node:20
    volumes:
      - type: bind
        source: ./src
        target: /app/src
"#;
    let config = ComposeRewriteConfig { hot_services: vec!["web".to_string()], ..base_config() };
    let result = rewrite_compose_yaml(compose, &config).unwrap();
    let yaml: serde_yaml::Value = serde_yaml::from_str(&result).unwrap();
    let vol = &yaml["services"]["web"]["volumes"][0];
    let prop = vol["bind"]["propagation"].as_str().unwrap();
    assert_eq!(prop, "rslave");
}

#[test]
fn test_rslave_skips_named_volumes() {
    let compose = r#"
services:
  web:
    image: node:20
    volumes:
      - pgdata:/var/lib/postgresql
"#;
    let config = ComposeRewriteConfig { hot_services: vec!["web".to_string()], ..base_config() };
    let result = rewrite_compose_yaml(compose, &config).unwrap();
    assert!(result.contains("pgdata:/var/lib/postgresql"), "named volumes should be unchanged");
    assert!(!result.contains("rslave"), "named volumes should not get rslave");
}

#[test]
fn test_rslave_only_hot_services() {
    let compose = r#"
services:
  web:
    image: node:20
    volumes:
      - ./src:/app/src
  api:
    image: node:20
    volumes:
      - ./api:/app/api
"#;
    let config = ComposeRewriteConfig { hot_services: vec!["web".to_string()], ..base_config() };
    let result = rewrite_compose_yaml(compose, &config).unwrap();
    assert!(result.contains("./src:/app/src:rslave"), "hot service web should get rslave");
    assert!(result.contains("./api:/app/api"), "non-hot service api should be unchanged");
    assert!(!result.contains("./api:/app/api:rslave"), "non-hot service should NOT get rslave");
}

#[test]
fn test_rslave_default_hot_all_services() {
    let compose = r#"
services:
  web:
    image: node:20
    volumes:
      - ./src:/app/src
  api:
    image: node:20
    volumes:
      - ./api:/app/api
"#;
    let config = ComposeRewriteConfig { default_hot: true, ..base_config() };
    let result = rewrite_compose_yaml(compose, &config).unwrap();
    assert!(result.contains("./src:/app/src:rslave"), "web should get rslave with default_hot");
    assert!(result.contains("./api:/app/api:rslave"), "api should get rslave with default_hot");
}

// Own tests.

fn str_node(s: &str) -> YamlValue {
    YamlValue::Str(s.to_string())
}

fn mapping(entries: Vec<(&str, YamlValue)>) -> YamlValue {
    YamlValue::Mapping(entries.into_iter().map(|(k, v)| (str_node(k), v)).collect())
}

#[test]
fn rewrite_without_services_mapping_returns_none() {
    let doc = mapping(vec![("version", str_node("3"))]);
    assert!(rewrite_compose_value(doc, &base_config()).is_none());
    assert!(rewrite_compose_value(YamlValue::Sequence(vec![]), &base_config()).is_none());
}

#[test]
fn extra_hosts_not_duplicated_and_shared_entries_appended() {
    let doc = mapping(vec![(
        "services",
        mapping(vec![(
            "web",
            mapping(vec![(
                "extra_hosts",
                YamlValue::Sequence(vec![str_node("host.docker.internal:host-gateway"), str_node("db:host-gateway")]),
            )]),
        )]),
    )]);
    let cfg = ComposeRewriteConfig {
        shared_service_names: vec!["db".to_string(), "cache".to_string()],
        ..base_config()
    };
    let out = to_yaml(rewrite_compose_value(doc, &cfg).unwrap());
    let hosts: Vec<&str> = out["services"]["web"]["extra_hosts"]
        .as_sequence()
        .unwrap()
        .iter()
        .filter_map(|v| v.as_str())
        .collect();
    assert_eq!(hosts, vec!["host.docker.internal:host-gateway", "db:host-gateway", "cache:host-gateway"]);
}

#[test]
fn coast_volumes_declared_with_coastfile() {
    let compose = "services:\n  web:\n    image: x\nvolumes:\n  old: {}\n";
    let cfg = ComposeRewriteConfig {
        has_volume_mounts: true,
        coastfile: Some(CoastfileCompose {
            omit_services: vec![],
            omit_volumes: vec!["old".to_string()],
            volume_names: vec!["data".to_string()],
        }),
        ..base_config()
    };
    let out = parse_output(&rewrite_compose_yaml(compose, &cfg).unwrap());
    let vols = out["volumes"].as_mapping().unwrap();
    assert!(!vols.contains_key(&serde_yaml::Value::String("old".into())));
    assert_eq!(out["volumes"]["data"]["driver"].as_str(), Some("local"));
    assert_eq!(out["volumes"]["data"]["driver_opts"]["device"].as_str(), Some("/coast-volumes/data"));
    assert_eq!(out["volumes"]["data"]["driver_opts"]["o"].as_str(), Some("bind"));
}

#[test]
fn omitted_services_are_removed_like_shared_ones() {
    let compose = "services:\n  web:\n    image: x\n    depends_on: [worker]\n  worker:\n    image: y\n";
    let cfg = ComposeRewriteConfig {
        coastfile: Some(CoastfileCompose {
            omit_services: vec!["worker".to_string()],
            omit_volumes: vec![],
            volume_names: vec![],
        }),
        ..base_config()
    };
    let out = parse_output(&rewrite_compose_yaml(compose, &cfg).unwrap());
    assert_eq!(get_service_names(&out), vec!["web"]);
    assert!(out["services"]["web"].get("depends_on").is_none());
}

#[test]
fn rslave_is_not_added_twice() {
    let compose = "services:\n  web:\n    volumes:\n      - ./a:/a:ro,rslave\n      - /b:/b:rshared\n";
    let cfg = ComposeRewriteConfig { default_hot: true, ..base_config() };
    let out = parse_output(&rewrite_compose_yaml(compose, &cfg).unwrap());
    let vols: Vec<&str> = out["services"]["web"]["volumes"].as_sequence().unwrap().iter().filter_map(|v| v.as_str()).collect();
    assert_eq!(vols, vec!["./a:/a:ro,rslave", "/b:/b:rshared"]);
}

#[test]
fn long_form_bind_keeps_existing_propagation() {
    let compose = "services:\n  web:\n    volumes:\n      - type: bind\n        source: ./s\n        target: /t\n        bind:\n          propagation: private\n      - type: volume\n        source: v\n        target: /v\n";
    let cfg = ComposeRewriteConfig { hot_services: vec!["web".to_string()], ..base_config() };
    let out = parse_output(&rewrite_compose_yaml(compose, &cfg).unwrap());
    assert_eq!(out["services"]["web"]["volumes"][0]["bind"]["propagation"].as_str(), Some("private"));
    assert!(out["services"]["web"]["volumes"][1].get("bind").is_none());
}

#[test]
fn already_listed_host_needs_no_rewrite() {
    let compose = "services:\n  web:\n    image: nginx\n    extra_hosts:\n      - \"host.docker.internal:host-gateway\"\n";
    assert!(rewrite_compose_yaml(compose, &base_config()).is_none());
    let bare = "services:\n  web:\n    image: nginx\n";
    assert!(rewrite_compose_yaml(bare, &base_config()).is_some());
}

#[test]
fn compose_text_parse_and_service_keys() {
    assert!(parse_compose("not: valid: yaml: {{").is_none());
    assert!(matches!(rewrite_compose_text("not: valid: yaml: {{", &base_config()), ComposeTextRewrite::Invalid));
    let text = "services:\n  web:\n    image: nginx\n  db:\n    image: postgres\nvolumes:\n  data: {}\n";
    assert_eq!(compose_service_keys(text), Some(vec!["web".to_string(), "db".to_string()]));
    assert_eq!(compose_service_keys("version: '3'\n"), Some(vec![]));
    assert_eq!(compose_service_keys("{{"), None);
    match parse_compose("a: !custom 1.5\nb: [true, ~]\n") {
        Some(YamlValue::Mapping(m)) => {
            assert_eq!(m.len(), 2);
            match &m[0].1 {
                YamlValue::Tagged(t, inner) => {
                    assert_eq!(t, "!custom");
                    assert!(matches!(**inner, YamlValue::Number(ref n) if n == "1.5"));
                }
                _ => panic!("expected a tagged number"),
            }
            assert!(matches!(&m[1].1, YamlValue::Sequence(items) if items.len() == 2));
        }
        _ => panic!("expected a mapping"),
    }
}

#[test]
fn compose_text_root_must_be_mapping_for_volumes() {
    let cfg = ComposeRewriteConfig {
        has_volume_mounts: true,
        coastfile: Some(CoastfileCompose { omit_services: vec![], omit_volumes: vec![], volume_names: vec!["data".to_string()] }),
        ..base_config()
    };
    assert!(matches!(rewrite_compose_text("- a\n- b\n", &cfg), ComposeTextRewrite::RootNotMapping));
}

#[test]
fn secret_mount_services_of_archive_override() {
    let text = "services:\n  web: {}\n  db: {}\n";
    assert_eq!(secret_mount_service_keys(Some(text), true), vec!["web".to_string(), "db".to_string()]);
    assert!(secret_mount_service_keys(Some(text), false).is_empty());
    assert!(secret_mount_service_keys(None, true).is_empty());
    assert!(secret_mount_service_keys(Some("{{"), true).is_empty());
}

#[test]
fn compose_yaml_root_not_mapping_is_refused() {
    let cfg = ComposeRewriteConfig {
        has_volume_mounts: true,
        coastfile: Some(CoastfileCompose { omit_services: vec![], omit_volumes: vec![], volume_names: vec!["data".to_string()] }),
        ..base_config()
    };
    assert!(yaml_text::rewrite_compose_yaml("- a\n", &cfg).is_err());
    assert_eq!(yaml_text::rewrite_compose_yaml("{{", &cfg).unwrap(), None);
}

fn ys(s: &str) -> YamlValue {
    YamlValue::Str(s.to_string())
}

fn rslave_times(make: &dyn Fn() -> YamlValue, times: usize) -> serde_yaml::Value {
    let mut v = make();
    for _ in 0..times {
        rewrite_volume_with_rslave(&mut v);
    }
    to_yaml(v)
}

#[test]
fn rslave_volume_rewrite_is_idempotent() {
    let short = || ys("./src:/app/src");
    assert_eq!(rslave_times(&short, 1), to_yaml(ys("./src:/app/src:rslave")));
    assert_eq!(rslave_times(&short, 2), rslave_times(&short, 1));
    let with_mode = || ys("/data:/data:ro");
    assert_eq!(rslave_times(&with_mode, 1), to_yaml(ys("/data:/data:ro,rslave")));
    assert_eq!(rslave_times(&with_mode, 2), rslave_times(&with_mode, 1));
    let bind = || YamlValue::Mapping(vec![(ys("type"), ys("bind")), (ys("source"), ys("./x"))]);
    let expected = YamlValue::Mapping(vec![
        (ys("type"), ys("bind")),
        (ys("source"), ys("./x")),
        (ys("bind"), YamlValue::Mapping(vec![(ys("propagation"), ys("rslave"))])),
    ]);
    assert_eq!(rslave_times(&bind, 1), to_yaml(expected));
    assert_eq!(rslave_times(&bind, 2), rslave_times(&bind, 1));
}

#[test]
fn rslave_leaves_named_and_non_bind_volumes() {
    let named = || ys("pgdata:/var/lib/postgresql");
    assert_eq!(rslave_times(&named, 1), to_yaml(named()));
    let single = || ys("./only");
    assert_eq!(rslave_times(&single, 1), to_yaml(single()));
    let volume = || YamlValue::Mapping(vec![(ys("type"), ys("volume"))]);
    assert_eq!(rslave_times(&volume, 1), to_yaml(volume()));
    let propagated = || ys("./a:/a:rshared");
    assert_eq!(rslave_times(&propagated, 1), to_yaml(propagated()));
}
