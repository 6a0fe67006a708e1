use coast_daemon::run_ports::{
    dynamic_port_env_var_name, dynamic_port_env_vars_from_mappings, merge_dynamic_port_env_vars,
    port_mappings_from_pre_allocated_ports,
};
use coast_daemon::lifecycle::coast_container_name;
use coast_daemon::string_map::StringMap;

#[test]
fn test_merge_dynamic_port_env_vars_inserts_vars() {
    let pre_allocated = vec![("web".to_string(), 3000, 52340), ("backend-test".to_string(), 8080, 52341)];
    let mut env = StringMap::new();
    merge_dynamic_port_env_vars(&mut env, &pre_allocated);
    assert_eq!(env.get("WEB_DYNAMIC_PORT"), Some(&"52340".to_string()));
    assert_eq!(env.get("BACKEND_TEST_DYNAMIC_PORT"), Some(&"52341".to_string()));
}

#[test]
fn test_merge_dynamic_port_env_vars_preserves_existing_key() {
    let pre_allocated = vec![("web".to_string(), 3000, 52340)];
    let mut env = StringMap::new();
    env.insert("WEB_DYNAMIC_PORT".to_string(), "9999".to_string());
    merge_dynamic_port_env_vars(&mut env, &pre_allocated);
    assert_eq!(env.get("WEB_DYNAMIC_PORT"), Some(&"9999".to_string()));
}

#[test]
fn test_expected_container_name_for_dangling_check() {
    let project = "my-app";
    let name = "dev-1";
    let expected = coast_container_name(project, name);
    assert_eq!(expected, "my-app-coasts-dev-1");
}

#[test]
fn test_port_mappings_from_pre_allocated_ports() {
    let pre_allocated = vec![("web".to_string(), 3000, 52340), ("backend-test".to_string(), 8080, 52341)];
    let mappings = port_mappings_from_pre_allocated_ports(&pre_allocated);
    assert_eq!(mappings.len(), 2);
    assert_eq!(mappings[0].logical_name, "web");
    assert_eq!(mappings[0].canonical_port, 3000);
    assert_eq!(mappings[0].dynamic_port, 52340);
    assert_eq!(mappings[1].logical_name, "backend-test");
    assert_eq!(mappings[1].canonical_port, 8080);
    assert_eq!(mappings[1].dynamic_port, 52341);
}

#[test]
fn dynamic_env_names_and_values() {
    assert_eq!(dynamic_port_env_var_name("api.v2"), "API_V2_DYNAMIC_PORT");
    assert_eq!(dynamic_port_env_var_name("db1"), "DB1_DYNAMIC_PORT");
    let pre = vec![("a".to_string(), 1, 2)];
    let mappings = port_mappings_from_pre_allocated_ports(&pre);
    let vars = dynamic_port_env_vars_from_mappings(&mappings);
    assert_eq!(vars, vec![("A_DYNAMIC_PORT".to_string(), "2".to_string())]);
}

#[test]
fn merge_appends_new_names_in_order() {
    let mut env = StringMap::new();
    env.insert("X".to_string(), "1".to_string());
    merge_dynamic_port_env_vars(&mut env, &[("b".to_string(), 1, 10), ("a".to_string(), 2, 20)]);
    let keys: Vec<&str> = env.entries().iter().map(|(k, _)| k.as_str()).collect();
    assert_eq!(keys, vec!["X", "B_DYNAMIC_PORT", "A_DYNAMIC_PORT"]);
}
