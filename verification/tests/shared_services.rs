use coast_daemon::shared_services::{
    auto_create_db_names, build_shared_container_config, create_db_command, create_db_command_for_engine,
    database_name, drop_db_command, drop_db_command_for_engine, extract_named_volume, shared_container_name,
    shared_network_name, shared_port_keys, SharedServiceConfig, COAST_SHARED_LABEL,
};
use coast_daemon::string_map::StringMap;

fn service(name: &str, image: &str, ports: Vec<u16>, volumes: Vec<String>, env: StringMap, auto_create_db: bool) -> SharedServiceConfig {
    SharedServiceConfig {
        name: name.to_string(),
        image: image.to_string(),
        ports,
        volumes,
        env,
        auto_create_db,
    }
}

#[test]
fn test_shared_network_name_basic() {
    assert_eq!(shared_network_name("my-app"), "coast-shared-my-app");
}

#[test]
fn test_shared_network_name_with_underscores() {
    assert_eq!(shared_network_name("my_app"), "coast-shared-my_app");
}

#[test]
fn test_shared_network_name_simple() {
    assert_eq!(shared_network_name("app"), "coast-shared-app");
}

#[test]
fn test_shared_network_name_with_numbers() {
    assert_eq!(shared_network_name("app123"), "coast-shared-app123");
}

#[test]
fn test_shared_network_name_empty() {
    assert_eq!(shared_network_name(""), "coast-shared-");
}

#[test]
fn test_shared_network_name_complex() {
    assert_eq!(shared_network_name("my-cool-project"), "coast-shared-my-cool-project");
}

#[test]
fn test_shared_container_name_basic() {
    assert_eq!(shared_container_name("my-app", "postgres"), "my-app-shared-services-postgres");
}

#[test]
fn test_shared_container_name_redis() {
    assert_eq!(shared_container_name("my-app", "redis"), "my-app-shared-services-redis");
}

#[test]
fn test_shared_container_name_with_hyphens() {
    assert_eq!(shared_container_name("my-cool-app", "my-db"), "my-cool-app-shared-services-my-db");
}

#[test]
fn test_shared_container_name_empty_project() {
    assert_eq!(shared_container_name("", "postgres"), "-shared-services-postgres");
}

#[test]
fn test_shared_container_name_empty_service() {
    assert_eq!(shared_container_name("my-app", ""), "my-app-shared-services-");
}

#[test]
fn test_database_name_basic() {
    assert_eq!(database_name("feature-oauth", "mydb"), "feature-oauth_mydb");
}

#[test]
fn test_database_name_with_underscores() {
    assert_eq!(database_name("my_instance", "app_db"), "my_instance_app_db");
}

#[test]
fn test_database_name_main() {
    assert_eq!(database_name("main", "postgres"), "main_postgres");
}

#[test]
fn test_database_name_empty_instance() {
    assert_eq!(database_name("", "mydb"), "_mydb");
}

#[test]
fn test_database_name_empty_db() {
    assert_eq!(database_name("instance", ""), "instance_");
}

#[test]
fn test_database_name_complex() {
    assert_eq!(
        database_name("feature-billing-v2", "app_development"),
        "feature-billing-v2_app_development"
    );
}

#[test]
fn test_create_db_command_postgres() {
    let cmd = create_db_command("postgres", "mydb");
    assert_eq!(cmd[0], "psql");
    assert_eq!(cmd[1], "-U");
    assert_eq!(cmd[2], "postgres");
    assert_eq!(cmd[3], "-c");
    assert!(cmd[4].contains("mydb"));
    assert!(cmd[4].contains("CREATE DATABASE"));
    assert!(cmd[4].contains("NOT EXISTS"));
}

#[test]
fn test_create_db_command_postgresql() {
    let cmd = create_db_command("postgresql", "testdb");
    assert_eq!(cmd[0], "psql");
    assert!(cmd[4].contains("testdb"));
}

#[test]
fn test_create_db_command_postgres_case_insensitive() {
    let cmd = create_db_command("POSTGRES", "mydb");
    assert_eq!(cmd[0], "psql");
}

#[test]
fn test_create_db_command_mysql() {
    let cmd = create_db_command("mysql", "mydb");
    assert_eq!(cmd[0], "mysql");
    assert_eq!(cmd[1], "-u");
    assert_eq!(cmd[2], "root");
    assert_eq!(cmd[3], "-e");
    assert!(cmd[4].contains("CREATE DATABASE IF NOT EXISTS"));
    assert!(cmd[4].contains("mydb"));
}

#[test]
fn test_create_db_command_mariadb() {
    let cmd = create_db_command("mariadb", "testdb");
    assert_eq!(cmd[0], "mysql");
    assert!(cmd[4].contains("testdb"));
}

#[test]
fn test_create_db_command_unknown_type() {
    let cmd = create_db_command("cockroachdb", "mydb");
    assert_eq!(cmd[0], "sh");
    assert_eq!(cmd[1], "-c");
    assert!(cmd[2].contains("Unsupported"));
}

#[test]
fn test_create_db_command_postgres_special_chars_in_name() {
    let cmd = create_db_command("postgres", "feature-oauth_dev");
    assert!(cmd[4].contains("feature-oauth_dev"));
}

#[test]
fn test_drop_db_command_postgres() {
    let cmd = drop_db_command("postgres", "mydb");
    assert_eq!(cmd[0], "psql");
    assert_eq!(cmd[1], "-U");
    assert_eq!(cmd[2], "postgres");
    assert_eq!(cmd[3], "-c");
    assert!(cmd[4].contains("DROP DATABASE IF EXISTS"));
    assert!(cmd[4].contains("mydb"));
}

#[test]
fn test_drop_db_command_mysql() {
    let cmd = drop_db_command("mysql", "mydb");
    assert_eq!(cmd[0], "mysql");
    assert!(cmd[4].contains("DROP DATABASE IF EXISTS"));
}

#[test]
fn test_drop_db_command_unknown_type() {
    let cmd = drop_db_command("redis", "mydb");
    assert_eq!(cmd[0], "sh");
    assert!(cmd[2].contains("Unsupported"));
}

#[test]
fn test_build_shared_container_config_basic() {
    let mut env = StringMap::new();
    env.insert("POSTGRES_PASSWORD".to_string(), "dev".to_string());
    env.insert("POSTGRES_USER".to_string(), "postgres".to_string());

    let service_config = service(
        "postgres",
        "postgres:16",
        vec![5432],
        vec!["coast_shared_pg:/var/lib/postgresql/data".to_string()],
        env,
        true,
    );

    let config = build_shared_container_config("my-app", &service_config);

    assert_eq!(config.name, "my-app-shared-services-postgres");
    assert_eq!(config.image, "postgres:16");
    assert_eq!(config.network, "coast-shared-my-app");
    assert_eq!(config.ports, vec!["5432:5432"]);
    assert_eq!(config.volumes, vec!["coast_shared_pg:/var/lib/postgresql/data"]);
    assert!(config.env.contains(&"POSTGRES_PASSWORD=dev".to_string()));
    assert!(config.env.contains(&"POSTGRES_USER=postgres".to_string()));
}

#[test]
fn test_build_shared_container_config_labels() {
    let service_config = service("redis", "redis:7", vec![6379], vec![], StringMap::new(), false);

    let config = build_shared_container_config("my-app", &service_config);

    assert_eq!(config.labels.get(COAST_SHARED_LABEL), Some(&"redis".to_string()));
    assert_eq!(config.labels.get("coast.project"), Some(&"my-app".to_string()));
    assert_eq!(config.labels.get("coast.managed"), Some(&"true".to_string()));
    assert_eq!(
        config.labels.get("com.docker.compose.project"),
        Some(&"my-app-shared-services".to_string())
    );
    assert_eq!(config.labels.get("com.docker.compose.service"), Some(&"redis".to_string()));
    assert_eq!(config.labels.get("com.docker.compose.container-number"), Some(&"1".to_string()));
    assert_eq!(config.labels.get("com.docker.compose.oneoff"), Some(&"False".to_string()));
}

#[test]
fn test_build_shared_container_config_multiple_ports() {
    let service_config = service("multi-port", "some-image:latest", vec![5432, 8080, 9090], vec![], StringMap::new(), false);

    let config = build_shared_container_config("proj", &service_config);

    assert_eq!(config.ports.len(), 3);
    assert!(config.ports.contains(&"5432:5432".to_string()));
    assert!(config.ports.contains(&"8080:8080".to_string()));
    assert!(config.ports.contains(&"9090:9090".to_string()));
}

#[test]
fn test_build_shared_container_config_no_ports_no_volumes() {
    let service_config = service("minimal", "alpine:latest", vec![], vec![], StringMap::new(), false);

    let config = build_shared_container_config("proj", &service_config);

    assert!(config.ports.is_empty());
    assert!(config.volumes.is_empty());
    assert!(config.env.is_empty());
}

#[test]
fn test_auto_create_db_names_single() {
    let names = auto_create_db_names(&["feature-oauth"], "mydb");
    assert_eq!(names, vec!["feature-oauth_mydb"]);
}

#[test]
fn test_auto_create_db_names_multiple() {
    let names = auto_create_db_names(&["main", "feature-a", "feature-b"], "app_dev");
    assert_eq!(names.len(), 3);
    assert_eq!(names[0], "main_app_dev");
    assert_eq!(names[1], "feature-a_app_dev");
    assert_eq!(names[2], "feature-b_app_dev");
}

#[test]
fn test_auto_create_db_names_empty() {
    let names = auto_create_db_names(&[], "mydb");
    assert!(names.is_empty());
}

#[test]
fn test_extract_named_volume_basic() {
    assert_eq!(extract_named_volume("pg_data:/var/lib/postgresql/data"), Some("pg_data"));
}

#[test]
fn test_extract_named_volume_bind_mount_returns_none() {
    assert_eq!(extract_named_volume("/host/path:/container/path"), None);
}

#[test]
fn test_extract_named_volume_relative_returns_none() {
    assert_eq!(extract_named_volume("./data:/container/path"), None);
}

#[test]
fn test_extract_named_volume_bare() {
    assert_eq!(extract_named_volume("myvolume"), Some("myvolume"));
}

#[test]
fn test_extract_named_volume_with_opts() {
    assert_eq!(extract_named_volume("redis_data:/data:ro"), Some("redis_data"));
}

#[test]
fn test_extract_named_volume_infra_postgres() {
    assert_eq!(
        extract_named_volume("infra_postgres_data:/var/lib/postgresql/data"),
        Some("infra_postgres_data")
    );
}

#[test]
fn test_coast_shared_label() {
    assert_eq!(COAST_SHARED_LABEL, "coast.shared-service");
}

// Own tests.

#[test]
fn create_db_command_lowercases_the_engine_exactly() {
    let cmd = create_db_command("MySQL", "shop");
    assert_eq!(
        cmd,
        vec!["mysql", "-u", "root", "-e", "CREATE DATABASE IF NOT EXISTS `shop`;"]
    );
    let pg = create_db_command("PostgreSQL", "shop");
    assert_eq!(
        pg[4],
        "SELECT 'CREATE DATABASE \"shop\"' WHERE NOT EXISTS (SELECT FROM pg_database WHERE datname = 'shop')\\gexec"
    );
}

#[test]
fn create_db_command_for_engine_takes_the_engine_as_given() {
    assert_eq!(create_db_command_for_engine("POSTGRES", "x")[0], "sh");
    assert_eq!(
        create_db_command_for_engine("cockroachdb", "x"),
        vec!["sh", "-c", "echo 'Unsupported db_type: cockroachdb. Cannot auto-create database.'"]
    );
}

#[test]
fn drop_db_command_exact_forms() {
    assert_eq!(
        drop_db_command("Postgres", "app"),
        vec!["psql", "-U", "postgres", "-c", "DROP DATABASE IF EXISTS \"app\";"]
    );
    assert_eq!(drop_db_command("MARIADB", "app")[4], "DROP DATABASE IF EXISTS `app`;");
    assert_eq!(
        drop_db_command_for_engine("redis", "app")[2],
        "echo 'Unsupported db_type: redis. Cannot drop database.'"
    );
}

#[test]
fn extract_named_volume_edge_cases() {
    assert_eq!(extract_named_volume(""), Some(""));
    assert_eq!(extract_named_volume(":/data"), Some(""));
    assert_eq!(extract_named_volume(".hidden:/x"), None);
}

#[test]
fn build_shared_container_config_keeps_env_order_and_labels_order() {
    let mut env = StringMap::new();
    env.insert("B".to_string(), "2".to_string());
    env.insert("A".to_string(), "1".to_string());
    env.insert("B".to_string(), "3".to_string());
    let cfg = build_shared_container_config("p", &service("db", "img", vec![1], vec![], env, false));
    assert_eq!(cfg.env, vec!["B=3", "A=1"]);
    let keys: Vec<&str> = cfg.labels.entries().iter().map(|(k, _)| k.as_str()).collect();
    assert_eq!(keys.len(), 7);
    assert!(keys.contains(&COAST_SHARED_LABEL));
}

#[test]
fn shared_port_keys_are_tcp_keys() {
    assert_eq!(shared_port_keys(&[5432, 80]), vec!["5432/tcp", "80/tcp"]);
    assert!(shared_port_keys(&[]).is_empty());
}
