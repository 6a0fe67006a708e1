//! Naming rules and command builders for shared service containers (such as
//! a shared PostgreSQL) that run on the host Docker daemon.

use vstd::prelude::*;
use vstd::string::*;
use crate::text::{string_views, str_eq, concat2, concat3, find_char, chars_of, first_index_of,
    decimal, decimal_string};
use crate::string_map::{StringMap, insert_entry};

verus! {

/// Label key for identifying coast-managed shared service containers.
pub const COAST_SHARED_LABEL: &'static str = "coast.shared-service";

/// `coast-shared-{project}`
pub open spec fn shared_network_name_spec(project: Seq<char>) -> Seq<char> {
    "coast-shared-"@ + project
}

/// Generate the Docker bridge network name for a project's shared services.
pub fn shared_network_name(project: &str) -> (name: String)
    ensures
        name@ == shared_network_name_spec(project@),
{
    concat2("coast-shared-", project)
}

/// `{project}-shared-services-{service}`
pub open spec fn shared_container_name_spec(project: Seq<char>, service: Seq<char>) -> Seq<char> {
    project + "-shared-services-"@ + service
}

/// Generate the Docker container name for a shared service.
pub fn shared_container_name(project: &str, service: &str) -> (name: String)
    ensures
        name@ == shared_container_name_spec(project@, service@),
{
    concat3(project, "-shared-services-", service)
}

/// `{instance}_{db_name}`
pub open spec fn database_name_spec(instance: Seq<char>, db_name: Seq<char>) -> Seq<char> {
    instance + "_"@ + db_name
}

/// Generate the per-instance database name.
pub fn database_name(instance: &str, db_name: &str) -> (name: String)
    ensures
        name@ == database_name_spec(instance@, db_name@),
{
    concat3(instance, "_", db_name)
}

/// The result of std `str::to_lowercase` on a string (Unicode lowercase mapping).
pub uninterp spec fn unicode_lowercase(s: Seq<char>) -> Seq<char>;

/// Lowercases a string with std `str::to_lowercase`; the contract names its
/// result `unicode_lowercase`, leaving the Unicode case tables unstated.
#[verifier::external_body]
fn to_lowercase(s: &str) -> (r: String)
    ensures
        r@ == unicode_lowercase(s@),
{
    s.to_lowercase()
}

/// The database engines with their own command syntax.
pub open spec fn is_postgres(engine: Seq<char>) -> bool {
    engine == "postgres"@ || engine == "postgresql"@
}

/// MySQL-compatible engines.
pub open spec fn is_mysql(engine: Seq<char>) -> bool {
    engine == "mysql"@ || engine == "mariadb"@
}

/// The create-database command for an already lowercased engine name.
pub open spec fn create_db_command_spec(engine: Seq<char>, db_name: Seq<char>) -> Seq<Seq<char>> {
    if is_postgres(engine) {
        seq!["psql"@, "-U"@, "postgres"@, "-c"@,
            "SELECT 'CREATE DATABASE \""@ + db_name
                + "\"' WHERE NOT EXISTS (SELECT FROM pg_database WHERE datname = '"@ + db_name
                + "')\\gexec"@]
    } else if is_mysql(engine) {
        seq!["mysql"@, "-u"@, "root"@, "-e"@, "CREATE DATABASE IF NOT EXISTS `"@ + db_name + "`;"@]
    } else {
        seq!["sh"@, "-c"@,
            "echo 'Unsupported db_type: "@ + engine + ". Cannot auto-create database.'"@]
    }
}

/// The drop-database command for an already lowercased engine name.
pub open spec fn drop_db_command_spec(engine: Seq<char>, db_name: Seq<char>) -> Seq<Seq<char>> {
    if is_postgres(engine) {
        seq!["psql"@, "-U"@, "postgres"@, "-c"@, "DROP DATABASE IF EXISTS \""@ + db_name + "\";"@]
    } else if is_mysql(engine) {
        seq!["mysql"@, "-u"@, "root"@, "-e"@, "DROP DATABASE IF EXISTS `"@ + db_name + "`;"@]
    } else {
        seq!["sh"@, "-c"@, "echo 'Unsupported db_type: "@ + engine + ". Cannot drop database.'"@]
    }
}

fn engine_is_postgres(engine: &str) -> (b: bool)
    ensures
        b == is_postgres(engine@),
{
    str_eq(engine, "postgres") || str_eq(engine, "postgresql")
}

fn engine_is_mysql(engine: &str) -> (b: bool)
    ensures
        b == is_mysql(engine@),
{
    str_eq(engine, "mysql") || str_eq(engine, "mariadb")
}

/// Create-database command for an engine name that is already lowercase.
pub fn create_db_command_for_engine(engine: &str, db_name: &str) -> (cmd: Vec<String>)
    ensures
        string_views(cmd@) == create_db_command_spec(engine@, db_name@),
{
    let cmd = if engine_is_postgres(engine) {
        let mut sql = concat3("SELECT 'CREATE DATABASE \"", db_name,
            "\"' WHERE NOT EXISTS (SELECT FROM pg_database WHERE datname = '");
        sql.append(db_name);
        sql.append("')\\gexec");
        vec!["psql".to_owned(), "-U".to_owned(), "postgres".to_owned(), "-c".to_owned(), sql]
    } else if engine_is_mysql(engine) {
        let sql = concat3("CREATE DATABASE IF NOT EXISTS `", db_name, "`;");
        vec!["mysql".to_owned(), "-u".to_owned(), "root".to_owned(), "-e".to_owned(), sql]
    } else {
        let msg = concat3("echo 'Unsupported db_type: ", engine, ". Cannot auto-create database.'");
        vec!["sh".to_owned(), "-c".to_owned(), msg]
    };
    assert(string_views(cmd@) =~= create_db_command_spec(engine@, db_name@));
    cmd
}

/// Generate the command that creates `db_name` in a shared database service.
/// The engine name is matched case-insensitively (after `to_lowercase`).
pub fn create_db_command(db_type: &str, db_name: &str) -> (cmd: Vec<String>)
    ensures
        string_views(cmd@) == create_db_command_spec(unicode_lowercase(db_type@), db_name@),
{
    let engine = to_lowercase(db_type);
    create_db_command_for_engine(engine.as_str(), db_name)
}

/// Drop-database command for an engine name that is already lowercase.
pub fn drop_db_command_for_engine(engine: &str, db_name: &str) -> (cmd: Vec<String>)
    ensures
        string_views(cmd@) == drop_db_command_spec(engine@, db_name@),
{
    let cmd = if engine_is_postgres(engine) {
        let sql = concat3("DROP DATABASE IF EXISTS \"", db_name, "\";");
        vec!["psql".to_owned(), "-U".to_owned(), "postgres".to_owned(), "-c".to_owned(), sql]
    } else if engine_is_mysql(engine) {
        let sql = concat3("DROP DATABASE IF EXISTS `", db_name, "`;");
        vec!["mysql".to_owned(), "-u".to_owned(), "root".to_owned(), "-e".to_owned(), sql]
    } else {
        let msg = concat3("echo 'Unsupported db_type: ", engine, ". Cannot drop database.'");
        vec!["sh".to_owned(), "-c".to_owned(), msg]
    };
    assert(string_views(cmd@) =~= drop_db_command_spec(engine@, db_name@));
    cmd
}

/// Generate the drop database command for a specific database.
pub fn drop_db_command(db_type: &str, db_name: &str) -> (cmd: Vec<String>)
    ensures
        string_views(cmd@) == drop_db_command_spec(unicode_lowercase(db_type@), db_name@),
{
    let engine = to_lowercase(db_type);
    drop_db_command_for_engine(engine.as_str(), db_name)
}

/// The source part of a volume string: everything before the first `:`.
pub open spec fn volume_source(volume: Seq<char>) -> Seq<char> {
    volume.take(first_index_of(volume, ':'))
}

/// Whether a volume source is a host path (absolute or relative).
pub open spec fn is_path_source(source: Seq<char>) -> bool {
    source.len() > 0 && (source[0] == '/' || source[0] == '.')
}

/// The named volume of a volume string, or `None` for a bind mount of a host path.
pub open spec fn named_volume_spec(volume: Seq<char>) -> Option<Seq<char>> {
    if is_path_source(volume_source(volume)) {
        None
    } else {
        Some(volume_source(volume))
    }
}

/// Extract the Docker named volume from a volume bind string.
pub fn extract_named_volume(volume_str: &str) -> (r: Option<&str>)
    ensures
        match r {
            Some(v) => named_volume_spec(volume_str@) == Some(v@),
            None => named_volume_spec(volume_str@) is None,
        },
{
    let chars = chars_of(volume_str);
    let k = find_char(chars.as_slice(), ':');
    if k > 0 && (chars[0] == '/' || chars[0] == '.') {
        None
    } else {
        Some(volume_str.substring_char(0, k))
    }
}

/// Generate the per-instance database names, one per instance, in order.
pub fn auto_create_db_names(instances: &[&str], base_db_name: &str) -> (names: Vec<String>)
    ensures
        names@.len() == instances@.len(),
        forall|i: int| 0 <= i < names@.len() ==> (#[trigger] names@[i])@
            == database_name_spec(instances@[i]@, base_db_name@),
{
    let mut names: Vec<String> = Vec::new();
    let mut i: usize = 0;
    while i < instances.len()
        invariant
            i <= instances@.len(),
            names@.len() == i,
            forall|j: int| 0 <= j < i ==> (#[trigger] names@[j])@
                == database_name_spec(instances@[j]@, base_db_name@),
        decreases instances@.len() - i,
    {
        names.push(database_name(instances[i], base_db_name));
        i = i + 1;
    }
    names
}


/// A shared service declared in the Coastfile.
pub struct SharedServiceConfig {
    /// Service name (e.g. `postgres`).
    pub name: String,
    /// Docker image.
    pub image: String,
    /// Ports published as `port:port`.
    pub ports: Vec<u16>,
    /// Volume mounts, passed through unchanged.
    pub volumes: Vec<String>,
    /// Environment variables, in declaration order.
    pub env: StringMap,
    /// Whether per-instance databases are created automatically.
    pub auto_create_db: bool,
}

/// Configuration for creating a shared service container on the host daemon.
pub struct SharedContainerConfig {
    /// Container name.
    pub name: String,
    /// Docker image.
    pub image: String,
    /// Environment variables as `KEY=VALUE`.
    pub env: Vec<String>,
    /// Port bindings `host_port:container_port`.
    pub ports: Vec<String>,
    /// Volume mounts.
    pub volumes: Vec<String>,
    /// Network to attach the container to.
    pub network: String,
    /// Labels for the container, in insertion order.
    pub labels: StringMap,
}

/// `KEY=VALUE`
pub open spec fn env_assignment(key: Seq<char>, value: Seq<char>) -> Seq<char> {
    key + "="@ + value
}

/// `port:port`
pub open spec fn port_binding(port: u16) -> Seq<char> {
    decimal(port as nat) + ":"@ + decimal(port as nat)
}

/// The labels put on a shared service container, in insertion order.
pub open spec fn shared_labels_spec(project: Seq<char>, service: Seq<char>) -> Seq<(Seq<char>, Seq<char>)> {
    seq![
        (COAST_SHARED_LABEL@, service),
        ("coast.project"@, project),
        ("coast.managed"@, "true"@),
        ("com.docker.compose.project"@, project + "-shared-services"@),
        ("com.docker.compose.service"@, service),
        ("com.docker.compose.container-number"@, "1"@),
        ("com.docker.compose.oneoff"@, "False"@),
    ]
}

/// Copies a slice of strings.
pub fn copy_strings(v: &[String]) -> (r: Vec<String>)
    ensures
        string_views(r@) == string_views(v@),
{
    let mut r: Vec<String> = Vec::new();
    let mut i: usize = 0;
    while i < v.len()
        invariant
            i <= v@.len(),
            r@.len() == i,
            forall|j: int| 0 <= j < i ==> (#[trigger] r@[j])@ == v@[j]@,
        decreases v@.len() - i,
    {
        r.push(v[i].clone());
        i = i + 1;
    }
    assert(string_views(r@) =~= string_views(v@));
    r
}

fn label_entry(labels: &mut StringMap, key: &str, value: String)
    requires
        forall|i: int| 0 <= i < old(labels)@.len() ==> #[trigger] old(labels)@[i].0 != key@,
    ensures
        final(labels)@ == old(labels)@.push((key@, value@)),
{
    let _ = labels.insert(key.to_owned(), value);
}

/// Build the container parameters of a shared service from its Coastfile entry.
pub fn build_shared_container_config(project: &str, config: &SharedServiceConfig) -> (c: SharedContainerConfig)
    ensures
        c.name@ == shared_container_name_spec(project@, config.name@),
        c.image@ == config.image@,
        c.network@ == shared_network_name_spec(project@),
        c.env@.len() == config.env@.len(),
        forall|i: int| 0 <= i < c.env@.len() ==> (#[trigger] c.env@[i])@
            == env_assignment(config.env@[i].0, config.env@[i].1),
        c.ports@.len() == config.ports@.len(),
        forall|i: int| 0 <= i < c.ports@.len() ==> (#[trigger] c.ports@[i])@ == port_binding(config.ports@[i]),
        string_views(c.volumes@) == string_views(config.volumes@),
        c.labels@ == shared_labels_spec(project@, config.name@),
{
    let name = shared_container_name(project, config.name.as_str());
    let network = shared_network_name(project);

    let entries = config.env.entries();
    let mut env: Vec<String> = Vec::new();
    let mut i: usize = 0;
    while i < entries.len()
        invariant
            i <= entries@.len(),
            entries@.map_values(|e: (String, String)| (e.0@, e.1@)) == config.env@,
            env@.len() == i,
            forall|j: int| 0 <= j < i ==> (#[trigger] env@[j])@
                == env_assignment(config.env@[j].0, config.env@[j].1),
        decreases entries@.len() - i,
    {
        let mut s = entries[i].0.clone();
        s.append("=");
        s.append(entries[i].1.as_str());
        env.push(s);
        i = i + 1;
    }

    let mut ports: Vec<String> = Vec::new();
    let mut j: usize = 0;
    while j < config.ports.len()
        invariant
            j <= config.ports@.len(),
            ports@.len() == j,
            forall|k: int| 0 <= k < j ==> (#[trigger] ports@[k])@ == port_binding(config.ports@[k]),
        decreases config.ports@.len() - j,
    {
        let p = config.ports[j];
        let d = decimal_string(p as u64);
        let b = concat3(d.as_str(), ":", d.as_str());
        ports.push(b);
        j = j + 1;
    }

    let mut labels = StringMap::new();
    proof { reveal_strlit("coast.shared-service"); reveal_strlit("coast.project"); reveal_strlit("coast.managed");
        reveal_strlit("com.docker.compose.project"); reveal_strlit("com.docker.compose.service");
        reveal_strlit("com.docker.compose.container-number"); reveal_strlit("com.docker.compose.oneoff");
        assert(COAST_SHARED_LABEL@ == "coast.shared-service"@);
        assert("coast.shared-service"@.len() == 20);
        assert("coast.project"@.len() == 13);
        assert("coast.managed"@.len() == 13);
        assert("com.docker.compose.project"@.len() == 26);
        assert("com.docker.compose.service"@.len() == 26);
        assert("com.docker.compose.container-number"@.len() == 35);
        assert("com.docker.compose.oneoff"@.len() == 25);
        assert("coast.managed"@[6] != "coast.project"@[6]);
        assert("com.docker.compose.service"@[19] != "com.docker.compose.project"@[19]);
    }
    label_entry(&mut labels, COAST_SHARED_LABEL, config.name.clone());
    label_entry(&mut labels, "coast.project", project.to_owned());
    label_entry(&mut labels, "coast.managed", "true".to_owned());
    label_entry(&mut labels, "com.docker.compose.project", concat2(project, "-shared-services"));
    label_entry(&mut labels, "com.docker.compose.service", config.name.clone());
    label_entry(&mut labels, "com.docker.compose.container-number", "1".to_owned());
    label_entry(&mut labels, "com.docker.compose.oneoff", "False".to_owned());
    assert(labels@ =~= shared_labels_spec(project@, config.name@));

    SharedContainerConfig {
        name,
        image: config.image.clone(),
        env,
        ports,
        volumes: copy_strings(config.volumes.as_slice()),
        network,
        labels,
    }
}

/// The Docker port keys (`{port}/tcp`) under which a shared service's ports are
/// exposed and bound on the host.
pub fn shared_port_keys(ports: &[u16]) -> (keys: Vec<String>)
    ensures
        string_views(keys@) == ports@.map_values(|p: u16| crate::text::decimal(p as nat) + "/tcp"@),
{
    let ghost target = ports@.map_values(|p: u16| crate::text::decimal(p as nat) + "/tcp"@);
    let mut keys: Vec<String> = Vec::new();
    let mut i: usize = 0;
    while i < ports.len()
        invariant
            i <= ports@.len(),
            target == ports@.map_values(|p: u16| crate::text::decimal(p as nat) + "/tcp"@),
            string_views(keys@) == target.take(i as int),
        decreases ports@.len() - i,
    {
        let mut v: Vec<char> = Vec::new();
        crate::text::push_decimal(&mut v, ports[i] as u64);
        crate::text::extend_chars(&mut v, "/tcp");
        let ghost before = string_views(keys@);
        let k = crate::text::string_from_chars(v.as_slice());
        keys.push(k);
        proof {
            assert(v@ =~= crate::text::decimal(ports@[i as int] as nat) + "/tcp"@);
            assert(string_views(keys@) =~= before.push(k@));
            assert(target.take(i + 1) =~= target.take(i as int).push(target[i as int]));
        }
        i = i + 1;
    }
    assert(target.take(ports@.len() as int) =~= target);
    keys
}

} // verus!
