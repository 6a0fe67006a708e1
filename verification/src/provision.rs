//! The decisions of provisioning a new instance: which phases run, where the build
//! artifacts are read from, which ports the coast container publishes, the docker
//! invocations around a snapshot copy, and which port becomes the build's primary.

use vstd::prelude::*;
use vstd::string::*;
use crate::text::{string_views, concat2, concat3, decimal, push_decimal, extend_chars, string_from_chars};
use crate::run_ports::PortMapping;
use crate::run_setup::run_plan_spec;

verus! {

/// The phases of provisioning that run for an instance.
#[derive(Debug, Clone, Copy, PartialEq, Eq, Structural)]
pub struct ProvisionPlan {
    /// Build the per-instance images on the host before creating the container.
    pub build_on_host: bool,
    /// Plan the routing of shared services into the container.
    pub route_shared_services: bool,
    /// Rewrite the compose file for the instance on the host.
    pub rewrite_compose: bool,
    /// Build the images from a `git archive` inside the container.
    pub build_in_container: bool,
    /// Hand the images built on the host to the inner daemon.
    pub pipe_host_images: bool,
    /// Install the MCP servers and client configurations.
    pub install_mcp: bool,
}

/// The provisioning plan: an archive build replaces both the host build and the host
/// compose rewrite; shared services are routed only when there are any, and MCP is
/// installed only when servers or clients are configured.
pub fn provision_plan(
    has_compose: bool,
    uses_archive_build: bool,
    shared_service_count: usize,
    mcp_server_count: usize,
    mcp_client_count: usize,
) -> (p: ProvisionPlan)
    ensures
        p.build_on_host == (has_compose && !uses_archive_build),
        p.route_shared_services == (shared_service_count > 0),
        p.rewrite_compose == !uses_archive_build,
        p.build_in_container == uses_archive_build,
        p.pipe_host_images == !uses_archive_build,
        p.install_mcp == (mcp_server_count > 0 || mcp_client_count > 0),
{
    ProvisionPlan {
        build_on_host: has_compose && !uses_archive_build,
        route_shared_services: shared_service_count > 0,
        rewrite_compose: !uses_archive_build,
        build_in_container: uses_archive_build,
        pipe_host_images: !uses_archive_build,
        install_mcp: mcp_server_count > 0 || mcp_client_count > 0,
    }
}

/// The 1-based step of "Creating container" in the progress plan.
pub fn creating_step(has_compose: bool) -> (n: u32)
    ensures
        n == (if has_compose { 3u32 } else { 2u32 }),
{
    if has_compose { 3 } else { 2 }
}

/// The 1-based step of "Loading cached images" in the progress plan.
pub fn loading_step(has_compose: bool) -> (n: u32)
    ensures
        n == (if has_compose { 4u32 } else { 3u32 }),
{
    if has_compose { 4 } else { 3 }
}

/// The step numbers announced while provisioning name the steps of the plan that
/// `coast run` announced: "Creating container", "Loading cached images" and, for a
/// compose project, "Building images" at step 2.
pub proof fn lemma_steps_match_plan(has_compose: bool, has_services: bool, has_worktree: bool)
    ensures
        ({
            let plan = run_plan_spec(has_compose, has_services, has_worktree);
            let c: int = if has_compose { 3 } else { 2 };
            let l: int = if has_compose { 4 } else { 3 };
            &&& plan[c - 1] == "Creating container"@
            &&& plan[l - 1] == "Loading cached images"@
            &&& has_compose ==> plan[1] == "Building images"@
        }),
{
    let plan = run_plan_spec(has_compose, has_services, has_worktree);
    let head = seq!["Preparing instance"@]
        + (if has_compose { seq!["Building images"@] } else { Seq::<Seq<char>>::empty() })
        + seq!["Creating container"@, "Loading cached images"@];
    assert(plan == head
        + (if has_compose || has_services { seq!["Starting services"@] } else { Seq::<Seq<char>>::empty() })
        + seq!["Allocating ports"@]
        + (if has_worktree { seq!["Assigning worktree"@] } else { Seq::<Seq<char>>::empty() }));
    if has_compose {
        assert(head =~= seq!["Preparing instance"@, "Building images"@, "Creating container"@, "Loading cached images"@]);
    } else {
        assert(head =~= seq!["Preparing instance"@, "Creating container"@, "Loading cached images"@]);
    }
    assert(plan[1] == head[1]);
    assert(plan[2] == head[2]);
    if has_compose {
        assert(plan[3] == head[3]);
    }
}

/// The build directory the artifacts are read from: the requested build when its
/// directory exists, `latest` otherwise.
pub fn artifact_dir_name(build_id: Option<&str>, build_dir_exists: bool) -> (name: String)
    ensures
        name@ == match build_id {
            Some(b) => if build_dir_exists { b@ } else { "latest"@ },
            None => "latest"@,
        },
{
    match build_id {
        Some(b) => if build_dir_exists { b.to_owned() } else { "latest".to_owned() },
        None => "latest".to_owned(),
    }
}

/// The artifact directory of a project's build under the images directory:
/// `{images_dir}/{project}/{build or latest}`.
pub fn artifact_dir_path(images_dir: &str, project: &str, build_id: Option<&str>, build_dir_exists: bool)
    -> (path: String)
    ensures
        path@ == images_dir@ + "/"@ + project@ + "/"@ + match build_id {
            Some(b) => if build_dir_exists { b@ } else { "latest"@ },
            None => "latest"@,
        },
{
    let name = artifact_dir_name(build_id, build_dir_exists);
    let mut path = concat3(images_dir, "/", project);
    path.append("/");
    path.append(name.as_str());
    path
}

/// The ports the coast container publishes: each pre-allocated dynamic port on the
/// host, to its canonical port in the container, as `(host, container)`.
pub fn published_ports(pre_allocated: &[(String, u16, u16)]) -> (ports: Vec<(u16, u16)>)
    ensures
        ports@.len() == pre_allocated@.len(),
        forall|i: int| 0 <= i < ports@.len() ==>
            (#[trigger] ports@[i]) == (pre_allocated@[i].2, pre_allocated@[i].1),
{
    let mut ports: Vec<(u16, u16)> = Vec::new();
    let mut i: usize = 0;
    while i < pre_allocated.len()
        invariant
            i <= pre_allocated@.len(),
            ports@.len() == i,
            forall|j: int| 0 <= j < i ==> (#[trigger] ports@[j]) == (pre_allocated@[j].2, pre_allocated@[j].1),
        decreases pre_allocated@.len() - i,
    {
        ports.push((pre_allocated[i].2, pre_allocated[i].1));
        i = i + 1;
    }
    ports
}

/// Where a Coastfile volume is mounted in the coast container.
pub fn coast_volume_container_path(volume_name: &str) -> (path: String)
    ensures
        path@ == "/coast-volumes/"@ + volume_name@,
{
    concat2("/coast-volumes/", volume_name)
}

/// The `docker ps` arguments that list the containers using a volume.
pub fn containers_using_volume_args(volume: &str) -> (args: Vec<String>)
    ensures
        string_views(args@) == seq!["ps"@, "-q"@, "--filter"@, "volume="@ + volume@],
{
    let args = vec!["ps".to_owned(), "-q".to_owned(), "--filter".to_owned(), concat2("volume=", volume)];
    assert(string_views(args@) =~= seq!["ps"@, "-q"@, "--filter"@, "volume="@ + volume@]);
    args
}

/// The docker arguments that apply `verb` (`stop` or `start`) to the containers.
pub fn docker_containers_args(verb: &str, ids: &[String]) -> (args: Vec<String>)
    ensures
        string_views(args@) == seq![verb@] + string_views(ids@),
{
    let mut args: Vec<String> = vec![verb.to_owned()];
    let mut i: usize = 0;
    while i < ids.len()
        invariant
            i <= ids@.len(),
            string_views(args@) == seq![verb@] + string_views(ids@.take(i as int)),
        decreases ids@.len() - i,
    {
        let ghost before = string_views(args@);
        args.push(ids[i].clone());
        i = i + 1;
        assert(string_views(ids@.take(i as int)) =~= string_views(ids@.take(i - 1)).push(ids@[i - 1]@));
        assert(string_views(args@) =~= before.push(ids@[i - 1]@));
    }
    assert(ids@.take(ids@.len() as int) =~= ids@);
    args
}

/// The progress note of a snapshot copy: `Copying volume {src} → {dest}`.
pub fn copying_volume_note(src: &str, dest: &str) -> (note: String)
    ensures
        note@ == "Copying volume "@ + src@ + " \u{2192} "@ + dest@,
{
    let mut note = concat3("Copying volume ", src, " \u{2192} ");
    note.append(dest);
    note
}

/// The error of a failed snapshot copy.
pub fn snapshot_copy_failed_message(volume_name: &str, src: &str, stderr: &str) -> (msg: String)
    ensures
        msg@ == "snapshot copy failed for volume '"@ + volume_name@ + "' (source: '"@ + src@ + "'): "@
            + stderr@ + ". Verify the source volume exists with: docker volume ls | grep "@ + src@,
{
    let mut msg = concat3("snapshot copy failed for volume '", volume_name, "' (source: '");
    msg.append(src);
    msg.append("'): ");
    msg.append(stderr);
    msg.append(". Verify the source volume exists with: docker volume ls | grep ");
    msg.append(src);
    msg
}

/// The logical name that becomes the build's primary port: the only port of an
/// instance of a known build, unless the build already has one.
pub fn primary_port_to_set(build_known: bool, has_primary: bool, ports: &[PortMapping]) -> (name: Option<String>)
    ensures
        match name {
            Some(n) => build_known && !has_primary && ports@.len() == 1 && n@ == ports@[0].logical_name@,
            None => !(build_known && !has_primary && ports@.len() == 1),
        },
{
    if build_known && !has_primary && ports.len() == 1 {
        Some(ports[0].logical_name.clone())
    } else {
        None
    }
}

/// The progress note of an allocated port: `{name} :{canonical} → :{dynamic}`.
pub fn allocated_port_note(m: &PortMapping) -> (note: String)
    ensures
        note@ == m.logical_name@ + " :"@ + decimal(m.canonical_port as nat) + " \u{2192} :"@
            + decimal(m.dynamic_port as nat),
{
    let mut v: Vec<char> = Vec::new();
    extend_chars(&mut v, m.logical_name.as_str());
    extend_chars(&mut v, " :");
    push_decimal(&mut v, m.canonical_port as u64);
    extend_chars(&mut v, " \u{2192} :");
    push_decimal(&mut v, m.dynamic_port as u64);
    string_from_chars(v.as_slice())
}

} // verus!
