//! Commands and mount descriptions for loading cached OCI image tarballs
//! into the inner Docker daemon of a coast container.

use vstd::prelude::*;
use vstd::string::*;
use crate::text::{string_views};

verus! {

/// Default mount path for the image cache inside a coast container.
pub const IMAGE_CACHE_CONTAINER_PATH: &'static str = "/image-cache";

/// The `docker load` command for one tarball: `docker load -i <path>`.
pub open spec fn load_command_spec(tarball_path: Seq<char>) -> Seq<Seq<char>> {
    seq!["docker"@, "load"@, "-i"@, tarball_path]
}

/// Generate the `docker load` command for a single OCI tarball.
pub fn load_command(tarball_path: &str) -> (cmd: Vec<String>)
    ensures
        string_views(cmd@) == load_command_spec(tarball_path@),
{
    let cmd = vec![
        "docker".to_owned(),
        "load".to_owned(),
        "-i".to_owned(),
        tarball_path.to_owned(),
    ];
    assert(string_views(cmd@) =~= load_command_spec(tarball_path@));
    cmd
}


/// Generate the bind mount pair `(host_path, container_path)` for the image cache.
pub fn image_cache_mount(cache_dir: &str) -> (pair: (String, String))
    ensures
        pair.0@ == cache_dir@,
        pair.1@ == IMAGE_CACHE_CONTAINER_PATH@,
{
    (cache_dir.to_owned(), IMAGE_CACHE_CONTAINER_PATH.to_owned())
}

/// The readiness probe for the inner daemon: `docker info`.
pub open spec fn wait_for_inner_daemon_command_spec() -> Seq<Seq<char>> {
    seq!["docker"@, "info"@]
}

/// Generate the command to check inner daemon readiness.
pub fn wait_for_inner_daemon_command() -> (cmd: Vec<String>)
    ensures
        string_views(cmd@) == wait_for_inner_daemon_command_spec(),
{
    let cmd = vec!["docker".to_owned(), "info".to_owned()];
    assert(string_views(cmd@) =~= wait_for_inner_daemon_command_spec());
    cmd
}

/// The full in-container path of a cached tarball: `{cache_mount_path}/{name}`.
pub open spec fn cached_tarball_path(cache_mount_path: Seq<char>, name: Seq<char>) -> Seq<char> {
    cache_mount_path + "/"@ + name
}

/// Generate one `docker load -i` command per tarball, in the order given.
pub fn load_all_images_commands(tarball_names: &[String], cache_mount_path: &str) -> (cmds: Vec<Vec<String>>)
    ensures
        cmds@.len() == tarball_names@.len(),
        forall|i: int| 0 <= i < cmds@.len() ==> string_views(#[trigger] cmds@[i]@)
            == load_command_spec(cached_tarball_path(cache_mount_path@, tarball_names@[i]@)),
{
    let mut cmds: Vec<Vec<String>> = Vec::new();
    let mut i: usize = 0;
    while i < tarball_names.len()
        invariant
            i <= tarball_names@.len(),
            cmds@.len() == i,
            forall|j: int| 0 <= j < i ==> string_views(#[trigger] cmds@[j]@)
                == load_command_spec(cached_tarball_path(cache_mount_path@, tarball_names@[j]@)),
        decreases tarball_names@.len() - i,
    {
        let mut full_path = cache_mount_path.to_owned();
        full_path.append("/");
        full_path.append(tarball_names[i].as_str());
        cmds.push(load_command(full_path.as_str()));
        i = i + 1;
    }
    cmds
}

/// The bind mount string `{cache_dir}:/image-cache:ro`.
pub open spec fn image_cache_bind_mount_spec(cache_dir: Seq<char>) -> Seq<char> {
    cache_dir + ":"@ + IMAGE_CACHE_CONTAINER_PATH@ + ":ro"@
}

/// Generate a read-only Docker bind mount string for the image cache.
pub fn image_cache_bind_mount_string(cache_dir: &str) -> (mount: String)
    ensures
        mount@ == image_cache_bind_mount_spec(cache_dir@),
{
    let mut s = cache_dir.to_owned();
    s.append(":");
    s.append(IMAGE_CACHE_CONTAINER_PATH);
    s.append(":ro");
    s
}

/// Loading every cached tarball is loading each one by its full path:
/// the `i`-th batch command equals `load_command` of the `i`-th tarball's path.
pub proof fn lemma_batch_is_pointwise(names: Seq<Seq<char>>, mount: Seq<char>, cmds: Seq<Seq<Seq<char>>>, i: int)
    requires
        cmds.len() == names.len(),
        forall|j: int| 0 <= j < cmds.len() ==> #[trigger] cmds[j] == load_command_spec(cached_tarball_path(mount, names[j])),
        0 <= i < names.len(),
    ensures
        cmds[i].len() == 4,
        cmds[i][0] == "docker"@,
        cmds[i][1] == "load"@,
        cmds[i][2] == "-i"@,
        cmds[i][3] == mount + "/"@ + names[i],
{
}

/// The outcome of checking the image cache directory: it must exist and be a directory.
pub open spec fn cache_dir_check_spec(path: Seq<char>, exists: bool, is_dir: bool) -> Result<(), Seq<char>> {
    if !exists {
        Err("Image cache directory '"@ + path + "' does not exist. Run `coast build` to create it and cache images."@)
    } else if !is_dir {
        Err("Image cache path '"@ + path + "' exists but is not a directory."@)
    } else {
        Ok(())
    }
}

/// Check the image cache directory given what the filesystem reports about `path`.
pub fn cache_dir_check(path: &str, exists: bool, is_dir: bool) -> (r: Result<(), String>)
    ensures
        match r {
            Ok(()) => cache_dir_check_spec(path@, exists, is_dir) is Ok,
            Err(m) => cache_dir_check_spec(path@, exists, is_dir) == Err::<(), Seq<char>>(m@),
        },
{
    if !exists {
        return Err(crate::text::concat3("Image cache directory '", path,
            "' does not exist. Run `coast build` to create it and cache images."));
    }
    if !is_dir {
        return Err(crate::text::concat3("Image cache path '", path, "' exists but is not a directory."));
    }
    Ok(())
}

} // verus!
