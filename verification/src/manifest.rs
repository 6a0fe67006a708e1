//! The manifest a build of a coast image writes beside its artifacts, a JSON
//! object: the fields the daemon reads from it, and the workspace mount a start
//! derives from its project root.

use vstd::prelude::*;
use crate::lifecycle::{workspace_mount_spec, parent_text, workspace_mount_command};

verus! {

/// The string that `serde_json` finds under the key `field` of the JSON object in
/// `text`; `None` when the text is no JSON value, is no object, lacks the key, or
/// holds something other than a string there.
pub uninterp spec fn json_string_field(text: Seq<char>, field: Seq<char>) -> Option<Seq<char>>;

/// The string under `field` of the JSON object in `text`
/// (`serde_json::from_str::<Value>`, then `Value::get` and `Value::as_str`). The
/// contract names the result `json_string_field` and leaves the JSON grammar
/// unstated.
#[verifier::external_body]
fn json_field_text(text: &str, field: &str) -> (r: Option<String>)
    ensures
        match r {
            Some(s) => json_string_field(text@, field@) == Some(s@),
            None => json_string_field(text@, field@) is None,
        },
{
    match serde_json::from_str::<serde_json::Value>(text) {
        Ok(v) => v.get(field).and_then(|f| f.as_str()).map(String::from),
        Err(_) => None,
    }
}

/// The string under `field` of a manifest's text, where there is a manifest.
pub open spec fn manifest_field(manifest: Option<Seq<char>>, field: Seq<char>) -> Option<Seq<char>> {
    match manifest {
        Some(text) => json_string_field(text, field),
        None => None,
    }
}

/// The image a build recorded for its coast containers (`coast_image`); `None`
/// without a manifest or without that field.
pub fn coast_image_of(manifest: Option<&str>) -> (r: Option<String>)
    ensures
        match r {
            Some(s) => manifest_field(match manifest { Some(t) => Some(t@), None => None }, "coast_image"@)
                == Some(s@),
            None => manifest_field(match manifest { Some(t) => Some(t@), None => None }, "coast_image"@) is None,
        },
{
    match manifest {
        Some(text) => json_field_text(text, "coast_image"),
        None => None,
    }
}

/// The project root on the host that a build recorded (`project_root`); `None`
/// without a manifest or without that field.
pub fn project_root_of(manifest: Option<&str>) -> (r: Option<String>)
    ensures
        match r {
            Some(s) => manifest_field(match manifest { Some(t) => Some(t@), None => None }, "project_root"@)
                == Some(s@),
            None => manifest_field(match manifest { Some(t) => Some(t@), None => None }, "project_root"@) is None,
        },
{
    match manifest {
        Some(text) => json_field_text(text, "project_root"),
        None => None,
    }
}

/// The project root a start links inside the container: the manifest's
/// `project_root`, empty when there is none.
pub open spec fn start_project_root(manifest: Option<Seq<char>>) -> Seq<char> {
    match manifest_field(manifest, "project_root"@) {
        Some(root) => root,
        None => Seq::empty(),
    }
}

/// The script a start runs to re-apply the `/workspace` bind mount, with the
/// project root read from the image's manifest (none links nothing).
pub fn start_workspace_mount(worktree: Option<&str>, worktree_dir: &str, manifest: Option<&str>) -> (cmd: String)
    ensures
        cmd@ == workspace_mount_spec(match worktree { Some(w) => Some(w@), None => None }, worktree_dir@,
            start_project_root(match manifest { Some(t) => Some(t@), None => None }),
            parent_text(start_project_root(match manifest { Some(t) => Some(t@), None => None }))),
{
    let root = match project_root_of(manifest) {
        Some(r) => r,
        None => String::new(),
    };
    workspace_mount_command(worktree, worktree_dir, root.as_str())
}

} // verus!
