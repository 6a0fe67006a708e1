//! Decisions `coast run` makes before provisioning: the progress plan, which build
//! a project's `latest` link names, whether the Coastfile disables autostart, and
//! the branch reported by git.

use vstd::prelude::*;
use vstd::string::*;
use crate::text::{string_views, str_eq, concat2, chars_of, string_from_chars, trim_ws, trim_bounds, trimmed,
    lemma_first_index_of};
use crate::lifecycle::{std_lines, strip_cr, path_parent, path_strip_prefix, unix_path_parent, unix_path_strip_prefix};

verus! {

/// The progress steps of `coast run`, in order.
pub open spec fn run_plan_spec(has_compose: bool, has_services: bool, has_worktree: bool) -> Seq<Seq<char>> {
    seq!["Preparing instance"@]
        + (if has_compose { seq!["Building images"@] } else { Seq::empty() })
        + seq!["Creating container"@, "Loading cached images"@]
        + (if has_compose || has_services { seq!["Starting services"@] } else { Seq::empty() })
        + seq!["Allocating ports"@]
        + (if has_worktree { seq!["Assigning worktree"@] } else { Seq::empty() })
}

/// The progress plan announced by `coast run`: images are built only for compose
/// projects, services started only when there are any, and a worktree assigned
/// only when one was asked for.
pub fn run_plan_steps(has_compose: bool, has_services: bool, has_worktree: bool) -> (steps: Vec<String>)
    ensures
        string_views(steps@) == run_plan_spec(has_compose, has_services, has_worktree),
{
    let mut steps: Vec<String> = vec!["Preparing instance".to_owned()];
    let ghost s0 = string_views(steps@);
    assert(s0 =~= seq!["Preparing instance"@]);
    if has_compose {
        steps.push("Building images".to_owned());
    }
    let ghost s1 = string_views(steps@);
    assert(s1 =~= s0 + (if has_compose { seq!["Building images"@] } else { Seq::<Seq<char>>::empty() }));
    steps.push("Creating container".to_owned());
    steps.push("Loading cached images".to_owned());
    let ghost s2 = string_views(steps@);
    assert(s2 =~= s1 + seq!["Creating container"@, "Loading cached images"@]);
    if has_compose || has_services {
        steps.push("Starting services".to_owned());
    }
    let ghost s3 = string_views(steps@);
    assert(s3 =~= s2 + (if has_compose || has_services { seq!["Starting services"@] } else { Seq::<Seq<char>>::empty() }));
    steps.push("Allocating ports".to_owned());
    let ghost s4 = string_views(steps@);
    assert(s4 =~= s3 + seq!["Allocating ports"@]);
    if has_worktree {
        steps.push("Assigning worktree".to_owned());
    }
    assert(string_views(steps@) =~= s4 + (if has_worktree { seq!["Assigning worktree"@] } else { Seq::<Seq<char>>::empty() }));
    steps
}

/// The name of a project's `latest` link: `latest`, or `latest-{type}` for a named
/// Coastfile type.
pub fn latest_link_name(coastfile_type: Option<&str>) -> (name: String)
    ensures
        name@ == match coastfile_type {
            Some(t) => "latest-"@ + t@,
            None => "latest"@,
        },
{
    match coastfile_type {
        Some(t) => concat2("latest-", t),
        None => "latest".to_owned(),
    }
}

/// Whether a trimmed Coastfile line turns autostart off.
pub open spec fn disables_autostart(line: Seq<char>) -> bool {
    let t = trim_ws(line);
    t == "autostart = false"@ || (t.len() >= 18 && t.take(18) == "autostart = false "@)
}

/// Whether some line of the Coastfile text turns autostart off (then the instance
/// starts neither compose nor services).
pub open spec fn autostart_disabled_spec(text: Seq<char>) -> bool {
    exists|i: int| 0 <= i < std_lines(text).len() && disables_autostart(#[trigger] std_lines(text)[i])
}

fn line_disables_autostart(line: &Vec<char>) -> (b: bool)
    ensures
        b == disables_autostart(line@),
{
    let (lo, hi) = trim_bounds(line.as_slice(), false);
    let mut t: Vec<char> = Vec::new();
    let mut k: usize = lo;
    while k < hi
        invariant
            lo <= k <= hi,
            hi <= line@.len(),
            t@ == line@.subrange(lo as int, k as int),
        decreases hi - k,
    {
        t.push(line[k]);
        k = k + 1;
        assert(t@ =~= line@.subrange(lo as int, k as int));
    }
    let whole = string_from_chars(t.as_slice());
    if str_eq(whole.as_str(), "autostart = false") {
        return true;
    }
    proof { reveal_strlit("autostart = false "); }
    if t.len() < 18 {
        return false;
    }
    let mut head: Vec<char> = Vec::new();
    let mut q: usize = 0;
    while q < 18
        invariant
            q <= 18,
            18 <= t@.len(),
            head@ == t@.take(q as int),
        decreases 18 - q,
    {
        head.push(t[q]);
        q = q + 1;
        assert(head@ =~= t@.take(q as int));
    }
    let hs = string_from_chars(head.as_slice());
    str_eq(hs.as_str(), "autostart = false ")
}

proof fn lemma_exists_line_cons(a: Seq<char>, rest: Seq<Seq<char>>)
    ensures
        (exists|i: int| 0 <= i < (seq![a] + rest).len() && disables_autostart(#[trigger] (seq![a] + rest)[i]))
            == (disables_autostart(a) || exists|i: int| 0 <= i < rest.len() && disables_autostart(#[trigger] rest[i])),
{
    let s = seq![a] + rest;
    assert(s[0] == a);
    if exists|i: int| 0 <= i < rest.len() && disables_autostart(#[trigger] rest[i]) {
        let i = choose|i: int| 0 <= i < rest.len() && disables_autostart(#[trigger] rest[i]);
        assert(s[i + 1] == rest[i]);
    }
    if exists|i: int| 0 <= i < s.len() && disables_autostart(#[trigger] s[i]) {
        let i = choose|i: int| 0 <= i < s.len() && disables_autostart(#[trigger] s[i]);
        if i > 0 {
            assert(s[i] == rest[i - 1]);
        }
    }
}

/// Whether the Coastfile text turns autostart off on some line
/// (`autostart = false`, possibly followed by a space and more).
pub fn coastfile_autostart_disabled(text: &str) -> (b: bool)
    ensures
        b == autostart_disabled_spec(text@),
{
    let chars = chars_of(text);
    let n = chars.len();
    let mut start: usize = 0;
    assert(chars@.skip(0) =~= chars@);
    loop
        invariant
            start <= n,
            n == chars@.len(),
            chars@ == text@,
            autostart_disabled_spec(text@) == autostart_disabled_spec(chars@.skip(start as int)),
        decreases n - start,
    {
        let ghost rest = chars@.skip(start as int);
        if start == n {
            assert(std_lines(rest) =~= Seq::<Seq<char>>::empty());
            return false;
        }
        let mut end: usize = start;
        while end < n && chars[end] != '\n'
            invariant
                start <= end <= n,
                n == chars@.len(),
                forall|j: int| start <= j < end ==> chars@[j] != '\n',
            decreases n - end,
        {
            end = end + 1;
        }
        let mut hi: usize = end;
        if end < n && end > start && chars[end - 1] == '\r' {
            hi = end - 1;
        }
        let mut line: Vec<char> = Vec::new();
        let mut j: usize = start;
        while j < hi
            invariant
                start <= j <= hi,
                hi <= n,
                n == chars@.len(),
                line@ == chars@.subrange(start as int, j as int),
            decreases hi - j,
        {
            line.push(chars[j]);
            j = j + 1;
            assert(line@ =~= chars@.subrange(start as int, j as int));
        }
        let hit = line_disables_autostart(&line);
        proof {
            assert forall|q: int| 0 <= q < end - start implies rest[q] != '\n' by {
                assert(rest[q] == chars@[start + q]);
            }
            if end < n {
                assert(rest[end - start] == chars@[end as int]);
            }
            lemma_first_index_of(rest, '\n', end - start);
            if end < n {
                assert(strip_cr(rest.take(end - start)) =~= line@);
                assert(rest.skip(end - start + 1) =~= chars@.skip(end + 1));
                assert(std_lines(rest) == seq![line@] + std_lines(chars@.skip(end + 1)));
                lemma_exists_line_cons(line@, std_lines(chars@.skip(end + 1)));
                assert(autostart_disabled_spec(rest) == (disables_autostart(line@)
                    || autostart_disabled_spec(chars@.skip(end + 1))));
            } else {
                assert(rest =~= line@);
                assert(std_lines(rest) =~= seq![line@] + Seq::<Seq<char>>::empty());
                lemma_exists_line_cons(line@, Seq::<Seq<char>>::empty());
                assert(autostart_disabled_spec(rest) == disables_autostart(line@));
            }
        }
        if hit {
            return true;
        }
        if end == n {
            return false;
        }
        start = end + 1;
    }
}

/// The branch named by `git rev-parse --abbrev-ref HEAD`: its trimmed output, unless
/// the command failed, printed nothing, or printed `HEAD` (a detached head).
pub fn branch_from_git_output(success: bool, stdout: &str) -> (branch: Option<String>)
    ensures
        match branch {
            Some(b) => success && b@ == trim_ws(stdout@) && b@.len() > 0 && b@ != "HEAD"@,
            None => !success || trim_ws(stdout@).len() == 0 || trim_ws(stdout@) == "HEAD"@,
        },
{
    if !success {
        return None;
    }
    let b = trimmed(stdout);
    if b.unicode_len() == 0 || str_eq(b.as_str(), "HEAD") {
        None
    } else {
        Some(b)
    }
}

/// The current branch as `git rev-parse --abbrev-ref HEAD` reports it for display:
/// its trimmed output when the command succeeded.
pub fn host_branch_from_git_output(success: bool, stdout: &str) -> (branch: Option<String>)
    ensures
        match branch {
            Some(b) => success && b@ == trim_ws(stdout@),
            None => !success,
        },
{
    if !success {
        return None;
    }
    Some(trimmed(stdout))
}

/// Whether the instance must be built from a `git archive` of the requested branch
/// inside the DinD container: only for compose projects, when a branch was asked
/// for and the host checkout is known to be on another branch.
pub fn archive_build_needed(has_compose: bool, branch: Option<&str>, host_branch: Option<&str>) -> (b: bool)
    ensures
        b == (has_compose && branch is Some && host_branch is Some
            && host_branch->0@ != branch->0@),
{
    if !has_compose {
        return false;
    }
    match (branch, host_branch) {
        (Some(br), Some(hb)) => !str_eq(hb, br),
        _ => false,
    }
}

/// What the Coastfile of a build says about how an instance runs.
pub struct CoastfileInfo {
    /// The instance runs a compose stack.
    pub has_compose: bool,
    /// The compose file's directory relative to the build's artifact directory, when
    /// it is another one.
    pub compose_rel_dir: Option<String>,
    /// The instance runs bare services.
    pub has_services: bool,
}

/// What a parsed Coastfile declares.
pub struct ParsedCoastfile {
    pub has_compose: bool,
    pub compose_rel_dir: Option<String>,
    pub service_count: usize,
}

/// How a build's Coastfile decides how the instance runs: without a Coastfile, or
/// with one that does not parse, as a compose project; with `autostart = false`,
/// running nothing; otherwise as the Coastfile declares.
pub fn coastfile_info(exists: bool, text: &str, parsed: Option<ParsedCoastfile>) -> (info: CoastfileInfo)
    ensures
        !exists ==> info.has_compose && info.compose_rel_dir is None && !info.has_services,
        exists && autostart_disabled_spec(text@) ==>
            !info.has_compose && info.compose_rel_dir is None && !info.has_services,
        exists && !autostart_disabled_spec(text@) ==> match parsed {
            None => info.has_compose && info.compose_rel_dir is None && !info.has_services,
            Some(p) => info.has_compose == p.has_compose && info.compose_rel_dir == p.compose_rel_dir
                && info.has_services == (p.service_count > 0),
        },
{
    if !exists {
        return CoastfileInfo { has_compose: true, compose_rel_dir: None, has_services: false };
    }
    if coastfile_autostart_disabled(text) {
        return CoastfileInfo { has_compose: false, compose_rel_dir: None, has_services: false };
    }
    match parsed {
        None => CoastfileInfo { has_compose: true, compose_rel_dir: None, has_services: false },
        Some(p) => CoastfileInfo {
            has_compose: p.has_compose,
            compose_rel_dir: p.compose_rel_dir,
            has_services: p.service_count > 0,
        },
    }
}

/// What `coast run` does about a container left over under the instance's name.
#[derive(Debug, Clone, Copy, PartialEq, Eq, Structural)]
pub enum DanglingAction {
    /// There is none: go on.
    Proceed,
    /// Remove it (and its image cache volume), then go on.
    Remove,
    /// Refuse the run.
    Refuse,
}

/// A leftover container is removed when the run forces it and refuses the run otherwise.
pub fn dangling_action(container_exists: bool, force_remove: bool) -> (a: DanglingAction)
    ensures
        a == (if !container_exists {
            DanglingAction::Proceed
        } else if force_remove {
            DanglingAction::Remove
        } else {
            DanglingAction::Refuse
        }),
{
    if !container_exists {
        DanglingAction::Proceed
    } else if force_remove {
        DanglingAction::Remove
    } else {
        DanglingAction::Refuse
    }
}

/// The progress note after removing a leftover container.
pub fn dangling_removed_note(container_name: &str) -> (note: String)
    ensures
        note@ == "Removed dangling container "@ + container_name@,
{
    concat2("Removed dangling container ", container_name)
}

/// A relative directory kept only when it is not empty (the compose file sits in the
/// artifact directory itself otherwise).
pub fn nonempty_rel_dir(rel: Option<String>) -> (r: Option<String>)
    ensures
        match rel {
            Some(d) => if d@.len() > 0 { r == Some(d) } else { r is None },
            None => r is None,
        },
{
    match rel {
        Some(d) => if d.unicode_len() > 0 { Some(d) } else { None },
        None => None,
    }
}

/// The directory of the compose file relative to the directory of the build's
/// Coastfile: `None` when either has no parent, when the compose directory is not
/// under the Coastfile's, or when it is the same directory (the relative path is
/// then empty).
pub fn compose_rel_dir(compose_path: &str, coastfile_path: &str) -> (r: Option<String>)
    ensures
        match (unix_path_parent(compose_path@), unix_path_parent(coastfile_path@)) {
            (Some(p), Some(a)) => match unix_path_strip_prefix(p, a) {
                Some(rel) => if rel.len() > 0 { r matches Some(d) && d@ == rel } else { r is None },
                None => r is None,
            },
            _ => r is None,
        },
{
    let parent = match path_parent(compose_path) {
        Some(p) => p,
        None => return None,
    };
    let artifact_parent = match path_parent(coastfile_path) {
        Some(a) => a,
        None => return None,
    };
    nonempty_rel_dir(path_strip_prefix(parent.as_str(), artifact_parent.as_str()))
}

/// Whether `coast start` runs compose for a project: yes unless its Coastfile exists,
/// parses, and declares no compose file (`declares_compose` is `None` when the
/// Coastfile does not parse).
pub fn project_runs_compose(coastfile_exists: bool, declares_compose: Option<bool>) -> (b: bool)
    ensures
        b == (!coastfile_exists || match declares_compose { Some(c) => c, None => true }),
{
    if !coastfile_exists {
        return true;
    }
    match declares_compose {
        Some(c) => c,
        None => true,
    }
}

} // verus!
