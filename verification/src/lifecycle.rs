//! Instance lifecycle decisions of the daemon's handlers: which states a start or
//! a stop may begin from, which instances are restored when the daemon starts, the
//! status an instance settles in, whether a compose stack reports ready, and the
//! shell command that binds the workspace inside a coast container.

use vstd::prelude::*;
use vstd::string::*;
use crate::text::{first_index_of, lemma_first_index_of, lemma_first_index_of_bounds, contains_seq, contains_chars,
    chars_of, string_from_chars, extend_chars};

verus! {

/// The status of a coast instance.
#[derive(Debug, Clone, Copy, PartialEq, Eq, Structural)]
pub enum InstanceStatus {
    Enqueued,
    Provisioning,
    Assigning,
    Unassigning,
    Starting,
    Stopping,
    Running,
    CheckedOut,
    Stopped,
    Idle,
}

/// Whether another operation is in progress on an instance in this status.
pub open spec fn is_busy(s: InstanceStatus) -> bool {
    s is Provisioning || s is Assigning || s is Starting || s is Stopping
}

/// Whether an instance in this status is up (running or checked out).
pub open spec fn is_up(s: InstanceStatus) -> bool {
    s is Running || s is CheckedOut
}

/// The outcome of checking whether a start or stop may begin.
#[derive(Debug, Clone, Copy, PartialEq, Eq, Structural)]
pub enum TransitionCheck {
    /// The operation may begin.
    Proceed,
    /// The instance is already where the operation would take it.
    AlreadyThere,
    /// Another operation is in progress; the caller has to wait for it.
    Busy,
    /// The instance is in no status the operation starts from (for a start: not
    /// stopped; for a stop: neither running nor checked out).
    Refused,
}

fn busy(s: InstanceStatus) -> (b: bool)
    ensures
        b == is_busy(s),
{
    match s {
        InstanceStatus::Provisioning | InstanceStatus::Assigning | InstanceStatus::Starting
        | InstanceStatus::Stopping => true,
        _ => false,
    }
}

/// Whether `coast start` may begin from `status`: only from a stopped instance. A
/// running or checked-out one is already there, a busy one has to wait, and any
/// other status is refused.
pub fn start_check(status: InstanceStatus) -> (c: TransitionCheck)
    ensures
        is_up(status) ==> c == TransitionCheck::AlreadyThere,
        is_busy(status) ==> c == TransitionCheck::Busy,
        status is Stopped ==> c == TransitionCheck::Proceed,
        !is_up(status) && !is_busy(status) && !(status is Stopped) ==> c == TransitionCheck::Refused,
{
    match status {
        InstanceStatus::Running | InstanceStatus::CheckedOut => TransitionCheck::AlreadyThere,
        InstanceStatus::Stopped => TransitionCheck::Proceed,
        _ => if busy(status) { TransitionCheck::Busy } else { TransitionCheck::Refused },
    }
}

/// Whether `coast stop` may begin from `status`: only from a running or
/// checked-out instance. A stopped one is already there, a busy one has to wait,
/// and any other status is refused.
pub fn stop_check(status: InstanceStatus) -> (c: TransitionCheck)
    ensures
        status is Stopped ==> c == TransitionCheck::AlreadyThere,
        is_busy(status) ==> c == TransitionCheck::Busy,
        is_up(status) ==> c == TransitionCheck::Proceed,
        !is_up(status) && !is_busy(status) && !(status is Stopped) ==> c == TransitionCheck::Refused,
{
    match status {
        InstanceStatus::Stopped => TransitionCheck::AlreadyThere,
        InstanceStatus::Running | InstanceStatus::CheckedOut => TransitionCheck::Proceed,
        _ => if busy(status) { TransitionCheck::Busy } else { TransitionCheck::Refused },
    }
}

/// A start and a stop never both proceed from one status: a start proceeds only
/// from a stopped instance, a stop only from a running or checked-out one, and
/// while an operation is in progress neither begins.
pub proof fn lemma_start_stop_checks(s: InstanceStatus)
    ensures
        is_busy(s) ==> !is_up(s) && !(s is Stopped),
        s is Stopped ==> !is_up(s) && !is_busy(s),
        is_up(s) ==> !(s is Stopped) && !is_busy(s),
        !(s is Stopped && is_up(s)),
{
}

/// Whether the daemon restores an instance's forwarding and collectors when it
/// starts: the instance is up and has a container.
pub fn is_restorable(status: InstanceStatus, has_container: bool) -> (b: bool)
    ensures
        b == (is_up(status) && has_container),
{
    match status {
        InstanceStatus::Running | InstanceStatus::CheckedOut => has_container,
        _ => false,
    }
}

/// The status a new instance settles in once provisioned: running when it has a
/// compose stack or bare services, idle otherwise.
pub fn provisioned_status(has_compose: bool, has_services: bool) -> (s: InstanceStatus)
    ensures
        s == (if has_compose || has_services { InstanceStatus::Running } else { InstanceStatus::Idle }),
{
    if has_compose || has_services { InstanceStatus::Running } else { InstanceStatus::Idle }
}

/// What `coast run` does about an instance of the same name.
#[derive(Debug, Clone, Copy, PartialEq, Eq, Structural)]
pub enum ExistingInstance {
    /// No instance of that name: create it.
    Create,
    /// An enqueued placeholder: delete it and create the instance.
    ReplaceEnqueued,
    /// A real instance of that name exists: refuse.
    AlreadyExists,
}

/// The action of `coast run` given the status of an existing instance of the same name.
pub fn existing_instance_action(existing: Option<InstanceStatus>) -> (a: ExistingInstance)
    ensures
        a == match existing {
            None => ExistingInstance::Create,
            Some(s) => if s is Enqueued { ExistingInstance::ReplaceEnqueued } else { ExistingInstance::AlreadyExists },
        },
{
    match existing {
        None => ExistingInstance::Create,
        Some(InstanceStatus::Enqueued) => ExistingInstance::ReplaceEnqueued,
        Some(_) => ExistingInstance::AlreadyExists,
    }
}

/// The status after unassigning a worktree: an idle instance becomes running, any
/// other keeps its status.
pub fn unassigned_status(previous: InstanceStatus) -> (s: InstanceStatus)
    ensures
        s == (if previous is Idle { InstanceStatus::Running } else { previous }),
{
    match previous {
        InstanceStatus::Idle => InstanceStatus::Running,
        other => other,
    }
}

/// A line without the `\r` of a `\r\n` ending.
pub open spec fn strip_cr(l: Seq<char>) -> Seq<char> {
    if l.len() > 0 && l.last() == '\r' { l.drop_last() } else { l }
}

/// The lines of `s` as std `str::lines` yields them: split at `\n`, a `\r` before
/// the `\n` dropped, no empty line after a final `\n`.
pub open spec fn std_lines(s: Seq<char>) -> Seq<Seq<char>>
    decreases s.len(),
{
    if s.len() == 0 {
        Seq::empty()
    } else {
        let k = first_index_of(s, '\n');
        if k < s.len() {
            proof { lemma_first_index_of_bounds(s, '\n'); }
            seq![strip_cr(s.take(k))] + std_lines(s.skip(k + 1))
        } else {
            seq![s]
        }
    }
}

/// Whether a `docker compose ps` line reports a running or healthy service.
pub open spec fn line_is_up(l: Seq<char>) -> bool {
    contains_seq(l, "running"@) || contains_seq(l, "healthy"@)
}

/// Every line reports a running or healthy service.
pub open spec fn all_lines_up(lines: Seq<Seq<char>>) -> bool {
    forall|i: int| 0 <= i < lines.len() ==> line_is_up(#[trigger] lines[i])
}

proof fn lemma_all_lines_up_cons(a: Seq<char>, rest: Seq<Seq<char>>)
    ensures
        all_lines_up(seq![a] + rest) == (line_is_up(a) && all_lines_up(rest)),
{
    let s = seq![a] + rest;
    assert(s[0] == a);
    assert forall|i: int| 0 <= i < rest.len() implies #[trigger] rest[i] == s[i + 1] by {}
    if line_is_up(a) && all_lines_up(rest) {
        assert forall|i: int| 0 <= i < s.len() implies line_is_up(#[trigger] s[i]) by {
            if i > 0 {
                assert(s[i] == rest[i - 1]);
            }
        }
    }
    if all_lines_up(s) {
        assert(line_is_up(s[0]));
        assert forall|i: int| 0 <= i < rest.len() implies line_is_up(#[trigger] rest[i]) by {
            assert(line_is_up(s[i + 1]));
        }
    }
}

/// Whether `docker compose ps --format json` shows the stack ready: the command
/// succeeded, printed something, and every line reports a running or healthy service.
pub fn compose_services_ready(success: bool, stdout: &str) -> (b: bool)
    ensures
        b == (success && stdout@.len() > 0 && all_lines_up(std_lines(stdout@))),
{
    if !success || stdout.unicode_len() == 0 {
        return false;
    }
    let chars = chars_of(stdout);
    let n = chars.len();
    let mut start: usize = 0;
    assert(chars@.skip(0) =~= chars@);
    loop
        invariant
            success,
            stdout@.len() > 0,
            start <= n,
            n == chars@.len(),
            chars@ == stdout@,
            all_lines_up(std_lines(stdout@)) == all_lines_up(std_lines(chars@.skip(start as int))),
        decreases n - start,
    {
        let ghost rest = chars@.skip(start as int);
        if start == n {
            assert(rest.len() == 0);
            assert(std_lines(rest) =~= Seq::<Seq<char>>::empty());
            return true;
        }
        let mut end: usize = start;
        while end < n && chars[end] != '\n'
            invariant
                start <= end <= n,
                n == chars@.len(),
                forall|j: int| start <= j < end ==> chars@[j] != '\n',
            decreases n - end,
        {
            end = end + 1;
        }
        let mut hi: usize = end;
        if end < n && end > start && chars[end - 1] == '\r' {
            hi = end - 1;
        }
        let mut line: Vec<char> = Vec::new();
        let mut j: usize = start;
        while j < hi
            invariant
                start <= j <= hi,
                hi <= n,
                n == chars@.len(),
                line@ == chars@.subrange(start as int, j as int),
            decreases hi - j,
        {
            line.push(chars[j]);
            j = j + 1;
            assert(line@ =~= chars@.subrange(start as int, j as int));
        }
        let ok = contains_chars(line.as_slice(), "running") || contains_chars(line.as_slice(), "healthy");
        proof {
            assert forall|q: int| 0 <= q < end - start implies rest[q] != '\n' by {
                assert(rest[q] == chars@[start + q]);
            }
            if end < n {
                assert(rest[end - start] == chars@[end as int]);
            }
            lemma_first_index_of(rest, '\n', end - start);
            if end < n {
                assert(strip_cr(rest.take(end - start)) =~= line@);
                assert(rest.skip(end - start + 1) =~= chars@.skip(end + 1));
                lemma_all_lines_up_cons(line@, std_lines(chars@.skip(end + 1)));
            } else {
                assert(rest =~= line@);
                assert(std_lines(rest) =~= seq![line@] + Seq::<Seq<char>>::empty());
                lemma_all_lines_up_cons(line@, Seq::<Seq<char>>::empty());
            }
        }
        if !ok {
            return false;
        }
        if end == n {
            return true;
        }
        start = end + 1;
    }
}

/// The parent of a path as `std::path::Path::parent` gives it on the Unix targets
/// this daemon builds for, as text; `None` when the path has no parent.
pub uninterp spec fn unix_path_parent(path: Seq<char>) -> Option<Seq<char>>;

/// The parent of a path as text, empty when it has none.
pub open spec fn parent_text(path: Seq<char>) -> Seq<char> {
    match unix_path_parent(path) {
        Some(p) => p,
        None => Seq::empty(),
    }
}

/// The parent directory of a path (std `Path::parent`, lossily as text). The
/// contract names the result `unix_path_parent` and leaves the component rules of
/// `Path` unstated.
#[verifier::external_body]
pub(crate) fn path_parent(path: &str) -> (r: Option<String>)
    ensures
        match r {
            Some(p) => unix_path_parent(path@) == Some(p@),
            None => unix_path_parent(path@) is None,
        },
{
    std::path::Path::new(path).parent().map(|p| p.to_string_lossy().into_owned())
}

/// The parent of a path as text, empty when it has none.
pub(crate) fn parent_or_empty(path: &str) -> (r: String)
    ensures
        r@ == parent_text(path@),
{
    match path_parent(path) {
        Some(p) => p,
        None => String::new(),
    }
}

/// The last component of a path as `std::path::Path::file_name` gives it on Unix
/// targets, as text; `None` when the path ends in `..` or has no component.
pub uninterp spec fn unix_path_file_name(path: Seq<char>) -> Option<Seq<char>>;

/// The file name of a path (std `Path::file_name`, as text). The contract names the
/// result `unix_path_file_name` and leaves the component rules of `Path` unstated.
#[verifier::external_body]
pub(crate) fn path_file_name(path: &str) -> (r: Option<String>)
    ensures
        match r {
            Some(n) => unix_path_file_name(path@) == Some(n@),
            None => unix_path_file_name(path@) is None,
        },
{
    std::path::Path::new(path).file_name().and_then(|n| n.to_str()).map(String::from)
}

/// The last components of `path` after the leading components `base`, as
/// `std::path::Path::strip_prefix` gives them on Unix targets, as text; `None` when
/// `base` is not a prefix of `path`.
pub uninterp spec fn unix_path_strip_prefix(path: Seq<char>, base: Seq<char>) -> Option<Seq<char>>;

/// `path` relative to `base` (std `Path::strip_prefix`, lossily as text). The
/// contract names the result `unix_path_strip_prefix` and leaves the component rules
/// of `Path` unstated.
#[verifier::external_body]
pub(crate) fn path_strip_prefix(path: &str, base: &str) -> (r: Option<String>)
    ensures
        match r {
            Some(p) => unix_path_strip_prefix(path@, base@) == Some(p@),
            None => unix_path_strip_prefix(path@, base@) is None,
        },
{
    std::path::Path::new(path).strip_prefix(base).ok().map(|p| p.to_string_lossy().into_owned())
}

/// The `sh -c` script that binds `/workspace` inside a coast container to the
/// project (or to the instance's worktree under `worktree_dir`), given the parent
/// of the project root on the host.
pub open spec fn workspace_mount_spec(
    worktree: Option<Seq<char>>,
    worktree_dir: Seq<char>,
    project_root: Seq<char>,
    root_parent: Seq<char>,
) -> Seq<char> {
    let src = match worktree {
        Some(wt) => "/host-project/"@ + worktree_dir + "/"@ + wt,
        None => "/host-project"@,
    };
    let fix = if worktree is Some && project_root.len() > 0 {
        " && mkdir -p '"@ + root_parent + "' && ln -sfn /host-project '"@ + project_root + "'"@
    } else {
        Seq::empty()
    };
    "mkdir -p /workspace && mount --bind "@ + src + " /workspace && mount --make-rshared /workspace"@ + fix
}

/// The script that re-applies the `/workspace` bind mount when an instance starts,
/// given the parent directory of the project root on the host.
pub fn workspace_mount_command_in(worktree: Option<&str>, worktree_dir: &str, project_root: &str, root_parent: &str)
    -> (cmd: String)
    ensures
        cmd@ == workspace_mount_spec(match worktree { Some(w) => Some(w@), None => None },
            worktree_dir@, project_root@, root_parent@),
{
    let mut out: Vec<char> = Vec::new();
    extend_chars(&mut out, "mkdir -p /workspace && mount --bind ");
    let ghost a0 = out@;
    match worktree {
        Some(wt) => {
            extend_chars(&mut out, "/host-project/");
            extend_chars(&mut out, worktree_dir);
            extend_chars(&mut out, "/");
            extend_chars(&mut out, wt);
            assert(out@ =~= a0 + ("/host-project/"@ + worktree_dir@ + "/"@ + wt@));
        },
        None => {
            extend_chars(&mut out, "/host-project");
        },
    }
    extend_chars(&mut out, " /workspace && mount --make-rshared /workspace");
    let ghost a1 = out@;
    if worktree.is_some() && project_root.unicode_len() > 0 {
        extend_chars(&mut out, " && mkdir -p '");
        extend_chars(&mut out, root_parent);
        extend_chars(&mut out, "' && ln -sfn /host-project '");
        extend_chars(&mut out, project_root);
        extend_chars(&mut out, "'");
        assert(out@ =~= a1 + (" && mkdir -p '"@ + root_parent@ + "' && ln -sfn /host-project '"@ + project_root@ + "'"@));
    } else {
        assert(out@ =~= a1 + Seq::<char>::empty());
    }
    string_from_chars(out.as_slice())
}

/// The script that re-applies the `/workspace` bind mount when an instance starts;
/// with a worktree and a known project root, the project root path is also linked
/// to `/host-project` so absolute paths keep resolving.
pub fn workspace_mount_command(worktree: Option<&str>, worktree_dir: &str, project_root: &str) -> (cmd: String)
    ensures
        cmd@ == workspace_mount_spec(match worktree { Some(w) => Some(w@), None => None },
            worktree_dir@, project_root@, parent_text(project_root@)),
{
    let parent = parent_or_empty(project_root);
    workspace_mount_command_in(worktree, worktree_dir, project_root, parent.as_str())
}

/// The name of an instance's coast container: `{project}-coasts-{name}`.
pub fn coast_container_name(project: &str, name: &str) -> (r: String)
    ensures
        r@ == project@ + "-coasts-"@ + name@,
{
    crate::text::concat3(project, "-coasts-", name)
}

/// Whether the service health cache watches an instance in this status: running,
/// checked out or idle.
pub open spec fn is_health_watched(s: InstanceStatus) -> bool {
    s is Running || s is CheckedOut || s is Idle
}

/// Whether the daemon keeps the service health of an instance in this status cached.
pub fn health_watched(status: InstanceStatus) -> (b: bool)
    ensures
        b == is_health_watched(status),
{
    match status {
        InstanceStatus::Running | InstanceStatus::CheckedOut | InstanceStatus::Idle => true,
        _ => false,
    }
}

/// The key of an instance in the service health cache: `{project}:{name}`.
pub fn service_health_key(project: &str, name: &str) -> (key: String)
    ensures
        key@ == project@ + ":"@ + name@,
{
    let mut key = project.to_owned();
    key.append(":");
    key.append(name);
    key
}

/// How many of the statuses are not `running`.
pub open spec fn down_count(statuses: Seq<Seq<char>>) -> nat
    decreases statuses.len(),
{
    if statuses.len() == 0 {
        0
    } else {
        down_count(statuses.drop_last()) + if statuses.last() == "running"@ { 0nat } else { 1nat }
    }
}

/// The number of an instance's services that are down (not `running`), as the
/// service health cache stores it.
pub fn services_down(statuses: &[String]) -> (n: u32)
    requires
        statuses@.len() <= u32::MAX,
    ensures
        n == down_count(statuses@.map_values(|s: String| s@)),
{
    let ghost views = statuses@.map_values(|s: String| s@);
    let mut n: u32 = 0;
    let mut i: usize = 0;
    while i < statuses.len()
        invariant
            i <= statuses@.len(),
            statuses@.len() <= u32::MAX,
            views == statuses@.map_values(|s: String| s@),
            n == down_count(views.take(i as int)),
            n <= i,
        decreases statuses@.len() - i,
    {
        proof {
            assert(views.take(i + 1).drop_last() =~= views.take(i as int));
            assert(views.take(i + 1).last() == statuses@[i as int]@);
        }
        if !crate::text::str_eq(statuses[i].as_str(), "running") {
            n = n + 1;
        }
        i = i + 1;
    }
    assert(views.take(statuses@.len() as int) =~= views);
    n
}

/// The statuses an assignment or unassignment starts from: running, checked out or idle.
pub open spec fn can_assign(s: InstanceStatus) -> bool {
    s is Running || s is CheckedOut || s is Idle
}

/// Whether `coast unassign` may begin.
#[derive(Debug, Clone, Copy, PartialEq, Eq, Structural)]
pub enum UnassignCheck {
    /// The unassignment may begin.
    Proceed,
    /// There is no such instance.
    NotFound,
    /// The instance is stopped; it has to be started first.
    Stopped,
    /// The instance is in the middle of another operation.
    Busy,
}

/// Whether `coast unassign` may begin for an instance with `status` (`None`: there
/// is no such instance).
pub fn unassign_check(status: Option<InstanceStatus>) -> (c: UnassignCheck)
    ensures
        c == match status {
            None => UnassignCheck::NotFound,
            Some(s) => if s is Stopped {
                UnassignCheck::Stopped
            } else if can_assign(s) {
                UnassignCheck::Proceed
            } else {
                UnassignCheck::Busy
            },
        },
{
    match status {
        None => UnassignCheck::NotFound,
        Some(InstanceStatus::Stopped) => UnassignCheck::Stopped,
        Some(InstanceStatus::Running) | Some(InstanceStatus::CheckedOut) | Some(InstanceStatus::Idle) =>
            UnassignCheck::Proceed,
        Some(_) => UnassignCheck::Busy,
    }
}

/// The error of unassigning a stopped instance.
pub fn unassign_stopped_message(name: &str, status_text: &str) -> (msg: String)
    ensures
        msg@ == "Instance '"@ + name@ + "' is stopped (status: "@ + status_text@ + "). Run `coast start "@ + name@
            + "` to start it first."@,
{
    let mut m = crate::text::concat3("Instance '", name, "' is stopped (status: ");
    m.append(status_text);
    m.append("). Run `coast start ");
    m.append(name);
    m.append("` to start it first.");
    m
}

} // verus!
