//! Records kept by the daemon's state database, the port mapping of an allocation
//! record, and which shared services count as running.

use vstd::prelude::*;
use vstd::string::*;
use crate::run_ports::PortMapping;
use crate::text::{str_eq, string_views, names_contain};

verus! {

/// A port allocation of an instance, with the PID of the socat forwarding it.
#[derive(Debug, Clone)]
pub struct PortAllocationRecord {
    /// Project this allocation belongs to.
    pub project: String,
    /// Instance name within the project.
    pub instance_name: String,
    /// Logical port name (e.g. `web`, `postgres`).
    pub logical_name: String,
    /// The canonical port declared in the Coastfile.
    pub canonical_port: u16,
    /// Dynamically allocated always-on port.
    pub dynamic_port: u16,
    /// PID of the socat process forwarding this port, if active.
    pub socat_pid: Option<i32>,
    /// Whether this is the primary service of the instance.
    pub is_primary: bool,
}

/// An agent shell of an instance.
#[derive(Debug, Clone)]
pub struct AgentShellRecord {
    /// Auto-incremented shell id.
    pub id: i64,
    /// Per-instance shell id shown to users (starts at 1).
    pub shell_id: i64,
    /// Project this shell belongs to.
    pub project: String,
    /// Instance name within the project.
    pub instance_name: String,
    /// Command executed inside the coast container.
    pub command: String,
    /// Whether this is the active (routable) agent shell.
    pub is_active: bool,
    /// The PTY exec session it is linked to.
    pub session_id: Option<String>,
    /// Current status: `running`, `exited`.
    pub status: String,
    /// ISO 8601 creation timestamp.
    pub created_at: String,
}

/// A shared service of a project.
#[derive(Debug, Clone)]
pub struct SharedServiceRecord {
    /// Project this shared service belongs to.
    pub project: String,
    /// Name of the shared service (e.g. `postgres`).
    pub service_name: String,
    /// Docker container id on the host daemon, if running.
    pub container_id: Option<String>,
    /// Current status (`running`, `stopped`, ...).
    pub status: String,
}

impl<'a> From<&'a PortAllocationRecord> for PortMapping {
    /// The port mapping of an allocation (the socat PID is dropped).
    fn from(record: &'a PortAllocationRecord) -> (m: Self) {
        PortMapping {
            logical_name: record.logical_name.clone(),
            canonical_port: record.canonical_port,
            dynamic_port: record.dynamic_port,
            is_primary: record.is_primary,
        }
    }
}

impl<'a> vstd::std_specs::convert::FromSpecImpl<&'a PortAllocationRecord> for PortMapping {
    open spec fn obeys_from_spec() -> bool {
        true
    }

    open spec fn from_spec(record: &'a PortAllocationRecord) -> Self {
        PortMapping {
            logical_name: record.logical_name,
            canonical_port: record.canonical_port,
            dynamic_port: record.dynamic_port,
            is_primary: record.is_primary,
        }
    }
}

impl From<PortAllocationRecord> for PortMapping {
    /// The port mapping of an allocation (the socat PID is dropped).
    fn from(record: PortAllocationRecord) -> (m: Self) {
        PortMapping {
            logical_name: record.logical_name,
            canonical_port: record.canonical_port,
            dynamic_port: record.dynamic_port,
            is_primary: record.is_primary,
        }
    }
}

impl vstd::std_specs::convert::FromSpecImpl<PortAllocationRecord> for PortMapping {
    open spec fn obeys_from_spec() -> bool {
        true
    }

    open spec fn from_spec(record: PortAllocationRecord) -> Self {
        PortMapping {
            logical_name: record.logical_name,
            canonical_port: record.canonical_port,
            dynamic_port: record.dynamic_port,
            is_primary: record.is_primary,
        }
    }
}

/// Whether a shared service record reports the service as running.
pub open spec fn record_is_running(r: SharedServiceRecord) -> bool {
    r.status@ == "running"@
}

/// Whether the daemon may reuse a shared service's container instead of recreating
/// it: the record says it is running and its container can still be inspected.
pub fn shared_service_reusable(record: Option<&SharedServiceRecord>, container_inspectable: bool) -> (b: bool)
    ensures
        b == match record {
            Some(r) => record_is_running(*r) && container_inspectable,
            None => false,
        },
{
    match record {
        Some(r) => str_eq(r.status.as_str(), "running") && container_inspectable,
        None => false,
    }
}

/// `(project, service)` of every shared service recorded as running, in order.
pub open spec fn running_shared_spec(records: Seq<SharedServiceRecord>) -> Seq<(Seq<char>, Seq<char>)>
    decreases records.len(),
{
    if records.len() == 0 {
        Seq::empty()
    } else {
        let r = running_shared_spec(records.drop_last());
        if record_is_running(records.last()) {
            r.push((records.last().project@, records.last().service_name@))
        } else {
            r
        }
    }
}

/// The shared services whose host stats collectors are restarted when the daemon starts.
pub fn running_shared_services(records: &[SharedServiceRecord]) -> (r: Vec<(String, String)>)
    ensures
        r@.map_values(|p: (String, String)| (p.0@, p.1@)) == running_shared_spec(records@),
{
    let mut out: Vec<(String, String)> = Vec::new();
    let mut i: usize = 0;
    while i < records.len()
        invariant
            i <= records@.len(),
            out@.map_values(|p: (String, String)| (p.0@, p.1@)) == running_shared_spec(records@.take(i as int)),
        decreases records@.len() - i,
    {
        proof {
            assert(records@.take(i + 1).drop_last() =~= records@.take(i as int));
            assert(records@.take(i + 1).last() == records@[i as int]);
        }
        if str_eq(records[i].status.as_str(), "running") {
            let ghost before = out@.map_values(|p: (String, String)| (p.0@, p.1@));
            out.push((records[i].project.clone(), records[i].service_name.clone()));
            assert(out@.map_values(|p: (String, String)| (p.0@, p.1@))
                =~= before.push((records@[i as int].project@, records@[i as int].service_name@)));
        }
        i = i + 1;
    }
    assert(records@.take(records@.len() as int) =~= records@);
    out
}

/// The projects with a shared service recorded as running, each once, in order of
/// first appearance.
pub open spec fn running_projects_spec(records: Seq<SharedServiceRecord>) -> Seq<Seq<char>>
    decreases records.len(),
{
    if records.len() == 0 {
        Seq::empty()
    } else {
        let r = running_projects_spec(records.drop_last());
        if record_is_running(records.last()) && !r.contains(records.last().project@) {
            r.push(records.last().project@)
        } else {
            r
        }
    }
}

/// The projects whose shared services listing the daemon keeps cached: those with a
/// running shared service, each once.
pub fn running_shared_projects(records: &[SharedServiceRecord]) -> (r: Vec<String>)
    ensures
        string_views(r@) == running_projects_spec(records@),
{
    let mut out: Vec<String> = Vec::new();
    let mut i: usize = 0;
    while i < records.len()
        invariant
            i <= records@.len(),
            string_views(out@) == running_projects_spec(records@.take(i as int)),
        decreases records@.len() - i,
    {
        proof {
            assert(records@.take(i + 1).drop_last() =~= records@.take(i as int));
            assert(records@.take(i + 1).last() == records@[i as int]);
        }
        if str_eq(records[i].status.as_str(), "running") && !names_contain(out.as_slice(), records[i].project.as_str()) {
            let ghost before = string_views(out@);
            out.push(records[i].project.clone());
            assert(string_views(out@) =~= before.push(records@[i as int].project@));
        }
        i = i + 1;
    }
    assert(records@.take(records@.len() as int) =~= records@);
    out
}

/// The cached projects are exactly the projects with a running shared service, and
/// none is listed twice.
pub proof fn lemma_running_projects(records: Seq<SharedServiceRecord>)
    ensures
        forall|p: Seq<char>| running_projects_spec(records).contains(p) <==>
            exists|i: int| 0 <= i < records.len() && record_is_running(#[trigger] records[i]) && records[i].project@ == p,
        forall|a: int, b: int| 0 <= a < b < running_projects_spec(records).len() ==>
            #[trigger] running_projects_spec(records)[a] != #[trigger] running_projects_spec(records)[b],
    decreases records.len(),
{
    if records.len() > 0 {
        let init = records.drop_last();
        lemma_running_projects(init);
        let prev = running_projects_spec(init);
        let cur = running_projects_spec(records);
        let last = records.last();
        assert(records[records.len() - 1] == last);
        assert forall|p: Seq<char>| cur.contains(p) <==>
            exists|i: int| 0 <= i < records.len() && record_is_running(#[trigger] records[i]) && records[i].project@ == p by {
            if cur.contains(p) {
                if prev.contains(p) {
                    let i = choose|i: int| 0 <= i < init.len() && record_is_running(#[trigger] init[i]) && init[i].project@ == p;
                    assert(records[i] == init[i]);
                } else {
                    assert(p == last.project@);
                }
            }
            if exists|i: int| 0 <= i < records.len() && record_is_running(#[trigger] records[i]) && records[i].project@ == p {
                let i = choose|i: int| 0 <= i < records.len() && record_is_running(#[trigger] records[i]) && records[i].project@ == p;
                if i < records.len() - 1 {
                    assert(init[i] == records[i]);
                    assert(prev.contains(p));
                    let k = choose|k: int| 0 <= k < prev.len() && prev[k] == p;
                    assert(cur[k] == prev[k]);
                } else if !prev.contains(p) {
                    assert(cur[cur.len() - 1] == p);
                } else {
                    let k = choose|k: int| 0 <= k < prev.len() && prev[k] == p;
                    assert(cur[k] == prev[k]);
                }
            }
        }
    }
}

/// The socat PIDs recorded for allocations, in order, as the kill call takes them.
pub open spec fn socat_pids_spec(allocs: Seq<PortAllocationRecord>) -> Seq<u32>
    decreases allocs.len(),
{
    if allocs.len() == 0 {
        Seq::empty()
    } else {
        let rest = socat_pids_spec(allocs.drop_last());
        match allocs.last().socat_pid {
            Some(p) => rest.push(p as u32),
            None => rest,
        }
    }
}

/// The socat processes `coast stop` kills: those recorded for the instance's ports.
pub fn socat_pids_to_kill(allocs: &[PortAllocationRecord]) -> (pids: Vec<u32>)
    ensures
        pids@ == socat_pids_spec(allocs@),
{
    let mut pids: Vec<u32> = Vec::new();
    let mut i: usize = 0;
    while i < allocs.len()
        invariant
            i <= allocs@.len(),
            pids@ == socat_pids_spec(allocs@.take(i as int)),
        decreases allocs@.len() - i,
    {
        proof {
            assert(allocs@.take(i + 1).drop_last() =~= allocs@.take(i as int));
            assert(allocs@.take(i + 1).last() == allocs@[i as int]);
        }
        match allocs[i].socat_pid {
            Some(p) => {
                pids.push(p as u32);
            }
            None => {}
        }
        i = i + 1;
    }
    assert(allocs@.take(allocs@.len() as int) =~= allocs@);
    pids
}

} // verus!
