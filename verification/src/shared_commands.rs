//! What the `coast shared-services` commands decide and answer: the summary of a
//! stop, start or restart, which record a database drop targets, the volumes a
//! removal deletes, and how a container's published ports are shown.

use vstd::prelude::*;
use vstd::string::*;
use crate::text::{string_views, concat3, contains_seq, contains_chars, chars_of, decimal, decimal_string};
use crate::records::SharedServiceRecord;
use crate::shared_services::{named_volume_spec, extract_named_volume};

verus! {

/// Items joined by `sep`.
pub open spec fn join_with(items: Seq<Seq<char>>, sep: Seq<char>) -> Seq<char>
    decreases items.len(),
{
    if items.len() == 0 {
        Seq::empty()
    } else if items.len() == 1 {
        items[0]
    } else {
        join_with(items.drop_last(), sep) + sep + items.last()
    }
}

/// Appends `item` to a `sep`-joined list of `count` items.
fn append_joined(acc: &mut String, count: usize, sep: &str, item: &str, Ghost(items): Ghost<Seq<Seq<char>>>)
    requires
        old(acc)@ == join_with(items, sep@),
        count == items.len(),
    ensures
        final(acc)@ == join_with(items.push(item@), sep@),
{
    let ghost next = items.push(item@);
    assert(next.drop_last() =~= items);
    if count == 0 {
        acc.append(item);
        assert(final(acc)@ =~= item@);
    } else {
        acc.append(sep);
        acc.append(item);
    }
}

/// A bulk operation on shared services.
#[derive(Debug, Clone, Copy, PartialEq, Eq, Structural)]
pub enum SharedAction {
    Stop,
    Start,
    Restart,
}

/// The past tense of an action, as it ends a single-service summary.
pub open spec fn action_done(a: SharedAction) -> Seq<char> {
    match a {
        SharedAction::Stop => "stopped"@,
        SharedAction::Start => "started"@,
        SharedAction::Restart => "restarted"@,
    }
}

/// The past tense of an action, as it opens a count summary.
pub open spec fn action_done_title(a: SharedAction) -> Seq<char> {
    match a {
        SharedAction::Stop => "Stopped"@,
        SharedAction::Start => "Started"@,
        SharedAction::Restart => "Restarted"@,
    }
}

/// The summary of a bulk operation: the one service it succeeded on, or how many.
pub open spec fn action_summary(a: SharedAction, done: Seq<Seq<char>>) -> Seq<char> {
    if done.len() == 1 {
        "Shared service '"@ + done[0] + "' "@ + action_done(a) + "."@
    } else {
        action_done_title(a) + " "@ + decimal(done.len()) + " shared services."@
    }
}

/// The summary `coast shared-services stop|start|restart` replies with, given the
/// services the operation succeeded on.
pub fn shared_action_message(action: SharedAction, done: &[String]) -> (msg: String)
    requires
        done@.len() <= u64::MAX,
    ensures
        msg@ == action_summary(action, string_views(done@)),
{
    let (lower, title) = match action {
        SharedAction::Stop => ("stopped", "Stopped"),
        SharedAction::Start => ("started", "Started"),
        SharedAction::Restart => ("restarted", "Restarted"),
    };
    proof {
        reveal_strlit("stopped");
        reveal_strlit("started");
        reveal_strlit("restarted");
        reveal_strlit("Stopped");
        reveal_strlit("Started");
        reveal_strlit("Restarted");
    }
    if done.len() == 1 {
        let mut msg = concat3("Shared service '", done[0].as_str(), "' ");
        msg.append(lower);
        msg.append(".");
        msg
    } else {
        let n = decimal_string(done.len() as u64);
        let mut msg = concat3(title, " ", n.as_str());
        msg.append(" shared services.");
        msg
    }
}

/// The error for a shared service the project does not have.
pub fn shared_service_not_found_message(service: &str, project: &str) -> (msg: String)
    ensures
        msg@ == "Shared service '"@ + service@ + "' not found in project '"@ + project@
            + "'. Run `coast shared-services ps` to see available services."@,
{
    let mut msg = concat3("Shared service '", service, "' not found in project '");
    msg.append(project);
    msg.append("'. Run `coast shared-services ps` to see available services.");
    msg
}

/// Whether a shared service is taken for the project's postgres.
pub open spec fn is_postgres_name(name: Seq<char>) -> bool {
    contains_seq(name, "postgres"@) || contains_seq(name, "pg"@)
}

/// The first record whose service name contains `postgres` or `pg`.
pub fn find_postgres_service(records: &[SharedServiceRecord]) -> (r: Option<usize>)
    ensures
        match r {
            Some(i) => i < records@.len() && is_postgres_name(records@[i as int].service_name@)
                && forall|j: int| 0 <= j < i ==> !is_postgres_name(#[trigger] records@[j].service_name@),
            None => forall|j: int| 0 <= j < records@.len() ==> !is_postgres_name(#[trigger] records@[j].service_name@),
        },
{
    let mut i: usize = 0;
    while i < records.len()
        invariant
            i <= records@.len(),
            forall|j: int| 0 <= j < i ==> !is_postgres_name(#[trigger] records@[j].service_name@),
        decreases records@.len() - i,
    {
        let name = chars_of(records[i].service_name.as_str());
        if contains_chars(name.as_slice(), "postgres") || contains_chars(name.as_slice(), "pg") {
            return Some(i);
        }
        i = i + 1;
    }
    None
}

/// Where `coast shared-services db drop` runs, or why it cannot.
#[derive(Debug)]
pub enum DbDropTarget {
    /// The container of the project's postgres service and the service's name.
    Container { container_id: String, service: String },
    /// The project has no postgres service.
    NoPostgres,
    /// The postgres service has no container.
    NotRunning { service: String },
}

/// The target of a database drop: the first postgres service of the project, which
/// must have a container.
pub fn db_drop_target(records: &[SharedServiceRecord]) -> (t: DbDropTarget)
    ensures
        match t {
            DbDropTarget::Container { container_id, service } => exists|i: int| {
                &&& 0 <= i < records@.len()
                &&& is_postgres_name(#[trigger] records@[i].service_name@)
                &&& forall|j: int| 0 <= j < i ==> !is_postgres_name(#[trigger] records@[j].service_name@)
                &&& service@ == records@[i].service_name@
                &&& records@[i].container_id matches Some(c) && container_id@ == c@
            },
            DbDropTarget::NoPostgres =>
                forall|j: int| 0 <= j < records@.len() ==> !is_postgres_name(#[trigger] records@[j].service_name@),
            DbDropTarget::NotRunning { service } => exists|i: int| {
                &&& 0 <= i < records@.len()
                &&& is_postgres_name(#[trigger] records@[i].service_name@)
                &&& forall|j: int| 0 <= j < i ==> !is_postgres_name(#[trigger] records@[j].service_name@)
                &&& service@ == records@[i].service_name@
                &&& records@[i].container_id is None
            },
        },
{
    match find_postgres_service(records) {
        None => DbDropTarget::NoPostgres,
        Some(i) => {
            let r = &records[i];
            match &r.container_id {
                Some(c) => DbDropTarget::Container { container_id: c.clone(), service: r.service_name.clone() },
                None => DbDropTarget::NotRunning { service: r.service_name.clone() },
            }
        }
    }
}

/// The error for a project without a postgres shared service.
pub fn no_postgres_message(project: &str) -> (msg: String)
    ensures
        msg@ == "No postgres shared service found in project '"@ + project@
            + "'. Ensure a shared postgres service is configured and running."@,
{
    concat3("No postgres shared service found in project '", project,
        "'. Ensure a shared postgres service is configured and running.")
}

/// The error for a postgres shared service without a container.
pub fn postgres_not_running_message(service: &str) -> (msg: String)
    ensures
        msg@ == "Shared postgres service '"@ + service@
            + "' has no container ID. It may not be running. Start it first with `coast shared-services start "@
            + service@ + "`."@,
{
    let mut msg = concat3("Shared postgres service '", service,
        "' has no container ID. It may not be running. Start it first with `coast shared-services start ");
    msg.append(service);
    msg.append("`.");
    msg
}

/// The reply to a database drop.
pub fn db_dropped_message(db_name: &str, project: &str) -> (msg: String)
    ensures
        msg@ == "Database '"@ + db_name@ + "' dropped from shared postgres in project '"@ + project@
            + "'. This action is irreversible."@,
{
    let mut msg = concat3("Database '", db_name, "' dropped from shared postgres in project '");
    msg.append(project);
    msg.append("'. This action is irreversible.");
    msg
}

/// The named volumes among a container's binds, in order.
pub open spec fn bind_volumes(binds: Seq<Seq<char>>) -> Seq<Seq<char>>
    decreases binds.len(),
{
    if binds.len() == 0 {
        Seq::empty()
    } else {
        let rest = bind_volumes(binds.drop_last());
        match named_volume_spec(binds.last()) {
            Some(v) => rest.push(v),
            None => rest,
        }
    }
}

/// The named volumes a shared service container uses (the ones its removal deletes).
pub fn named_volumes_of_binds(binds: &[String]) -> (vols: Vec<String>)
    ensures
        string_views(vols@) == bind_volumes(string_views(binds@)),
{
    let mut vols: Vec<String> = Vec::new();
    let mut i: usize = 0;
    while i < binds.len()
        invariant
            i <= binds@.len(),
            string_views(vols@) == bind_volumes(string_views(binds@.take(i as int))),
        decreases binds@.len() - i,
    {
        let ghost before = string_views(binds@.take(i as int));
        let ghost prev = string_views(vols@);
        match extract_named_volume(binds[i].as_str()) {
            Some(v) => {
                vols.push(v.to_owned());
                assert(string_views(vols@) =~= prev.push(v@));
            }
            None => {}
        }
        i = i + 1;
        proof {
            let now = string_views(binds@.take(i as int));
            assert(now.drop_last() =~= before);
            assert(now.last() == binds@[i - 1]@);
        }
    }
    assert(binds@.take(binds@.len() as int) =~= binds@);
    vols
}

/// The reply to removing a shared service that deleted `volumes` volumes.
pub fn shared_rm_message(service: &str, project: &str, volumes: u64) -> (msg: String)
    ensures
        msg@ == "Shared service '"@ + service@ + "' removed from project '"@ + project@ + "'."@
            + (if volumes == 0 { Seq::<char>::empty() } else { " Removed "@ + decimal(volumes as nat) + " volume(s)."@ }),
{
    let mut msg = concat3("Shared service '", service, "' removed from project '");
    msg.append(project);
    msg.append("'.");
    if volumes > 0 {
        let n = decimal_string(volumes);
        msg.append(" Removed ");
        msg.append(n.as_str());
        msg.append(" volume(s).");
    }
    msg
}

/// The headline of `coast shared-services ps`.
pub fn shared_services_message(project: &str) -> (msg: String)
    ensures
        msg@ == "Shared services for project '"@ + project@ + "'."@,
{
    concat3("Shared services for project '", project, "'.")
}

/// A host binding of a published container port.
pub struct HostPortBinding {
    pub host_ip: Option<String>,
    pub host_port: Option<String>,
}

/// The text of one host binding of `container_port`: `{ip}:{port}->{container_port}`,
/// the address defaulting to `0.0.0.0`; nothing for a binding without a host port.
pub open spec fn binding_text(b: HostPortBinding, container_port: Seq<char>) -> Option<Seq<char>> {
    match b.host_port {
        Some(hp) => Some(
            (match b.host_ip { Some(ip) => ip@, None => "0.0.0.0"@ }) + ":"@ + hp@ + "->"@ + container_port,
        ),
        None => None,
    }
}

/// The texts of the host bindings of `container_port` that have a host port.
pub open spec fn binding_texts(bs: Seq<HostPortBinding>, container_port: Seq<char>) -> Seq<Seq<char>>
    decreases bs.len(),
{
    if bs.len() == 0 {
        Seq::empty()
    } else {
        let rest = binding_texts(bs.drop_last(), container_port);
        match binding_text(bs.last(), container_port) {
            Some(t) => rest.push(t),
            None => rest,
        }
    }
}

/// The text of a published port: its host bindings joined by `, `; nothing when it
/// has none with a host port.
pub open spec fn port_text(container_port: Seq<char>, bs: Option<Vec<HostPortBinding>>) -> Option<Seq<char>> {
    match bs {
        Some(v) => {
            let ts = binding_texts(v@, container_port);
            if ts.len() == 0 { None } else { Some(join_with(ts, ", "@)) }
        },
        None => None,
    }
}

/// The texts of the published ports that have one, in order.
pub open spec fn port_texts(ports: Seq<(String, Option<Vec<HostPortBinding>>)>) -> Seq<Seq<char>>
    decreases ports.len(),
{
    if ports.len() == 0 {
        Seq::empty()
    } else {
        let rest = port_texts(ports.drop_last());
        match port_text(ports.last().0@, ports.last().1) {
            Some(t) => rest.push(t),
            None => rest,
        }
    }
}

/// The ports column of `coast shared-services ps`: every published port with a host
/// binding, joined by `, `; nothing when there is none.
pub open spec fn ports_summary(ports: Seq<(String, Option<Vec<HostPortBinding>>)>) -> Option<Seq<char>> {
    let ts = port_texts(ports);
    if ts.len() == 0 { None } else { Some(join_with(ts, ", "@)) }
}

fn port_text_exec(container_port: &str, bs: &Option<Vec<HostPortBinding>>) -> (t: Option<String>)
    ensures
        match t {
            Some(s) => port_text(container_port@, *bs) == Some(s@),
            None => port_text(container_port@, *bs) is None,
        },
{
    match bs {
        None => None,
        Some(v) => {
            let mut acc = String::new();
            let mut count: usize = 0;
            let ghost mut items: Seq<Seq<char>> = Seq::empty();
            let mut i: usize = 0;
            assert(v@.take(0) =~= Seq::<HostPortBinding>::empty());
            while i < v.len()
                invariant
                    i <= v@.len(),
                    items == binding_texts(v@.take(i as int), container_port@),
                    count == items.len(),
                    count <= i,
                    acc@ == join_with(items, ", "@),
                decreases v@.len() - i,
            {
                let ghost before = v@.take(i as int);
                let b = &v[i];
                match &b.host_port {
                    Some(hp) => {
                        let ip: &str = match &b.host_ip {
                            Some(ip) => ip.as_str(),
                            None => "0.0.0.0",
                        };
                        let mut t = concat3(ip, ":", hp.as_str());
                        t.append("->");
                        t.append(container_port);
                        append_joined(&mut acc, count, ", ", t.as_str(), Ghost(items));
                        proof { items = items.push(t@); }
                        count = count + 1;
                    }
                    None => {}
                }
                i = i + 1;
                proof {
                    let now = v@.take(i as int);
                    assert(now.drop_last() =~= before);
                    assert(now.last() == v@[i - 1]);
                }
            }
            assert(v@.take(v@.len() as int) =~= v@);
            if count == 0 { None } else { Some(acc) }
        },
    }
}

/// The ports column of `coast shared-services ps` for a container's published ports.
pub fn format_port_bindings(ports: &[(String, Option<Vec<HostPortBinding>>)]) -> (s: Option<String>)
    ensures
        match s {
            Some(t) => ports_summary(ports@) == Some(t@),
            None => ports_summary(ports@) is None,
        },
{
    let mut acc = String::new();
    let mut count: usize = 0;
    let ghost mut items: Seq<Seq<char>> = Seq::empty();
    let mut i: usize = 0;
    assert(ports@.take(0) =~= Seq::<(String, Option<Vec<HostPortBinding>>)>::empty());
    while i < ports.len()
        invariant
            i <= ports@.len(),
            items == port_texts(ports@.take(i as int)),
            count == items.len(),
            count <= i,
            acc@ == join_with(items, ", "@),
        decreases ports@.len() - i,
    {
        let ghost before = ports@.take(i as int);
        match port_text_exec(ports[i].0.as_str(), &ports[i].1) {
            Some(t) => {
                append_joined(&mut acc, count, ", ", t.as_str(), Ghost(items));
                proof { items = items.push(t@); }
                count = count + 1;
            }
            None => {}
        }
        i = i + 1;
        proof {
            let now = ports@.take(i as int);
            assert(now.drop_last() =~= before);
            assert(now.last() == ports@[i - 1]);
        }
    }
    assert(ports@.take(ports@.len() as int) =~= ports@);
    if count == 0 { None } else { Some(acc) }
}

} // verus!
