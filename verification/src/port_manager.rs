//! Port allocation rules, socat command construction and the bookkeeping of
//! active socat forwarders (canonical and dynamic ports) of the daemon.
//!
//! Spawning, signalling and probing processes and sockets is done by the
//! caller; the functions here decide what to run and what the outcomes mean.

use vstd::prelude::*;
use vstd::string::*;
use crate::text::{words, join_spaces, split_words, join_words, first_index_where, lemma_first_index_where, is_ws, char_is_ws, ws_pred, trim_ws, first_index_of, find_char, is_first_index_of, lemma_first_index_of, string_views, str_eq, concat2, decimal, push_decimal, extend_chars,
    string_from_chars, chars_of, trim_bounds, trim_dashes, trim_by, trim_pred, hex_fixed, push_hex_fixed};

verus! {

/// The lower bound of the ephemeral/dynamic port range (inclusive).
pub const PORT_RANGE_START: u16 = 49152;

/// The upper bound of the ephemeral/dynamic port range (inclusive).
pub const PORT_RANGE_END: u16 = 65535;

/// Maximum number of attempts to find a free port before giving up.
pub const MAX_ALLOCATION_ATTEMPTS: u32 = 1000;

/// Number of ports in the dynamic range.
pub const PORT_RANGE_SIZE: u32 = 16384;

/// Image of the checkout bridge container.
pub const CHECKOUT_BRIDGE_IMAGE: &'static str = "alpine/socat:latest";

/// Label marking checkout bridge containers.
pub const CHECKOUT_BRIDGE_LABEL: &'static str = "coast.role=checkout-bridge";

/// A pair of socat process PIDs for a single port forwarding entry.
#[derive(Debug, Clone, Copy, PartialEq, Eq, Structural)]
pub struct ForwardingPair {
    /// PID of the socat process forwarding the canonical port.
    pub canonical_pid: u32,
    /// PID of the socat process forwarding the dynamic port.
    pub dynamic_pid: u32,
}

/// Whether no key occurs twice.
pub open spec fn pair_keys_unique(entries: Seq<(Seq<char>, ForwardingPair)>) -> bool {
    forall|i: int, j: int| 0 <= i < j < entries.len() ==> #[trigger] entries[i].0 != #[trigger] entries[j].0
}

/// The map denoted by a sequence of `(key, pair)` entries with unique keys.
pub open spec fn pairs_to_map(entries: Seq<(Seq<char>, ForwardingPair)>) -> Map<Seq<char>, ForwardingPair> {
    Map::new(
        |k: Seq<char>| exists|i: int| 0 <= i < entries.len() && #[trigger] entries[i].0 == k,
        |k: Seq<char>| entries[choose|i: int| 0 <= i < entries.len() && #[trigger] entries[i].0 == k].1,
    )
}

proof fn lemma_insert_entries(
    old_entries: Seq<(Seq<char>, ForwardingPair)>,
    nv: Seq<(Seq<char>, ForwardingPair)>,
    key: Seq<char>,
    pair: ForwardingPair,
)
    requires
        pair_keys_unique(old_entries),
        pair_keys_unique(nv),
        nv.contains((key, pair)),
        forall|j: int| 0 <= j < nv.len() && nv[j].0 != key ==> #[trigger] old_entries.contains(nv[j]),
        forall|j: int| 0 <= j < old_entries.len() && old_entries[j].0 != key ==> #[trigger] nv.contains(old_entries[j]),
    ensures
        pairs_to_map(nv) == pairs_to_map(old_entries).insert(key, pair),
{
    let m = pairs_to_map(nv);
    let o = pairs_to_map(old_entries).insert(key, pair);
    assert forall|k: Seq<char>| #[trigger] m.contains_key(k) <==> o.contains_key(k) by {
        if k == key {
            let j = choose|j: int| 0 <= j < nv.len() && nv[j] == (key, pair);
            assert(nv[j].0 == k);
        } else {
            if exists|i: int| 0 <= i < nv.len() && #[trigger] nv[i].0 == k {
                let i = choose|i: int| 0 <= i < nv.len() && #[trigger] nv[i].0 == k;
                assert(old_entries.contains(nv[i]));
                let j = choose|j: int| 0 <= j < old_entries.len() && old_entries[j] == nv[i];
                assert(old_entries[j].0 == k);
            }
            if exists|i: int| 0 <= i < old_entries.len() && #[trigger] old_entries[i].0 == k {
                let i = choose|i: int| 0 <= i < old_entries.len() && #[trigger] old_entries[i].0 == k;
                assert(nv.contains(old_entries[i]));
                let j = choose|j: int| 0 <= j < nv.len() && nv[j] == old_entries[i];
                assert(nv[j].0 == k);
            }
        }
    }
    assert forall|k: Seq<char>| #[trigger] m.contains_key(k) implies m[k] == o[k] by {
        let i = choose|i: int| 0 <= i < nv.len() && #[trigger] nv[i].0 == k;
        if k == key {
            let j = choose|j: int| 0 <= j < nv.len() && nv[j] == (key, pair);
            assert(nv[j].0 == k);
            assert(i == j);
        } else {
            assert(old_entries.contains(nv[i]));
            let j = choose|j: int| 0 <= j < old_entries.len() && old_entries[j] == nv[i];
            assert(old_entries[j].0 == k);
            let j3 = choose|j: int| 0 <= j < old_entries.len() && #[trigger] old_entries[j].0 == k;
            assert(j3 == j);
        }
    }
    assert(m =~= o);
}

/// Tracks active socat forwarders, keyed by a logical identifier
/// (typically `{project}--{instance}--{logical_name}`).
pub struct PortForwarder {
    active: Vec<(String, ForwardingPair)>,
}

impl View for PortForwarder {
    type V = Map<Seq<char>, ForwardingPair>;

    open spec fn view(&self) -> Map<Seq<char>, ForwardingPair> {
        pairs_to_map(self.spec_entries())
    }
}

impl PortForwarder {
    /// The tracked entries as character sequences.
    pub closed spec fn spec_entries(&self) -> Seq<(Seq<char>, ForwardingPair)> {
        self.active@.map_values(|e: (String, ForwardingPair)| (e.0@, e.1))
    }

    #[verifier::type_invariant]
    closed spec fn inv(&self) -> bool {
        pair_keys_unique(self.spec_entries())
    }

    /// Create a `PortForwarder` with no active forwarding processes.
    pub fn new() -> (f: Self)
        ensures
            f@ == Map::<Seq<char>, ForwardingPair>::empty(),
    {
        let f = PortForwarder { active: Vec::new() };
        assert(f@ =~= Map::<Seq<char>, ForwardingPair>::empty());
        f
    }

    fn position(&self, key: &str) -> (r: Option<usize>)
        ensures
            match r {
                Some(i) => i < self.spec_entries().len() && self.spec_entries()[i as int].0 == key@,
                None => forall|i: int| 0 <= i < self.spec_entries().len()
                    ==> #[trigger] self.spec_entries()[i].0 != key@,
            },
    {
        let mut i: usize = 0;
        while i < self.active.len()
            invariant
                i <= self.active@.len(),
                self.spec_entries().len() == self.active@.len(),
                forall|j: int| 0 <= j < i ==> #[trigger] self.spec_entries()[j].0 != key@,
            decreases self.active@.len() - i,
        {
            if str_eq(self.active[i].0.as_str(), key) {
                return Some(i);
            }
            i = i + 1;
        }
        None
    }

    /// The forwarding pair tracked under `key`.
    pub fn forwarding(&self, key: &str) -> (r: Option<ForwardingPair>)
        ensures
            r == (if self@.contains_key(key@) { Some(self@[key@]) } else { None }),
    {
        proof { use_type_invariant(self); }
        match self.position(key) {
            Some(i) => {
                proof {
                    let e = self.spec_entries();
                    let k = choose|j: int| 0 <= j < e.len() && #[trigger] e[j].0 == key@;
                    assert(e[i as int].0 == key@);
                    assert(k == i);
                }
                Some(self.active[i].1)
            },
            None => None,
        }
    }

    /// Whether `key` has active forwarding.
    pub fn is_active(&self, key: &str) -> (b: bool)
        ensures
            b == self@.contains_key(key@),
    {
        self.forwarding(key).is_some()
    }

    /// All tracked `(key, pair)` entries; no key occurs twice.
    pub fn active_pairs(&self) -> (r: &[(String, ForwardingPair)])
        ensures
            pair_keys_unique(r@.map_values(|e: (String, ForwardingPair)| (e.0@, e.1))),
            pairs_to_map(r@.map_values(|e: (String, ForwardingPair)| (e.0@, e.1))) == self@,
    {
        proof { use_type_invariant(self); }
        self.active.as_slice()
    }

    /// Records the pair started for `key`, replacing any previous entry.
    pub fn record_forwarding(&mut self, key: &str, pair: ForwardingPair)
        ensures
            final(self)@ == old(self)@.insert(key@, pair),
    {
        proof { use_type_invariant(&*self); }
        let ghost old_entries = self.spec_entries();
        let mut entries: Vec<(String, ForwardingPair)> = Vec::new();
        std::mem::swap(&mut entries, &mut self.active);
        let ghost nv: Seq<(Seq<char>, ForwardingPair)>;
        match self.position_in(&entries, key) {
            Some(i) => {
                proof { assert(old_entries[i as int].0 == key@); }
                entries.set(i, (key.to_owned(), pair));
                proof {
                    nv = entries@.map_values(|e: (String, ForwardingPair)| (e.0@, e.1));
                    assert(nv =~= old_entries.update(i as int, (key@, pair)));
                    assert forall|a: int, b: int| 0 <= a < b < nv.len() implies #[trigger] nv[a].0 != #[trigger] nv[b].0 by {
                        if a != i { assert(nv[a] == old_entries[a]); }
                        if b != i { assert(nv[b] == old_entries[b]); }
                    }
                    assert(nv[i as int] == (key@, pair));
                    assert forall|j: int| 0 <= j < nv.len() && nv[j].0 != key@ implies #[trigger] old_entries.contains(nv[j]) by {
                        assert(nv[j] == old_entries[j]);
                    }
                    assert forall|j: int| 0 <= j < old_entries.len() && old_entries[j].0 != key@ implies #[trigger] nv.contains(old_entries[j]) by {
                        assert(nv[j] == old_entries[j]);
                    }
                }
            },
            None => {
                entries.push((key.to_owned(), pair));
                proof {
                    nv = entries@.map_values(|e: (String, ForwardingPair)| (e.0@, e.1));
                    assert(nv =~= old_entries.push((key@, pair)));
                    assert forall|a: int, b: int| 0 <= a < b < nv.len() implies #[trigger] nv[a].0 != #[trigger] nv[b].0 by {
                        assert(nv[a] == old_entries[a]);
                        if b < old_entries.len() { assert(nv[b] == old_entries[b]); }
                    }
                    assert(nv[old_entries.len() as int] == (key@, pair));
                    assert forall|j: int| 0 <= j < nv.len() && nv[j].0 != key@ implies #[trigger] old_entries.contains(nv[j]) by {
                        assert(nv[j] == old_entries[j]);
                    }
                    assert forall|j: int| 0 <= j < old_entries.len() && old_entries[j].0 != key@ implies #[trigger] nv.contains(old_entries[j]) by {
                        assert(nv[j] == old_entries[j]);
                    }
                }
            },
        }
        self.active = entries;
        proof { lemma_insert_entries(old_entries, nv, key@, pair); }
    }

    fn position_in(&self, entries: &Vec<(String, ForwardingPair)>, key: &str) -> (r: Option<usize>)
        ensures
            match r {
                Some(i) => i < entries@.len() && entries@[i as int].0@ == key@,
                None => forall|i: int| 0 <= i < entries@.len() ==> #[trigger] entries@[i].0@ != key@,
            },
    {
        let mut i: usize = 0;
        while i < entries.len()
            invariant
                i <= entries@.len(),
                forall|j: int| 0 <= j < i ==> #[trigger] entries@[j].0@ != key@,
            decreases entries@.len() - i,
        {
            if str_eq(entries[i].0.as_str(), key) {
                return Some(i);
            }
            i = i + 1;
        }
        None
    }

    /// Stops tracking `key`, returning the pair it had (the caller kills its processes).
    pub fn take_forwarding(&mut self, key: &str) -> (r: Option<ForwardingPair>)
        ensures
            r == (if old(self)@.contains_key(key@) { Some(old(self)@[key@]) } else { None }),
            final(self)@ == old(self)@.remove(key@),
    {
        proof { use_type_invariant(&*self); }
        let ghost old_entries = self.spec_entries();
        let mut entries: Vec<(String, ForwardingPair)> = Vec::new();
        std::mem::swap(&mut entries, &mut self.active);
        match self.position_in(&entries, key) {
            Some(i) => {
                let removed = entries.remove(i);
                let ghost nv = entries@.map_values(|e: (String, ForwardingPair)| (e.0@, e.1));
                proof {
                    assert(nv =~= old_entries.remove(i as int));
                    assert forall|a: int, b: int| 0 <= a < b < nv.len() implies #[trigger] nv[a].0 != #[trigger] nv[b].0 by {
                        let a2 = if a < i { a } else { a + 1 };
                        let b2 = if b < i { b } else { b + 1 };
                        assert(nv[a] == old_entries[a2]);
                        assert(nv[b] == old_entries[b2]);
                    }
                }
                self.active = entries;
                proof {
                    let k0 = choose|j: int| 0 <= j < old_entries.len() && #[trigger] old_entries[j].0 == key@;
                    assert(old_entries[i as int].0 == key@);
                    assert(k0 == i);
                    let m = pairs_to_map(nv);
                    let o = pairs_to_map(old_entries).remove(key@);
                    assert forall|k: Seq<char>| #[trigger] m.contains_key(k) <==> o.contains_key(k) by {
                        if exists|j: int| 0 <= j < nv.len() && #[trigger] nv[j].0 == k {
                            let j = choose|j: int| 0 <= j < nv.len() && #[trigger] nv[j].0 == k;
                            let j2 = if j < i { j } else { j + 1 };
                            assert(nv[j] == old_entries[j2]);
                        }
                        if k != key@ && exists|j: int| 0 <= j < old_entries.len() && #[trigger] old_entries[j].0 == k {
                            let j = choose|j: int| 0 <= j < old_entries.len() && #[trigger] old_entries[j].0 == k;
                            assert(j != i);
                            let j2 = if j < i { j } else { j - 1 };
                            assert(nv[j2] == old_entries[j]);
                        }
                    }
                    assert forall|k: Seq<char>| #[trigger] m.contains_key(k) implies m[k] == o[k] by {
                        let j = choose|j: int| 0 <= j < nv.len() && #[trigger] nv[j].0 == k;
                        let j2 = if j < i { j } else { j + 1 };
                        assert(nv[j] == old_entries[j2]);
                        let j3 = choose|j: int| 0 <= j < old_entries.len() && #[trigger] old_entries[j].0 == k;
                        assert(j3 == j2);
                    }
                    assert(m =~= o);
                }
                Some(removed.1)
            },
            None => {
                self.active = entries;
                proof {
                    assert(!pairs_to_map(old_entries).contains_key(key@));
                    assert(pairs_to_map(old_entries).remove(key@) =~= pairs_to_map(old_entries));
                }
                None
            },
        }
    }
}

impl Default for PortForwarder {
    /// A forwarder with no active forwarding processes.
    fn default() -> (f: Self)
        ensures
            f@ == Map::<Seq<char>, ForwardingPair>::empty(),
    {
        PortForwarder::new()
    }
}



/// `["socat", "TCP-LISTEN:{listen_port},fork,reuseaddr", "TCP:{coast_ip}:{target_port}"]`
pub open spec fn socat_command_spec(listen_port: u16, coast_ip: Seq<char>, target_port: u16) -> Seq<Seq<char>> {
    seq![
        "socat"@,
        "TCP-LISTEN:"@ + decimal(listen_port as nat) + ",fork,reuseaddr"@,
        "TCP:"@ + coast_ip + ":"@ + decimal(target_port as nat),
    ]
}

/// Build a socat command that listens on `listen_port` and forwards to `coast_ip:target_port`.
pub fn build_socat_command(listen_port: u16, coast_ip: &str, target_port: u16) -> (cmd: Vec<String>)
    ensures
        string_views(cmd@) == socat_command_spec(listen_port, coast_ip@, target_port),
{
    let mut listen: Vec<char> = Vec::new();
    extend_chars(&mut listen, "TCP-LISTEN:");
    push_decimal(&mut listen, listen_port as u64);
    extend_chars(&mut listen, ",fork,reuseaddr");
    let mut target: Vec<char> = Vec::new();
    extend_chars(&mut target, "TCP:");
    extend_chars(&mut target, coast_ip);
    extend_chars(&mut target, ":");
    push_decimal(&mut target, target_port as u64);
    let cmd = vec!["socat".to_owned(), string_from_chars(listen.as_slice()), string_from_chars(target.as_slice())];
    assert(string_views(cmd@) =~= socat_command_spec(listen_port, coast_ip@, target_port));
    cmd
}

/// Socat command for canonical port forwarding (only for the checked-out instance).
pub fn socat_command_canonical(canonical_port: u16, coast_ip: &str, target_port: u16) -> (cmd: Vec<String>)
    ensures
        string_views(cmd@) == socat_command_spec(canonical_port, coast_ip@, target_port),
{
    build_socat_command(canonical_port, coast_ip, target_port)
}

/// Socat command for dynamic port forwarding (always on while the instance runs).
pub fn socat_command_dynamic(dynamic_port: u16, coast_ip: &str, target_port: u16) -> (cmd: Vec<String>)
    ensures
        string_views(cmd@) == socat_command_spec(dynamic_port, coast_ip@, target_port),
{
    build_socat_command(dynamic_port, coast_ip, target_port)
}

/// A socat command to restore during daemon startup.
#[derive(Debug, Clone, PartialEq, Eq)]
pub struct RestoreSocatCmd {
    /// The socat command arguments to spawn.
    pub cmd: Vec<String>,
    /// Whether this is a canonical (checkout) or dynamic (always-on) forwarder.
    pub is_canonical: bool,
    /// Logical port name for DB updates (e.g. "web").
    pub logical_name: String,
}

/// A port allocation to restore, decoupled from the DB record type.
pub struct PortToRestore<'a> {
    /// Logical port name.
    pub logical_name: &'a str,
    /// Canonical (well-known) port.
    pub canonical_port: u16,
    /// Dynamically allocated port.
    pub dynamic_port: u16,
}

/// The restore command for port `p`: dynamic forwarders listen on the dynamic port and
/// reach the container; canonical ones listen on the canonical port and reach the dynamic one.
pub open spec fn restore_cmd_matches(c: RestoreSocatCmd, p: PortToRestore, coast_ip: Seq<char>, canonical: bool) -> bool {
    &&& c.is_canonical == canonical
    &&& c.logical_name@ == p.logical_name@
    &&& if canonical {
            string_views(c.cmd@) == socat_command_spec(p.canonical_port, "127.0.0.1"@, p.dynamic_port)
        } else {
            string_views(c.cmd@) == socat_command_spec(p.dynamic_port, coast_ip, p.canonical_port)
        }
}

/// Compute the socat commands that restore port forwarding for an instance:
/// dynamic forwarders for all ports first, then canonical ones if checked out.
pub fn restoration_commands(ports: &[PortToRestore], coast_ip: &str, is_checked_out: bool) -> (cmds: Vec<RestoreSocatCmd>)
    ensures
        cmds@.len() == if is_checked_out { 2 * ports@.len() } else { ports@.len() },
        forall|i: int| 0 <= i < ports@.len() ==> restore_cmd_matches(#[trigger] cmds@[i], ports@[i], coast_ip@, false),
        is_checked_out ==> forall|i: int| 0 <= i < ports@.len()
            ==> restore_cmd_matches(#[trigger] cmds@[ports@.len() + i], ports@[i], coast_ip@, true),
{
    let mut cmds: Vec<RestoreSocatCmd> = Vec::new();
    let n = ports.len();
    let mut i: usize = 0;
    while i < n
        invariant
            n == ports@.len(),
            i <= n,
            cmds@.len() == i,
            forall|j: int| 0 <= j < i ==> restore_cmd_matches(#[trigger] cmds@[j], ports@[j], coast_ip@, false),
        decreases n - i,
    {
        let p = &ports[i];
        cmds.push(RestoreSocatCmd {
            cmd: socat_command_dynamic(p.dynamic_port, coast_ip, p.canonical_port),
            is_canonical: false,
            logical_name: p.logical_name.to_owned(),
        });
        i = i + 1;
    }
    if is_checked_out {
        let mut k: usize = 0;
        while k < n
            invariant
                n == ports@.len(),
                k <= n,
                cmds@.len() == n + k,
                forall|j: int| 0 <= j < n ==> restore_cmd_matches(#[trigger] cmds@[j], ports@[j], coast_ip@, false),
                forall|j: int| 0 <= j < k ==> restore_cmd_matches(#[trigger] cmds@[n + j], ports@[j], coast_ip@, true),
            decreases n - k,
        {
            let p = &ports[k];
            let ghost prev = cmds@;
            cmds.push(RestoreSocatCmd {
                cmd: socat_command_canonical(p.canonical_port, "127.0.0.1", p.dynamic_port),
                is_canonical: true,
                logical_name: p.logical_name.to_owned(),
            });
            proof {
                assert forall|j: int| 0 <= j < n implies restore_cmd_matches(#[trigger] cmds@[j], ports@[j], coast_ip@, false) by {
                    assert(cmds@[j] == prev[j]);
                }
                assert forall|j: int| 0 <= j < k + 1 implies restore_cmd_matches(#[trigger] cmds@[n + j], ports@[j], coast_ip@, true) by {
                    if j < k { assert(cmds@[n + j] == prev[n + j]); }
                }
            }
            k = k + 1;
        }
    }
    cmds
}

/// The canonical port recorded for `logical_name`, or 0 when it is unknown.
pub open spec fn canonical_port_for_spec(ports: Seq<PortToRestore>, logical_name: Seq<char>) -> u16
    decreases ports.len(),
{
    if ports.len() == 0 {
        0
    } else if ports[0].logical_name@ == logical_name {
        ports[0].canonical_port
    } else {
        canonical_port_for_spec(ports.drop_first(), logical_name)
    }
}

/// The canonical port of the first allocation named `logical_name`, or 0 (probed before
/// restoring a canonical forwarder).
pub fn canonical_port_for(ports: &[PortToRestore], logical_name: &str) -> (port: u16)
    ensures
        port == canonical_port_for_spec(ports@, logical_name@),
{
    let mut i: usize = 0;
    assert(ports@.skip(0) =~= ports@);
    while i < ports.len()
        invariant
            i <= ports@.len(),
            canonical_port_for_spec(ports@.skip(i as int), logical_name@) == canonical_port_for_spec(ports@, logical_name@),
        decreases ports@.len() - i,
    {
        if str_eq(ports[i].logical_name, logical_name) {
            return ports[i].canonical_port;
        }
        assert(ports@.skip(i as int).drop_first() =~= ports@.skip(i + 1));
        i = i + 1;
    }
    0
}

/// Number of canonical commands among `cmds`.
pub open spec fn canonical_count(cmds: Seq<RestoreSocatCmd>) -> nat
    decreases cmds.len(),
{
    if cmds.len() == 0 {
        0
    } else {
        canonical_count(cmds.drop_last()) + if cmds.last().is_canonical { 1nat } else { 0nat }
    }
}

/// A checked-out instance none of whose canonical forwarders could be restored goes back
/// to Running (when it had any to restore).
pub fn should_revert_to_running(is_checked_out: bool, canonical_ok: u32, cmds: &[RestoreSocatCmd]) -> (b: bool)
    ensures
        b == (is_checked_out && canonical_ok == 0 && canonical_count(cmds@) > 0),
{
    if !(is_checked_out && canonical_ok == 0) {
        return false;
    }
    let mut any = false;
    let mut i: usize = 0;
    while i < cmds.len()
        invariant
            i <= cmds@.len(),
            any == (canonical_count(cmds@.take(i as int)) > 0),
        decreases cmds@.len() - i,
    {
        assert(cmds@.take(i + 1).drop_last() =~= cmds@.take(i as int));
        any = any || cmds[i].is_canonical;
        i = i + 1;
    }
    assert(cmds@.take(cmds@.len() as int) =~= cmds@);
    any
}


/// ASCII letters and digits (std `char::is_ascii_alphanumeric`).
pub open spec fn is_ascii_alnum(c: char) -> bool {
    ('a' <= c && c <= 'z') || ('A' <= c && c <= 'Z') || ('0' <= c && c <= '9')
}

/// std `char::to_ascii_lowercase`.
pub open spec fn ascii_lower(c: char) -> char {
    if 'A' <= c && c <= 'Z' { ((c as u32) + 32) as char } else { c }
}

/// Characters allowed in sanitized name components: `[a-z0-9_-]`.
pub open spec fn is_name_char(c: char) -> bool {
    ('a' <= c && c <= 'z') || ('0' <= c && c <= '9') || c == '_' || c == '-'
}

/// Per-character mapping of the sanitizer.
pub open spec fn sanitize_char(c: char) -> char {
    if is_ascii_alnum(c) || c == '_' || c == '-' { ascii_lower(c) } else { '-' }
}

/// A Docker-safe name component: lowercase `[a-z0-9_-]`, no leading/trailing `-`,
/// `default` when nothing is left.
pub open spec fn sanitize_spec(component: Seq<char>) -> Seq<char> {
    let t = trim_dashes(component.map_values(|c: char| sanitize_char(c)));
    if t.len() == 0 { "default"@ } else { t }
}

fn sanitize_one(c: char) -> (r: char)
    ensures
        r == sanitize_char(c),
        is_name_char(r),
{
    if ('a' <= c && c <= 'z') || ('0' <= c && c <= '9') || c == '_' || c == '-' {
        c
    } else if 'A' <= c && c <= 'Z' {
        let u: u32 = c as u32;
        let b: u8 = (u + 32) as u8;
        b as char
    } else {
        '-'
    }
}

proof fn lemma_default_name_chars()
    ensures
        forall|i: int| 0 <= i < "default"@.len() ==> is_name_char(#[trigger] "default"@[i]),
        "default"@.len() == 7,
        "default"@[0] == 'd',
        "default"@[6] == 't',
{
    reveal_strlit("default");
}

/// Sanitize a string for use as part of a Docker container name.
pub fn sanitize_docker_name_component(component: &str) -> (r: String)
    ensures
        r@ == sanitize_spec(component@),
        r@.len() > 0,
        forall|i: int| 0 <= i < r@.len() ==> is_name_char(#[trigger] r@[i]),
        r@[0] != '-' && r@.last() != '-',
{
    let chars = chars_of(component);
    let mut mapped: Vec<char> = Vec::new();
    let mut i: usize = 0;
    while i < chars.len()
        invariant
            i <= chars@.len(),
            chars@ == component@,
            mapped@ == chars@.take(i as int).map_values(|c: char| sanitize_char(c)),
            forall|j: int| 0 <= j < mapped@.len() ==> is_name_char(#[trigger] mapped@[j]),
        decreases chars@.len() - i,
    {
        mapped.push(sanitize_one(chars[i]));
        i = i + 1;
        assert(mapped@ =~= chars@.take(i as int).map_values(|c: char| sanitize_char(c)));
    }
    assert(chars@.take(chars@.len() as int) =~= chars@);
    let (lo, hi) = trim_bounds(mapped.as_slice(), true);
    proof { lemma_trim_ends(mapped@, lo as int, hi as int); lemma_default_name_chars(); }
    if lo == hi {
        "default".to_owned()
    } else {
        let mut out: Vec<char> = Vec::new();
        let mut k: usize = lo;
        while k < hi
            invariant
                lo <= k <= hi,
                hi <= mapped@.len(),
                out@ == mapped@.subrange(lo as int, k as int),
            decreases hi - k,
        {
            out.push(mapped[k]);
            k = k + 1;
            assert(out@ =~= mapped@.subrange(lo as int, k as int));
        }
        assert(out@[0] == mapped@[lo as int]);
        assert(out@.last() == mapped@[hi - 1]);
        string_from_chars(out.as_slice())
    }
}

/// A trimmed (of dashes) slice neither starts nor ends with a dash.
proof fn lemma_trim_ends(v: Seq<char>, lo: int, hi: int)
    requires
        0 <= lo <= hi <= v.len(),
        v.subrange(lo, hi) == trim_by(v, trim_pred(true)),
    ensures
        lo < hi ==> v[lo] != '-' && v[hi - 1] != '-',
{
    if lo < hi {
        lemma_trim_by_ends(v, true);
        assert(v.subrange(lo, hi)[0] == v[lo]);
        assert(v.subrange(lo, hi)[hi - lo - 1] == v[hi - 1]);
    }
}

/// The result of a trim neither starts nor ends with a trimmed character.
pub proof fn lemma_trim_by_ends(v: Seq<char>, dash: bool)
    ensures
        trim_by(v, trim_pred(dash)).len() > 0 ==> !trim_pred(dash)(trim_by(v, trim_pred(dash))[0])
            && !trim_pred(dash)(trim_by(v, trim_pred(dash)).last()),
{
    let p = trim_pred(dash);
    let s = crate::text::trim_start_by(v, p);
    lemma_trim_start_first(v, p);
    lemma_trim_end_keeps_first(s, p);
    lemma_trim_end_last(s, p);
}

proof fn lemma_trim_start_first(v: Seq<char>, p: spec_fn(char) -> bool)
    ensures
        crate::text::trim_start_by(v, p).len() > 0 ==> !p(crate::text::trim_start_by(v, p)[0]),
    decreases v.len(),
{
    if v.len() > 0 && p(v[0]) {
        lemma_trim_start_first(v.drop_first(), p);
    }
}

proof fn lemma_trim_end_last(v: Seq<char>, p: spec_fn(char) -> bool)
    ensures
        crate::text::trim_end_by(v, p).len() > 0 ==> !p(crate::text::trim_end_by(v, p).last()),
    decreases v.len(),
{
    if v.len() > 0 && p(v.last()) {
        lemma_trim_end_last(v.drop_last(), p);
    }
}

proof fn lemma_trim_end_keeps_first(v: Seq<char>, p: spec_fn(char) -> bool)
    ensures
        crate::text::trim_end_by(v, p).len() <= v.len(),
        forall|i: int| 0 <= i < crate::text::trim_end_by(v, p).len()
            ==> #[trigger] crate::text::trim_end_by(v, p)[i] == v[i],
    decreases v.len(),
{
    if v.len() > 0 && p(v.last()) {
        lemma_trim_end_keeps_first(v.drop_last(), p);
    }
}


/// FNV-1a 64-bit offset basis.
pub const FNV_OFFSET_BASIS: u64 = 0xcbf29ce484222325;

/// FNV-1a 64-bit prime.
pub const FNV_PRIME: u64 = 0x100000001b3;

/// FNV-1a over `bytes`, starting from state `h`.
pub open spec fn fnv1a(h: u64, bytes: Seq<u8>) -> u64
    decreases bytes.len(),
{
    if bytes.len() == 0 {
        h
    } else {
        fnv1a(vstd::wrapping::u64_specs::wrapping_mul(h ^ (bytes[0] as u64), FNV_PRIME), bytes.drop_first())
    }
}

/// The hash of a `(project, instance)` pair: FNV-1a of the UTF-8 bytes of the project,
/// a zero byte, and the UTF-8 bytes of the instance.
pub open spec fn bridge_hash_spec(project: Seq<char>, instance: Seq<char>) -> u64 {
    fnv1a(FNV_OFFSET_BASIS,
        vstd::utf8::encode_utf8(project) + seq![0u8] + vstd::utf8::encode_utf8(instance))
}

fn fnv_feed(h: u64, bytes: &[u8]) -> (r: u64)
    ensures
        r == fnv1a(h, bytes@),
{
    let mut state = h;
    let mut i: usize = 0;
    assert(bytes@.skip(0) =~= bytes@);
    while i < bytes.len()
        invariant
            i <= bytes@.len(),
            fnv1a(state, bytes@.skip(i as int)) == fnv1a(h, bytes@),
        decreases bytes@.len() - i,
    {
        assert(bytes@.skip(i as int).drop_first() =~= bytes@.skip(i + 1));
        state = (state ^ (bytes[i] as u64)).wrapping_mul(FNV_PRIME);
        i = i + 1;
    }
    state
}

proof fn lemma_fnv_append(h: u64, a: Seq<u8>, b: Seq<u8>)
    ensures
        fnv1a(fnv1a(h, a), b) == fnv1a(h, a + b),
    decreases a.len(),
{
    if a.len() > 0 {
        let h2 = vstd::wrapping::u64_specs::wrapping_mul(h ^ (a[0] as u64), FNV_PRIME);
        lemma_fnv_append(h2, a.drop_first(), b);
        assert((a + b).drop_first() =~= a.drop_first() + b);
    } else {
        assert(a + b =~= b);
    }
}

/// 64-bit FNV-1a hash of the project and instance names, used to keep
/// checkout bridge names distinct after sanitization.
pub fn checkout_bridge_name_hash(project: &str, instance: &str) -> (h: u64)
    ensures
        h == bridge_hash_spec(project@, instance@),
{
    let pb = project.as_bytes();
    let ib = instance.as_bytes();
    let zero: [u8; 1] = [0u8];
    let h1 = fnv_feed(FNV_OFFSET_BASIS, pb);
    let h2 = fnv_feed(h1, zero.as_slice());
    let h3 = fnv_feed(h2, ib);
    proof {
        assert(zero@ =~= seq![0u8]);
        lemma_fnv_append(FNV_OFFSET_BASIS, pb@, seq![0u8]);
        lemma_fnv_append(FNV_OFFSET_BASIS, pb@ + seq![0u8], ib@);
    }
    h3
}

/// Longest base (`{project}-{instance}`) that keeps the name within 255 characters:
/// 255 minus `coast-checkout-`, the separating `-` and 16 hash digits.
pub const MAX_BRIDGE_BASE_LEN: usize = 223;

/// The base part of a checkout bridge name.
pub open spec fn bridge_base_spec(project: Seq<char>, instance: Seq<char>) -> Seq<char> {
    let b0 = sanitize_spec(project) + "-"@ + sanitize_spec(instance);
    let b1 = if b0.len() > MAX_BRIDGE_BASE_LEN { trim_dashes(b0.take(MAX_BRIDGE_BASE_LEN as int)) } else { b0 };
    if b1.len() == 0 { "default"@ } else { b1 }
}

/// `coast-checkout-{base}-{hash as 16 lowercase hex digits}`
pub open spec fn checkout_bridge_container_name_spec(project: Seq<char>, instance: Seq<char>) -> Seq<char> {
    "coast-checkout-"@ + bridge_base_spec(project, instance) + "-"@
        + hex_fixed(bridge_hash_spec(project, instance) as nat, 16)
}

/// Name of the WSL checkout bridge container of an instance.
pub fn checkout_bridge_container_name(project: &str, instance: &str) -> (name: String)
    ensures
        name@ == checkout_bridge_container_name_spec(project@, instance@),
{
    let hash = checkout_bridge_name_hash(project, instance);
    let p = sanitize_docker_name_component(project);
    let i = sanitize_docker_name_component(instance);
    let mut base: Vec<char> = Vec::new();
    extend_chars(&mut base, p.as_str());
    extend_chars(&mut base, "-");
    extend_chars(&mut base, i.as_str());
    let ghost b0 = base@;
    let mut b1: Vec<char> = if base.len() > MAX_BRIDGE_BASE_LEN {
        let mut cut: Vec<char> = Vec::new();
        let mut k: usize = 0;
        while k < MAX_BRIDGE_BASE_LEN
            invariant
                k <= MAX_BRIDGE_BASE_LEN,
                MAX_BRIDGE_BASE_LEN < base@.len(),
                cut@ == base@.take(k as int),
            decreases MAX_BRIDGE_BASE_LEN - k,
        {
            cut.push(base[k]);
            k = k + 1;
            assert(cut@ =~= base@.take(k as int));
        }
        let (lo, hi) = trim_bounds(cut.as_slice(), true);
        let mut t: Vec<char> = Vec::new();
        let mut j: usize = lo;
        while j < hi
            invariant
                lo <= j <= hi,
                hi <= cut@.len(),
                t@ == cut@.subrange(lo as int, j as int),
            decreases hi - j,
        {
            t.push(cut[j]);
            j = j + 1;
            assert(t@ =~= cut@.subrange(lo as int, j as int));
        }
        t
    } else {
        base
    };
    if b1.len() == 0 {
        b1 = Vec::new();
        extend_chars(&mut b1, "default");
    }
    let mut name: Vec<char> = Vec::new();
    extend_chars(&mut name, "coast-checkout-");
    let mut k: usize = 0;
    let ghost before = name@;
    while k < b1.len()
        invariant
            k <= b1@.len(),
            name@ == before + b1@.take(k as int),
        decreases b1@.len() - k,
    {
        name.push(b1[k]);
        k = k + 1;
        assert(name@ =~= before + b1@.take(k as int));
    }
    assert(b1@.take(b1@.len() as int) =~= b1@);
    assert(b1@ == bridge_base_spec(project@, instance@));
    extend_chars(&mut name, "-");
    push_hex_fixed(&mut name, hash, 16);
    string_from_chars(name.as_slice())
}

/// The name ends with the 16 hex digits of the pair's hash, so pairs whose hashes
/// differ (such as `My.App`/`feat/branch` and `my-app`/`feat-branch`) get distinct
/// bridge names even when their sanitized parts coincide.
pub proof fn lemma_bridge_names_differ_by_hash(p1: Seq<char>, i1: Seq<char>, p2: Seq<char>, i2: Seq<char>)
    requires
        bridge_hash_spec(p1, i1) != bridge_hash_spec(p2, i2),
    ensures
        checkout_bridge_container_name_spec(p1, i1) != checkout_bridge_container_name_spec(p2, i2),
{
    let h1 = bridge_hash_spec(p1, i1) as nat;
    let h2 = bridge_hash_spec(p2, i2) as nat;
    let n1 = checkout_bridge_container_name_spec(p1, i1);
    let n2 = checkout_bridge_container_name_spec(p2, i2);
    lemma_hex_fixed_len(h1, 16);
    lemma_hex_fixed_len(h2, 16);
    lemma_pow16_16();
    if n1 == n2 {
        assert(n1.skip(n1.len() - 16) =~= hex_fixed(h1, 16));
        assert(n2.skip(n2.len() - 16) =~= hex_fixed(h2, 16));
        lemma_hex_fixed_injective(h1, h2, 16);
    }
}

proof fn lemma_hex_fixed_len(n: nat, w: nat)
    ensures
        hex_fixed(n, w).len() == w,
    decreases w,
{
    if w > 0 {
        lemma_hex_fixed_len(n / 16, (w - 1) as nat);
    }
}

proof fn lemma_hex_digit_injective(a: nat, b: nat)
    requires
        a < 16,
        b < 16,
        crate::text::hex_digit(a) == crate::text::hex_digit(b),
    ensures
        a == b,
{
}

/// `16^w`
pub open spec fn pow16(w: nat) -> nat
    decreases w,
{
    if w == 0 { 1 } else { 16 * pow16((w - 1) as nat) }
}

proof fn lemma_pow16_16()
    ensures
        pow16(16) == 0x1_0000_0000_0000_0000,
{
    reveal_with_fuel(pow16, 17);
}

/// Fixed-width hex rendering is injective below `16^w`.
proof fn lemma_hex_fixed_injective(a: nat, b: nat, w: nat)
    requires
        a < pow16(w),
        b < pow16(w),
        hex_fixed(a, w) == hex_fixed(b, w),
    ensures
        a == b,
    decreases w,
{
    if w > 0 {
        let wa = hex_fixed(a / 16, (w - 1) as nat);
        let wb = hex_fixed(b / 16, (w - 1) as nat);
        lemma_hex_fixed_len(a / 16, (w - 1) as nat);
        lemma_hex_fixed_len(b / 16, (w - 1) as nat);
        assert(hex_fixed(a, w).last() == crate::text::hex_digit(a % 16));
        assert(hex_fixed(b, w).last() == crate::text::hex_digit(b % 16));
        lemma_hex_digit_injective(a % 16, b % 16);
        assert(hex_fixed(a, w).drop_last() =~= wa);
        assert(hex_fixed(b, w).drop_last() =~= wb);
        let pw = pow16((w - 1) as nat);
        assert(a / 16 < pw) by (nonlinear_arith)
            requires a < 16 * pw;
        assert(b / 16 < pw) by (nonlinear_arith)
            requires b < 16 * pw;
        lemma_hex_fixed_injective(a / 16, b / 16, (w - 1) as nat);
        assert(a == 16 * (a / 16) + a % 16) by (nonlinear_arith);
        assert(b == 16 * (b / 16) + b % 16) by (nonlinear_arith);
    }
}


/// A port forwarded by the checkout bridge container.
pub struct CheckoutBridgePort<'a> {
    /// Logical port name (informational).
    pub _logical_name: &'a str,
    /// Canonical port published by the bridge.
    pub canonical_port: u16,
    /// Dynamic host port the bridge forwards to.
    pub dynamic_port: u16,
}

/// One socat line of the bridge script.
pub open spec fn bridge_script_line(p: CheckoutBridgePort) -> Seq<char> {
    "socat TCP-LISTEN:"@ + decimal(p.canonical_port as nat) + ",fork,reuseaddr TCP:host.docker.internal:"@
        + decimal(p.dynamic_port as nat) + " &\n"@
}

/// The socat lines of all ports, in order.
pub open spec fn bridge_script_lines(ports: Seq<CheckoutBridgePort>) -> Seq<char>
    decreases ports.len(),
{
    if ports.len() == 0 {
        Seq::empty()
    } else {
        bridge_script_lines(ports.drop_last()) + bridge_script_line(ports.last())
    }
}

/// `set -eu`, one backgrounded socat per port, then `wait`.
pub open spec fn bridge_script_spec(ports: Seq<CheckoutBridgePort>) -> Seq<char> {
    "set -eu\n"@ + bridge_script_lines(ports) + "wait\n"@
}

/// The shell script run by the checkout bridge container.
pub fn checkout_bridge_shell_script(ports: &[CheckoutBridgePort]) -> (script: String)
    ensures
        script@ == bridge_script_spec(ports@),
{
    let mut out: Vec<char> = Vec::new();
    extend_chars(&mut out, "set -eu\n");
    let mut i: usize = 0;
    while i < ports.len()
        invariant
            i <= ports@.len(),
            out@ == "set -eu\n"@ + bridge_script_lines(ports@.take(i as int)),
        decreases ports@.len() - i,
    {
        let ghost before = out@;
        extend_chars(&mut out, "socat TCP-LISTEN:");
        push_decimal(&mut out, ports[i].canonical_port as u64);
        extend_chars(&mut out, ",fork,reuseaddr TCP:host.docker.internal:");
        push_decimal(&mut out, ports[i].dynamic_port as u64);
        extend_chars(&mut out, " &\n");
        proof {
            assert(ports@.take(i + 1).drop_last() =~= ports@.take(i as int));
            assert(out@ =~= before + bridge_script_line(ports@[i as int]));
        }
        i = i + 1;
    }
    extend_chars(&mut out, "wait\n");
    assert(ports@.take(ports@.len() as int) =~= ports@);
    string_from_chars(out.as_slice())
}

/// `-p {c}:{c}` for every port, in order.
pub open spec fn bridge_publish_args(ports: Seq<CheckoutBridgePort>) -> Seq<Seq<char>>
    decreases ports.len(),
{
    if ports.len() == 0 {
        Seq::empty()
    } else {
        bridge_publish_args(ports.drop_last()) + seq!["-p"@,
            decimal(ports.last().canonical_port as nat) + ":"@ + decimal(ports.last().canonical_port as nat)]
    }
}

/// The `docker run` arguments that start the checkout bridge container.
pub open spec fn bridge_run_args_spec(project: Seq<char>, instance: Seq<char>, ports: Seq<CheckoutBridgePort>) -> Seq<Seq<char>> {
    seq!["run"@, "-d"@, "--name"@, checkout_bridge_container_name_spec(project, instance),
        "--label"@, CHECKOUT_BRIDGE_LABEL@,
        "--label"@, "coast.project="@ + project,
        "--label"@, "coast.instance="@ + instance,
        "--add-host"@, "host.docker.internal:host-gateway"@,
        "--entrypoint"@, "sh"@]
        + bridge_publish_args(ports)
        + seq![CHECKOUT_BRIDGE_IMAGE@, "-lc"@, bridge_script_spec(ports)]
}

/// Arguments of `docker` that start the WSL checkout bridge for an instance.
pub fn checkout_bridge_run_args(project: &str, instance: &str, ports: &[CheckoutBridgePort]) -> (args: Vec<String>)
    ensures
        string_views(args@) == bridge_run_args_spec(project@, instance@, ports@),
{
    let mut args: Vec<String> = vec![
        "run".to_owned(), "-d".to_owned(), "--name".to_owned(),
        checkout_bridge_container_name(project, instance),
        "--label".to_owned(), CHECKOUT_BRIDGE_LABEL.to_owned(),
        "--label".to_owned(), concat2("coast.project=", project),
        "--label".to_owned(), concat2("coast.instance=", instance),
        "--add-host".to_owned(), "host.docker.internal:host-gateway".to_owned(),
        "--entrypoint".to_owned(), "sh".to_owned(),
    ];
    let ghost head = string_views(args@);
    assert(head =~= seq!["run"@, "-d"@, "--name"@, checkout_bridge_container_name_spec(project@, instance@),
        "--label"@, CHECKOUT_BRIDGE_LABEL@,
        "--label"@, "coast.project="@ + project@,
        "--label"@, "coast.instance="@ + instance@,
        "--add-host"@, "host.docker.internal:host-gateway"@,
        "--entrypoint"@, "sh"@]);
    let mut i: usize = 0;
    while i < ports.len()
        invariant
            i <= ports@.len(),
            string_views(args@) == head + bridge_publish_args(ports@.take(i as int)),
        decreases ports@.len() - i,
    {
        let c = ports[i].canonical_port;
        let mut b: Vec<char> = Vec::new();
        push_decimal(&mut b, c as u64);
        extend_chars(&mut b, ":");
        push_decimal(&mut b, c as u64);
        let ghost before = string_views(args@);
        args.push("-p".to_owned());
        args.push(string_from_chars(b.as_slice()));
        proof {
            assert(ports@.take(i + 1).drop_last() =~= ports@.take(i as int));
            assert(string_views(args@) =~= before + seq!["-p"@,
                decimal(c as nat) + ":"@ + decimal(c as nat)]);
        }
        i = i + 1;
    }
    assert(ports@.take(ports@.len() as int) =~= ports@);
    let ghost mid = string_views(args@);
    args.push(CHECKOUT_BRIDGE_IMAGE.to_owned());
    args.push("-lc".to_owned());
    let script = checkout_bridge_shell_script(ports);
    args.push(script);
    assert(string_views(args@) =~= mid + seq![CHECKOUT_BRIDGE_IMAGE@, "-lc"@, bridge_script_spec(ports@)]);
    assert(string_views(args@) =~= bridge_run_args_spec(project@, instance@, ports@));
    args
}

/// The `docker ps` arguments listing an instance's checkout bridge containers.
pub open spec fn bridge_list_args_spec(project: Seq<char>, instance: Seq<char>) -> Seq<Seq<char>> {
    seq!["ps"@, "-aq"@, "--filter"@, "label="@ + CHECKOUT_BRIDGE_LABEL@,
        "--filter"@, "label=coast.project="@ + project,
        "--filter"@, "label=coast.instance="@ + instance]
}

/// Arguments of `docker` that list the checkout bridge containers of an instance.
pub fn checkout_bridge_list_args(project: &str, instance: &str) -> (args: Vec<String>)
    ensures
        string_views(args@) == bridge_list_args_spec(project@, instance@),
{
    let args = vec!["ps".to_owned(), "-aq".to_owned(), "--filter".to_owned(),
        concat2("label=", CHECKOUT_BRIDGE_LABEL),
        "--filter".to_owned(), concat2("label=coast.project=", project),
        "--filter".to_owned(), concat2("label=coast.instance=", instance)];
    assert(string_views(args@) =~= bridge_list_args_spec(project@, instance@));
    args
}

/// The trimmed, non-blank lines of `s` (lines separated by `\n`).
pub open spec fn nonblank_lines(s: Seq<char>) -> Seq<Seq<char>>
    decreases s.len(),
{
    let k = first_index_of(s, '\n');
    if 0 <= k < s.len() {
        let line = trim_ws(s.take(k));
        let rest = nonblank_lines(s.skip(k + 1));
        if line.len() == 0 { rest } else { seq![line] + rest }
    } else {
        let line = trim_ws(s);
        if line.len() == 0 { Seq::empty() } else { seq![line] }
    }
}

/// Container ids printed by `docker ps -q`: one per non-blank line, trimmed.
pub fn parse_container_ids(stdout: &str) -> (ids: Vec<String>)
    ensures
        string_views(ids@) == nonblank_lines(stdout@),
{
    let chars = chars_of(stdout);
    let n = chars.len();
    let mut ids: Vec<String> = Vec::new();
    let mut start: usize = 0;
    assert(chars@.skip(0) =~= chars@);
    loop
        invariant
            start <= n,
            n == chars@.len(),
            chars@ == stdout@,
            string_views(ids@) + nonblank_lines(chars@.skip(start as int)) == nonblank_lines(stdout@),
        decreases n - start,
    {
        let ghost rest = chars@.skip(start as int);
        let mut end: usize = start;
        while end < n && chars[end] != '\n'
            invariant
                start <= end <= n,
                n == chars@.len(),
                forall|j: int| start <= j < end ==> chars@[j] != '\n',
            decreases n - end,
        {
            end = end + 1;
        }
        let mut line: Vec<char> = Vec::new();
        let mut j: usize = start;
        while j < end
            invariant
                start <= j <= end,
                end <= n,
                n == chars@.len(),
                line@ == chars@.subrange(start as int, j as int),
            decreases end - j,
        {
            line.push(chars[j]);
            j = j + 1;
            assert(line@ =~= chars@.subrange(start as int, j as int));
        }
        let (lo, hi) = crate::text::trim_bounds(line.as_slice(), false);
        proof {
            assert forall|q: int| 0 <= q < end - start implies rest[q] != '\n' by {
                assert(rest[q] == chars@[start + q]);
            }
            if end < n {
                assert(rest[end - start] == chars@[end as int]);
            }
            lemma_first_index_of(rest, '\n', end - start);
            assert(rest.take(end - start) =~= line@);
        }
        let ghost before = string_views(ids@);
        if lo < hi {
            let mut t: Vec<char> = Vec::new();
            let mut q: usize = lo;
            while q < hi
                invariant
                    lo <= q <= hi,
                    hi <= line@.len(),
                    t@ == line@.subrange(lo as int, q as int),
                decreases hi - q,
            {
                t.push(line[q]);
                q = q + 1;
                assert(t@ =~= line@.subrange(lo as int, q as int));
            }
            ids.push(string_from_chars(t.as_slice()));
            assert(string_views(ids@) =~= before.push(trim_ws(line@)));
        }
        if end == n {
            proof {
                assert(rest.take(end - start) =~= rest);
                if lo < hi {
                    assert(string_views(ids@) =~= before + seq![trim_ws(line@)]);
                } else {
                    assert(string_views(ids@) =~= before + Seq::<Seq<char>>::empty());
                }
            }
            return ids;
        }
        proof {
            assert(rest.skip(end - start + 1) =~= chars@.skip(end + 1));
            if lo < hi {
                assert(before + nonblank_lines(rest) =~= string_views(ids@) + nonblank_lines(chars@.skip(end + 1)));
            }
        }
        start = end + 1;
    }
}

/// Arguments of `docker` that force-remove the given containers.
pub fn remove_containers_args(ids: &[String]) -> (args: Vec<String>)
    ensures
        string_views(args@) == seq!["rm"@, "-f"@] + string_views(ids@),
{
    let mut args: Vec<String> = vec!["rm".to_owned(), "-f".to_owned()];
    let mut i: usize = 0;
    assert(args@[0]@ == "rm"@);
    while i < ids.len()
        invariant
            i <= ids@.len(),
            args@.len() == i + 2,
            args@[0]@ == "rm"@,
            args@[1]@ == "-f"@,
            forall|j: int| 0 <= j < i ==> (#[trigger] args@[j + 2])@ == ids@[j]@,
        decreases ids@.len() - i,
    {
        args.push(ids[i].clone());
        i = i + 1;
    }
    assert(string_views(args@) =~= seq!["rm"@, "-f"@] + string_views(ids@)) by {
        assert forall|j: int| 2 <= j < args@.len() implies args@[j]@ == ids@[j - 2]@ by {
            assert(args@[(j - 2) + 2]@ == ids@[j - 2]@);
        }
    }
    args
}


/// The state letter and command name reported by `ps -o state=,comm=`.
#[derive(Debug, Clone, PartialEq, Eq)]
pub struct ProcessStatus {
    /// Process state letter (e.g. `S`, `R`, `Z`).
    pub state: char,
    /// Command name.
    pub command: String,
}

/// The predicate "not whitespace".
pub open spec fn non_ws_pred() -> spec_fn(char) -> bool {
    |c: char| !is_ws(c)
}

/// The words of the first non-blank line of `out`.
pub open spec fn first_line_words(out: Seq<char>) -> Seq<Seq<char>> {
    let tail = out.skip(first_index_where(out, non_ws_pred()));
    words(tail.take(first_index_of(tail, '\n')))
}

/// `None` for blank output; otherwise the first non-blank character is the state and
/// the remaining words of its line, joined by single spaces, are the command.
pub open spec fn parse_ps_spec(out: Seq<char>) -> Option<(char, Seq<char>)> {
    let k = first_index_where(out, non_ws_pred());
    if k >= out.len() {
        None
    } else {
        Some((out[k], join_spaces(first_line_words(out).drop_first())))
    }
}

proof fn lemma_words_head(s: Seq<char>)
    requires
        s.len() > 0,
        !is_ws(s[0]),
    ensures
        words(s).len() >= 1,
        words(s)[0].len() >= 1,
        words(s)[0][0] == s[0],
{
    let k = first_index_where(s, ws_pred());
    lemma_first_index_where_bounds(s, ws_pred());
    assert(k > 0);
}

proof fn lemma_first_index_where_bounds(s: Seq<char>, p: spec_fn(char) -> bool)
    ensures
        0 <= first_index_where(s, p) <= s.len(),
        s.len() > 0 && !p(s[0]) ==> first_index_where(s, p) > 0,
    decreases s.len(),
{
    if s.len() > 0 && !p(s[0]) {
        lemma_first_index_where_bounds(s.drop_first(), p);
    }
}

/// Parse the output of `ps -o state=,comm= -p <pid>`.
pub fn parse_ps_process_status(output: &str) -> (r: Option<ProcessStatus>)
    ensures
        match r {
            Some(st) => parse_ps_spec(output@) == Some((st.state, st.command@)),
            None => parse_ps_spec(output@) is None,
        },
{
    let chars = chars_of(output);
    let n = chars.len();
    let mut k: usize = 0;
    while k < n && char_is_ws(chars[k])
        invariant
            k <= n,
            n == chars@.len(),
            forall|j: int| 0 <= j < k ==> is_ws(#[trigger] chars@[j]),
        decreases n - k,
    {
        k = k + 1;
    }
    proof {
        assert forall|j: int| 0 <= j < k implies !non_ws_pred()(#[trigger] chars@[j]) by {}
        lemma_first_index_where(chars@, non_ws_pred(), k as int);
    }
    if k == n {
        return None;
    }
    let mut end: usize = k;
    while end < n && chars[end] != '\n'
        invariant
            k <= end <= n,
            n == chars@.len(),
            forall|j: int| k <= j < end ==> chars@[j] != '\n',
        decreases n - end,
    {
        end = end + 1;
    }
    let mut line: Vec<char> = Vec::new();
    let mut j: usize = k;
    while j < end
        invariant
            k <= j <= end,
            end <= n,
            n == chars@.len(),
            line@ == chars@.subrange(k as int, j as int),
        decreases end - j,
    {
        line.push(chars[j]);
        j = j + 1;
        assert(line@ =~= chars@.subrange(k as int, j as int));
    }
    proof {
        let tail = chars@.skip(k as int);
        assert forall|q: int| 0 <= q < end - k implies tail[q] != '\n' by {
            assert(tail[q] == chars@[k + q]);
        }
        if end < n {
            assert(tail[end - k] == chars@[end as int]);
        }
        lemma_first_index_of(tail, '\n', end - k);
        assert(tail.take(end - k) =~= line@);
        assert(line@[0] == chars@[k as int]);
        assert(chars@[k as int] != '\n');
        lemma_words_head(line@);
    }
    let ws = split_words(line.as_slice());
    let command = join_words(ws.as_slice(), 1);
    proof {
        assert(ws@.map_values(|w: Vec<char>| w@) =~= words(line@));
    }
    Some(ProcessStatus { state: chars[k], command: string_from_chars(command.as_slice()) })
}

/// A process looks stale when `ps` does not report it, or reports a zombie, or
/// reports a command other than `socat`.
pub open spec fn looks_stale_spec(status: Option<ProcessStatus>) -> bool {
    match status {
        None => true,
        Some(st) => st.state == 'Z' || st.command@ != "socat"@,
    }
}

/// Decide from the inspected status whether a recorded socat PID is stale.
pub fn process_looks_stale(status: &Option<ProcessStatus>) -> (b: bool)
    ensures
        b == looks_stale_spec(*status),
{
    match status {
        None => true,
        Some(st) => st.state == 'Z' || !str_eq(st.command.as_str(), "socat"),
    }
}

/// Whether a recorded socat PID is stale, from its inspected status.
pub fn socat_pid_is_stale(status: &Option<ProcessStatus>) -> (b: bool)
    ensures
        b == looks_stale_spec(*status),
{
    process_looks_stale(status)
}

/// What happened when the process group of a socat PID was sent SIGKILL.
pub enum KillSignalOutcome {
    /// The signal was delivered.
    Delivered,
    /// No such process group (ESRCH).
    NoSuchProcess,
    /// Permission denied (EPERM), with the error's text.
    PermissionDenied(String),
    /// Any other error, with its text.
    Failed(String),
}

/// Error text when a socat process group cannot be killed.
pub open spec fn kill_error_message(pid: u32, e: Seq<char>) -> Seq<char> {
    "Failed to kill socat process group (PGID "@ + decimal(pid as nat) + "): "@ + e
        + ". You may need to manually kill the process with `kill -9 -- -"@ + decimal(pid as nat) + "`."@
}

/// The result of killing a socat process group: success when delivered, when the
/// group is gone, or when permission is denied but the PID no longer is a live socat.
pub open spec fn kill_result_spec(pid: u32, outcome: KillSignalOutcome, looks_stale: bool) -> Result<(), Seq<char>> {
    match outcome {
        KillSignalOutcome::Delivered => Ok(()),
        KillSignalOutcome::NoSuchProcess => Ok(()),
        KillSignalOutcome::PermissionDenied(e) => if looks_stale { Ok(()) } else { Err(kill_error_message(pid, e@)) },
        KillSignalOutcome::Failed(e) => Err(kill_error_message(pid, e@)),
    }
}

/// Views a string result as a character-sequence result.
pub open spec fn result_view(r: Result<(), String>) -> Result<(), Seq<char>> {
    match r {
        Ok(()) => Ok(()),
        Err(e) => Err(e@),
    }
}

fn kill_error(pid: u32, e: &str) -> (m: String)
    ensures
        m@ == kill_error_message(pid, e@),
{
    let mut v: Vec<char> = Vec::new();
    extend_chars(&mut v, "Failed to kill socat process group (PGID ");
    push_decimal(&mut v, pid as u64);
    extend_chars(&mut v, "): ");
    extend_chars(&mut v, e);
    extend_chars(&mut v, ". You may need to manually kill the process with `kill -9 -- -");
    push_decimal(&mut v, pid as u64);
    extend_chars(&mut v, "`.");
    string_from_chars(v.as_slice())
}

/// Interpret the outcome of `killpg(pid, SIGKILL)` for a socat forwarder.
pub fn kill_socat_result(pid: u32, outcome: KillSignalOutcome, looks_stale: bool) -> (r: Result<(), String>)
    ensures
        result_view(r) == kill_result_spec(pid, outcome, looks_stale),
{
    match outcome {
        KillSignalOutcome::Delivered => Ok(()),
        KillSignalOutcome::NoSuchProcess => Ok(()),
        KillSignalOutcome::PermissionDenied(e) => {
            if looks_stale { Ok(()) } else { Err(kill_error(pid, e.as_str())) }
        },
        KillSignalOutcome::Failed(e) => Err(kill_error(pid, e.as_str())),
    }
}

/// `Failed to kill {which} socat (PID {pid}): {e}`
pub open spec fn kill_failure_line(which: Seq<char>, pid: u32, e: Seq<char>) -> Seq<char> {
    "Failed to kill "@ + which + " socat (PID "@ + decimal(pid as nat) + "): "@ + e
}

/// Both kills of a forwarding pair are attempted; the failures are reported together,
/// joined by `; `.
pub open spec fn combined_kill_spec(pair: ForwardingPair, canonical: Result<(), Seq<char>>, dynamic: Result<(), Seq<char>>)
    -> Result<(), Seq<char>>
{
    match (canonical, dynamic) {
        (Ok(()), Ok(())) => Ok(()),
        (Err(a), Ok(())) => Err(kill_failure_line("canonical"@, pair.canonical_pid, a)),
        (Ok(()), Err(b)) => Err(kill_failure_line("dynamic"@, pair.dynamic_pid, b)),
        (Err(a), Err(b)) => Err(kill_failure_line("canonical"@, pair.canonical_pid, a) + "; "@
            + kill_failure_line("dynamic"@, pair.dynamic_pid, b)),
    }
}

fn kill_failure(which: &str, pid: u32, e: &str, out: &mut Vec<char>)
    ensures
        final(out)@ == old(out)@ + kill_failure_line(which@, pid, e@),
{
    extend_chars(out, "Failed to kill ");
    extend_chars(out, which);
    extend_chars(out, " socat (PID ");
    push_decimal(out, pid as u64);
    extend_chars(out, "): ");
    extend_chars(out, e);
}

/// Combine the results of killing both processes of a forwarding pair.
pub fn combine_kill_results(pair: ForwardingPair, canonical: Result<(), String>, dynamic: Result<(), String>)
    -> (r: Result<(), String>)
    ensures
        result_view(r) == combined_kill_spec(pair, result_view(canonical), result_view(dynamic)),
{
    let mut msg: Vec<char> = Vec::new();
    match (&canonical, &dynamic) {
        (Ok(()), Ok(())) => {
            return Ok(());
        },
        (Err(a), Ok(())) => {
            kill_failure("canonical", pair.canonical_pid, a.as_str(), &mut msg);
        },
        (Ok(()), Err(b)) => {
            kill_failure("dynamic", pair.dynamic_pid, b.as_str(), &mut msg);
        },
        (Err(a), Err(b)) => {
            kill_failure("canonical", pair.canonical_pid, a.as_str(), &mut msg);
            extend_chars(&mut msg, "; ");
            kill_failure("dynamic", pair.dynamic_pid, b.as_str(), &mut msg);
        },
    }
    Err(string_from_chars(msg.as_slice()))
}

/// Whether a TCP port can be bound on 127.0.0.1.
#[derive(Debug, Clone, PartialEq, Eq)]
pub enum PortBindStatus {
    /// The bind succeeded.
    Available,
    /// Another socket holds the port.
    InUse,
    /// Binding is not permitted and nothing answers on the port.
    PermissionDenied,
    /// Any other bind error, with its text.
    UnexpectedError(String),
}

/// The outcome of trying to bind 127.0.0.1:port.
pub enum BindAttempt {
    /// The listener was bound (and dropped).
    Bound,
    /// `AddrInUse`.
    AddrInUse,
    /// `PermissionDenied`.
    PermissionDenied,
    /// Any other error kind, with the error's text.
    Failed(String),
}

/// Classify a bind attempt; on permission denied, a port that accepts connections is in use.
pub fn classify_bind_attempt(attempt: BindAttempt, can_connect: bool) -> (st: PortBindStatus)
    ensures
        match attempt {
            BindAttempt::Bound => st is Available,
            BindAttempt::AddrInUse => st is InUse,
            BindAttempt::PermissionDenied => if can_connect { st is InUse } else { st is PermissionDenied },
            BindAttempt::Failed(e) => st matches PortBindStatus::UnexpectedError(m) && m@ == e@,
        },
{
    match attempt {
        BindAttempt::Bound => PortBindStatus::Available,
        BindAttempt::AddrInUse => PortBindStatus::InUse,
        BindAttempt::PermissionDenied => if can_connect { PortBindStatus::InUse } else { PortBindStatus::PermissionDenied },
        BindAttempt::Failed(e) => PortBindStatus::UnexpectedError(e),
    }
}

/// Whether a port probe found the port available.
pub fn is_port_available(status: &PortBindStatus) -> (b: bool)
    ensures
        b == (*status is Available),
{
    match status {
        PortBindStatus::Available => true,
        _ => false,
    }
}

/// Pseudo-random start offset in the dynamic range, from the process id and a clock reading.
pub fn dynamic_port_start_offset(pid: u32, timestamp_nanos: u64) -> (offset: u32)
    ensures
        offset == (pid ^ (timestamp_nanos as u32)) % PORT_RANGE_SIZE,
        offset < PORT_RANGE_SIZE,
{
    (pid ^ (timestamp_nanos as u32)) % PORT_RANGE_SIZE
}

/// The port tried at a given attempt: successive ports from the start offset, wrapping
/// around within 49152..=65535.
pub fn dynamic_port_candidate(start_offset: u32, attempt: u32) -> (port: u16)
    requires
        start_offset < PORT_RANGE_SIZE,
        attempt < MAX_ALLOCATION_ATTEMPTS,
    ensures
        port as int == PORT_RANGE_START as int + (start_offset + attempt) % (PORT_RANGE_SIZE as int),
        PORT_RANGE_START <= port <= PORT_RANGE_END,
{
    let offset = (start_offset + attempt) % PORT_RANGE_SIZE;
    PORT_RANGE_START + offset as u16
}

/// What to do while waiting for a freshly spawned socat to bind its port.
pub enum SpawnCheck {
    /// The process is alive and the port answers.
    Ready,
    /// The process died before binding; the error text.
    Exited(String),
    /// The deadline passed; kill the process and report the error text.
    TimedOut(String),
    /// Sleep briefly and check again.
    Retry,
}

/// One step of the post-spawn check of a socat listening on `listen_port`.
pub fn spawn_check_step(listen_port: u16, healthy: bool, port_bound: bool, deadline_passed: bool) -> (c: SpawnCheck)
    ensures
        healthy && port_bound ==> c is Ready,
        !healthy ==> (c matches SpawnCheck::Exited(m) && m@ == "Spawned socat process for port "@
            + decimal(listen_port as nat) + " exited before binding the port."@),
        healthy && !port_bound && deadline_passed ==> (c matches SpawnCheck::TimedOut(m)
            && m@ == "Spawned socat process for port "@ + decimal(listen_port as nat)
            + " did not bind the port in time."@),
        healthy && !port_bound && !deadline_passed ==> c is Retry,
{
    if healthy && port_bound {
        return SpawnCheck::Ready;
    }
    let mut v: Vec<char> = Vec::new();
    extend_chars(&mut v, "Spawned socat process for port ");
    push_decimal(&mut v, listen_port as u64);
    if !healthy {
        extend_chars(&mut v, " exited before binding the port.");
        return SpawnCheck::Exited(string_from_chars(v.as_slice()));
    }
    if deadline_passed {
        extend_chars(&mut v, " did not bind the port in time.");
        return SpawnCheck::TimedOut(string_from_chars(v.as_slice()));
    }
    SpawnCheck::Retry
}

/// Recording a pair for a key makes the key active with that pair, taking a key makes
/// it inactive, and neither touches any other key.
pub proof fn lemma_forwarder_record_and_take(
    m: Map<Seq<char>, ForwardingPair>,
    key: Seq<char>,
    pair: ForwardingPair,
    other: Seq<char>,
)
    ensures
        m.insert(key, pair).contains_key(key),
        m.insert(key, pair)[key] == pair,
        !m.remove(key).contains_key(key),
        other != key ==> m.insert(key, pair).contains_key(other) == m.contains_key(other),
        other != key ==> m.remove(key).contains_key(other) == m.contains_key(other),
        other != key && m.contains_key(other) ==> m.insert(key, pair)[other] == m[other],
        other != key && m.contains_key(other) ==> m.remove(key)[other] == m[other],
{
}

/// Within the attempt budget, successive attempts try pairwise distinct ports.
pub proof fn lemma_dynamic_candidates_distinct(start_offset: u32, a: u32, b: u32)
    requires
        start_offset < PORT_RANGE_SIZE,
        a < MAX_ALLOCATION_ATTEMPTS,
        b < MAX_ALLOCATION_ATTEMPTS,
        a != b,
    ensures
        (start_offset + a) % (PORT_RANGE_SIZE as int) != (start_offset + b) % (PORT_RANGE_SIZE as int),
{
    let n = PORT_RANGE_SIZE as int;
    let x = start_offset + a;
    let y = start_offset + b;
    assert(0 <= x < 2 * n && 0 <= y < 2 * n);
    assert(x % n == (if x < n { x } else { x - n })) by (nonlinear_arith)
        requires 0 <= x < 2 * n, n > 0;
    assert(y % n == (if y < n { y } else { y - n })) by (nonlinear_arith)
        requires 0 <= y < 2 * n, n > 0;
}

proof fn lemma_trim_start_keeps(v: Seq<char>, p: spec_fn(char) -> bool)
    requires
        forall|i: int| 0 <= i < v.len() ==> is_name_char(#[trigger] v[i]),
    ensures
        forall|i: int| 0 <= i < crate::text::trim_start_by(v, p).len()
            ==> is_name_char(#[trigger] crate::text::trim_start_by(v, p)[i]),
    decreases v.len(),
{
    if v.len() > 0 && p(v[0]) {
        let t = v.drop_first();
        assert forall|i: int| 0 <= i < t.len() implies is_name_char(#[trigger] t[i]) by {
            assert(t[i] == v[i + 1]);
        }
        lemma_trim_start_keeps(t, p);
        assert(crate::text::trim_start_by(v, p) == crate::text::trim_start_by(t, p));
    } else {
        assert(crate::text::trim_start_by(v, p) == v);
    }
}

/// Sanitizing an already sanitized name component changes nothing.
pub proof fn lemma_sanitize_idempotent(component: Seq<char>)
    ensures
        sanitize_spec(sanitize_spec(component)) == sanitize_spec(component),
{
    let p = trim_pred(true);
    let v = component.map_values(|c: char| sanitize_char(c));
    let r = sanitize_spec(component);
    assert forall|i: int| 0 <= i < v.len() implies is_name_char(#[trigger] v[i]) by {
        let c = component[i];
        assert(v[i] == sanitize_char(c));
    }
    let st = crate::text::trim_start_by(v, p);
    lemma_trim_start_keeps(v, p);
    lemma_trim_end_keeps_first(st, p);
    lemma_trim_by_ends(v, true);
    lemma_default_name_chars();
    assert(r.len() > 0);
    assert(forall|i: int| 0 <= i < r.len() ==> is_name_char(#[trigger] r[i]));
    assert(r[0] != '-' && r.last() != '-');
    let w = r.map_values(|c: char| sanitize_char(c));
    assert(w =~= r);
    assert(crate::text::trim_start_by(r, p) == r);
    assert(crate::text::trim_end_by(r, p) == r);
}

/// Appends the arguments joined by single spaces.
fn push_joined(out: &mut Vec<char>, args: &[String])
    ensures
        final(out)@ == old(out)@ + join_spaces(string_views(args@)),
{
    let ghost start = out@;
    let ghost sv = string_views(args@);
    let mut i: usize = 0;
    while i < args.len()
        invariant
            i <= args@.len(),
            sv == string_views(args@),
            out@ == start + join_spaces(sv.take(i as int)),
        decreases args@.len() - i,
    {
        let ghost before = out@;
        if i > 0 {
            extend_chars(out, " ");
        }
        extend_chars(out, args[i].as_str());
        proof {
            let t = sv.take(i + 1);
            assert(t.drop_last() =~= sv.take(i as int));
            assert(t.last() == args@[i as int]@);
            if i == 0 {
                assert(sv.take(0) =~= Seq::<Seq<char>>::empty());
                assert(out@ =~= start + join_spaces(t));
            } else {
                assert(out@ =~= start + join_spaces(t));
            }
        }
        i = i + 1;
    }
    assert(sv.take(args@.len() as int) =~= sv);
}

/// The error of spawning a socat command that has no program.
pub const EMPTY_SOCAT_COMMAND: &'static str = "Empty socat command";

/// The error text when a socat command cannot be spawned.
pub open spec fn spawn_error_spec(cmd: Seq<Seq<char>>, e: Seq<char>) -> Seq<char> {
    "Failed to spawn socat process `"@ + join_spaces(cmd) + "`: "@ + e
        + ". Ensure socat is installed (e.g., `brew install socat` on macOS, `sudo apt-get install socat` on Ubuntu)."@
}

/// The error reported when spawning `cmd` fails with `e`.
pub fn spawn_error_message(cmd: &[String], e: &str) -> (m: String)
    ensures
        m@ == spawn_error_spec(string_views(cmd@), e@),
{
    let mut v: Vec<char> = Vec::new();
    extend_chars(&mut v, "Failed to spawn socat process `");
    push_joined(&mut v, cmd);
    extend_chars(&mut v, "`: ");
    extend_chars(&mut v, e);
    extend_chars(&mut v, ". Ensure socat is installed (e.g., `brew install socat` on macOS, `sudo apt-get install socat` on Ubuntu).");
    string_from_chars(v.as_slice())
}

/// The error when the canonical forwarder of a pair cannot be started.
pub fn canonical_start_error(canonical_port: u16, e: &str) -> (m: String)
    ensures
        m@ == "Failed to start canonical port forwarding on port "@ + decimal(canonical_port as nat) + ": "@ + e@,
{
    let mut v: Vec<char> = Vec::new();
    extend_chars(&mut v, "Failed to start canonical port forwarding on port ");
    push_decimal(&mut v, canonical_port as u64);
    extend_chars(&mut v, ": ");
    extend_chars(&mut v, e);
    string_from_chars(v.as_slice())
}

/// The error when the dynamic forwarder of a pair cannot be started (the canonical
/// one, already running, is killed by the caller).
pub fn dynamic_start_error(dynamic_port: u16, canonical_port: u16, e: &str) -> (m: String)
    ensures
        m@ == "Failed to start dynamic port forwarding on port "@ + decimal(dynamic_port as nat) + ": "@ + e@
            + ". Canonical forwarder on port "@ + decimal(canonical_port as nat) + " has been cleaned up."@,
{
    let mut v: Vec<char> = Vec::new();
    extend_chars(&mut v, "Failed to start dynamic port forwarding on port ");
    push_decimal(&mut v, dynamic_port as u64);
    extend_chars(&mut v, ": ");
    extend_chars(&mut v, e);
    extend_chars(&mut v, ". Canonical forwarder on port ");
    push_decimal(&mut v, canonical_port as u64);
    extend_chars(&mut v, " has been cleaned up.");
    string_from_chars(v.as_slice())
}

/// The error when no dynamic port could be allocated.
pub fn no_free_port_error() -> (m: String)
    ensures
        m@ == "Could not find an available port after "@ + decimal(MAX_ALLOCATION_ATTEMPTS as nat)
            + " attempts in range "@ + decimal(PORT_RANGE_START as nat) + "-"@ + decimal(PORT_RANGE_END as nat)
            + ". Too many ports may be in use. Try stopping some coast instances with `coast stop <name>` to free ports."@,
{
    let mut v: Vec<char> = Vec::new();
    extend_chars(&mut v, "Could not find an available port after ");
    push_decimal(&mut v, MAX_ALLOCATION_ATTEMPTS as u64);
    extend_chars(&mut v, " attempts in range ");
    push_decimal(&mut v, PORT_RANGE_START as u64);
    extend_chars(&mut v, "-");
    push_decimal(&mut v, PORT_RANGE_END as u64);
    extend_chars(&mut v, ". Too many ports may be in use. Try stopping some coast instances with `coast stop <name>` to free ports.");
    string_from_chars(v.as_slice())
}

/// The error when the `docker` program cannot be run with `args`.
pub fn docker_command_error(args: &[String], e: &str) -> (m: String)
    ensures
        m@ == "Failed to run docker command `docker "@ + join_spaces(string_views(args@)) + "`: "@ + e@,
{
    let mut v: Vec<char> = Vec::new();
    extend_chars(&mut v, "Failed to run docker command `docker ");
    push_joined(&mut v, args);
    extend_chars(&mut v, "`: ");
    extend_chars(&mut v, e);
    string_from_chars(v.as_slice())
}

/// The checkout bridge operation that failed.
pub enum BridgeOp {
    /// Listing the bridge containers of an instance.
    List,
    /// Removing them.
    Remove,
    /// Starting the bridge.
    Start,
}

/// The leading words of a checkout bridge error.
pub open spec fn bridge_op_text(op: BridgeOp) -> Seq<char> {
    match op {
        BridgeOp::List => "Failed to list checkout bridge containers for '"@,
        BridgeOp::Remove => "Failed to remove checkout bridge container(s) for '"@,
        BridgeOp::Start => "Failed to start WSL checkout bridge for '"@,
    }
}

/// The error of a failed `docker` call of the checkout bridge, with docker's
/// trimmed standard error.
pub fn bridge_error(op: BridgeOp, project: &str, instance: &str, stderr: &str) -> (m: String)
    ensures
        m@ == bridge_op_text(op) + project@ + "/"@ + instance@ + "': "@ + trim_ws(stderr@),
{
    let mut v: Vec<char> = Vec::new();
    match op {
        BridgeOp::List => extend_chars(&mut v, "Failed to list checkout bridge containers for '"),
        BridgeOp::Remove => extend_chars(&mut v, "Failed to remove checkout bridge container(s) for '"),
        BridgeOp::Start => extend_chars(&mut v, "Failed to start WSL checkout bridge for '"),
    }
    extend_chars(&mut v, project);
    extend_chars(&mut v, "/");
    extend_chars(&mut v, instance);
    extend_chars(&mut v, "': ");
    let err = chars_of(stderr);
    let (lo, hi) = trim_bounds(err.as_slice(), false);
    let ghost before = v@;
    let mut k: usize = lo;
    while k < hi
        invariant
            lo <= k <= hi,
            hi <= err@.len(),
            v@ == before + err@.subrange(lo as int, k as int),
        decreases hi - k,
    {
        v.push(err[k]);
        k = k + 1;
        assert(v@ =~= before + err@.subrange(lo as int, k as int));
    }
    string_from_chars(v.as_slice())
}

/// std `str::to_ascii_lowercase`.
pub open spec fn ascii_lowercase(s: Seq<char>) -> Seq<char> {
    s.map_values(|c: char| ascii_lower(c))
}

/// Whether the daemon runs under WSL: a WSL environment variable is set, or the
/// kernel release names Microsoft (in any letter case).
pub fn wsl_detected(distro_var_set: bool, interop_var_set: bool, kernel_release: Option<&str>) -> (b: bool)
    ensures
        b == (distro_var_set || interop_var_set || match kernel_release {
            Some(r) => crate::text::contains_seq(ascii_lowercase(r@), "microsoft"@),
            None => false,
        }),
{
    if distro_var_set || interop_var_set {
        return true;
    }
    match kernel_release {
        Some(r) => {
            let chars = chars_of(r);
            let mut lower: Vec<char> = Vec::new();
            let mut i: usize = 0;
            while i < chars.len()
                invariant
                    i <= chars@.len(),
                    chars@ == r@,
                    lower@ == ascii_lowercase(chars@.take(i as int)),
                decreases chars@.len() - i,
            {
                let c = chars[i];
                let l = if 'A' <= c && c <= 'Z' {
                    let u: u32 = c as u32;
                    let b: u8 = (u + 32) as u8;
                    b as char
                } else {
                    c
                };
                lower.push(l);
                i = i + 1;
                assert(lower@ =~= ascii_lowercase(chars@.take(i as int)));
            }
            assert(chars@.take(chars@.len() as int) =~= chars@);
            crate::text::contains_chars(lower.as_slice(), "microsoft")
        },
        None => false,
    }
}

/// The `pkill -f` pattern that matches the socat forwarders this daemon spawns
/// (`fork,reuseaddr` is unique to them); used to clean up after an unclean exit.
pub const ORPHANED_SOCAT_PATTERN: &'static str = "socat TCP-LISTEN.*fork,reuseaddr";

/// Arguments of `docker` that list every checkout bridge container.
pub fn all_bridges_list_args() -> (args: Vec<String>)
    ensures
        string_views(args@) == seq!["ps"@, "-aq"@, "--filter"@, "label="@ + CHECKOUT_BRIDGE_LABEL@],
{
    let args = vec!["ps".to_owned(), "-aq".to_owned(), "--filter".to_owned(), concat2("label=", CHECKOUT_BRIDGE_LABEL)];
    assert(string_views(args@) =~= seq!["ps"@, "-aq"@, "--filter"@, "label="@ + CHECKOUT_BRIDGE_LABEL@]);
    args
}

/// Arguments of `ps` that print the state letter and command name of `pid`.
pub fn ps_status_args(pid: u32) -> (args: Vec<String>)
    ensures
        string_views(args@) == seq!["-o"@, "state=,comm="@, "-p"@, decimal(pid as nat)],
{
    let mut d: Vec<char> = Vec::new();
    push_decimal(&mut d, pid as u64);
    let args = vec!["-o".to_owned(), "state=,comm=".to_owned(), "-p".to_owned(), string_from_chars(d.as_slice())];
    assert(string_views(args@) =~= seq!["-o"@, "state=,comm="@, "-p"@, decimal(pid as nat)]);
    args
}

/// What to do after probing the candidate port of an allocation attempt.
#[derive(Debug, Clone, Copy, PartialEq, Eq, Structural)]
pub enum AllocationStep {
    /// The candidate is free: allocate it.
    Use(u16),
    /// Probe the candidate of this next attempt.
    TryNext(u32),
    /// The attempts are used up: no free port.
    Exhausted,
}

/// The port tried at `attempt`: successive ports from the start offset, wrapping
/// around within the dynamic range.
pub open spec fn candidate_port(start_offset: u32, attempt: int) -> int {
    PORT_RANGE_START as int + (start_offset + attempt) % (PORT_RANGE_SIZE as int)
}

/// One step of allocation: the candidate when it is free, else the next attempt
/// within the budget, else exhaustion.
pub open spec fn allocation_step_spec(start_offset: u32, attempt: u32, candidate_available: bool) -> AllocationStep {
    if candidate_available {
        AllocationStep::Use(candidate_port(start_offset, attempt as int) as u16)
    } else if attempt + 1 < MAX_ALLOCATION_ATTEMPTS {
        AllocationStep::TryNext((attempt + 1) as u32)
    } else {
        AllocationStep::Exhausted
    }
}

/// The port an allocation that reaches `attempt` ends with, given which ports are
/// free: the first free candidate from `attempt` on within the budget.
pub open spec fn allocate_from(start_offset: u32, attempt: int, free: spec_fn(int) -> bool) -> Option<int>
    decreases MAX_ALLOCATION_ATTEMPTS - attempt,
{
    if attempt < 0 || attempt >= MAX_ALLOCATION_ATTEMPTS {
        None
    } else if free(candidate_port(start_offset, attempt)) {
        Some(candidate_port(start_offset, attempt))
    } else {
        allocate_from(start_offset, attempt + 1, free)
    }
}

/// One step of dynamic port allocation: the candidate of `attempt` is taken when it
/// is free; otherwise the next attempt follows, up to the attempt budget.
pub fn allocation_step(start_offset: u32, attempt: u32, candidate_available: bool) -> (s: AllocationStep)
    requires
        start_offset < PORT_RANGE_SIZE,
        attempt < MAX_ALLOCATION_ATTEMPTS,
    ensures
        s == allocation_step_spec(start_offset, attempt, candidate_available),
{
    if candidate_available {
        AllocationStep::Use(dynamic_port_candidate(start_offset, attempt))
    } else if attempt + 1 < MAX_ALLOCATION_ATTEMPTS {
        AllocationStep::TryNext(attempt + 1)
    } else {
        AllocationStep::Exhausted
    }
}

/// What to do next while starting a forwarding pair.
pub enum ForwardingStep {
    /// The canonical forwarder runs with this pid: spawn the dynamic one.
    SpawnDynamic(u32),
    /// Nothing runs: answer with the error.
    Fail(String),
    /// Kill the canonical forwarder with this pid, then answer with the error.
    KillCanonicalAndFail(u32, String),
    /// Both run: record the pair and answer with it.
    Record(ForwardingPair),
}

/// After spawning the canonical forwarder of `canonical_port`.
pub fn after_canonical_spawn(canonical_port: u16, spawned: Result<u32, String>) -> (s: ForwardingStep)
    ensures
        match spawned {
            Ok(pid) => s matches ForwardingStep::SpawnDynamic(p) && p == pid,
            Err(e) => s matches ForwardingStep::Fail(m)
                && m@ == "Failed to start canonical port forwarding on port "@ + decimal(canonical_port as nat) + ": "@ + e@,
        },
{
    match spawned {
        Ok(pid) => ForwardingStep::SpawnDynamic(pid),
        Err(e) => ForwardingStep::Fail(canonical_start_error(canonical_port, e.as_str())),
    }
}

/// After spawning the dynamic forwarder: a failure kills the canonical forwarder
/// already running, so that no half pair is left behind.
pub fn after_dynamic_spawn(canonical_pid: u32, canonical_port: u16, dynamic_port: u16, spawned: Result<u32, String>)
    -> (s: ForwardingStep)
    ensures
        match spawned {
            Ok(pid) => s == ForwardingStep::Record(ForwardingPair { canonical_pid, dynamic_pid: pid }),
            Err(e) => s matches ForwardingStep::KillCanonicalAndFail(p, m) && p == canonical_pid
                && m@ == "Failed to start dynamic port forwarding on port "@ + decimal(dynamic_port as nat) + ": "@ + e@
                    + ". Canonical forwarder on port "@ + decimal(canonical_port as nat) + " has been cleaned up."@,
        },
{
    match spawned {
        Ok(pid) => ForwardingStep::Record(ForwardingPair { canonical_pid, dynamic_pid: pid }),
        Err(e) => ForwardingStep::KillCanonicalAndFail(canonical_pid, dynamic_start_error(dynamic_port, canonical_port, e.as_str())),
    }
}

/// Driving `allocation_step` from attempt 0, probing each candidate, ends as
/// `allocate_from` says: a step that uses a port ends with it, a step that moves on
/// leaves the outcome to the next attempt, and exhaustion means no port.
pub proof fn lemma_allocation_step_drives(start_offset: u32, attempt: u32, free: spec_fn(int) -> bool)
    requires
        start_offset < PORT_RANGE_SIZE,
        attempt < MAX_ALLOCATION_ATTEMPTS,
    ensures
        ({
            let step = allocation_step_spec(start_offset, attempt, free(candidate_port(start_offset, attempt as int)));
            &&& step matches AllocationStep::Use(p) ==> allocate_from(start_offset, attempt as int, free) == Some(p as int)
            &&& step matches AllocationStep::TryNext(n) ==> allocate_from(start_offset, attempt as int, free)
                == allocate_from(start_offset, n as int, free)
            &&& step is Exhausted ==> allocate_from(start_offset, attempt as int, free) is None
        }),
{
    let c = candidate_port(start_offset, attempt as int);
    assert(0 <= (start_offset + attempt) % (PORT_RANGE_SIZE as int) < PORT_RANGE_SIZE);
    assert(PORT_RANGE_START <= c <= PORT_RANGE_END);
    if !free(c) && attempt + 1 >= MAX_ALLOCATION_ATTEMPTS {
        assert(allocate_from(start_offset, attempt + 1, free) is None);
    }
}

/// What an allocation returns: the first free candidate within the attempt budget,
/// and no port only when no candidate within the budget is free.
pub proof fn lemma_allocate_first_free(start_offset: u32, attempt: int, free: spec_fn(int) -> bool)
    requires
        0 <= attempt <= MAX_ALLOCATION_ATTEMPTS,
    ensures
        match allocate_from(start_offset, attempt, free) {
            Some(p) => exists|a: int| attempt <= a < MAX_ALLOCATION_ATTEMPTS && p == candidate_port(start_offset, a)
                && free(p) && forall|b: int| attempt <= b < a ==> !free(#[trigger] candidate_port(start_offset, b)),
            None => forall|a: int| attempt <= a < MAX_ALLOCATION_ATTEMPTS ==> !free(#[trigger] candidate_port(start_offset, a)),
        },
    decreases MAX_ALLOCATION_ATTEMPTS - attempt,
{
    if attempt < MAX_ALLOCATION_ATTEMPTS {
        lemma_allocate_first_free(start_offset, attempt + 1, free);
        if free(candidate_port(start_offset, attempt)) {
            let p = candidate_port(start_offset, attempt);
            assert(attempt <= attempt < MAX_ALLOCATION_ATTEMPTS && p == candidate_port(start_offset, attempt) && free(p)
                && forall|b: int| attempt <= b < attempt ==> !free(#[trigger] candidate_port(start_offset, b)));
        } else {
            match allocate_from(start_offset, attempt + 1, free) {
                Some(p) => {
                    let a = choose|a: int| attempt + 1 <= a < MAX_ALLOCATION_ATTEMPTS && p == candidate_port(start_offset, a)
                        && free(p) && forall|b: int| attempt + 1 <= b < a ==> !free(#[trigger] candidate_port(start_offset, b));
                    assert forall|b: int| attempt <= b < a implies !free(#[trigger] candidate_port(start_offset, b)) by {}
                },
                None => {
                    assert forall|a: int| attempt <= a < MAX_ALLOCATION_ATTEMPTS implies !free(#[trigger] candidate_port(start_offset, a)) by {}
                },
            }
        }
    }
}

impl PortForwarder {
    /// Concludes starting the forwarding of `key` once the dynamic forwarder was
    /// spawned or failed to: both running, the pair of the spawned pids is recorded
    /// under `key` and returned; otherwise nothing is recorded and the canonical pid to
    /// kill comes back with the error.
    pub fn conclude_start(
        &mut self,
        key: &str,
        canonical_pid: u32,
        canonical_port: u16,
        dynamic_port: u16,
        dynamic: Result<u32, String>,
    ) -> (r: Result<ForwardingPair, (u32, String)>)
        ensures
            match dynamic {
                Ok(pid) => {
                    &&& r == Ok::<ForwardingPair, (u32, String)>(ForwardingPair { canonical_pid, dynamic_pid: pid })
                    &&& final(self)@ == old(self)@.insert(key@, ForwardingPair { canonical_pid, dynamic_pid: pid })
                },
                Err(e) => {
                    &&& r matches Err((p, m)) && p == canonical_pid && m@ == "Failed to start dynamic port forwarding on port "@
                        + decimal(dynamic_port as nat) + ": "@ + e@ + ". Canonical forwarder on port "@
                        + decimal(canonical_port as nat) + " has been cleaned up."@
                    &&& final(self)@ == old(self)@
                },
            },
    {
        match after_dynamic_spawn(canonical_pid, canonical_port, dynamic_port, dynamic) {
            ForwardingStep::Record(pair) => {
                self.record_forwarding(key, pair);
                Ok(pair)
            },
            ForwardingStep::KillCanonicalAndFail(pid, m) => Err((pid, m)),
            ForwardingStep::SpawnDynamic(_) => Err((canonical_pid, String::new())),
            ForwardingStep::Fail(m) => Err((canonical_pid, m)),
        }
    }
}

/// Starting and stopping forwarding as a whole: after a start records the pair of
/// the spawned pids, the key is active with exactly that pair; a stop takes exactly
/// that pair out (the caller kills both of its processes) and leaves every other key
/// as before; and a stop succeeds exactly when both kills do.
pub proof fn lemma_forwarding_start_stop(
    m: Map<Seq<char>, ForwardingPair>,
    key: Seq<char>,
    canonical_pid: u32,
    dynamic_pid: u32,
    other: Seq<char>,
    canonical_kill: Result<(), Seq<char>>,
    dynamic_kill: Result<(), Seq<char>>,
)
    ensures
        ({
            let pair = ForwardingPair { canonical_pid, dynamic_pid };
            let started = m.insert(key, pair);
            &&& started.contains_key(key) && started[key] == pair
            &&& started.remove(key) == m.remove(key)
            &&& !started.remove(key).contains_key(key)
            &&& other != key ==> (started.remove(key).contains_key(other) == m.contains_key(other))
            &&& (other != key && m.contains_key(other)) ==> started.remove(key)[other] == m[other]
            &&& (combined_kill_spec(pair, canonical_kill, dynamic_kill) is Ok
                <==> (canonical_kill is Ok && dynamic_kill is Ok))
        }),
{
    let pair = ForwardingPair { canonical_pid, dynamic_pid };
    assert(m.insert(key, pair).remove(key) =~= m.remove(key));
}

} // verus!
