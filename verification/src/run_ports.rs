//! Port mappings of a new instance and the environment variables that expose
//! its dynamic ports.

use vstd::prelude::*;
use vstd::string::*;
use crate::text::{decimal, push_decimal, chars_of, string_from_chars, extend_chars};
use crate::string_map::{StringMap, lookup, insert_entry, keys_unique, lemma_lookup_after_insert};

verus! {

/// A logical port of an instance with its canonical and dynamic port numbers.
#[derive(Debug, Clone, PartialEq, Eq)]
pub struct PortMapping {
    /// Logical port name (e.g. `web`).
    pub logical_name: String,
    /// Canonical (well-known) port.
    pub canonical_port: u16,
    /// Dynamically allocated port.
    pub dynamic_port: u16,
    /// Whether this is the instance's primary port.
    pub is_primary: bool,
}

/// Turn `(logical_name, canonical, dynamic)` triples into non-primary port mappings.
pub fn port_mappings_from_pre_allocated_ports(pre_allocated_ports: &[(String, u16, u16)]) -> (m: Vec<PortMapping>)
    ensures
        m@.len() == pre_allocated_ports@.len(),
        forall|i: int| 0 <= i < m@.len() ==> {
            &&& (#[trigger] m@[i]).logical_name@ == pre_allocated_ports@[i].0@
            &&& m@[i].canonical_port == pre_allocated_ports@[i].1
            &&& m@[i].dynamic_port == pre_allocated_ports@[i].2
            &&& !m@[i].is_primary
        },
{
    let mut m: Vec<PortMapping> = Vec::new();
    let mut i: usize = 0;
    while i < pre_allocated_ports.len()
        invariant
            i <= pre_allocated_ports@.len(),
            m@.len() == i,
            forall|j: int| 0 <= j < i ==> {
                &&& (#[trigger] m@[j]).logical_name@ == pre_allocated_ports@[j].0@
                &&& m@[j].canonical_port == pre_allocated_ports@[j].1
                &&& m@[j].dynamic_port == pre_allocated_ports@[j].2
                &&& !m@[j].is_primary
            },
        decreases pre_allocated_ports@.len() - i,
    {
        let (name, canonical, dynamic) = &pre_allocated_ports[i];
        m.push(PortMapping {
            logical_name: name.clone(),
            canonical_port: *canonical,
            dynamic_port: *dynamic,
            is_primary: false,
        });
        i = i + 1;
    }
    m
}

/// Environment-variable form of a logical port name character: ASCII letters and
/// digits upper-cased, anything else becomes `_`.
pub open spec fn env_name_char(c: char) -> char {
    if 'a' <= c && c <= 'z' {
        ((c as u32) - 32) as char
    } else if ('A' <= c && c <= 'Z') || ('0' <= c && c <= '9') {
        c
    } else {
        '_'
    }
}

/// `{LOGICAL_NAME}_DYNAMIC_PORT`
pub open spec fn dynamic_port_env_name(logical_name: Seq<char>) -> Seq<char> {
    logical_name.map_values(|c: char| env_name_char(c)) + "_DYNAMIC_PORT"@
}

fn env_char(c: char) -> (r: char)
    ensures
        r == env_name_char(c),
{
    if 'a' <= c && c <= 'z' {
        let u: u32 = c as u32;
        let b: u8 = (u - 32) as u8;
        b as char
    } else if ('A' <= c && c <= 'Z') || ('0' <= c && c <= '9') {
        c
    } else {
        '_'
    }
}

/// The name of the variable exposing a logical port's dynamic port.
pub fn dynamic_port_env_var_name(logical_name: &str) -> (name: String)
    ensures
        name@ == dynamic_port_env_name(logical_name@),
{
    let c = chars_of(logical_name);
    let mut v: Vec<char> = Vec::new();
    let mut i: usize = 0;
    while i < c.len()
        invariant
            i <= c@.len(),
            c@ == logical_name@,
            v@ == c@.take(i as int).map_values(|c: char| env_name_char(c)),
        decreases c@.len() - i,
    {
        v.push(env_char(c[i]));
        i = i + 1;
        assert(v@ =~= c@.take(i as int).map_values(|c: char| env_name_char(c)));
    }
    assert(c@.take(c@.len() as int) =~= c@);
    extend_chars(&mut v, "_DYNAMIC_PORT");
    string_from_chars(v.as_slice())
}

/// The `(name, value)` pairs exposing each mapping's dynamic port, in order.
pub open spec fn dynamic_env_spec(mappings: Seq<PortMapping>) -> Seq<(Seq<char>, Seq<char>)> {
    mappings.map_values(|m: PortMapping| (dynamic_port_env_name(m.logical_name@), decimal(m.dynamic_port as nat)))
}

/// Environment variables exposing each port mapping's dynamic port.
pub fn dynamic_port_env_vars_from_mappings(mappings: &[PortMapping]) -> (vars: Vec<(String, String)>)
    ensures
        vars@.map_values(|e: (String, String)| (e.0@, e.1@)) == dynamic_env_spec(mappings@),
{
    let mut vars: Vec<(String, String)> = Vec::new();
    let mut i: usize = 0;
    while i < mappings.len()
        invariant
            i <= mappings@.len(),
            vars@.map_values(|e: (String, String)| (e.0@, e.1@)) == dynamic_env_spec(mappings@.take(i as int)),
        decreases mappings@.len() - i,
    {
        let name = dynamic_port_env_var_name(mappings[i].logical_name.as_str());
        let mut d: Vec<char> = Vec::new();
        push_decimal(&mut d, mappings[i].dynamic_port as u64);
        let value = string_from_chars(d.as_slice());
        let ghost before = vars@.map_values(|e: (String, String)| (e.0@, e.1@));
        let ghost entry = (name@, value@);
        assert(entry == (dynamic_port_env_name(mappings@[i as int].logical_name@), decimal(mappings@[i as int].dynamic_port as nat)));
        vars.push((name, value));
        proof {
            assert(vars@.map_values(|e: (String, String)| (e.0@, e.1@)) =~= before.push(entry));
            assert(dynamic_env_spec(mappings@.take(i + 1)) =~= dynamic_env_spec(mappings@.take(i as int)).push(entry));
        }
        i = i + 1;
    }
    assert(mappings@.take(mappings@.len() as int) =~= mappings@);
    vars
}

/// `env` after adding each of `vars` in order, skipping names that are already set
/// (existing values are preserved).
pub open spec fn merge_env_spec(env: Seq<(Seq<char>, Seq<char>)>, vars: Seq<(Seq<char>, Seq<char>)>)
    -> Seq<(Seq<char>, Seq<char>)>
    decreases vars.len(),
{
    if vars.len() == 0 {
        env
    } else {
        let m = merge_env_spec(env, vars.drop_last());
        if lookup(m, vars.last().0) is Some { m } else { insert_entry(m, vars.last().0, vars.last().1) }
    }
}

/// Add the dynamic port variables of the pre-allocated ports to `env_vars`, never
/// overwriting a variable that is already set.
pub fn merge_dynamic_port_env_vars(env_vars: &mut StringMap, pre_allocated_ports: &[(String, u16, u16)])
    ensures
        final(env_vars)@ == merge_env_spec(old(env_vars)@,
            pre_allocated_env_spec(pre_allocated_ports@)),
{
    let mappings = port_mappings_from_pre_allocated_ports(pre_allocated_ports);
    let vars = dynamic_port_env_vars_from_mappings(mappings.as_slice());
    let ghost all = vars@.map_values(|e: (String, String)| (e.0@, e.1@));
    proof {
        assert(all =~= pre_allocated_env_spec(pre_allocated_ports@)) by {
            assert(all =~= dynamic_env_spec(mappings@));
            assert forall|j: int| 0 <= j < all.len() implies #[trigger] all[j] == pre_allocated_env_spec(pre_allocated_ports@)[j] by {
                assert(dynamic_env_spec(mappings@)[j] == (dynamic_port_env_name(mappings@[j].logical_name@), decimal(mappings@[j].dynamic_port as nat)));
            }
        }
    }
    let mut i: usize = 0;
    while i < vars.len()
        invariant
            i <= vars@.len(),
            all == vars@.map_values(|e: (String, String)| (e.0@, e.1@)),
            env_vars@ == merge_env_spec(old(env_vars)@, all.take(i as int)),
        decreases vars@.len() - i,
    {
        let (key, value) = &vars[i];
        proof {
            assert(all.take(i + 1).drop_last() =~= all.take(i as int));
            assert(all.take(i + 1).last() == (key@, value@));
        }
        if !env_vars.contains_key(key.as_str()) {
            let _ = env_vars.insert(key.clone(), value.clone());
        }
        i = i + 1;
    }
    assert(all.take(vars@.len() as int) =~= all);
}

/// The dynamic port variables of pre-allocated `(name, canonical, dynamic)` triples.
pub open spec fn pre_allocated_env_spec(pre: Seq<(String, u16, u16)>) -> Seq<(Seq<char>, Seq<char>)> {
    pre.map_values(|t: (String, u16, u16)| (dynamic_port_env_name(t.0@), decimal(t.2 as nat)))
}

/// Merging never overwrites a variable that was already set, binds every merged
/// name, and keeps names unique.
pub proof fn lemma_merge_env_keeps_existing(
    env: Seq<(Seq<char>, Seq<char>)>,
    vars: Seq<(Seq<char>, Seq<char>)>,
    k: Seq<char>,
)
    requires
        keys_unique(env),
    ensures
        keys_unique(merge_env_spec(env, vars)),
        lookup(env, k) is Some ==> lookup(merge_env_spec(env, vars), k) == lookup(env, k),
        forall|i: int| 0 <= i < vars.len() ==> #[trigger] lookup(merge_env_spec(env, vars), vars[i].0) is Some,
    decreases vars.len(),
{
    if vars.len() > 0 {
        let pv = vars.drop_last();
        let m = merge_env_spec(env, pv);
        let (name, value) = vars.last();
        lemma_merge_env_keeps_existing(env, pv, k);
        if lookup(m, name) is None {
            lemma_lookup_after_insert(m, name, value, k);
            assert forall|i: int| 0 <= i < vars.len() implies #[trigger] lookup(merge_env_spec(env, vars), vars[i].0) is Some by {
                if i < pv.len() {
                    assert(vars[i] == pv[i]);
                    assert(lookup(m, pv[i].0) is Some);
                    lemma_lookup_after_insert(m, name, value, vars[i].0);
                }
            }
        } else {
            assert forall|i: int| 0 <= i < vars.len() implies #[trigger] lookup(merge_env_spec(env, vars), vars[i].0) is Some by {
                if i < pv.len() {
                    assert(vars[i] == pv[i]);
                }
            }
        }
    }
}

/// The value of the first variable named `k` among `vars`, if any.
pub open spec fn first_value(vars: Seq<(Seq<char>, Seq<char>)>, k: Seq<char>) -> Option<Seq<char>>
    decreases vars.len(),
{
    if vars.len() == 0 {
        None
    } else {
        match first_value(vars.drop_last(), k) {
            Some(v) => Some(v),
            None => if vars.last().0 == k { Some(vars.last().1) } else { None },
        }
    }
}

/// What a merged environment reads: a variable that was set keeps its value; any
/// other name reads the value of the first merged variable of that name, and a
/// name that is neither set nor merged stays unset.
pub proof fn lemma_merge_env_reads(
    env: Seq<(Seq<char>, Seq<char>)>,
    vars: Seq<(Seq<char>, Seq<char>)>,
    k: Seq<char>,
)
    requires
        keys_unique(env),
    ensures
        lookup(merge_env_spec(env, vars), k)
            == (if lookup(env, k) is Some { lookup(env, k) } else { first_value(vars, k) }),
    decreases vars.len(),
{
    lemma_merge_env_keeps_existing(env, vars, k);
    if vars.len() > 0 && lookup(env, k) is None {
        let pv = vars.drop_last();
        let m = merge_env_spec(env, pv);
        let (name, value) = vars.last();
        lemma_merge_env_reads(env, pv, k);
        lemma_merge_env_keeps_existing(env, pv, k);
        if lookup(m, name) is None {
            lemma_lookup_after_insert(m, name, value, k);
        }
    }
}

} // verus!
