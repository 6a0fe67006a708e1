//! The docker-compose rewrite applied to each coast instance, on a YAML
//! document model: shared services removed, image overrides applied, coast
//! volumes declared, `extra_hosts` and secret mounts added, and `rslave`
//! propagation set on bind mounts of hot services.
//!
//! Mappings keep their entries in insertion order; removing an entry moves the
//! last entry into its place, and inserting an existing key replaces its value
//! in place (the behaviour of `serde_yaml::Mapping`).

use vstd::prelude::*;
use vstd::string::*;
use crate::text::{string_views, str_eq, names_contain, contains_seq, contains_chars, chars_of, string_from_chars, extend_chars, first_index_of, find_char};

verus! {

/// A YAML document node.
pub enum YamlValue {
    /// `~` / `null`.
    Null,
    /// A boolean.
    Bool(bool),
    /// A number, kept as its canonical text.
    Number(String),
    /// A string.
    Str(String),
    /// A sequence.
    Sequence(Vec<YamlValue>),
    /// A mapping, in insertion order.
    Mapping(Vec<(YamlValue, YamlValue)>),
    /// A tagged node (`!tag value`).
    Tagged(String, Box<YamlValue>),
}

/// The mathematical value of a YAML node.
pub enum YamlView {
    Null,
    Bool(bool),
    Number(Seq<char>),
    Str(Seq<char>),
    Sequence(Seq<YamlView>),
    Mapping(Seq<(YamlView, YamlView)>),
    Tagged(Seq<char>, Box<YamlView>),
}

/// The view of a sequence of nodes.
pub open spec fn view_seq(s: Seq<YamlValue>) -> Seq<YamlView>
    decreases s,
{
    Seq::new(s.len(), |i: int| if 0 <= i < s.len() { view_node(s[i]) } else { YamlView::Null })
}

/// The view of a sequence of mapping entries.
pub open spec fn view_entries(s: Seq<(YamlValue, YamlValue)>) -> Seq<(YamlView, YamlView)>
    decreases s,
{
    Seq::new(s.len(), |i: int| if 0 <= i < s.len() { (view_node(s[i].0), view_node(s[i].1)) } else { (YamlView::Null, YamlView::Null) })
}

/// The view of a node.
pub open spec fn view_node(v: YamlValue) -> YamlView
    decreases v,
{
    match v {
        YamlValue::Null => YamlView::Null,
        YamlValue::Bool(b) => YamlView::Bool(b),
        YamlValue::Number(n) => YamlView::Number(n@),
        YamlValue::Str(s) => YamlView::Str(s@),
        YamlValue::Sequence(items) => YamlView::Sequence(view_seq(items@)),
        YamlValue::Mapping(entries) => YamlView::Mapping(view_entries(entries@)),
        YamlValue::Tagged(t, b) => YamlView::Tagged(t@, Box::new(view_node(*b))),
    }
}

impl View for YamlValue {
    type V = YamlView;

    open spec fn view(&self) -> YamlView {
        view_node(*self)
    }
}


/// A mapping entry.
pub type YamlEntry = (YamlView, YamlView);

/// The node under any tags.
pub open spec fn untag(v: YamlView) -> YamlView
    decreases v,
{
    match v {
        YamlView::Tagged(_, b) => untag(*b),
        _ => v,
    }
}

/// The string of a (possibly tagged) string node.
pub open spec fn as_str(v: YamlView) -> Option<Seq<char>> {
    match untag(v) {
        YamlView::Str(s) => Some(s),
        _ => None,
    }
}

/// Whether a node is a mapping (under any tags).
pub open spec fn is_mapping(v: YamlView) -> bool {
    untag(v) is Mapping
}

/// Whether a node is a sequence (under any tags).
pub open spec fn is_sequence(v: YamlView) -> bool {
    untag(v) is Sequence
}

/// The entries of a mapping node (empty for other nodes).
pub open spec fn entries_of(v: YamlView) -> Seq<YamlEntry> {
    match untag(v) {
        YamlView::Mapping(m) => m,
        _ => Seq::empty(),
    }
}

/// The items of a sequence node (empty for other nodes).
pub open spec fn items_of(v: YamlView) -> Seq<YamlView> {
    match untag(v) {
        YamlView::Sequence(s) => s,
        _ => Seq::empty(),
    }
}

/// Apply `g` to the entries of a mapping node, keeping its tags; other nodes are unchanged.
pub open spec fn update_mapping(v: YamlView, g: spec_fn(Seq<YamlEntry>) -> Seq<YamlEntry>) -> YamlView
    decreases v,
{
    match v {
        YamlView::Tagged(t, b) => YamlView::Tagged(t, Box::new(update_mapping(*b, g))),
        YamlView::Mapping(m) => YamlView::Mapping(g(m)),
        _ => v,
    }
}

/// Apply `g` to the items of a sequence node, keeping its tags; other nodes are unchanged.
pub open spec fn update_sequence(v: YamlView, g: spec_fn(Seq<YamlView>) -> Seq<YamlView>) -> YamlView
    decreases v,
{
    match v {
        YamlView::Tagged(t, b) => YamlView::Tagged(t, Box::new(update_sequence(*b, g))),
        YamlView::Sequence(s) => YamlView::Sequence(g(s)),
        _ => v,
    }
}

/// The string key `name`.
pub open spec fn str_key(name: Seq<char>) -> YamlView {
    YamlView::Str(name)
}

/// Index of the entry whose key is the string `name`, or the length when there is none.
pub open spec fn str_key_index(m: Seq<YamlEntry>, name: Seq<char>) -> int
    decreases m.len(),
{
    if m.len() == 0 {
        0
    } else if m[0].0 == str_key(name) {
        0
    } else {
        1 + str_key_index(m.drop_first(), name)
    }
}

/// Whether the mapping has the string key `name`.
pub open spec fn has_str(m: Seq<YamlEntry>, name: Seq<char>) -> bool {
    str_key_index(m, name) < m.len()
}

/// The value under the string key `name`.
pub open spec fn get_str(m: Seq<YamlEntry>, name: Seq<char>) -> Option<YamlView> {
    if has_str(m, name) { Some(m[str_key_index(m, name)].1) } else { None }
}

/// Remove entry `i`, moving the last entry into its place.
pub open spec fn swap_remove(m: Seq<YamlEntry>, i: int) -> Seq<YamlEntry> {
    m.update(i, m.last()).drop_last()
}

/// Remove the entry with string key `name`, if any (swap removal).
pub open spec fn remove_str(m: Seq<YamlEntry>, name: Seq<char>) -> Seq<YamlEntry> {
    if has_str(m, name) { swap_remove(m, str_key_index(m, name)) } else { m }
}

/// Remove the entries of all `names`, one after the other.
pub open spec fn remove_all_str(m: Seq<YamlEntry>, names: Seq<Seq<char>>) -> Seq<YamlEntry>
    decreases names.len(),
{
    if names.len() == 0 {
        m
    } else {
        remove_str(remove_all_str(m, names.drop_last()), names.last())
    }
}

/// Whether removing `names` one after the other removed anything.
pub open spec fn removed_any(m: Seq<YamlEntry>, names: Seq<Seq<char>>) -> bool
    decreases names.len(),
{
    if names.len() == 0 {
        false
    } else {
        removed_any(m, names.drop_last()) || has_str(remove_all_str(m, names.drop_last()), names.last())
    }
}

/// Bind string key `name` to `v`: the value is replaced in place when the key exists,
/// otherwise the entry is appended.
pub open spec fn insert_str(m: Seq<YamlEntry>, name: Seq<char>, v: YamlView) -> Seq<YamlEntry> {
    if has_str(m, name) {
        m.update(str_key_index(m, name), (m[str_key_index(m, name)].0, v))
    } else {
        m.push((str_key(name), v))
    }
}

/// Apply `f` to the value under string key `name`, if present.
pub open spec fn update_str_entry(m: Seq<YamlEntry>, name: Seq<char>, f: spec_fn(YamlView) -> YamlView) -> Seq<YamlEntry> {
    if has_str(m, name) {
        m.update(str_key_index(m, name), (m[str_key_index(m, name)].0, f(m[str_key_index(m, name)].1)))
    } else {
        m
    }
}

/// The mapping with string key `name` present (bound to `default` when it was absent).
pub open spec fn with_entry(m: Seq<YamlEntry>, name: Seq<char>, default: YamlView) -> Seq<YamlEntry> {
    if has_str(m, name) { m } else { m.push((str_key(name), default)) }
}

/// Apply `f` to the value under `name`, inserting `default` first when absent
/// (`entry(name).or_insert_with(default)`).
pub open spec fn update_entry_or_insert(m: Seq<YamlEntry>, name: Seq<char>, default: YamlView,
    f: spec_fn(YamlView) -> YamlView) -> Seq<YamlEntry>
{
    update_str_entry(with_entry(m, name, default), name, f)
}

/// The value under `name` after `entry(name).or_insert_with(default)`.
pub open spec fn entry_value(m: Seq<YamlEntry>, name: Seq<char>, default: YamlView) -> YamlView {
    match get_str(m, name) {
        Some(v) => v,
        None => default,
    }
}

/// The value under string key `name` of a mapping node.
pub open spec fn node_get(v: YamlView, name: Seq<char>) -> Option<YamlView> {
    if is_mapping(v) { get_str(entries_of(v), name) } else { None }
}

/// Names with later duplicates dropped, in first-occurrence order.
pub open spec fn dedup_names(s: Seq<Seq<char>>) -> Seq<Seq<char>>
    decreases s.len(),
{
    if s.len() == 0 {
        Seq::empty()
    } else {
        let d = dedup_names(s.drop_last());
        if d.contains(s.last()) { d } else { d.push(s.last()) }
    }
}


/// What the rewrite takes from the project's Coastfile.
pub struct CoastfileCompose {
    /// Services omitted from the inner compose stack.
    pub omit_services: Vec<String>,
    /// Top-level volumes omitted from the inner compose stack.
    pub omit_volumes: Vec<String>,
    /// Coast-managed volumes declared by the Coastfile.
    pub volume_names: Vec<String>,
}

/// Configuration for rewriting a compose file for a coast instance.
pub struct ComposeRewriteConfig {
    /// Shared services (run on the host daemon), removed from the inner stack.
    pub shared_service_names: Vec<String>,
    /// The Coastfile, when it exists and could be read.
    pub coastfile: Option<CoastfileCompose>,
    /// Per-instance image tags: `(service_name, image_tag)`.
    pub per_instance_image_tags: Vec<(String, String)>,
    /// Whether the instance has coast-managed volume mounts.
    pub has_volume_mounts: bool,
    /// Bridge gateway IP for shared service `extra_hosts` entries.
    pub bridge_gateway_ip: Option<String>,
    /// Container paths of secret files mounted into every service.
    pub secret_container_paths: Vec<String>,
    /// Services using the "hot" assign strategy (need rslave mount propagation).
    pub hot_services: Vec<String>,
    /// When true, all services get rslave propagation.
    pub default_hot: bool,
}

/// The services removed from the inner stack: shared services, then the Coastfile's
/// omitted services, each name once.
pub open spec fn stub_names(cfg: ComposeRewriteConfig) -> Seq<Seq<char>> {
    dedup_names(string_views(cfg.shared_service_names@) + omitted_services(cfg))
}

/// The Coastfile's omitted services (none without a Coastfile).
pub open spec fn omitted_services(cfg: ComposeRewriteConfig) -> Seq<Seq<char>> {
    match cfg.coastfile {
        Some(cf) => string_views(cf.omit_services@),
        None => Seq::empty(),
    }
}

/// `g` applied to the value under string key `name`.
pub open spec fn at_str_fn(name: Seq<char>, f: spec_fn(YamlView) -> YamlView) -> spec_fn(Seq<YamlEntry>) -> Seq<YamlEntry> {
    |m: Seq<YamlEntry>| update_str_entry(m, name, f)
}

/// A node transformer that applies `g` to mapping entries.
pub open spec fn mapping_fn(g: spec_fn(Seq<YamlEntry>) -> Seq<YamlEntry>) -> spec_fn(YamlView) -> YamlView {
    |v: YamlView| update_mapping(v, g)
}

/// A node transformer that applies `g` to sequence items.
pub open spec fn sequence_fn(g: spec_fn(Seq<YamlView>) -> Seq<YamlView>) -> spec_fn(YamlView) -> YamlView {
    |v: YamlView| update_sequence(v, g)
}

/// Removes the entries of all `names`.
pub open spec fn remove_all_fn(names: Seq<Seq<char>>) -> spec_fn(Seq<YamlEntry>) -> Seq<YamlEntry> {
    |m: Seq<YamlEntry>| remove_all_str(m, names)
}

/// Replaces the entries by `e`.
pub open spec fn replace_fn(e: Seq<YamlEntry>) -> spec_fn(Seq<YamlEntry>) -> Seq<YamlEntry> {
    |m: Seq<YamlEntry>| e
}

/// A dependency entry is kept unless it names a removed service.
pub open spec fn dep_keep(v: YamlView, stub: Seq<Seq<char>>) -> bool {
    match as_str(v) {
        Some(s) => !stub.contains(s),
        None => true,
    }
}

/// The dependency list without removed services.
pub open spec fn keep_deps(items: Seq<YamlView>, stub: Seq<Seq<char>>) -> Seq<YamlView>
    decreases items.len(),
{
    if items.len() == 0 {
        Seq::empty()
    } else {
        let r = keep_deps(items.drop_last(), stub);
        if dep_keep(items.last(), stub) { r.push(items.last()) } else { r }
    }
}

/// `keep_deps` as a sequence transformer.
pub open spec fn keep_deps_fn(stub: Seq<Seq<char>>) -> spec_fn(Seq<YamlView>) -> Seq<YamlView> {
    |s: Seq<YamlView>| keep_deps(s, stub)
}

/// A service definition without `depends_on` references to removed services; the key
/// itself goes when nothing is left.
pub open spec fn strip_deps_def(def: Seq<YamlEntry>, stub: Seq<Seq<char>>) -> Seq<YamlEntry> {
    if !has_str(def, "depends_on"@) {
        def
    } else {
        let i = str_key_index(def, "depends_on"@);
        let deps = def[i].1;
        match untag(deps) {
            YamlView::Mapping(dm) => if remove_all_str(dm, stub).len() == 0 {
                swap_remove(def, i)
            } else {
                def.update(i, (def[i].0, update_mapping(deps, remove_all_fn(stub))))
            },
            YamlView::Sequence(items) => if keep_deps(items, stub).len() == 0 {
                swap_remove(def, i)
            } else {
                def.update(i, (def[i].0, update_sequence(deps, keep_deps_fn(stub))))
            },
            _ => def,
        }
    }
}

/// `strip_deps_def` as a mapping transformer.
pub open spec fn strip_deps_fn(stub: Seq<Seq<char>>) -> spec_fn(Seq<YamlEntry>) -> Seq<YamlEntry> {
    |d: Seq<YamlEntry>| strip_deps_def(d, stub)
}

/// Every service definition stripped of references to removed services.
pub open spec fn strip_all_defs(sm: Seq<YamlEntry>, stub: Seq<Seq<char>>) -> Seq<YamlEntry> {
    Seq::new(sm.len(), |i: int| (sm[i].0, update_mapping(sm[i].1, strip_deps_fn(stub))))
}

/// `strip_all_defs` as a mapping transformer.
pub open spec fn strip_all_fn(stub: Seq<Seq<char>>) -> spec_fn(Seq<YamlEntry>) -> Seq<YamlEntry> {
    |sm: Seq<YamlEntry>| strip_all_defs(sm, stub)
}

/// Named-volume sources among the short-form volume strings of a service.
pub open spec fn named_volume_sources(items: Seq<YamlView>) -> Seq<Seq<char>>
    decreases items.len(),
{
    if items.len() == 0 {
        Seq::empty()
    } else {
        let r = named_volume_sources(items.drop_last());
        let s = match as_str(items.last()) { Some(x) => x, None => Seq::empty() };
        let src = crate::shared_services::volume_source(s);
        if src.len() > 0 && !crate::shared_services::is_path_source(src) { r.push(src) } else { r }
    }
}

/// The named volumes used by service `svc` of the original document.
pub open spec fn service_volume_sources(input: YamlView, svc: Seq<char>) -> Seq<Seq<char>> {
    match node_get(input, "services"@) {
        Some(sv) => match node_get(sv, svc) {
            Some(d) => match node_get(d, "volumes"@) {
                Some(v) => if is_sequence(v) { named_volume_sources(items_of(v)) } else { Seq::empty() },
                None => Seq::empty(),
            },
            None => Seq::empty(),
        },
        None => Seq::empty(),
    }
}

/// The named volumes of all removed services, service by service.
pub open spec fn shared_volume_names(input: YamlView, stub: Seq<Seq<char>>) -> Seq<Seq<char>>
    decreases stub.len(),
{
    if stub.len() == 0 {
        Seq::empty()
    } else {
        shared_volume_names(input, stub.drop_last()) + service_volume_sources(input, stub.last())
    }
}

/// Step 1: remove shared/omitted services, their `depends_on` references, and the
/// top-level volumes they used. Needs writing when a service was removed.
pub open spec fn step_remove_services(root: YamlView, input: YamlView, cfg: ComposeRewriteConfig) -> (YamlView, bool) {
    let stub = stub_names(cfg);
    if stub.len() == 0 {
        (root, false)
    } else {
        let r1a = update_mapping(root, at_str_fn("services"@, mapping_fn(remove_all_fn(stub))));
        let r1 = update_mapping(r1a, at_str_fn("services"@, mapping_fn(strip_all_fn(stub))));
        let w = match node_get(root, "services"@) {
            Some(sv) => is_mapping(sv) && removed_any(entries_of(sv), stub),
            None => false,
        };
        let r2 = update_mapping(r1, at_str_fn("volumes"@, mapping_fn(remove_all_fn(shared_volume_names(input, stub)))));
        (r2, w)
    }
}

/// Step 2: remove the Coastfile's omitted top-level volumes.
pub open spec fn step_omit_volumes(root: YamlView, cfg: ComposeRewriteConfig) -> (YamlView, bool) {
    match cfg.coastfile {
        Some(cf) => {
            let ov = string_views(cf.omit_volumes@);
            if ov.len() == 0 {
                (root, false)
            } else {
                (update_mapping(root, at_str_fn("volumes"@, mapping_fn(remove_all_fn(ov)))),
                 match node_get(root, "volumes"@) {
                    Some(vv) => is_mapping(vv) && removed_any(entries_of(vv), ov),
                    None => false,
                 })
            }
        },
        None => (root, false),
    }
}

/// `image: tag` set and `build` removed.
pub open spec fn image_override_fn(tag: Seq<char>) -> spec_fn(Seq<YamlEntry>) -> Seq<YamlEntry> {
    |dm: Seq<YamlEntry>| remove_str(insert_str(dm, "image"@, YamlView::Str(tag)), "build"@)
}

/// The document with service `svc` built from the per-instance image `tag`.
pub open spec fn apply_image_tag(root: YamlView, svc: Seq<char>, tag: Seq<char>) -> YamlView {
    update_mapping(root, at_str_fn("services"@, mapping_fn(at_str_fn(svc, mapping_fn(image_override_fn(tag))))))
}

/// Whether service `svc` exists as a mapping.
pub open spec fn service_is_mapping(root: YamlView, svc: Seq<char>) -> bool {
    match node_get(root, "services"@) {
        Some(sv) => match node_get(sv, svc) {
            Some(d) => is_mapping(d),
            None => false,
        },
        None => false,
    }
}

/// Step 3: per-instance image overrides, in order.
pub open spec fn step_image_tags(root: YamlView, tags: Seq<(Seq<char>, Seq<char>)>) -> (YamlView, bool)
    decreases tags.len(),
{
    if tags.len() == 0 {
        (root, false)
    } else {
        let prev = step_image_tags(root, tags.drop_last());
        (apply_image_tag(prev.0, tags.last().0, tags.last().1),
         prev.1 || service_is_mapping(prev.0, tags.last().0))
    }
}

/// The views of the configured image tags.
pub open spec fn image_tags_view(cfg: ComposeRewriteConfig) -> Seq<(Seq<char>, Seq<char>)> {
    cfg.per_instance_image_tags@.map_values(|t: (String, String)| (t.0@, t.1@))
}

/// The definition of a coast-managed volume bound to `/coast-volumes/{name}`.
pub open spec fn coast_volume_def(name: Seq<char>) -> YamlView {
    YamlView::Mapping(seq![
        (str_key("driver"@), YamlView::Str("local"@)),
        (str_key("driver_opts"@), YamlView::Mapping(seq![
            (str_key("type"@), YamlView::Str("none"@)),
            (str_key("device"@), YamlView::Str("/coast-volumes/"@ + name)),
            (str_key("o"@), YamlView::Str("bind"@)),
        ])),
    ])
}

/// Top-level volumes with the coast-managed ones declared, in order.
pub open spec fn insert_volumes(vm: Seq<YamlEntry>, names: Seq<Seq<char>>) -> Seq<YamlEntry>
    decreases names.len(),
{
    if names.len() == 0 {
        vm
    } else {
        let prev = insert_volumes(vm, names.drop_last());
        insert_str(prev, names.last(), coast_volume_def(names.last()))
    }
}

/// `insert_volumes` as a mapping transformer.
pub open spec fn insert_volumes_fn(names: Seq<Seq<char>>) -> spec_fn(Seq<YamlEntry>) -> Seq<YamlEntry> {
    |vm: Seq<YamlEntry>| insert_volumes(vm, names)
}

/// An empty mapping node.
pub open spec fn empty_mapping() -> YamlView {
    YamlView::Mapping(Seq::empty())
}

/// An empty sequence node.
pub open spec fn empty_sequence() -> YamlView {
    YamlView::Sequence(Seq::empty())
}

/// The root with a `volumes` mapping (created when absent) holding the coast volumes.
pub open spec fn coast_volumes_fn(names: Seq<Seq<char>>) -> spec_fn(Seq<YamlEntry>) -> Seq<YamlEntry> {
    |rm: Seq<YamlEntry>| update_entry_or_insert(rm, "volumes"@, empty_mapping(), mapping_fn(insert_volumes_fn(names)))
}

/// Step 4: declare coast-managed volumes when the instance has volume mounts.
pub open spec fn step_coast_volumes(root: YamlView, cfg: ComposeRewriteConfig) -> (YamlView, bool) {
    match cfg.coastfile {
        Some(cf) => if cfg.has_volume_mounts {
            (update_mapping(root, coast_volumes_fn(string_views(cf.volume_names@))),
             is_mapping(entry_value(entries_of(root), "volumes"@, empty_mapping())))
        } else {
            (root, false)
        },
        None => (root, false),
    }
}

/// `host.docker.internal:host-gateway`
pub open spec fn host_gateway_entry() -> Seq<char> {
    "host.docker.internal:host-gateway"@
}

/// Where shared service hostnames point: the bridge gateway, or `host-gateway`.
pub open spec fn host_target(cfg: ComposeRewriteConfig) -> Seq<char> {
    match cfg.bridge_gateway_ip {
        Some(ip) => ip@,
        None => "host-gateway"@,
    }
}

/// Whether some item is the string `s`.
pub open spec fn seq_has_str(items: Seq<YamlView>, s: Seq<char>) -> bool {
    exists|i: int| 0 <= i < items.len() && as_str(#[trigger] items[i]) == Some(s)
}

/// `{name}:{target}` entries for shared services not already listed.
pub open spec fn shared_host_entries(items: Seq<YamlView>, shared: Seq<Seq<char>>, target: Seq<char>) -> Seq<YamlView>
    decreases shared.len(),
{
    if shared.len() == 0 {
        Seq::empty()
    } else {
        let r = shared_host_entries(items, shared.drop_last(), target);
        let e = shared.last() + ":"@ + target;
        if seq_has_str(items, e) { r } else { r.push(YamlView::Str(e)) }
    }
}

/// `extra_hosts` with `host.docker.internal` and the shared service hostnames added.
pub open spec fn add_hosts(items: Seq<YamlView>, cfg: ComposeRewriteConfig) -> Seq<YamlView> {
    let base = if seq_has_str(items, host_gateway_entry()) {
        items
    } else {
        items.push(YamlView::Str(host_gateway_entry()))
    };
    base + shared_host_entries(items, string_views(cfg.shared_service_names@), host_target(cfg))
}

/// `add_hosts` as a sequence transformer.
pub open spec fn add_hosts_fn(cfg: ComposeRewriteConfig) -> spec_fn(Seq<YamlView>) -> Seq<YamlView> {
    |s: Seq<YamlView>| add_hosts(s, cfg)
}

/// `{path}:{path}:ro` for each secret path.
pub open spec fn secret_mounts(paths: Seq<Seq<char>>) -> Seq<YamlView> {
    paths.map_values(|p: Seq<char>| YamlView::Str(p + ":"@ + p + ":ro"@))
}

/// Appends `extra` to a sequence.
pub open spec fn append_fn(extra: Seq<YamlView>) -> spec_fn(Seq<YamlView>) -> Seq<YamlView> {
    |s: Seq<YamlView>| s + extra
}

/// A service definition with `extra_hosts` and secret mounts added.
pub open spec fn service_extras(dm: Seq<YamlEntry>, cfg: ComposeRewriteConfig) -> Seq<YamlEntry> {
    let d1 = update_entry_or_insert(dm, "extra_hosts"@, empty_sequence(), sequence_fn(add_hosts_fn(cfg)));
    let paths = string_views(cfg.secret_container_paths@);
    if paths.len() == 0 {
        d1
    } else {
        update_entry_or_insert(d1, "volumes"@, empty_sequence(), sequence_fn(append_fn(secret_mounts(paths))))
    }
}

/// `service_extras` as a mapping transformer.
pub open spec fn service_extras_fn(cfg: ComposeRewriteConfig) -> spec_fn(Seq<YamlEntry>) -> Seq<YamlEntry> {
    |dm: Seq<YamlEntry>| service_extras(dm, cfg)
}

/// Whether `add_hosts` adds an entry to the `extra_hosts` value `v` (a missing key
/// counts as an empty list): `host.docker.internal` or a shared service hostname
/// is not listed yet.
pub open spec fn hosts_added(v: YamlView, cfg: ComposeRewriteConfig) -> bool {
    match untag(v) {
        YamlView::Sequence(items) => !seq_has_str(items, host_gateway_entry())
            || shared_host_entries(items, string_views(cfg.shared_service_names@), host_target(cfg)).len() > 0,
        _ => false,
    }
}

/// Whether adding extras to a service definition adds something: a missing host
/// entry, or the secret mounts to a `volumes` list.
pub open spec fn extras_flag(dm: Seq<YamlEntry>, cfg: ComposeRewriteConfig) -> bool {
    let d1 = update_entry_or_insert(dm, "extra_hosts"@, empty_sequence(), sequence_fn(add_hosts_fn(cfg)));
    hosts_added(entry_value(dm, "extra_hosts"@, empty_sequence()), cfg)
        || (cfg.secret_container_paths@.len() > 0 && is_sequence(entry_value(d1, "volumes"@, empty_sequence())))
}

/// The string keys of a mapping, in order.
pub open spec fn string_keys(m: Seq<YamlEntry>) -> Seq<Seq<char>>
    decreases m.len(),
{
    if m.len() == 0 {
        Seq::empty()
    } else {
        let r = string_keys(m.drop_last());
        match as_str(m.last().0) {
            Some(s) => r.push(s),
            None => r,
        }
    }
}

/// Extras added to the services named `names`, one after the other.
pub open spec fn extras_fold(sm: Seq<YamlEntry>, names: Seq<Seq<char>>, cfg: ComposeRewriteConfig) -> (Seq<YamlEntry>, bool)
    decreases names.len(),
{
    if names.len() == 0 {
        (sm, false)
    } else {
        let prev = extras_fold(sm, names.drop_last(), cfg);
        let m = prev.0;
        match get_str(m, names.last()) {
            Some(d) => if is_mapping(d) {
                (update_str_entry(m, names.last(), mapping_fn(service_extras_fn(cfg))),
                 prev.1 || extras_flag(entries_of(d), cfg))
            } else {
                prev
            },
            None => prev,
        }
    }
}

/// The document with the services mapping replaced by the first component of `g`
/// applied to its entries; the flag is the second component (false when there is
/// no services mapping).
pub open spec fn fold_services(root: YamlView, g: spec_fn(Seq<YamlEntry>) -> (Seq<YamlEntry>, bool)) -> (YamlView, bool) {
    match node_get(root, "services"@) {
        Some(sv) => if is_mapping(sv) {
            let r = g(entries_of(sv));
            (update_mapping(root, at_str_fn("services"@, mapping_fn(replace_fn(r.0)))), r.1)
        } else {
            (root, false)
        },
        None => (root, false),
    }
}

/// `extras_fold` over the string keys of a services mapping.
pub open spec fn extras_all_fn(cfg: ComposeRewriteConfig) -> spec_fn(Seq<YamlEntry>) -> (Seq<YamlEntry>, bool) {
    |sm: Seq<YamlEntry>| extras_fold(sm, string_keys(sm), cfg)
}

/// Step 5: `extra_hosts` and secret mounts for every service.
pub open spec fn step_extras(root: YamlView, cfg: ComposeRewriteConfig) -> (YamlView, bool) {
    fold_services(root, extras_all_fn(cfg))
}

/// A short-form volume string with `rslave` propagation: bind mounts (`.`/`/` source)
/// get `:rslave`, or `,rslave` after an existing mode without a propagation setting.
pub open spec fn rslave_str(s: Seq<char>) -> Seq<char> {
    let k1 = first_index_of(s, ':');
    if k1 >= s.len() {
        s
    } else {
        let p0 = s.take(k1);
        let rest = s.skip(k1 + 1);
        let k2 = first_index_of(rest, ':');
        if !crate::shared_services::is_path_source(p0) {
            s
        } else if k2 >= rest.len() {
            p0 + ":"@ + rest + ":rslave"@
        } else {
            let p1 = rest.take(k2);
            let mode = rest.skip(k2 + 1);
            if contains_seq(mode, "rslave"@) || contains_seq(mode, "rshared"@) || contains_seq(mode, "rprivate"@) {
                s
            } else {
                p0 + ":"@ + p1 + ":"@ + mode + ",rslave"@
            }
        }
    }
}

/// `propagation: rslave` added to a bind-options mapping that has no propagation.
pub open spec fn bind_propagation(b: YamlView) -> YamlView {
    if is_mapping(b) && !has_str(entries_of(b), "propagation"@) {
        update_mapping(b, set_propagation_fn())
    } else {
        b
    }
}

/// Sets `propagation: rslave`.
pub open spec fn set_propagation_fn() -> spec_fn(Seq<YamlEntry>) -> Seq<YamlEntry> {
    |bm: Seq<YamlEntry>| insert_str(bm, "propagation"@, YamlView::Str("rslave"@))
}

/// `bind_propagation` as a node transformer.
pub open spec fn bind_propagation_fn() -> spec_fn(YamlView) -> YamlView {
    |b: YamlView| bind_propagation(b)
}

/// The `type` of a long-form volume, or empty.
pub open spec fn volume_type(m: Seq<YamlEntry>) -> Seq<char> {
    match get_str(m, "type"@) {
        Some(t) => match as_str(t) { Some(x) => x, None => Seq::empty() },
        None => Seq::empty(),
    }
}

/// A long-form bind volume with `bind.propagation: rslave` (unless set).
pub open spec fn rslave_map(m: Seq<YamlEntry>) -> Seq<YamlEntry> {
    if volume_type(m) != "bind"@ {
        m
    } else {
        update_str_entry(with_entry(m, "bind"@, empty_mapping()), "bind"@, bind_propagation_fn())
    }
}

/// A volume entry with `rslave` propagation where it is a bind mount.
pub open spec fn rslave_node(v: YamlView) -> YamlView {
    match v {
        YamlView::Str(s) => YamlView::Str(rslave_str(s)),
        YamlView::Mapping(m) => YamlView::Mapping(rslave_map(m)),
        _ => v,
    }
}

/// Every volume of a sequence rewritten for rslave propagation.
pub open spec fn rslave_items_fn() -> spec_fn(Seq<YamlView>) -> Seq<YamlView> {
    |s: Seq<YamlView>| s.map_values(|v: YamlView| rslave_node(v))
}

/// A service definition whose volume sequence gets rslave propagation.
pub open spec fn rslave_def_fn() -> spec_fn(Seq<YamlEntry>) -> Seq<YamlEntry> {
    |dm: Seq<YamlEntry>| update_str_entry(dm, "volumes"@, sequence_fn(rslave_items_fn()))
}

/// Whether a service is hot.
pub open spec fn is_hot(name: Seq<char>, cfg: ComposeRewriteConfig) -> bool {
    cfg.default_hot || string_views(cfg.hot_services@).contains(name)
}

/// Whether a service definition has a volume sequence.
pub open spec fn has_volume_sequence(d: YamlView) -> bool {
    match get_str(entries_of(d), "volumes"@) {
        Some(v) => is_sequence(v),
        None => false,
    }
}

/// rslave propagation for the hot services among `names`, one after the other.
pub open spec fn rslave_fold(sm: Seq<YamlEntry>, names: Seq<Seq<char>>, cfg: ComposeRewriteConfig) -> (Seq<YamlEntry>, bool)
    decreases names.len(),
{
    if names.len() == 0 {
        (sm, false)
    } else {
        let prev = rslave_fold(sm, names.drop_last(), cfg);
        let m = prev.0;
        if !is_hot(names.last(), cfg) {
            prev
        } else {
            match get_str(m, names.last()) {
                Some(d) => if is_mapping(d) && has_volume_sequence(d) {
                    (update_str_entry(m, names.last(), mapping_fn(rslave_def_fn())), true)
                } else {
                    prev
                },
                None => prev,
            }
        }
    }
}

/// `rslave_fold` over the string keys of a services mapping.
pub open spec fn rslave_all_fn(cfg: ComposeRewriteConfig) -> spec_fn(Seq<YamlEntry>) -> (Seq<YamlEntry>, bool) {
    |sm: Seq<YamlEntry>| rslave_fold(sm, string_keys(sm), cfg)
}

/// Step 6: rslave propagation on bind mounts of hot services.
pub open spec fn step_rslave(root: YamlView, cfg: ComposeRewriteConfig) -> (YamlView, bool) {
    if !cfg.default_hot && cfg.hot_services@.len() == 0 {
        (root, false)
    } else {
        fold_services(root, rslave_all_fn(cfg))
    }
}

/// The rewritten document, or `None` when nothing needed writing.
pub open spec fn rewrite_compose_spec(input: YamlView, cfg: ComposeRewriteConfig) -> Option<YamlView> {
    let s1 = step_remove_services(input, input, cfg);
    let s2 = step_omit_volumes(s1.0, cfg);
    let s3 = step_image_tags(s2.0, image_tags_view(cfg));
    let s4 = step_coast_volumes(s3.0, cfg);
    let s5 = step_extras(s4.0, cfg);
    let s6 = step_rslave(s5.0, cfg);
    if s1.1 || s2.1 || s3.1 || s4.1 || s5.1 || s6.1 { Some(s6.0) } else { None }
}


/// The node `core` wrapped in `tags`, outermost first.
pub open spec fn wrap_tags(tags: Seq<Seq<char>>, core: YamlView) -> YamlView
    decreases tags.len(),
{
    if tags.len() == 0 {
        core
    } else {
        YamlView::Tagged(tags[0], Box::new(wrap_tags(tags.drop_first(), core)))
    }
}

proof fn lemma_wrap_push(tags: Seq<Seq<char>>, core: YamlView)
    requires
        tags.len() > 0,
    ensures
        wrap_tags(tags, core) == wrap_tags(tags.drop_last(), YamlView::Tagged(tags.last(), Box::new(core))),
    decreases tags.len(),
{
    let t = YamlView::Tagged(tags.last(), Box::new(core));
    if tags.len() > 1 {
        lemma_wrap_push(tags.drop_first(), core);
        assert(tags.drop_first().drop_last() =~= tags.drop_last().drop_first());
        assert(tags.drop_first().last() == tags.last());
        assert(tags.drop_last()[0] == tags[0]);
        assert(wrap_tags(tags.drop_last(), t)
            == YamlView::Tagged(tags[0], Box::new(wrap_tags(tags.drop_last().drop_first(), t))));
    } else {
        assert(tags.drop_last().len() == 0);
        assert(tags.drop_first().len() == 0);
        assert(wrap_tags(tags.drop_first(), core) == core);
        assert(wrap_tags(tags.drop_last(), t) == t);
    }
}

proof fn lemma_wrap_untag(tags: Seq<Seq<char>>, core: YamlView)
    requires
        !(core is Tagged),
    ensures
        untag(wrap_tags(tags, core)) == core,
    decreases tags.len(),
{
    if tags.len() > 0 {
        lemma_wrap_untag(tags.drop_first(), core);
    }
}

proof fn lemma_wrap_update_mapping(tags: Seq<Seq<char>>, core: YamlView, g: spec_fn(Seq<YamlEntry>) -> Seq<YamlEntry>)
    requires
        !(core is Tagged),
    ensures
        update_mapping(wrap_tags(tags, core), g) == wrap_tags(tags, update_mapping(core, g)),
    decreases tags.len(),
{
    if tags.len() > 0 {
        lemma_wrap_update_mapping(tags.drop_first(), core, g);
    }
}

proof fn lemma_wrap_update_sequence(tags: Seq<Seq<char>>, core: YamlView, g: spec_fn(Seq<YamlView>) -> Seq<YamlView>)
    requires
        !(core is Tagged),
    ensures
        update_sequence(wrap_tags(tags, core), g) == wrap_tags(tags, update_sequence(core, g)),
    decreases tags.len(),
{
    if tags.len() > 0 {
        lemma_wrap_update_sequence(tags.drop_first(), core, g);
    }
}

/// Splits a node into its tags (outermost first) and the untagged node.
fn peel(v: YamlValue) -> (r: (Vec<String>, YamlValue))
    ensures
        v@ == wrap_tags(string_views(r.0@), r.1@),
        !(r.1@ is Tagged),
        untag(v@) == r.1@,
    decreases v,
{
    match v {
        YamlValue::Tagged(t, b) => {
            let (mut ts, c) = peel(*b);
            let ghost inner = string_views(ts@);
            ts.insert(0, t);
            proof {
                assert(string_views(ts@).drop_first() =~= inner);
                lemma_wrap_untag(string_views(ts@), c@);
            }
            (ts, c)
        },
        other => {
            let ts: Vec<String> = Vec::new();
            proof {
                assert(string_views(ts@) =~= Seq::<Seq<char>>::empty());
                assert(!(other@ is Tagged)) by {
                    match other { YamlValue::Tagged(_, _) => {}, _ => {} }
                }
            }
            (ts, other)
        },
    }
}

/// Wraps a node in tags (outermost first).
fn wrap(tags: Vec<String>, core: YamlValue) -> (v: YamlValue)
    ensures
        v@ == wrap_tags(string_views(tags@), core@),
{
    let mut ts = tags;
    let mut v = core;
    let ghost all = string_views(ts@);
    while ts.len() > 0
        invariant
            wrap_tags(string_views(ts@), v@) == wrap_tags(all, core@),
        decreases ts@.len(),
    {
        let ghost before = string_views(ts@);
        let t = ts.pop().unwrap();
        proof {
            lemma_wrap_push(before, v@);
            assert(string_views(ts@) =~= before.drop_last());
        }
        v = YamlValue::Tagged(t, Box::new(v));
    }
    assert(string_views(ts@) =~= Seq::<Seq<char>>::empty());
    v
}

/// Whether a key is the string `name`.
fn key_is(k: &YamlValue, name: &str) -> (b: bool)
    ensures
        b == (k@ == str_key(name@)),
{
    match k {
        YamlValue::Str(s) => str_eq(s.as_str(), name),
        _ => false,
    }
}

proof fn lemma_str_key_index(m: Seq<YamlEntry>, name: Seq<char>, k: int)
    requires
        0 <= k <= m.len(),
        forall|j: int| 0 <= j < k ==> (#[trigger] m[j]).0 != str_key(name),
        k < m.len() ==> m[k].0 == str_key(name),
    ensures
        str_key_index(m, name) == k,
    decreases m.len(),
{
    if m.len() > 0 && m[0].0 != str_key(name) {
        let t = m.drop_first();
        assert forall|j: int| 0 <= j < k - 1 implies (#[trigger] t[j]).0 != str_key(name) by {
            assert(t[j] == m[j + 1]);
        }
        if k - 1 < t.len() {
            assert(t[k - 1] == m[k]);
        }
        lemma_str_key_index(t, name, k - 1);
    }
}

/// Index of the entry with string key `name`, or the length.
fn find_str_entry(m: &Vec<(YamlValue, YamlValue)>, name: &str) -> (i: usize)
    ensures
        i as int == str_key_index(view_entries(m@), name@),
        i <= m@.len(),
{
    let ghost vm = view_entries(m@);
    let mut i: usize = 0;
    while i < m.len()
        invariant
            i <= m@.len(),
            vm == view_entries(m@),
            forall|j: int| 0 <= j < i ==> (#[trigger] vm[j]).0 != str_key(name@),
        decreases m@.len() - i,
    {
        if key_is(&m[i].0, name) {
            proof { lemma_str_key_index(vm, name@, i as int); }
            return i;
        }
        i = i + 1;
    }
    proof { lemma_str_key_index(vm, name@, i as int); }
    i
}

proof fn lemma_view_entries_update(m: Seq<(YamlValue, YamlValue)>, i: int, e: (YamlValue, YamlValue))
    requires
        0 <= i < m.len(),
    ensures
        view_entries(m.remove(i).insert(i, e)) == view_entries(m).update(i, (view_node(e.0), view_node(e.1))),
{
    assert(view_entries(m.remove(i).insert(i, e)) =~= view_entries(m).update(i, (view_node(e.0), view_node(e.1))));
}

/// Applies `f` to the entries of a mapping node (under its tags); other nodes are unchanged.
fn map_node<F: Fn(Vec<(YamlValue, YamlValue)>) -> Vec<(YamlValue, YamlValue)>>(
    v: YamlValue,
    f: F,
    Ghost(g): Ghost<spec_fn(Seq<YamlEntry>) -> Seq<YamlEntry>>,
) -> (r: YamlValue)
    requires
        forall|m: Vec<(YamlValue, YamlValue)>| f.requires((m,)),
        forall|m: Vec<(YamlValue, YamlValue)>, out: Vec<(YamlValue, YamlValue)>|
            f.ensures((m,), out) ==> view_entries(out@) == g(view_entries(m@)),
    ensures
        r@ == update_mapping(v@, g),
{
    let (tags, core) = peel(v);
    proof { lemma_wrap_update_mapping(string_views(tags@), core@, g); }
    match core {
        YamlValue::Mapping(m) => {
            let out = f(m);
            wrap(tags, YamlValue::Mapping(out))
        },
        other => wrap(tags, other),
    }
}

/// Applies `f` to the items of a sequence node (under its tags); other nodes are unchanged.
fn map_seq_node<F: Fn(Vec<YamlValue>) -> Vec<YamlValue>>(
    v: YamlValue,
    f: F,
    Ghost(g): Ghost<spec_fn(Seq<YamlView>) -> Seq<YamlView>>,
) -> (r: YamlValue)
    requires
        forall|s: Vec<YamlValue>| f.requires((s,)),
        forall|s: Vec<YamlValue>, out: Vec<YamlValue>| f.ensures((s,), out) ==> view_seq(out@) == g(view_seq(s@)),
    ensures
        r@ == update_sequence(v@, g),
{
    let (tags, core) = peel(v);
    proof { lemma_wrap_update_sequence(string_views(tags@), core@, g); }
    match core {
        YamlValue::Sequence(s) => {
            let out = f(s);
            wrap(tags, YamlValue::Sequence(out))
        },
        other => wrap(tags, other),
    }
}

/// Applies `f` to the value under string key `name`, if present.
fn at_str<F: Fn(YamlValue) -> YamlValue>(
    m: Vec<(YamlValue, YamlValue)>,
    name: &str,
    f: F,
    Ghost(g): Ghost<spec_fn(YamlView) -> YamlView>,
) -> (r: Vec<(YamlValue, YamlValue)>)
    requires
        forall|x: YamlValue| f.requires((x,)),
        forall|x: YamlValue, y: YamlValue| f.ensures((x,), y) ==> y@ == g(x@),
    ensures
        view_entries(r@) == update_str_entry(view_entries(m@), name@, g),
{
    let mut m = m;
    let i = find_str_entry(&m, name);
    if i < m.len() {
        let ghost old_m = m@;
        let (k, v) = m.remove(i);
        let v2 = f(v);
        m.insert(i, (k, v2));
        proof {
            lemma_view_entries_update(old_m, i as int, (k, v2));
            assert(view_entries(old_m)[i as int] == (view_node(k), view_node(v)));
        }
    }
    m
}


proof fn lemma_view_entries_swap_remove(m: Seq<(YamlValue, YamlValue)>, i: int)
    requires
        0 <= i < m.len(),
    ensures
        view_entries(m.update(i, m.last()).drop_last()) == swap_remove(view_entries(m), i),
{
    assert(view_entries(m.update(i, m.last()).drop_last()) =~= swap_remove(view_entries(m), i));
}

proof fn lemma_swap_remove_after_update(m: Seq<YamlEntry>, i: int, e: YamlEntry)
    requires
        0 <= i < m.len(),
    ensures
        swap_remove(m.update(i, e), i) == swap_remove(m, i),
{
    assert(swap_remove(m.update(i, e), i) =~= swap_remove(m, i));
}

/// Removes the entry with string key `name` (swap removal); reports whether it existed.
fn remove_str_exec(m: &mut Vec<(YamlValue, YamlValue)>, name: &str) -> (b: bool)
    ensures
        view_entries(final(m)@) == remove_str(view_entries(old(m)@), name@),
        b == has_str(view_entries(old(m)@), name@),
{
    let i = find_str_entry(m, name);
    if i < m.len() {
        let ghost old_m = m@;
        let _ = m.swap_remove(i);
        proof { lemma_view_entries_swap_remove(old_m, i as int); }
        true
    } else {
        false
    }
}

/// Removes the entries of all `names`, in order; reports whether anything was removed.
fn remove_all_exec(m: Vec<(YamlValue, YamlValue)>, names: &[String]) -> (r: (Vec<(YamlValue, YamlValue)>, bool))
    ensures
        view_entries(r.0@) == remove_all_str(view_entries(m@), string_views(names@)),
        r.1 == removed_any(view_entries(m@), string_views(names@)),
{
    let mut m = m;
    let ghost m0 = view_entries(m@);
    let ghost ns = string_views(names@);
    let mut any = false;
    let mut j: usize = 0;
    while j < names.len()
        invariant
            j <= names@.len(),
            ns == string_views(names@),
            view_entries(m@) == remove_all_str(m0, ns.take(j as int)),
            any == removed_any(m0, ns.take(j as int)),
        decreases names@.len() - j,
    {
        proof {
            assert(ns.take(j + 1).drop_last() =~= ns.take(j as int));
            assert(ns.take(j + 1).last() == names@[j as int]@);
        }
        let removed = remove_str_exec(&mut m, names[j].as_str());
        any = any || removed;
        j = j + 1;
    }
    assert(ns.take(names@.len() as int) =~= ns);
    (m, any)
}

/// Binds string key `name` to `v` (value replaced in place, or entry appended).
fn insert_str_exec(m: Vec<(YamlValue, YamlValue)>, name: &str, v: YamlValue) -> (r: Vec<(YamlValue, YamlValue)>)
    ensures
        view_entries(r@) == insert_str(view_entries(m@), name@, v@),
{
    let mut m = m;
    let i = find_str_entry(&m, name);
    let ghost old_m = m@;
    if i < m.len() {
        let (k, _old) = m.remove(i);
        m.insert(i, (k, v));
        proof {
            lemma_view_entries_update(old_m, i as int, (k, v));
            assert(view_entries(old_m)[i as int].0 == view_node(k));
        }
    } else {
        m.push((YamlValue::Str(name.to_owned()), v));
        assert(view_entries(m@) =~= view_entries(old_m).push((str_key(name@), v@)));
    }
    m
}

/// The mapping with string key `name` present (bound to `default` when absent).
fn with_entry_exec(m: Vec<(YamlValue, YamlValue)>, name: &str, default: YamlValue) -> (r: Vec<(YamlValue, YamlValue)>)
    ensures
        view_entries(r@) == with_entry(view_entries(m@), name@, default@),
{
    let mut m = m;
    let i = find_str_entry(&m, name);
    if i == m.len() {
        let ghost old_m = m@;
        m.push((YamlValue::Str(name.to_owned()), default));
        assert(view_entries(m@) =~= view_entries(old_m).push((str_key(name@), default@)));
    }
    m
}

/// Applies `f` to the entries of the mapping under root key `key`.
fn update_root_key<F: Fn(Vec<(YamlValue, YamlValue)>) -> Vec<(YamlValue, YamlValue)>>(
    root: YamlValue,
    key: &str,
    f: F,
    Ghost(g): Ghost<spec_fn(Seq<YamlEntry>) -> Seq<YamlEntry>>,
) -> (r: YamlValue)
    requires
        forall|m: Vec<(YamlValue, YamlValue)>| f.requires((m,)),
        forall|m: Vec<(YamlValue, YamlValue)>, out: Vec<(YamlValue, YamlValue)>|
            f.ensures((m,), out) ==> view_entries(out@) == g(view_entries(m@)),
    ensures
        r@ == update_mapping(root@, at_str_fn(key@, mapping_fn(g))),
{
    let (tags, core) = peel(root);
    proof { lemma_wrap_update_mapping(string_views(tags@), core@, at_str_fn(key@, mapping_fn(g))); }
    match core {
        YamlValue::Mapping(rm) => {
            let mut rm = rm;
            let i = find_str_entry(&rm, key);
            if i < rm.len() {
                let ghost old_m = rm@;
                let (k, v) = rm.remove(i);
                let v2 = map_node(v, f, Ghost(g));
                rm.insert(i, (k, v2));
                proof {
                    lemma_view_entries_update(old_m, i as int, (k, v2));
                    assert(view_entries(old_m)[i as int] == (view_node(k), view_node(v)));
                }
            }
            wrap(tags, YamlValue::Mapping(rm))
        },
        other => wrap(tags, other),
    }
}

/// Removes `names` from the mapping under root key `key`; reports whether anything was removed.
fn remove_all_at_root_key(root: YamlValue, key: &str, names: &[String]) -> (r: (YamlValue, bool))
    ensures
        r.0@ == update_mapping(root@, at_str_fn(key@, mapping_fn(remove_all_fn(string_views(names@))))),
        r.1 == match node_get(root@, key@) {
            Some(v) => is_mapping(v) && removed_any(entries_of(v), string_views(names@)),
            None => false,
        },
{
    let ghost g = remove_all_fn(string_views(names@));
    let (tags, core) = peel(root);
    proof { lemma_wrap_update_mapping(string_views(tags@), core@, at_str_fn(key@, mapping_fn(g))); }
    match core {
        YamlValue::Mapping(rm) => {
            let mut rm = rm;
            let mut flag = false;
            let i = find_str_entry(&rm, key);
            if i < rm.len() {
                let ghost old_m = rm@;
                let (k, v) = rm.remove(i);
                let ghost vv = v@;
                let (vtags, vcore) = peel(v);
                proof { lemma_wrap_update_mapping(string_views(vtags@), vcore@, g); }
                let v2 = match vcore {
                    YamlValue::Mapping(vm) => {
                        let (vm2, removed) = remove_all_exec(vm, names);
                        flag = removed;
                        wrap(vtags, YamlValue::Mapping(vm2))
                    },
                    other => wrap(vtags, other),
                };
                rm.insert(i, (k, v2));
                proof {
                    lemma_view_entries_update(old_m, i as int, (k, v2));
                    assert(view_entries(old_m)[i as int] == (view_node(k), vv));
                }
            }
            (wrap(tags, YamlValue::Mapping(rm)), flag)
        },
        other => (wrap(tags, other), false),
    }
}


/// The node under its tags.
pub(crate) fn untag_ref(v: &YamlValue) -> (r: &YamlValue)
    ensures
        r@ == untag(v@),
    decreases v,
{
    match v {
        YamlValue::Tagged(_, b) => untag_ref(b),
        _ => v,
    }
}

/// The string of a (possibly tagged) string node.
fn as_str_ref(v: &YamlValue) -> (r: Option<&String>)
    ensures
        match r {
            Some(s) => as_str(v@) == Some(s@),
            None => as_str(v@) is None,
        },
{
    match untag_ref(v) {
        YamlValue::Str(s) => Some(s),
        _ => None,
    }
}

/// The value under string key `name` of a mapping node.
pub(crate) fn node_get_ref<'a>(v: &'a YamlValue, name: &str) -> (r: Option<&'a YamlValue>)
    ensures
        match r {
            Some(x) => node_get(v@, name@) == Some(x@),
            None => node_get(v@, name@) is None,
        },
{
    match untag_ref(v) {
        YamlValue::Mapping(m) => {
            let i = find_str_entry(m, name);
            if i < m.len() {
                Some(&m[i].1)
            } else {
                None
            }
        },
        _ => None,
    }
}

/// The removed services of a configuration, each once.
pub fn stub_names_exec(cfg: &ComposeRewriteConfig) -> (r: Vec<String>)
    ensures
        string_views(r@) == stub_names(*cfg),
{
    let ghost all = string_views(cfg.shared_service_names@) + omitted_services(*cfg);
    let mut out: Vec<String> = Vec::new();
    let n1 = cfg.shared_service_names.len();
    let mut i: usize = 0;
    while i < n1
        invariant
            i <= n1,
            n1 == cfg.shared_service_names@.len(),
            all == string_views(cfg.shared_service_names@) + omitted_services(*cfg),
            string_views(out@) == dedup_names(all.take(i as int)),
        decreases n1 - i,
    {
        proof {
            assert(all.take(i + 1).drop_last() =~= all.take(i as int));
            assert(all.take(i + 1).last() == cfg.shared_service_names@[i as int]@);
        }
        if !names_contain(out.as_slice(), cfg.shared_service_names[i].as_str()) {
            let ghost before = string_views(out@);
            out.push(cfg.shared_service_names[i].clone());
            assert(string_views(out@) =~= before.push(cfg.shared_service_names@[i as int]@));
        }
        i = i + 1;
    }
    match &cfg.coastfile {
        Some(cf) => {
            let n2 = cf.omit_services.len();
            let mut j: usize = 0;
            while j < n2
                invariant
                    j <= n2,
                    n2 == cf.omit_services@.len(),
                    n1 == cfg.shared_service_names@.len(),
                    all == string_views(cfg.shared_service_names@) + string_views(cf.omit_services@),
                    string_views(out@) == dedup_names(all.take(n1 + j)),
                decreases n2 - j,
            {
                proof {
                    assert(all.take(n1 + j + 1).drop_last() =~= all.take(n1 + j));
                    assert(all.take(n1 + j + 1).last() == cf.omit_services@[j as int]@);
                }
                if !names_contain(out.as_slice(), cf.omit_services[j].as_str()) {
                    let ghost before = string_views(out@);
                    out.push(cf.omit_services[j].clone());
                    assert(string_views(out@) =~= before.push(cf.omit_services@[j as int]@));
                }
                j = j + 1;
            }
            assert(all.take(n1 + n2) =~= all);
        },
        None => {
            assert(all.take(n1 as int) =~= all);
        },
    }
    out
}

/// Dependency entries that do not name a removed service, in order.
fn keep_deps_exec(items: Vec<YamlValue>, stub: &[String]) -> (r: Vec<YamlValue>)
    ensures
        view_seq(r@) == keep_deps(view_seq(items@), string_views(stub@)),
{
    let mut items = items;
    let ghost orig = view_seq(items@);
    let ghost st = string_views(stub@);
    let mut out: Vec<YamlValue> = Vec::new();
    let n = items.len();
    let mut j: usize = 0;
    while j < n
        invariant
            j <= n,
            n == orig.len(),
            st == string_views(stub@),
            items@.len() == n - j,
            view_seq(items@) == orig.skip(j as int),
            view_seq(out@) == keep_deps(orig.take(j as int), st),
        decreases n - j,
    {
        let ghost before_items = items@;
        let v = items.remove(0);
        proof {
            assert(view_seq(items@) =~= orig.skip(j + 1)) by {
                assert forall|q: int| 0 <= q < items@.len() implies view_seq(items@)[q] == orig.skip(j + 1)[q] by {
                    assert(items@[q] == before_items[q + 1]);
                    assert(view_seq(before_items)[q + 1] == orig.skip(j as int)[q + 1]);
                }
            }
            assert(view_node(v) == view_seq(before_items)[0]);
            assert(orig.take(j + 1).drop_last() =~= orig.take(j as int));
            assert(orig.take(j + 1).last() == orig[j as int]);
            assert(orig.skip(j as int)[0] == orig[j as int]);
        }
        let keep = match as_str_ref(&v) {
            Some(s) => !names_contain(stub, s.as_str()),
            None => true,
        };
        if keep {
            let ghost before = view_seq(out@);
            out.push(v);
            assert(view_seq(out@) =~= before.push(orig[j as int]));
        }
        j = j + 1;
    }
    assert(orig.take(n as int) =~= orig);
    out
}


/// A service definition without `depends_on` references to removed services.
fn strip_deps_exec(def: Vec<(YamlValue, YamlValue)>, stub: &[String]) -> (r: Vec<(YamlValue, YamlValue)>)
    ensures
        view_entries(r@) == strip_deps_def(view_entries(def@), string_views(stub@)),
{
    let mut def = def;
    let ghost st = string_views(stub@);
    let ghost d0 = view_entries(def@);
    let i = find_str_entry(&def, "depends_on");
    if i == def.len() {
        return def;
    }
    let ghost old_m = def@;
    let (k, deps) = def.remove(i);
    let ghost dv = deps@;
    proof { assert(d0[i as int] == (view_node(k), dv)); }
    let (tags, core) = peel(deps);
    let ghost ts = string_views(tags@);
    match core {
        YamlValue::Mapping(dm) => {
            let ghost dmv = view_entries(dm@);
            let (dm2, _) = remove_all_exec(dm, stub);
            let empty = dm2.len() == 0;
            proof { lemma_wrap_update_mapping(ts, YamlView::Mapping(dmv), remove_all_fn(st)); }
            let v2 = wrap(tags, YamlValue::Mapping(dm2));
            def.insert(i, (k, v2));
            proof { lemma_view_entries_update(old_m, i as int, (k, v2)); }
            if empty {
                let ghost mid = def@;
                let _ = def.swap_remove(i);
                proof {
                    lemma_view_entries_swap_remove(mid, i as int);
                    lemma_swap_remove_after_update(d0, i as int, (view_node(k), view_node(v2)));
                }
            }
            def
        },
        YamlValue::Sequence(items) => {
            let ghost iv = view_seq(items@);
            let kept = keep_deps_exec(items, stub);
            let empty = kept.len() == 0;
            proof { lemma_wrap_update_sequence(ts, YamlView::Sequence(iv), keep_deps_fn(st)); }
            let v2 = wrap(tags, YamlValue::Sequence(kept));
            def.insert(i, (k, v2));
            proof { lemma_view_entries_update(old_m, i as int, (k, v2)); }
            if empty {
                let ghost mid = def@;
                let _ = def.swap_remove(i);
                proof {
                    lemma_view_entries_swap_remove(mid, i as int);
                    lemma_swap_remove_after_update(d0, i as int, (view_node(k), view_node(v2)));
                }
            }
            def
        },
        other => {
            let v2 = wrap(tags, other);
            def.insert(i, (k, v2));
            proof {
                lemma_view_entries_update(old_m, i as int, (k, v2));
                assert(view_entries(def@) =~= d0);
            }
            def
        },
    }
}

/// Every service definition stripped of references to removed services.
fn strip_all_exec(sm: Vec<(YamlValue, YamlValue)>, stub: &[String]) -> (r: Vec<(YamlValue, YamlValue)>)
    ensures
        view_entries(r@) == strip_all_defs(view_entries(sm@), string_views(stub@)),
{
    let ghost st = string_views(stub@);
    let ghost orig = view_entries(sm@);
    let ghost target = strip_all_defs(orig, st);
    let mut sm = sm;
    let mut out: Vec<(YamlValue, YamlValue)> = Vec::new();
    let n = sm.len();
    let mut j: usize = 0;
    while j < n
        invariant
            j <= n,
            n == orig.len(),
            st == string_views(stub@),
            target == strip_all_defs(orig, st),
            sm@.len() == n - j,
            view_entries(sm@) == orig.skip(j as int),
            view_entries(out@) == target.take(j as int),
        decreases n - j,
    {
        let ghost before_sm = sm@;
        let (k, v) = sm.remove(0);
        proof {
            assert(view_entries(sm@) =~= orig.skip(j + 1)) by {
                assert forall|q: int| 0 <= q < sm@.len() implies view_entries(sm@)[q] == orig.skip(j + 1)[q] by {
                    assert(sm@[q] == before_sm[q + 1]);
                    assert(view_entries(before_sm)[q + 1] == orig.skip(j as int)[q + 1]);
                }
            }
            assert(view_entries(before_sm)[0] == (view_node(k), view_node(v)));
            assert(orig.skip(j as int)[0] == orig[j as int]);
        }
        let f = |d: Vec<(YamlValue, YamlValue)>| -> (r: Vec<(YamlValue, YamlValue)>)
            ensures
                view_entries(r@) == strip_deps_def(view_entries(d@), string_views(stub@)),
        {
            strip_deps_exec(d, stub)
        };
        let v2 = map_node(v, f, Ghost(strip_deps_fn(st)));
        let ghost before = view_entries(out@);
        assert(target[j as int] == (view_node(k), view_node(v2)));
        out.push((k, v2));
        assert(view_entries(out@) =~= before.push(target[j as int]));
        assert(view_entries(out@) =~= target.take(j + 1));
        j = j + 1;
    }
    assert(target.take(n as int) =~= target);
    out
}

/// Named-volume sources among short-form volume strings.
fn named_volume_sources_exec(items: &Vec<YamlValue>) -> (r: Vec<String>)
    ensures
        string_views(r@) == named_volume_sources(view_seq(items@)),
{
    let ghost iv = view_seq(items@);
    let mut out: Vec<String> = Vec::new();
    let mut j: usize = 0;
    while j < items.len()
        invariant
            j <= items@.len(),
            iv == view_seq(items@),
            string_views(out@) == named_volume_sources(iv.take(j as int)),
        decreases items@.len() - j,
    {
        proof {
            assert(iv.take(j + 1).drop_last() =~= iv.take(j as int));
            assert(iv.take(j + 1).last() == view_node(items@[j as int]));
        }
        let chars: Vec<char> = match as_str_ref(&items[j]) {
            Some(s) => chars_of(s.as_str()),
            None => Vec::new(),
        };
        let k = find_char(chars.as_slice(), ':');
        if k > 0 && chars[0] != '/' && chars[0] != '.' {
            let mut src: Vec<char> = Vec::new();
            let mut q: usize = 0;
            while q < k
                invariant
                    q <= k,
                    k <= chars@.len(),
                    src@ == chars@.take(q as int),
                decreases k - q,
            {
                src.push(chars[q]);
                q = q + 1;
                assert(src@ =~= chars@.take(q as int));
            }
            let ghost before = string_views(out@);
            out.push(string_from_chars(src.as_slice()));
            assert(string_views(out@) =~= before.push(src@));
        }
        j = j + 1;
    }
    assert(iv.take(items@.len() as int) =~= iv);
    out
}

/// The named volumes of all removed services, from the original document.
fn shared_volume_names_exec(input: &YamlValue, stub: &[String]) -> (r: Vec<String>)
    ensures
        string_views(r@) == shared_volume_names(input@, string_views(stub@)),
{
    let ghost st = string_views(stub@);
    let mut out: Vec<String> = Vec::new();
    let mut j: usize = 0;
    while j < stub.len()
        invariant
            j <= stub@.len(),
            st == string_views(stub@),
            string_views(out@) == shared_volume_names(input@, st.take(j as int)),
        decreases stub@.len() - j,
    {
        proof {
            assert(st.take(j + 1).drop_last() =~= st.take(j as int));
            assert(st.take(j + 1).last() == stub@[j as int]@);
        }
        let mut found: Vec<String> = Vec::new();
        match node_get_ref(input, "services") {
            Some(sv) => match node_get_ref(sv, stub[j].as_str()) {
                Some(d) => match node_get_ref(d, "volumes") {
                    Some(v) => match untag_ref(v) {
                        YamlValue::Sequence(items) => {
                            found = named_volume_sources_exec(items);
                        },
                        _ => {},
                    },
                    None => {},
                },
                None => {},
            },
            None => {},
        }
        proof {
            assert(string_views(found@) == service_volume_sources(input@, stub@[j as int]@));
        }
        let ghost before = string_views(out@);
        let mut q: usize = 0;
        while q < found.len()
            invariant
                q <= found@.len(),
                string_views(out@) == before + string_views(found@).take(q as int),
            decreases found@.len() - q,
        {
            let ghost mid = string_views(out@);
            let item = found[q].clone();
            out.push(item);
            assert(string_views(out@) =~= mid.push(found@[q as int]@));
            q = q + 1;
            assert(string_views(out@) =~= before + string_views(found@).take(q as int));
        }
        assert(string_views(found@).take(found@.len() as int) =~= string_views(found@));
        j = j + 1;
    }
    assert(st.take(stub@.len() as int) =~= st);
    out
}


/// Step 1, given the named volumes of the removed services (read from the original document).
fn step_remove_services_exec(root: YamlValue, stub: &Vec<String>, vols: &Vec<String>) -> (r: (YamlValue, bool))
    ensures
        stub@.len() == 0 ==> r == (root, false),
        stub@.len() > 0 ==> {
            let st = string_views(stub@);
            let r1a = update_mapping(root@, at_str_fn("services"@, mapping_fn(remove_all_fn(st))));
            let r1 = update_mapping(r1a, at_str_fn("services"@, mapping_fn(strip_all_fn(st))));
            &&& r.0@ == update_mapping(r1, at_str_fn("volumes"@, mapping_fn(remove_all_fn(string_views(vols@)))))
            &&& r.1 == match node_get(root@, "services"@) {
                Some(sv) => is_mapping(sv) && removed_any(entries_of(sv), st),
                None => false,
            }
        },
{
    if stub.len() == 0 {
        return (root, false);
    }
    let ghost st = string_views(stub@);
    let (r1a, w) = remove_all_at_root_key(root, "services", stub.as_slice());
    let f = |sm: Vec<(YamlValue, YamlValue)>| -> (out: Vec<(YamlValue, YamlValue)>)
        ensures
            view_entries(out@) == strip_all_defs(view_entries(sm@), string_views(stub@)),
    {
        strip_all_exec(sm, stub.as_slice())
    };
    let r1 = update_root_key(r1a, "services", f, Ghost(strip_all_fn(st)));
    let (r2, _) = remove_all_at_root_key(r1, "volumes", vols.as_slice());
    (r2, w)
}

/// Step 2: remove the Coastfile's omitted volumes.
fn step_omit_volumes_exec(root: YamlValue, cfg: &ComposeRewriteConfig) -> (r: (YamlValue, bool))
    ensures
        r.0@ == step_omit_volumes(root@, *cfg).0,
        r.1 == step_omit_volumes(root@, *cfg).1,
{
    match &cfg.coastfile {
        Some(cf) => {
            if cf.omit_volumes.len() == 0 {
                (root, false)
            } else {
                remove_all_at_root_key(root, "volumes", cf.omit_volumes.as_slice())
            }
        },
        None => (root, false),
    }
}

/// `image: tag` set and `build` removed from a service definition.
fn image_override_exec(dm: Vec<(YamlValue, YamlValue)>, tag: &str) -> (r: Vec<(YamlValue, YamlValue)>)
    ensures
        view_entries(r@) == remove_str(insert_str(view_entries(dm@), "image"@, YamlView::Str(tag@)), "build"@),
{
    let mut m = insert_str_exec(dm, "image", YamlValue::Str(tag.to_owned()));
    let _ = remove_str_exec(&mut m, "build");
    m
}

/// Whether service `svc` exists as a mapping.
fn service_is_mapping_exec(root: &YamlValue, svc: &str) -> (b: bool)
    ensures
        b == service_is_mapping(root@, svc@),
{
    match node_get_ref(root, "services") {
        Some(sv) => match node_get_ref(sv, svc) {
            Some(d) => match untag_ref(d) {
                YamlValue::Mapping(_) => true,
                _ => false,
            },
            None => false,
        },
        None => false,
    }
}

/// Applies one per-instance image tag.
fn apply_image_tag_exec(root: YamlValue, svc: &str, tag: &str) -> (r: YamlValue)
    ensures
        r@ == apply_image_tag(root@, svc@, tag@),
{
    let h = |dm: Vec<(YamlValue, YamlValue)>| -> (out: Vec<(YamlValue, YamlValue)>)
        ensures
            view_entries(out@) == image_override_fn(tag@)(view_entries(dm@)),
    {
        image_override_exec(dm, tag)
    };
    let g = |d: YamlValue| -> (out: YamlValue)
        ensures
            out@ == mapping_fn(image_override_fn(tag@))(d@),
    {
        map_node(d, h, Ghost(image_override_fn(tag@)))
    };
    let f = |sm: Vec<(YamlValue, YamlValue)>| -> (out: Vec<(YamlValue, YamlValue)>)
        ensures
            view_entries(out@) == at_str_fn(svc@, mapping_fn(image_override_fn(tag@)))(view_entries(sm@)),
    {
        at_str(sm, svc, g, Ghost(mapping_fn(image_override_fn(tag@))))
    };
    update_root_key(root, "services", f, Ghost(at_str_fn(svc@, mapping_fn(image_override_fn(tag@)))))
}

/// Step 3: per-instance image overrides, in order.
fn step_image_tags_exec(root: YamlValue, tags: &Vec<(String, String)>) -> (r: (YamlValue, bool))
    ensures
        r.0@ == step_image_tags(root@, tags@.map_values(|t: (String, String)| (t.0@, t.1@))).0,
        r.1 == step_image_tags(root@, tags@.map_values(|t: (String, String)| (t.0@, t.1@))).1,
{
    let ghost tv = tags@.map_values(|t: (String, String)| (t.0@, t.1@));
    let ghost r0 = root@;
    let mut cur = root;
    let mut w = false;
    let mut j: usize = 0;
    while j < tags.len()
        invariant
            j <= tags@.len(),
            tv == tags@.map_values(|t: (String, String)| (t.0@, t.1@)),
            cur@ == step_image_tags(r0, tv.take(j as int)).0,
            w == step_image_tags(r0, tv.take(j as int)).1,
        decreases tags@.len() - j,
    {
        proof {
            assert(tv.take(j + 1).drop_last() =~= tv.take(j as int));
            assert(tv.take(j + 1).last() == (tags@[j as int].0@, tags@[j as int].1@));
        }
        let applies = service_is_mapping_exec(&cur, tags[j].0.as_str());
        cur = apply_image_tag_exec(cur, tags[j].0.as_str(), tags[j].1.as_str());
        w = w || applies;
        j = j + 1;
    }
    assert(tv.take(tags@.len() as int) =~= tv);
    (cur, w)
}

/// The definition of a coast-managed volume bound to `/coast-volumes/{name}`.
fn coast_volume_def_exec(name: &str) -> (v: YamlValue)
    ensures
        v@ == coast_volume_def(name@),
{
    let mut device: Vec<char> = Vec::new();
    extend_chars(&mut device, "/coast-volumes/");
    extend_chars(&mut device, name);
    let opts: Vec<(YamlValue, YamlValue)> = vec![
        (YamlValue::Str("type".to_owned()), YamlValue::Str("none".to_owned())),
        (YamlValue::Str("device".to_owned()), YamlValue::Str(string_from_chars(device.as_slice()))),
        (YamlValue::Str("o".to_owned()), YamlValue::Str("bind".to_owned())),
    ];
    let def: Vec<(YamlValue, YamlValue)> = vec![
        (YamlValue::Str("driver".to_owned()), YamlValue::Str("local".to_owned())),
        (YamlValue::Str("driver_opts".to_owned()), YamlValue::Mapping(opts)),
    ];
    let v = YamlValue::Mapping(def);
    proof {
        assert(view_entries(opts@) =~= seq![
            (str_key("type"@), YamlView::Str("none"@)),
            (str_key("device"@), YamlView::Str("/coast-volumes/"@ + name@)),
            (str_key("o"@), YamlView::Str("bind"@)),
        ]);
        assert(view_entries(def@) =~= seq![
            (str_key("driver"@), YamlView::Str("local"@)),
            (str_key("driver_opts"@), YamlView::Mapping(view_entries(opts@))),
        ]);
    }
    v
}

/// Declares the coast-managed volumes, in order.
fn insert_volumes_exec(vm: Vec<(YamlValue, YamlValue)>, names: &[String]) -> (r: Vec<(YamlValue, YamlValue)>)
    ensures
        view_entries(r@) == insert_volumes(view_entries(vm@), string_views(names@)),
{
    let ghost ns = string_views(names@);
    let ghost m0 = view_entries(vm@);
    let mut m = vm;
    let mut j: usize = 0;
    while j < names.len()
        invariant
            j <= names@.len(),
            ns == string_views(names@),
            view_entries(m@) == insert_volumes(m0, ns.take(j as int)),
        decreases names@.len() - j,
    {
        proof {
            assert(ns.take(j + 1).drop_last() =~= ns.take(j as int));
            assert(ns.take(j + 1).last() == names@[j as int]@);
        }
        let def = coast_volume_def_exec(names[j].as_str());
        m = insert_str_exec(m, names[j].as_str(), def);
        j = j + 1;
    }
    assert(ns.take(names@.len() as int) =~= ns);
    m
}

/// Whether the `volumes` value (existing, or the empty mapping inserted) is a mapping.
fn volumes_entry_is_mapping(root: &YamlValue) -> (b: bool)
    requires
        is_mapping(root@),
    ensures
        b == is_mapping(entry_value(entries_of(root@), "volumes"@, empty_mapping())),
{
    match node_get_ref(root, "volumes") {
        Some(v) => match untag_ref(v) {
            YamlValue::Mapping(_) => true,
            _ => false,
        },
        None => true,
    }
}

/// Step 4: declare coast-managed volumes when the instance has volume mounts.
fn step_coast_volumes_exec(root: YamlValue, cfg: &ComposeRewriteConfig) -> (r: (YamlValue, bool))
    requires
        cfg.has_volume_mounts && cfg.coastfile is Some ==> is_mapping(root@),
    ensures
        r.0@ == step_coast_volumes(root@, *cfg).0,
        r.1 == step_coast_volumes(root@, *cfg).1,
{
    match &cfg.coastfile {
        Some(cf) => {
            if !cfg.has_volume_mounts {
                return (root, false);
            }
            let ghost names = string_views(cf.volume_names@);
            let w = volumes_entry_is_mapping(&root);
            let h = |vm: Vec<(YamlValue, YamlValue)>| -> (out: Vec<(YamlValue, YamlValue)>)
                ensures
                    view_entries(out@) == insert_volumes_fn(string_views(cf.volume_names@))(view_entries(vm@)),
            {
                insert_volumes_exec(vm, cf.volume_names.as_slice())
            };
            let g = |v: YamlValue| -> (out: YamlValue)
                ensures
                    out@ == mapping_fn(insert_volumes_fn(string_views(cf.volume_names@)))(v@),
            {
                map_node(v, h, Ghost(insert_volumes_fn(string_views(cf.volume_names@))))
            };
            let f = |rm: Vec<(YamlValue, YamlValue)>| -> (out: Vec<(YamlValue, YamlValue)>)
                ensures
                    view_entries(out@) == coast_volumes_fn(string_views(cf.volume_names@))(view_entries(rm@)),
            {
                let rm2 = with_entry_exec(rm, "volumes", YamlValue::Mapping(Vec::new()));
                proof { assert(view_entries(Seq::<(YamlValue, YamlValue)>::empty()) =~= Seq::<YamlEntry>::empty()); }
                at_str(rm2, "volumes", g, Ghost(mapping_fn(insert_volumes_fn(string_views(cf.volume_names@)))))
            };
            let r = map_node(root, f, Ghost(coast_volumes_fn(names)));
            (r, w)
        },
        None => (root, false),
    }
}

/// Replaces the services mapping by the entries `f` computes from it; reports `f`'s flag.
fn update_services_with_flag<F: Fn(Vec<(YamlValue, YamlValue)>) -> (Vec<(YamlValue, YamlValue)>, bool)>(
    root: YamlValue,
    f: F,
    Ghost(g): Ghost<spec_fn(Seq<YamlEntry>) -> (Seq<YamlEntry>, bool)>,
) -> (r: (YamlValue, bool))
    requires
        forall|m: Vec<(YamlValue, YamlValue)>| f.requires((m,)),
        forall|m: Vec<(YamlValue, YamlValue)>, out: (Vec<(YamlValue, YamlValue)>, bool)|
            f.ensures((m,), out) ==> view_entries(out.0@) == g(view_entries(m@)).0 && out.1 == g(view_entries(m@)).1,
    ensures
        r.0@ == fold_services(root@, g).0,
        r.1 == fold_services(root@, g).1,
{
    let (tags, core) = peel(root);
    match core {
        YamlValue::Mapping(rm) => {
            let mut rm = rm;
            let ghost rmv = view_entries(rm@);
            let mut flag = false;
            let i = find_str_entry(&rm, "services");
            if i < rm.len() {
                let ghost old_m = rm@;
                let (k, v) = rm.remove(i);
                let ghost vv = v@;
                proof { assert(rmv[i as int] == (view_node(k), vv)); }
                let (vtags, vcore) = peel(v);
                match vcore {
                    YamlValue::Mapping(vm) => {
                        let ghost vmv = view_entries(vm@);
                        let (vm2, b) = f(vm);
                        flag = b;
                        let ghost e = view_entries(vm2@);
                        proof {
                            lemma_wrap_update_mapping(string_views(vtags@), YamlView::Mapping(vmv), replace_fn(e));
                            lemma_wrap_update_mapping(string_views(tags@), YamlView::Mapping(rmv),
                                at_str_fn("services"@, mapping_fn(replace_fn(e))));
                        }
                        let v2 = wrap(vtags, YamlValue::Mapping(vm2));
                        rm.insert(i, (k, v2));
                        proof { lemma_view_entries_update(old_m, i as int, (k, v2)); }
                    },
                    other => {
                        let v2 = wrap(vtags, other);
                        rm.insert(i, (k, v2));
                        proof {
                            lemma_view_entries_update(old_m, i as int, (k, v2));
                            assert(view_entries(rm@) =~= rmv);
                        }
                    },
                }
            }
            (wrap(tags, YamlValue::Mapping(rm)), flag)
        },
        other => (wrap(tags, other), false),
    }
}

/// String keys of a mapping, in order.
pub(crate) fn string_keys_exec(m: &Vec<(YamlValue, YamlValue)>) -> (r: Vec<String>)
    ensures
        string_views(r@) == string_keys(view_entries(m@)),
{
    let ghost vm = view_entries(m@);
    let mut out: Vec<String> = Vec::new();
    let mut j: usize = 0;
    while j < m.len()
        invariant
            j <= m@.len(),
            vm == view_entries(m@),
            string_views(out@) == string_keys(vm.take(j as int)),
        decreases m@.len() - j,
    {
        proof {
            assert(vm.take(j + 1).drop_last() =~= vm.take(j as int));
            assert(vm.take(j + 1).last() == vm[j as int]);
        }
        match as_str_ref(&m[j].0) {
            Some(s) => {
                let ghost before = string_views(out@);
                out.push(s.clone());
                assert(string_views(out@) =~= before.push(s@));
            },
            None => {},
        }
        j = j + 1;
    }
    assert(vm.take(m@.len() as int) =~= vm);
    out
}

/// Whether some item is the string `s`.
fn seq_has_str_exec(items: &Vec<YamlValue>, s: &str) -> (b: bool)
    ensures
        b == seq_has_str(view_seq(items@), s@),
{
    let ghost iv = view_seq(items@);
    let mut i: usize = 0;
    while i < items.len()
        invariant
            i <= items@.len(),
            iv == view_seq(items@),
            forall|j: int| 0 <= j < i ==> as_str(#[trigger] iv[j]) != Some(s@),
        decreases items@.len() - i,
    {
        assert(iv[i as int] == items@[i as int]@);
        match as_str_ref(&items[i]) {
            Some(t) => {
                if str_eq(t.as_str(), s) {
                    return true;
                }
            },
            None => {},
        }
        i = i + 1;
    }
    false
}

/// `{name}:{target}` entries for shared services not already listed.
fn shared_host_entries_exec(items: &Vec<YamlValue>, shared: &[String], target: &str) -> (r: Vec<YamlValue>)
    ensures
        view_seq(r@) == shared_host_entries(view_seq(items@), string_views(shared@), target@),
{
    let ghost iv = view_seq(items@);
    let ghost sv = string_views(shared@);
    let mut out: Vec<YamlValue> = Vec::new();
    let mut j: usize = 0;
    while j < shared.len()
        invariant
            j <= shared@.len(),
            iv == view_seq(items@),
            sv == string_views(shared@),
            view_seq(out@) == shared_host_entries(iv, sv.take(j as int), target@),
        decreases shared@.len() - j,
    {
        proof {
            assert(sv.take(j + 1).drop_last() =~= sv.take(j as int));
            assert(sv.take(j + 1).last() == shared@[j as int]@);
        }
        let e = crate::text::concat3(shared[j].as_str(), ":", target);
        if !seq_has_str_exec(items, e.as_str()) {
            let ghost before = view_seq(out@);
            out.push(YamlValue::Str(e));
            assert(view_seq(out@) =~= before.push(YamlView::Str(shared@[j as int]@ + ":"@ + target@)));
        }
        j = j + 1;
    }
    assert(sv.take(shared@.len() as int) =~= sv);
    out
}

/// `extra_hosts` with `host.docker.internal` and the shared service hostnames added.
fn add_hosts_exec(items: Vec<YamlValue>, cfg: &ComposeRewriteConfig) -> (r: Vec<YamlValue>)
    ensures
        view_seq(r@) == add_hosts(view_seq(items@), *cfg),
{
    let ghost iv = view_seq(items@);
    let target: String = match &cfg.bridge_gateway_ip {
        Some(ip) => ip.clone(),
        None => "host-gateway".to_owned(),
    };
    let mut extra = shared_host_entries_exec(&items, cfg.shared_service_names.as_slice(), target.as_str());
    let listed = seq_has_str_exec(&items, "host.docker.internal:host-gateway");
    let mut out = items;
    if !listed {
        out.push(YamlValue::Str("host.docker.internal:host-gateway".to_owned()));
        assert(view_seq(out@) =~= iv.push(YamlView::Str(host_gateway_entry())));
    }
    let ghost base = view_seq(out@);
    let ghost ev = view_seq(extra@);
    let ghost ov = out@;
    let ghost xv = extra@;
    out.append(&mut extra);
    assert(out@ =~= ov + xv);
    assert(view_seq(out@) =~= base + ev);
    out
}

/// `{path}:{path}:ro` for each secret path, appended to `items`.
fn append_secret_mounts(items: Vec<YamlValue>, paths: &[String]) -> (r: Vec<YamlValue>)
    ensures
        view_seq(r@) == view_seq(items@) + secret_mounts(string_views(paths@)),
{
    let ghost iv = view_seq(items@);
    let ghost sm = secret_mounts(string_views(paths@));
    let mut out = items;
    let mut j: usize = 0;
    while j < paths.len()
        invariant
            j <= paths@.len(),
            sm == secret_mounts(string_views(paths@)),
            view_seq(out@) == iv + sm.take(j as int),
        decreases paths@.len() - j,
    {
        let p = paths[j].as_str();
        let a = crate::text::concat3(p, ":", p);
        let mount = crate::text::concat2(a.as_str(), ":ro");
        let ghost before = view_seq(out@);
        out.push(YamlValue::Str(mount));
        proof {
            assert(sm[j as int] == YamlView::Str(paths@[j as int]@ + ":"@ + paths@[j as int]@ + ":ro"@));
            assert(view_seq(out@) =~= before.push(sm[j as int]));
            assert(sm.take(j + 1) =~= sm.take(j as int).push(sm[j as int]));
        }
        j = j + 1;
    }
    assert(sm.take(paths@.len() as int) =~= sm);
    out
}

/// Applies `f` to the sequence under `name`, inserting an empty sequence first when
/// absent; reports whether that value is a sequence.
fn update_seq_entry_or_insert<F: Fn(Vec<YamlValue>) -> Vec<YamlValue>>(
    m: Vec<(YamlValue, YamlValue)>,
    name: &str,
    f: F,
    Ghost(g): Ghost<spec_fn(Seq<YamlView>) -> Seq<YamlView>>,
) -> (r: (Vec<(YamlValue, YamlValue)>, bool))
    requires
        forall|s: Vec<YamlValue>| f.requires((s,)),
        forall|s: Vec<YamlValue>, out: Vec<YamlValue>| f.ensures((s,), out) ==> view_seq(out@) == g(view_seq(s@)),
    ensures
        view_entries(r.0@) == update_entry_or_insert(view_entries(m@), name@, empty_sequence(), sequence_fn(g)),
        r.1 == is_sequence(entry_value(view_entries(m@), name@, empty_sequence())),
{
    let mut m = m;
    let ghost mv = view_entries(m@);
    let i = find_str_entry(&m, name);
    if i < m.len() {
        let ghost old_m = m@;
        let (k, v) = m.remove(i);
        proof { assert(mv[i as int] == (view_node(k), view_node(v))); }
        let b = match untag_ref(&v) {
            YamlValue::Sequence(_) => true,
            _ => false,
        };
        let v2 = map_seq_node(v, f, Ghost(g));
        m.insert(i, (k, v2));
        proof { lemma_view_entries_update(old_m, i as int, (k, v2)); }
        (m, b)
    } else {
        let ghost old_m = m@;
        let empty: Vec<YamlValue> = Vec::new();
        assert(view_seq(empty@) =~= Seq::<YamlView>::empty());
        let v2 = map_seq_node(YamlValue::Sequence(empty), f, Ghost(g));
        m.push((YamlValue::Str(name.to_owned()), v2));
        proof {
            let pushed = mv.push((str_key(name@), empty_sequence()));
            assert forall|j: int| 0 <= j < mv.len() implies (#[trigger] pushed[j]).0 != str_key(name@) by {
                lemma_str_key_index_props(mv, name@);
            }
            lemma_str_key_index(pushed, name@, mv.len() as int);
            assert(view_entries(m@) =~= mv.push((str_key(name@), view_node(v2))));
        }
        (m, true)
    }
}

proof fn lemma_str_key_index_props(m: Seq<YamlEntry>, name: Seq<char>)
    ensures
        0 <= str_key_index(m, name) <= m.len(),
        forall|j: int| 0 <= j < str_key_index(m, name) ==> (#[trigger] m[j]).0 != str_key(name),
        str_key_index(m, name) < m.len() ==> m[str_key_index(m, name)].0 == str_key(name),
    decreases m.len(),
{
    if m.len() > 0 && m[0].0 != str_key(name) {
        let t = m.drop_first();
        lemma_str_key_index_props(t, name);
        assert forall|j: int| 0 <= j < str_key_index(m, name) implies (#[trigger] m[j]).0 != str_key(name) by {
            if j > 0 {
                assert(m[j] == t[j - 1]);
            }
        }
    }
}

/// Whether adding hosts to the `extra_hosts` of a service definition adds an entry.
fn hosts_added_exec(dm: &Vec<(YamlValue, YamlValue)>, cfg: &ComposeRewriteConfig) -> (b: bool)
    ensures
        b == hosts_added(entry_value(view_entries(dm@), "extra_hosts"@, empty_sequence()), *cfg),
{
    let ghost mv = view_entries(dm@);
    let i = find_str_entry(dm, "extra_hosts");
    if i < dm.len() {
        proof { assert(mv[i as int] == (view_node(dm@[i as int].0), view_node(dm@[i as int].1))); }
        match untag_ref(&dm[i].1) {
            YamlValue::Sequence(items) => {
                if !seq_has_str_exec(items, "host.docker.internal:host-gateway") {
                    return true;
                }
                let target: String = match &cfg.bridge_gateway_ip {
                    Some(ip) => ip.clone(),
                    None => "host-gateway".to_owned(),
                };
                let extra = shared_host_entries_exec(items, cfg.shared_service_names.as_slice(), target.as_str());
                extra.len() > 0
            },
            _ => false,
        }
    } else {
        proof {
            assert(!has_str(mv, "extra_hosts"@));
            assert(view_seq(Seq::<YamlValue>::empty()) =~= Seq::<YamlView>::empty());
        }
        true
    }
}

/// A service definition with `extra_hosts` and secret mounts added; the flag says
/// whether a sequence was touched.
fn service_extras_exec(dm: Vec<(YamlValue, YamlValue)>, cfg: &ComposeRewriteConfig) -> (r: (Vec<(YamlValue, YamlValue)>, bool))
    ensures
        view_entries(r.0@) == service_extras(view_entries(dm@), *cfg),
        r.1 == extras_flag(view_entries(dm@), *cfg),
{
    let f1 = |items: Vec<YamlValue>| -> (out: Vec<YamlValue>)
        ensures
            view_seq(out@) == add_hosts_fn(*cfg)(view_seq(items@)),
    {
        add_hosts_exec(items, cfg)
    };
    let added = hosts_added_exec(&dm, cfg);
    let (d1, _) = update_seq_entry_or_insert(dm, "extra_hosts", f1, Ghost(add_hosts_fn(*cfg)));
    let b1 = added;
    if cfg.secret_container_paths.len() == 0 {
        return (d1, b1);
    }
    let f2 = |items: Vec<YamlValue>| -> (out: Vec<YamlValue>)
        ensures
            view_seq(out@) == append_fn(secret_mounts(string_views(cfg.secret_container_paths@)))(view_seq(items@)),
    {
        append_secret_mounts(items, cfg.secret_container_paths.as_slice())
    };
    let (d2, b2) = update_seq_entry_or_insert(d1, "volumes", f2,
        Ghost(append_fn(secret_mounts(string_views(cfg.secret_container_paths@)))));
    (d2, b1 || b2)
}

/// Extras added to every service named by a string key, in key order.
fn extras_fold_exec(sm: Vec<(YamlValue, YamlValue)>, cfg: &ComposeRewriteConfig) -> (r: (Vec<(YamlValue, YamlValue)>, bool))
    ensures
        view_entries(r.0@) == extras_fold(view_entries(sm@), string_keys(view_entries(sm@)), *cfg).0,
        r.1 == extras_fold(view_entries(sm@), string_keys(view_entries(sm@)), *cfg).1,
{
    let ghost m0 = view_entries(sm@);
    let names = string_keys_exec(&sm);
    let ghost ns = string_views(names@);
    let mut cur = sm;
    let mut w = false;
    let mut j: usize = 0;
    while j < names.len()
        invariant
            j <= names@.len(),
            ns == string_views(names@),
            view_entries(cur@) == extras_fold(m0, ns.take(j as int), *cfg).0,
            w == extras_fold(m0, ns.take(j as int), *cfg).1,
        decreases names@.len() - j,
    {
        proof {
            assert(ns.take(j + 1).drop_last() =~= ns.take(j as int));
            assert(ns.take(j + 1).last() == names@[j as int]@);
        }
        let i = find_str_entry(&cur, names[j].as_str());
        if i < cur.len() {
            let ghost old_m = cur@;
            let (k, v) = cur.remove(i);
            let ghost vv = v@;
            proof { assert(view_entries(old_m)[i as int] == (view_node(k), vv)); }
            let (tags, core) = peel(v);
            match core {
                YamlValue::Mapping(dm) => {
                    let ghost dmv = view_entries(dm@);
                    let (dm2, b) = service_extras_exec(dm, cfg);
                    proof { lemma_wrap_update_mapping(string_views(tags@), YamlView::Mapping(dmv), service_extras_fn(*cfg)); }
                    let v2 = wrap(tags, YamlValue::Mapping(dm2));
                    cur.insert(i, (k, v2));
                    proof { lemma_view_entries_update(old_m, i as int, (k, v2)); }
                    w = w || b;
                },
                other => {
                    let v2 = wrap(tags, other);
                    cur.insert(i, (k, v2));
                    proof {
                        lemma_view_entries_update(old_m, i as int, (k, v2));
                        assert(view_entries(cur@) =~= view_entries(old_m));
                    }
                },
            }
        }
        j = j + 1;
    }
    assert(ns.take(names@.len() as int) =~= ns);
    (cur, w)
}

/// Step 5: `extra_hosts` and secret mounts for every service.
fn step_extras_exec(root: YamlValue, cfg: &ComposeRewriteConfig) -> (r: (YamlValue, bool))
    ensures
        r.0@ == step_extras(root@, *cfg).0,
        r.1 == step_extras(root@, *cfg).1,
{
    let f = |sm: Vec<(YamlValue, YamlValue)>| -> (out: (Vec<(YamlValue, YamlValue)>, bool))
        ensures
            view_entries(out.0@) == extras_all_fn(*cfg)(view_entries(sm@)).0,
            out.1 == extras_all_fn(*cfg)(view_entries(sm@)).1,
    {
        extras_fold_exec(sm, cfg)
    };
    update_services_with_flag(root, f, Ghost(extras_all_fn(*cfg)))
}

/// Appends `v` to `out`.
fn push_chars(out: &mut Vec<char>, v: &[char])
    ensures
        final(out)@ == old(out)@ + v@,
{
    let ghost start = out@;
    let mut i: usize = 0;
    while i < v.len()
        invariant
            i <= v@.len(),
            out@ == start + v@.take(i as int),
        decreases v@.len() - i,
    {
        out.push(v[i]);
        i = i + 1;
        assert(out@ =~= start + v@.take(i as int));
    }
    assert(v@.take(v@.len() as int) =~= v@);
}

/// The characters `v[lo..hi]`.
fn sub_chars(v: &[char], lo: usize, hi: usize) -> (r: Vec<char>)
    requires
        lo <= hi <= v@.len(),
    ensures
        r@ == v@.subrange(lo as int, hi as int),
{
    let mut out: Vec<char> = Vec::new();
    let mut i: usize = lo;
    while i < hi
        invariant
            lo <= i <= hi,
            hi <= v@.len(),
            out@ == v@.subrange(lo as int, i as int),
        decreases hi - i,
    {
        out.push(v[i]);
        i = i + 1;
        assert(out@ =~= v@.subrange(lo as int, i as int));
    }
    out
}

/// A short-form volume string with `rslave` propagation where it is a bind mount.
fn rslave_str_exec(s: &str) -> (r: String)
    ensures
        r@ == rslave_str(s@),
{
    let chars = chars_of(s);
    let n = chars.len();
    let k1 = find_char(chars.as_slice(), ':');
    if k1 >= n {
        return s.to_owned();
    }
    let p0 = sub_chars(chars.as_slice(), 0, k1);
    let rest = sub_chars(chars.as_slice(), k1 + 1, n);
    proof {
        assert(p0@ =~= s@.take(k1 as int));
        assert(rest@ =~= s@.skip(k1 + 1));
    }
    if !(p0.len() > 0 && (p0[0] == '/' || p0[0] == '.')) {
        return s.to_owned();
    }
    let k2 = find_char(rest.as_slice(), ':');
    let mut out: Vec<char> = Vec::new();
    push_chars(&mut out, p0.as_slice());
    extend_chars(&mut out, ":");
    if k2 >= rest.len() {
        push_chars(&mut out, rest.as_slice());
        extend_chars(&mut out, ":rslave");
        assert(out@ =~= p0@ + ":"@ + rest@ + ":rslave"@);
        return string_from_chars(out.as_slice());
    }
    let p1 = sub_chars(rest.as_slice(), 0, k2);
    let mode = sub_chars(rest.as_slice(), k2 + 1, rest.len());
    proof {
        assert(p1@ =~= rest@.take(k2 as int));
        assert(mode@ =~= rest@.skip(k2 + 1));
    }
    if contains_chars(mode.as_slice(), "rslave") || contains_chars(mode.as_slice(), "rshared")
        || contains_chars(mode.as_slice(), "rprivate") {
        return s.to_owned();
    }
    push_chars(&mut out, p1.as_slice());
    extend_chars(&mut out, ":");
    push_chars(&mut out, mode.as_slice());
    extend_chars(&mut out, ",rslave");
    assert(out@ =~= p0@ + ":"@ + p1@ + ":"@ + mode@ + ",rslave"@);
    string_from_chars(out.as_slice())
}

/// `propagation: rslave` added to a bind-options mapping that has no propagation.
fn bind_propagation_exec(b: YamlValue) -> (r: YamlValue)
    ensures
        r@ == bind_propagation(b@),
{
    let applies = match untag_ref(&b) {
        YamlValue::Mapping(bm) => find_str_entry(bm, "propagation") == bm.len(),
        _ => false,
    };
    if applies {
        let h = |bm: Vec<(YamlValue, YamlValue)>| -> (out: Vec<(YamlValue, YamlValue)>)
            ensures
                view_entries(out@) == set_propagation_fn()(view_entries(bm@)),
        {
            insert_str_exec(bm, "propagation", YamlValue::Str("rslave".to_owned()))
        };
        map_node(b, h, Ghost(set_propagation_fn()))
    } else {
        b
    }
}

/// A long-form bind volume with `bind.propagation: rslave` (unless set).
fn rslave_map_exec(m: Vec<(YamlValue, YamlValue)>) -> (r: Vec<(YamlValue, YamlValue)>)
    ensures
        view_entries(r@) == rslave_map(view_entries(m@)),
{
    let i = find_str_entry(&m, "type");
    let is_bind = if i < m.len() {
        match as_str_ref(&m[i].1) {
            Some(t) => str_eq(t.as_str(), "bind"),
            None => false,
        }
    } else {
        false
    };
    proof {
        reveal_strlit("bind");
        assert("bind"@.len() == 4);
        let vm = view_entries(m@);
        if i < m@.len() {
            assert(get_str(vm, "type"@) == Some(view_node(m@[i as int].1)));
        } else {
            assert(get_str(vm, "type"@) is None);
        }
        assert(is_bind == (volume_type(vm) == "bind"@));
    }
    if !is_bind {
        return m;
    }
    let m2 = with_entry_exec(m, "bind", YamlValue::Mapping(Vec::new()));
    proof { assert(view_entries(Seq::<(YamlValue, YamlValue)>::empty()) =~= Seq::<YamlEntry>::empty()); }
    let g = |b: YamlValue| -> (out: YamlValue)
        ensures
            out@ == bind_propagation_fn()(b@),
    {
        bind_propagation_exec(b)
    };
    at_str(m2, "bind", g, Ghost(bind_propagation_fn()))
}

/// A volume entry with `rslave` propagation where it is a bind mount.
fn rslave_node_exec(v: YamlValue) -> (r: YamlValue)
    ensures
        r@ == rslave_node(v@),
{
    match v {
        YamlValue::Str(s) => YamlValue::Str(rslave_str_exec(s.as_str())),
        YamlValue::Mapping(m) => YamlValue::Mapping(rslave_map_exec(m)),
        other => {
            proof {
                match other {
                    YamlValue::Str(_) => {},
                    YamlValue::Mapping(_) => {},
                    _ => {},
                }
            }
            other
        },
    }
}

/// Give a compose volume entry `rslave` propagation where it is a bind mount: a
/// short `src:dst[:mode]` string whose source is a path, or a long-form mapping of
/// type `bind`. Any other entry stays as it is.
pub fn rewrite_volume_with_rslave(v: &mut YamlValue)
    ensures
        final(v)@ == rslave_node(old(v)@),
{
    let mut cur = YamlValue::Null;
    std::mem::swap(&mut cur, v);
    *v = rslave_node_exec(cur);
}

/// Every volume of a sequence rewritten for rslave propagation.
fn rslave_items_exec(items: Vec<YamlValue>) -> (r: Vec<YamlValue>)
    ensures
        view_seq(r@) == rslave_items_fn()(view_seq(items@)),
{
    let mut items = items;
    let ghost orig = view_seq(items@);
    let ghost target = orig.map_values(|v: YamlView| rslave_node(v));
    let mut out: Vec<YamlValue> = Vec::new();
    let n = items.len();
    let mut j: usize = 0;
    while j < n
        invariant
            j <= n,
            n == orig.len(),
            target == orig.map_values(|v: YamlView| rslave_node(v)),
            items@.len() == n - j,
            view_seq(items@) == orig.skip(j as int),
            view_seq(out@) == target.take(j as int),
        decreases n - j,
    {
        let ghost before_items = items@;
        let v = items.remove(0);
        proof {
            assert(view_seq(items@) =~= orig.skip(j + 1)) by {
                assert forall|q: int| 0 <= q < items@.len() implies view_seq(items@)[q] == orig.skip(j + 1)[q] by {
                    assert(items@[q] == before_items[q + 1]);
                    assert(view_seq(before_items)[q + 1] == orig.skip(j as int)[q + 1]);
                }
            }
            assert(view_node(v) == view_seq(before_items)[0]);
            assert(orig.skip(j as int)[0] == orig[j as int]);
        }
        let v2 = rslave_node_exec(v);
        let ghost before = view_seq(out@);
        out.push(v2);
        assert(view_seq(out@) =~= before.push(target[j as int]));
        assert(view_seq(out@) =~= target.take(j + 1));
        j = j + 1;
    }
    assert(target.take(n as int) =~= target);
    out
}

/// The volume sequence of a service rewritten for rslave propagation.
fn rslave_volumes_node(v: YamlValue) -> (r: YamlValue)
    ensures
        r@ == sequence_fn(rslave_items_fn())(v@),
{
    let h = |s: Vec<YamlValue>| -> (o: Vec<YamlValue>)
        ensures
            view_seq(o@) == rslave_items_fn()(view_seq(s@)),
    {
        rslave_items_exec(s)
    };
    map_seq_node(v, h, Ghost(rslave_items_fn()))
}

/// A service definition whose volume sequence gets rslave propagation.
fn rslave_def_exec(dm: Vec<(YamlValue, YamlValue)>) -> (r: Vec<(YamlValue, YamlValue)>)
    ensures
        view_entries(r@) == rslave_def_fn()(view_entries(dm@)),
{
    let g = |v: YamlValue| -> (out: YamlValue)
        ensures
            out@ == sequence_fn(rslave_items_fn())(v@),
    {
        rslave_volumes_node(v)
    };
    at_str(dm, "volumes", g, Ghost(sequence_fn(rslave_items_fn())))
}

/// rslave propagation for the hot services among the string keys, in key order.
fn rslave_fold_exec(sm: Vec<(YamlValue, YamlValue)>, cfg: &ComposeRewriteConfig) -> (r: (Vec<(YamlValue, YamlValue)>, bool))
    ensures
        view_entries(r.0@) == rslave_fold(view_entries(sm@), string_keys(view_entries(sm@)), *cfg).0,
        r.1 == rslave_fold(view_entries(sm@), string_keys(view_entries(sm@)), *cfg).1,
{
    let ghost m0 = view_entries(sm@);
    let names = string_keys_exec(&sm);
    let ghost ns = string_views(names@);
    let mut cur = sm;
    let mut w = false;
    let mut j: usize = 0;
    while j < names.len()
        invariant
            j <= names@.len(),
            ns == string_views(names@),
            view_entries(cur@) == rslave_fold(m0, ns.take(j as int), *cfg).0,
            w == rslave_fold(m0, ns.take(j as int), *cfg).1,
        decreases names@.len() - j,
    {
        proof {
            assert(ns.take(j + 1).drop_last() =~= ns.take(j as int));
            assert(ns.take(j + 1).last() == names@[j as int]@);
        }
        let hot = cfg.default_hot || names_contain(cfg.hot_services.as_slice(), names[j].as_str());
        if hot {
            let i = find_str_entry(&cur, names[j].as_str());
            if i < cur.len() {
                let ghost old_m = cur@;
                let (k, v) = cur.remove(i);
                let ghost vv = v@;
                proof { assert(view_entries(old_m)[i as int] == (view_node(k), vv)); }
                let (tags, core) = peel(v);
                match core {
                    YamlValue::Mapping(dm) => {
                        let ghost dmv = view_entries(dm@);
                        let iv = find_str_entry(&dm, "volumes");
                        let mut hv = false;
                        if iv < dm.len() {
                            hv = match untag_ref(&dm[iv].1) {
                                YamlValue::Sequence(_) => true,
                                _ => false,
                            };
                        }
                        if hv {
                            let dm2 = rslave_def_exec(dm);
                            proof { lemma_wrap_update_mapping(string_views(tags@), YamlView::Mapping(dmv), rslave_def_fn()); }
                            let v2 = wrap(tags, YamlValue::Mapping(dm2));
                            cur.insert(i, (k, v2));
                            proof { lemma_view_entries_update(old_m, i as int, (k, v2)); }
                            w = true;
                        } else {
                            let v2 = wrap(tags, YamlValue::Mapping(dm));
                            cur.insert(i, (k, v2));
                            proof {
                                lemma_view_entries_update(old_m, i as int, (k, v2));
                                assert(view_entries(cur@) =~= view_entries(old_m));
                            }
                        }
                    },
                    other => {
                        let v2 = wrap(tags, other);
                        cur.insert(i, (k, v2));
                        proof {
                            lemma_view_entries_update(old_m, i as int, (k, v2));
                            assert(view_entries(cur@) =~= view_entries(old_m));
                        }
                    },
                }
            }
        }
        j = j + 1;
    }
    assert(ns.take(names@.len() as int) =~= ns);
    (cur, w)
}

/// Step 6: rslave propagation on bind mounts of hot services.
fn step_rslave_exec(root: YamlValue, cfg: &ComposeRewriteConfig) -> (r: (YamlValue, bool))
    ensures
        r.0@ == step_rslave(root@, *cfg).0,
        r.1 == step_rslave(root@, *cfg).1,
{
    if !cfg.default_hot && cfg.hot_services.len() == 0 {
        return (root, false);
    }
    let f = |sm: Vec<(YamlValue, YamlValue)>| -> (out: (Vec<(YamlValue, YamlValue)>, bool))
        ensures
            view_entries(out.0@) == rslave_all_fn(*cfg)(view_entries(sm@)).0,
            out.1 == rslave_all_fn(*cfg)(view_entries(sm@)).1,
    {
        rslave_fold_exec(sm, cfg)
    };
    update_services_with_flag(root, f, Ghost(rslave_all_fn(*cfg)))
}

proof fn lemma_update_mapping_kind(v: YamlView, g: spec_fn(Seq<YamlEntry>) -> Seq<YamlEntry>)
    ensures
        is_mapping(update_mapping(v, g)) == is_mapping(v),
    decreases v,
{
    match v {
        YamlView::Tagged(t, b) => lemma_update_mapping_kind(*b, g),
        _ => {},
    }
}

proof fn lemma_image_tags_kind(root: YamlView, tags: Seq<(Seq<char>, Seq<char>)>)
    ensures
        is_mapping(step_image_tags(root, tags).0) == is_mapping(root),
    decreases tags.len(),
{
    if tags.len() > 0 {
        let prev = step_image_tags(root, tags.drop_last());
        lemma_image_tags_kind(root, tags.drop_last());
        lemma_update_mapping_kind(prev.0,
            at_str_fn("services"@, mapping_fn(at_str_fn(tags.last().0, mapping_fn(image_override_fn(tags.last().1))))));
    }
}

/// Applies every compose rewrite of a coast instance to a parsed document, in order:
/// remove shared and omitted services (with their `depends_on` references and the
/// named volumes they used), remove omitted volumes, apply per-instance images,
/// declare coast-managed volumes, add `extra_hosts` and secret mounts, and set
/// `rslave` propagation on hot services' bind mounts. `None` when nothing needed writing.
pub fn rewrite_compose_value(input: YamlValue, cfg: &ComposeRewriteConfig) -> (r: Option<YamlValue>)
    requires
        cfg.has_volume_mounts && cfg.coastfile is Some ==> is_mapping(input@),
    ensures
        match r {
            Some(v) => rewrite_compose_spec(input@, *cfg) == Some(v@),
            None => rewrite_compose_spec(input@, *cfg) is None,
        },
{
    let ghost iv = input@;
    let stub = stub_names_exec(cfg);
    let vols: Vec<String> = if stub.len() > 0 {
        shared_volume_names_exec(&input, stub.as_slice())
    } else {
        Vec::new()
    };
    let (r1, w1) = step_remove_services_exec(input, &stub, &vols);
    let (r2, w2) = step_omit_volumes_exec(r1, cfg);
    let (r3, w3) = step_image_tags_exec(r2, &cfg.per_instance_image_tags);
    proof {
        let st = stub_names(*cfg);
        if st.len() > 0 {
            let r1a = update_mapping(iv, at_str_fn("services"@, mapping_fn(remove_all_fn(st))));
            let r1b = update_mapping(r1a, at_str_fn("services"@, mapping_fn(strip_all_fn(st))));
            lemma_update_mapping_kind(iv, at_str_fn("services"@, mapping_fn(remove_all_fn(st))));
            lemma_update_mapping_kind(r1a, at_str_fn("services"@, mapping_fn(strip_all_fn(st))));
            lemma_update_mapping_kind(r1b, at_str_fn("volumes"@, mapping_fn(remove_all_fn(shared_volume_names(iv, st)))));
        }
        if cfg.coastfile is Some {
            let ov = string_views(cfg.coastfile->0.omit_volumes@);
            lemma_update_mapping_kind(r1@, at_str_fn("volumes"@, mapping_fn(remove_all_fn(ov))));
        }
        lemma_image_tags_kind(r2@, image_tags_view(*cfg));
    }
    let (r4, w4) = step_coast_volumes_exec(r3, cfg);
    let (r5, w5) = step_extras_exec(r4, cfg);
    let (r6, w6) = step_rslave_exec(r5, cfg);
    if w1 || w2 || w3 || w4 || w5 || w6 {
        Some(r6)
    } else {
        None
    }
}

proof fn lemma_first_colon_after(p: Seq<char>, x: Seq<char>)
    requires
        first_index_of(p, ':') >= p.len(),
    ensures
        first_index_of(p + ":"@ + x, ':') == p.len(),
        (p + ":"@ + x).take(p.len() as int) == p,
        (p + ":"@ + x).skip(p.len() as int + 1) == x,
{
    reveal_strlit(":");
    let t = p + ":"@ + x;
    crate::text::lemma_first_index_of_bounds(p, ':');
    assert forall|j: int| 0 <= j < p.len() implies t[j] != ':' by {
        assert(t[j] == p[j]);
    }
    assert(t[p.len() as int] == ':');
    crate::text::lemma_first_index_of(t, ':', p.len() as int);
    assert(t.take(p.len() as int) =~= p);
    assert(t.skip(p.len() as int + 1) =~= x);
}

proof fn lemma_contains_suffix_rslave(mode: Seq<char>)
    ensures
        contains_seq(mode + ",rslave"@, "rslave"@),
{
    reveal_strlit(",rslave");
    reveal_strlit("rslave");
    let t = mode + ",rslave"@;
    let i: int = mode.len() as int + 1;
    assert(t.subrange(i, i + "rslave"@.len()) =~= "rslave"@);
}

/// Setting `rslave` propagation on a short-form volume twice is the same as once, and
/// a volume that is not a bind mount of a host path (`.` or `/` source) is left as it is.
pub proof fn lemma_rslave_str_idempotent(s: Seq<char>)
    ensures
        rslave_str(rslave_str(s)) == rslave_str(s),
        !crate::shared_services::is_path_source(crate::shared_services::volume_source(s)) ==> rslave_str(s) == s,
{
    reveal_strlit(":");
    reveal_strlit(":rslave");
    let k1 = first_index_of(s, ':');
    crate::text::lemma_first_index_of_bounds(s, ':');
    if k1 < s.len() {
        let p0 = s.take(k1);
        let rest = s.skip(k1 + 1);
        let k2 = first_index_of(rest, ':');
        crate::text::lemma_first_index_of_bounds(rest, ':');
        crate::text::lemma_first_index_of_prefix(s, ':', k1);
        if crate::shared_services::is_path_source(p0) {
            if k2 >= rest.len() {
                let t = p0 + ":"@ + (rest + ":rslave"@);
                assert(t =~= p0 + ":"@ + rest + ":rslave"@);
                lemma_first_colon_after(p0, rest + ":rslave"@);
                let rest2 = rest + ":rslave"@;
                assert(rest2 =~= rest + ":"@ + "rslave"@) by {
                    reveal_strlit("rslave");
                }
                lemma_first_colon_after(rest, "rslave"@);
                reveal_strlit("rslave");
                assert("rslave"@.subrange(0, 0 + "rslave"@.len() as int) =~= "rslave"@);
                assert(contains_seq("rslave"@, "rslave"@));
            } else {
                let p1 = rest.take(k2);
                let mode = rest.skip(k2 + 1);
                crate::text::lemma_first_index_of_prefix(rest, ':', k2);
                assert(rest =~= p1 + ":"@ + mode);
                if !(contains_seq(mode, "rslave"@) || contains_seq(mode, "rshared"@) || contains_seq(mode, "rprivate"@)) {
                    let t = p0 + ":"@ + (p1 + ":"@ + (mode + ",rslave"@));
                    assert(t =~= p0 + ":"@ + p1 + ":"@ + mode + ",rslave"@);
                    lemma_first_colon_after(p0, p1 + ":"@ + (mode + ",rslave"@));
                    lemma_first_colon_after(p1, mode + ",rslave"@);
                    lemma_contains_suffix_rslave(mode);
                }
            }
        }
    }
}

/// After `add_hosts`, the existing entries come first, unchanged, and
/// `host.docker.internal:host-gateway` is listed.
pub proof fn lemma_add_hosts_lists_host_gateway(items: Seq<YamlView>, cfg: ComposeRewriteConfig)
    ensures
        add_hosts(items, cfg).take(items.len() as int) == items,
        seq_has_str(add_hosts(items, cfg), host_gateway_entry()),
{
    let r = add_hosts(items, cfg);
    let extra = shared_host_entries(items, string_views(cfg.shared_service_names@), host_target(cfg));
    if seq_has_str(items, host_gateway_entry()) {
        let i = choose|i: int| 0 <= i < items.len() && as_str(#[trigger] items[i]) == Some(host_gateway_entry());
        assert(r[i] == items[i]);
        assert(r.take(items.len() as int) =~= items);
    } else {
        let i = items.len() as int;
        assert(r[i] == YamlView::Str(host_gateway_entry()));
        assert(untag(r[i]) == r[i]);
        assert(as_str(r[i]) == Some(host_gateway_entry()));
        assert(r.take(items.len() as int) =~= items);
    }
}

/// Whether no two entries have the same key.
pub open spec fn distinct_keys(m: Seq<YamlEntry>) -> bool {
    forall|i: int, j: int| 0 <= i < j < m.len() ==> #[trigger] m[i].0 != #[trigger] m[j].0
}

/// Whether some entry has key `k`.
pub open spec fn has_key(m: Seq<YamlEntry>, k: YamlView) -> bool {
    exists|j: int| 0 <= j < m.len() && #[trigger] m[j].0 == k
}

/// Every key of `r` is a key of `m`.
pub open spec fn keys_within(r: Seq<YamlEntry>, m: Seq<YamlEntry>) -> bool {
    forall|i: int| 0 <= i < r.len() ==> has_key(m, #[trigger] r[i].0)
}

proof fn lemma_has_str_iff(m: Seq<YamlEntry>, name: Seq<char>)
    ensures
        has_str(m, name) <==> exists|i: int| 0 <= i < m.len() && #[trigger] m[i].0 == str_key(name),
{
    lemma_str_key_index_props(m, name);
    if exists|i: int| 0 <= i < m.len() && #[trigger] m[i].0 == str_key(name) {
        let i = choose|i: int| 0 <= i < m.len() && #[trigger] m[i].0 == str_key(name);
        if !has_str(m, name) {
            assert(i < str_key_index(m, name));
        }
    }
}

proof fn lemma_remove_str_keys(m: Seq<YamlEntry>, name: Seq<char>)
    requires
        distinct_keys(m),
    ensures
        distinct_keys(remove_str(m, name)),
        !has_str(remove_str(m, name), name),
        keys_within(remove_str(m, name), m),
{
    lemma_has_str_iff(m, name);
    let r = remove_str(m, name);
    if has_str(m, name) {
        let i = str_key_index(m, name);
        lemma_str_key_index_props(m, name);
        let n = m.len() - 1;
        assert forall|a: int, b: int| 0 <= a < b < r.len() implies #[trigger] r[a].0 != #[trigger] r[b].0 by {
            let a2 = if a == i { n } else { a };
            let b2 = if b == i { n } else { b };
            assert(r[a] == m[a2]);
            assert(r[b] == m[b2]);
        }
        assert forall|q: int| 0 <= q < r.len() implies #[trigger] r[q].0 != str_key(name) by {
            let q2 = if q == i { n } else { q };
            assert(r[q] == m[q2]);
            assert(q2 != i);
        }
        lemma_has_str_iff(r, name);
        assert forall|q: int| 0 <= q < r.len() implies has_key(m, #[trigger] r[q].0) by {
            let q2 = if q == i { n } else { q };
            assert(r[q] == m[q2]);
        }
    }
}

/// Removing services (or volumes) by name leaves none of the names in a mapping
/// whose keys are distinct, and introduces no key.
pub proof fn lemma_remove_all_str_absent(m: Seq<YamlEntry>, names: Seq<Seq<char>>)
    requires
        distinct_keys(m),
    ensures
        distinct_keys(remove_all_str(m, names)),
        forall|n: Seq<char>| names.contains(n) ==> !#[trigger] has_str(remove_all_str(m, names), n),
        keys_within(remove_all_str(m, names), m),
    decreases names.len(),
{
    if names.len() > 0 {
        let prev = remove_all_str(m, names.drop_last());
        lemma_remove_all_str_absent(m, names.drop_last());
        lemma_remove_str_keys(prev, names.last());
        let r = remove_all_str(m, names);
        assert forall|n: Seq<char>| names.contains(n) implies !#[trigger] has_str(r, n) by {
            if n != names.last() {
                let k = choose|k: int| 0 <= k < names.len() && names[k] == n;
                assert(names.drop_last()[k] == n);
                assert(!has_str(prev, n));
                lemma_has_str_iff(prev, n);
                lemma_has_str_iff(r, n);
                if has_str(r, n) {
                    let q = choose|q: int| 0 <= q < r.len() && #[trigger] r[q].0 == str_key(n);
                    assert(has_key(prev, r[q].0));
                }
            }
        }
        assert forall|q: int| 0 <= q < r.len() implies has_key(m, #[trigger] r[q].0) by {
            assert(has_key(prev, r[q].0));
            let j = choose|j: int| 0 <= j < prev.len() && #[trigger] prev[j].0 == r[q].0;
            assert(has_key(m, prev[j].0));
        }
    }
}

proof fn lemma_entries_of_update(v: YamlView, g: spec_fn(Seq<YamlEntry>) -> Seq<YamlEntry>)
    requires
        is_mapping(v),
    ensures
        is_mapping(update_mapping(v, g)),
        entries_of(update_mapping(v, g)) == g(entries_of(v)),
    decreases v,
{
    match v {
        YamlView::Tagged(t, b) => lemma_entries_of_update(*b, g),
        _ => {},
    }
}

/// Whether two entry lists have the same keys, in order.
pub open spec fn same_keys(a: Seq<YamlEntry>, b: Seq<YamlEntry>) -> bool {
    a.len() == b.len() && forall|i: int| 0 <= i < a.len() ==> (#[trigger] a[i]).0 == b[i].0
}

proof fn lemma_same_keys_index(a: Seq<YamlEntry>, b: Seq<YamlEntry>, name: Seq<char>)
    requires
        same_keys(a, b),
    ensures
        str_key_index(a, name) == str_key_index(b, name),
        has_str(a, name) == has_str(b, name),
{
    lemma_str_key_index_props(a, name);
    let k = str_key_index(a, name);
    assert forall|j: int| 0 <= j < k implies (#[trigger] b[j]).0 != str_key(name) by {
        assert(a[j].0 == b[j].0);
    }
    if k < a.len() {
        assert(a[k].0 == b[k].0);
    }
    lemma_str_key_index(b, name, k);
}

proof fn lemma_update_str_entry_keys(m: Seq<YamlEntry>, name: Seq<char>, f: spec_fn(YamlView) -> YamlView)
    ensures
        same_keys(update_str_entry(m, name, f), m),
{
    lemma_str_key_index_props(m, name);
}

proof fn lemma_get_after_update(m: Seq<YamlEntry>, name: Seq<char>, other: Seq<char>, f: spec_fn(YamlView) -> YamlView)
    ensures
        get_str(update_str_entry(m, name, f), name) == match get_str(m, name) {
            Some(v) => Some(f(v)),
            None => None,
        },
        other != name ==> get_str(update_str_entry(m, name, f), other) == get_str(m, other),
{
    let u = update_str_entry(m, name, f);
    lemma_update_str_entry_keys(m, name, f);
    lemma_same_keys_index(u, m, name);
    lemma_same_keys_index(u, m, other);
    lemma_str_key_index_props(m, name);
    lemma_str_key_index_props(m, other);
    if other != name && has_str(m, other) && has_str(m, name) {
        assert(str_key_index(m, other) != str_key_index(m, name));
    }
}

/// After step 1, none of the removed services is left in the services mapping
/// (whose keys are distinct, as in any parsed document).
pub proof fn lemma_removed_services_gone(root: YamlView, input: YamlView, cfg: ComposeRewriteConfig)
    requires
        match node_get(root, "services"@) {
            Some(sv) => distinct_keys(entries_of(sv)),
            None => true,
        },
    ensures
        match node_get(step_remove_services(root, input, cfg).0, "services"@) {
            Some(sv2) => is_mapping(sv2) ==> forall|n: Seq<char>| stub_names(cfg).contains(n)
                ==> !#[trigger] has_str(entries_of(sv2), n),
            None => true,
        },
{
    let stub = stub_names(cfg);
    reveal_strlit("services");
    reveal_strlit("volumes");
    assert("services"@[0] == 's' && "volumes"@[0] == 'v');
    assert("services"@ != "volumes"@);
    if stub.len() > 0 {
        let f1 = mapping_fn(remove_all_fn(stub));
        let f2 = mapping_fn(strip_all_fn(stub));
        let f3 = mapping_fn(remove_all_fn(shared_volume_names(input, stub)));
        let g1 = at_str_fn("services"@, f1);
        let g2 = at_str_fn("services"@, f2);
        let g3 = at_str_fn("volumes"@, f3);
        let r1a = update_mapping(root, g1);
        let r1 = update_mapping(r1a, g2);
        let r2 = update_mapping(r1, g3);
        assert(step_remove_services(root, input, cfg).0 == r2);
        if is_mapping(root) {
            lemma_entries_of_update(root, g1);
            lemma_entries_of_update(r1a, g2);
            lemma_entries_of_update(r1, g3);
            let e0 = entries_of(root);
            let e1 = entries_of(r1a);
            let e2 = entries_of(r1);
            assert(e1 == update_str_entry(e0, "services"@, f1));
            assert(e2 == update_str_entry(e1, "services"@, f2));
            assert(entries_of(r2) == update_str_entry(e2, "volumes"@, f3));
            lemma_get_after_update(e0, "services"@, "volumes"@, f1);
            lemma_get_after_update(e1, "services"@, "volumes"@, f2);
            lemma_get_after_update(e2, "volumes"@, "services"@, f3);
            assert(get_str(entries_of(r2), "services"@) == get_str(e2, "services"@));
            match get_str(e0, "services"@) {
                Some(sv) => {
                    let a = update_mapping(sv, remove_all_fn(stub));
                    let b = update_mapping(a, strip_all_fn(stub));
                    assert(get_str(e1, "services"@) == Some(a));
                    assert(get_str(e2, "services"@) == Some(b));
                    assert(node_get(r2, "services"@) == Some(b));
                    if is_mapping(sv) {
                        lemma_remove_all_str_absent(entries_of(sv), stub);
                        lemma_entries_of_update(sv, remove_all_fn(stub));
                        lemma_entries_of_update(a, strip_all_fn(stub));
                        let ea = entries_of(a);
                        let eb = entries_of(b);
                        assert(eb == strip_all_defs(ea, stub));
                        assert(same_keys(eb, ea));
                        assert forall|n: Seq<char>| stub.contains(n) implies !#[trigger] has_str(eb, n) by {
                            lemma_same_keys_index(eb, ea, n);
                        }
                    } else {
                        lemma_update_mapping_kind(sv, remove_all_fn(stub));
                        lemma_update_mapping_kind(a, strip_all_fn(stub));
                    }
                },
                None => {
                    assert(get_str(e2, "services"@) is None);
                },
            }
        } else {
            lemma_update_mapping_kind(root, g1);
            lemma_update_mapping_kind(r1a, g2);
            lemma_update_mapping_kind(r1, g3);
        }
    }
}

proof fn lemma_items_of_update(v: YamlView, g: spec_fn(Seq<YamlView>) -> Seq<YamlView>)
    requires
        is_sequence(v),
    ensures
        is_sequence(update_sequence(v, g)),
        items_of(update_sequence(v, g)) == g(items_of(v)),
    decreases v,
{
    match v {
        YamlView::Tagged(t, b) => lemma_items_of_update(*b, g),
        _ => {},
    }
}

proof fn lemma_entry_or_insert_get(m: Seq<YamlEntry>, name: Seq<char>, other: Seq<char>, d: YamlView,
    f: spec_fn(YamlView) -> YamlView)
    ensures
        get_str(update_entry_or_insert(m, name, d, f), name) == Some(f(entry_value(m, name, d))),
        other != name ==> get_str(update_entry_or_insert(m, name, d, f), other) == get_str(m, other),
{
    let w = with_entry(m, name, d);
    lemma_str_key_index_props(m, name);
    lemma_str_key_index_props(m, other);
    if !has_str(m, name) {
        let n = m.len() as int;
        assert forall|j: int| 0 <= j < n implies (#[trigger] w[j]).0 != str_key(name) by {
            assert(w[j] == m[j]);
        }
        lemma_str_key_index(w, name, n);
        if other != name {
            let k = str_key_index(m, other);
            assert forall|j: int| 0 <= j < k implies (#[trigger] w[j]).0 != str_key(other) by {
                assert(w[j] == m[j]);
            }
            if k < n {
                assert(w[k] == m[k]);
                lemma_str_key_index(w, other, k);
            } else {
                assert(w[n].0 == str_key(name));
                lemma_str_key_index(w, other, n + 1);
            }
        }
    }
    lemma_get_after_update(w, name, other, f);
}

/// After the extras of a service, its `extra_hosts` (when it is, or is created as,
/// a list) keeps the entries it had, first, and lists `host.docker.internal:host-gateway`.
pub proof fn lemma_service_extras_lists_host(dm: Seq<YamlEntry>, cfg: ComposeRewriteConfig)
    requires
        is_sequence(entry_value(dm, "extra_hosts"@, empty_sequence())),
    ensures
        ({
            let before = items_of(entry_value(dm, "extra_hosts"@, empty_sequence()));
            match get_str(service_extras(dm, cfg), "extra_hosts"@) {
                Some(h) => is_sequence(h) && seq_has_str(items_of(h), host_gateway_entry())
                    && items_of(h).take(before.len() as int) == before,
                None => false,
            }
        }),
{
    reveal_strlit("extra_hosts");
    reveal_strlit("volumes");
    assert("extra_hosts"@[0] == 'e' && "volumes"@[0] == 'v');
    let ev = entry_value(dm, "extra_hosts"@, empty_sequence());
    let f1 = sequence_fn(add_hosts_fn(cfg));
    let d1 = update_entry_or_insert(dm, "extra_hosts"@, empty_sequence(), f1);
    lemma_entry_or_insert_get(dm, "extra_hosts"@, "volumes"@, empty_sequence(), f1);
    let h = update_sequence(ev, add_hosts_fn(cfg));
    assert(get_str(d1, "extra_hosts"@) == Some(h));
    lemma_items_of_update(ev, add_hosts_fn(cfg));
    lemma_add_hosts_lists_host_gateway(items_of(ev), cfg);
    let paths = string_views(cfg.secret_container_paths@);
    if paths.len() > 0 {
        let f2 = sequence_fn(append_fn(secret_mounts(paths)));
        lemma_entry_or_insert_get(d1, "volumes"@, "extra_hosts"@, empty_sequence(), f2);
    }
}

/// With secret files, every service whose `volumes` is (or is created as) a list
/// gets one read-only mount per secret path appended to it.
pub proof fn lemma_service_extras_mounts_secrets(dm: Seq<YamlEntry>, cfg: ComposeRewriteConfig)
    requires
        cfg.secret_container_paths@.len() > 0,
        is_sequence(entry_value(dm, "volumes"@, empty_sequence())),
    ensures
        match get_str(service_extras(dm, cfg), "volumes"@) {
            Some(v) => is_sequence(v) && items_of(v) == items_of(entry_value(dm, "volumes"@, empty_sequence()))
                + secret_mounts(string_views(cfg.secret_container_paths@)),
            None => false,
        },
{
    reveal_strlit("extra_hosts");
    reveal_strlit("volumes");
    assert("extra_hosts"@[0] == 'e' && "volumes"@[0] == 'v');
    let f1 = sequence_fn(add_hosts_fn(cfg));
    let d1 = update_entry_or_insert(dm, "extra_hosts"@, empty_sequence(), f1);
    lemma_entry_or_insert_get(dm, "extra_hosts"@, "volumes"@, empty_sequence(), f1);
    assert(entry_value(d1, "volumes"@, empty_sequence()) == entry_value(dm, "volumes"@, empty_sequence()));
    let paths = string_views(cfg.secret_container_paths@);
    let f2 = sequence_fn(append_fn(secret_mounts(paths)));
    lemma_entry_or_insert_get(d1, "volumes"@, "extra_hosts"@, empty_sequence(), f2);
    lemma_items_of_update(entry_value(dm, "volumes"@, empty_sequence()), append_fn(secret_mounts(paths)));
}

proof fn lemma_distinct_index(m: Seq<YamlEntry>, name: Seq<char>, j: int)
    requires
        distinct_keys(m),
        0 <= j < m.len(),
        m[j].0 == str_key(name),
    ensures
        str_key_index(m, name) == j,
{
    assert forall|l: int| 0 <= l < j implies (#[trigger] m[l]).0 != str_key(name) by {
        assert(m[l].0 != m[j].0);
    }
    lemma_str_key_index(m, name, j);
}

proof fn lemma_insert_str_get(m: Seq<YamlEntry>, name: Seq<char>, v: YamlView)
    requires
        distinct_keys(m),
    ensures
        distinct_keys(insert_str(m, name, v)),
        get_str(insert_str(m, name, v), name) == Some(v),
{
    let r = insert_str(m, name, v);
    lemma_str_key_index_props(m, name);
    if has_str(m, name) {
        let i = str_key_index(m, name);
        assert forall|a: int, b: int| 0 <= a < b < r.len() implies #[trigger] r[a].0 != #[trigger] r[b].0 by {
            assert(r[a].0 == m[a].0 && r[b].0 == m[b].0);
        }
        lemma_distinct_index(r, name, i);
    } else {
        let n = m.len() as int;
        lemma_has_str_iff(m, name);
        assert forall|a: int, b: int| 0 <= a < b < r.len() implies #[trigger] r[a].0 != #[trigger] r[b].0 by {
            assert(r[a] == m[a]);
            if b < n {
                assert(r[b] == m[b]);
            } else {
                assert(m[a].0 != str_key(name));
            }
        }
        lemma_distinct_index(r, name, n);
    }
}

proof fn lemma_remove_str_other(m: Seq<YamlEntry>, r: Seq<char>, k: Seq<char>)
    requires
        distinct_keys(m),
        k != r,
    ensures
        get_str(remove_str(m, r), k) == get_str(m, k),
{
    let out = remove_str(m, r);
    lemma_remove_str_keys(m, r);
    lemma_has_str_iff(m, k);
    lemma_has_str_iff(out, k);
    if has_str(m, r) {
        let i = str_key_index(m, r);
        lemma_str_key_index_props(m, r);
        let n = m.len() - 1;
        if has_str(m, k) {
            let j = str_key_index(m, k);
            lemma_str_key_index_props(m, k);
            assert(j != i);
            let j2 = if j == n { i } else { j };
            assert(out[j2] == m[j]);
            lemma_distinct_index(out, k, j2);
        } else {
            if has_str(out, k) {
                let q = choose|q: int| 0 <= q < out.len() && #[trigger] out[q].0 == str_key(k);
                let q2 = if q == i { n } else { q };
                assert(out[q] == m[q2]);
            }
        }
    }
}

/// A per-instance image replaces the build: afterwards the service's `image` is the
/// tag and it has no `build` (keys being distinct).
pub proof fn lemma_image_override(dm: Seq<YamlEntry>, tag: Seq<char>)
    requires
        distinct_keys(dm),
    ensures
        get_str(image_override_fn(tag)(dm), "image"@) == Some(YamlView::Str(tag)),
        !has_str(image_override_fn(tag)(dm), "build"@),
{
    reveal_strlit("image");
    reveal_strlit("build");
    assert("image"@[0] == 'i' && "build"@[0] == 'b');
    let m1 = insert_str(dm, "image"@, YamlView::Str(tag));
    lemma_insert_str_get(dm, "image"@, YamlView::Str(tag));
    lemma_remove_str_other(m1, "build"@, "image"@);
    lemma_remove_str_keys(m1, "build"@);
}

/// A `depends_on` list stripped of removed services names none of them, and holds
/// no entry that was not in the original.
pub proof fn lemma_keep_deps_filters(items: Seq<YamlView>, stub: Seq<Seq<char>>)
    ensures
        forall|i: int| 0 <= i < keep_deps(items, stub).len() ==> dep_keep(#[trigger] keep_deps(items, stub)[i], stub),
        keep_deps(items, stub).len() <= items.len(),
        keep_deps(items, stub).to_multiset().subset_of(items.to_multiset()),
    decreases items.len(),
{
    broadcast use vstd::seq_lib::group_seq_properties;
    broadcast use vstd::multiset::group_multiset_properties;
    if items.len() > 0 {
        let pre = items.drop_last();
        lemma_keep_deps_filters(pre, stub);
        let r = keep_deps(pre, stub);
        assert(items =~= pre.push(items.last()));
        if dep_keep(items.last(), stub) {
            let k = r.push(items.last());
            assert forall|i: int| 0 <= i < k.len() implies dep_keep(#[trigger] k[i], stub) by {
                if i < r.len() {
                    assert(k[i] == r[i]);
                }
            }
        }
    }
}

proof fn lemma_with_entry(m: Seq<YamlEntry>, name: Seq<char>, d: YamlView, other: Seq<char>)
    ensures
        has_str(with_entry(m, name, d), name),
        get_str(with_entry(m, name, d), name) == match get_str(m, name) { Some(v) => Some(v), None => Some(d) },
        other != name ==> get_str(with_entry(m, name, d), other) == get_str(m, other),
{
    lemma_str_key_index_props(m, name);
    lemma_str_key_index_props(m, other);
    if !has_str(m, name) {
        let m1 = m.push((str_key(name), d));
        assert forall|j: int| 0 <= j < m.len() implies (#[trigger] m1[j]).0 != str_key(name) by {
            assert(m1[j] == m[j]);
        }
        lemma_str_key_index(m1, name, m.len() as int);
        if other != name {
            let k = str_key_index(m, other);
            assert(str_key(name) != str_key(other));
            assert forall|j: int| 0 <= j < k implies (#[trigger] m1[j]).0 != str_key(other) by {
                assert(m1[j] == m[j]);
            }
            if k < m.len() {
                assert(m1[k] == m[k]);
                lemma_str_key_index(m1, other, k);
            } else {
                lemma_str_key_index(m1, other, m1.len() as int);
            }
        }
    }
}

proof fn lemma_bind_propagation_idempotent(b: YamlView)
    ensures
        bind_propagation(bind_propagation(b)) == bind_propagation(b),
{
    if is_mapping(b) && !has_str(entries_of(b), "propagation"@) {
        lemma_entries_of_update(b, set_propagation_fn());
        let e = entries_of(b);
        lemma_with_entry(e, "propagation"@, YamlView::Str("rslave"@), "propagation"@);
        assert(insert_str(e, "propagation"@, YamlView::Str("rslave"@)) == with_entry(e, "propagation"@, YamlView::Str("rslave"@)));
    }
}

/// Setting `rslave` propagation on a long-form volume twice is the same as once, and
/// a long-form volume whose `type` is not `bind` is left as it is.
pub proof fn lemma_rslave_map_idempotent(m: Seq<YamlEntry>)
    ensures
        rslave_map(rslave_map(m)) == rslave_map(m),
        volume_type(m) != "bind"@ ==> rslave_map(m) == m,
{
    if volume_type(m) == "bind"@ {
        reveal_strlit("type");
        reveal_strlit("bind");
        assert("type"@ != "bind"@) by {
            assert("type"@[0] != "bind"@[0]);
        }
        let f = bind_propagation_fn();
        let m1 = with_entry(m, "bind"@, empty_mapping());
        let m2 = update_str_entry(m1, "bind"@, f);
        lemma_with_entry(m, "bind"@, empty_mapping(), "type"@);
        lemma_get_after_update(m1, "bind"@, "type"@, f);
        assert(volume_type(m2) == volume_type(m));
        lemma_update_str_entry_keys(m1, "bind"@, f);
        lemma_same_keys_index(m2, m1, "bind"@);
        assert(with_entry(m2, "bind"@, empty_mapping()) == m2);
        let i = str_key_index(m1, "bind"@);
        lemma_str_key_index_props(m1, "bind"@);
        lemma_bind_propagation_idempotent(m1[i].1);
        assert(m2[i] == (m1[i].0, bind_propagation(m1[i].1)));
        assert(update_str_entry(m2, "bind"@, f) =~= m2);
    }
}

/// Setting `rslave` propagation on any volume entry twice is the same as once; an
/// entry that is not a bind mount (a short form without a `.`/`/` source, a long form
/// whose `type` is not `bind`, or any other node) is left as it is.
pub proof fn lemma_rslave_node_idempotent(v: YamlView)
    ensures
        rslave_node(rslave_node(v)) == rslave_node(v),
        (v matches YamlView::Str(s) && !crate::shared_services::is_path_source(crate::shared_services::volume_source(s)))
            ==> rslave_node(v) == v,
        (v matches YamlView::Mapping(m) && volume_type(m) != "bind"@) ==> rslave_node(v) == v,
        !(v is Str) && !(v is Mapping) ==> rslave_node(v) == v,
{
    match v {
        YamlView::Str(s) => lemma_rslave_str_idempotent(s),
        YamlView::Mapping(m) => lemma_rslave_map_idempotent(m),
        _ => {},
    }
}

/// None of `names` is a key of the document's services mapping.
pub open spec fn services_absent(root: YamlView, names: Seq<Seq<char>>) -> bool {
    match node_get(root, "services"@) {
        Some(sv) => is_mapping(sv) ==> forall|n: Seq<char>| names.contains(n) ==> !#[trigger] has_str(entries_of(sv), n),
        None => true,
    }
}

/// A change of the root entries that leaves the `services` entry alone keeps the
/// services mapping.
proof fn lemma_root_change_keeps_services(root: YamlView, g: spec_fn(Seq<YamlEntry>) -> Seq<YamlEntry>)
    requires
        is_mapping(root) ==> get_str(g(entries_of(root)), "services"@) == get_str(entries_of(root), "services"@),
    ensures
        node_get(update_mapping(root, g), "services"@) == node_get(root, "services"@),
{
    lemma_update_mapping_kind(root, g);
    if is_mapping(root) {
        lemma_entries_of_update(root, g);
    }
}

/// Changing the services mapping's entries without changing their keys keeps the
/// services that are absent absent.
proof fn lemma_services_change_keeps_absent(
    root: YamlView,
    h: spec_fn(Seq<YamlEntry>) -> Seq<YamlEntry>,
    names: Seq<Seq<char>>,
)
    requires
        services_absent(root, names),
        match node_get(root, "services"@) {
            Some(sv) => is_mapping(sv) ==> same_keys(h(entries_of(sv)), entries_of(sv)),
            None => true,
        },
    ensures
        services_absent(update_mapping(root, at_str_fn("services"@, mapping_fn(h))), names),
{
    let g = at_str_fn("services"@, mapping_fn(h));
    lemma_update_mapping_kind(root, g);
    if is_mapping(root) {
        lemma_entries_of_update(root, g);
        let e = entries_of(root);
        lemma_get_after_update(e, "services"@, "services"@, mapping_fn(h));
        match get_str(e, "services"@) {
            Some(sv) => {
                let sv2 = update_mapping(sv, h);
                assert(node_get(update_mapping(root, g), "services"@) == Some(sv2));
                lemma_update_mapping_kind(sv, h);
                if is_mapping(sv) {
                    lemma_entries_of_update(sv, h);
                    assert forall|n: Seq<char>| names.contains(n) implies !#[trigger] has_str(entries_of(sv2), n) by {
                        lemma_same_keys_index(h(entries_of(sv)), entries_of(sv), n);
                    }
                }
            },
            None => {},
        }
    }
}

proof fn lemma_same_keys_trans(a: Seq<YamlEntry>, b: Seq<YamlEntry>, c: Seq<YamlEntry>)
    requires
        same_keys(a, b),
        same_keys(b, c),
    ensures
        same_keys(a, c),
{
}

proof fn lemma_extras_fold_keys(sm: Seq<YamlEntry>, names: Seq<Seq<char>>, cfg: ComposeRewriteConfig)
    ensures
        same_keys(extras_fold(sm, names, cfg).0, sm),
    decreases names.len(),
{
    if names.len() > 0 {
        lemma_extras_fold_keys(sm, names.drop_last(), cfg);
        let m = extras_fold(sm, names.drop_last(), cfg).0;
        lemma_update_str_entry_keys(m, names.last(), mapping_fn(service_extras_fn(cfg)));
        lemma_same_keys_trans(update_str_entry(m, names.last(), mapping_fn(service_extras_fn(cfg))), m, sm);
    }
}

proof fn lemma_rslave_fold_keys(sm: Seq<YamlEntry>, names: Seq<Seq<char>>, cfg: ComposeRewriteConfig)
    ensures
        same_keys(rslave_fold(sm, names, cfg).0, sm),
    decreases names.len(),
{
    if names.len() > 0 {
        lemma_rslave_fold_keys(sm, names.drop_last(), cfg);
        let m = rslave_fold(sm, names.drop_last(), cfg).0;
        lemma_update_str_entry_keys(m, names.last(), mapping_fn(rslave_def_fn()));
        lemma_same_keys_trans(update_str_entry(m, names.last(), mapping_fn(rslave_def_fn())), m, sm);
    }
}

proof fn lemma_image_tags_keep_absent(root: YamlView, tags: Seq<(Seq<char>, Seq<char>)>, names: Seq<Seq<char>>)
    requires
        services_absent(root, names),
    ensures
        services_absent(step_image_tags(root, tags).0, names),
    decreases tags.len(),
{
    if tags.len() > 0 {
        lemma_image_tags_keep_absent(root, tags.drop_last(), names);
        let prev = step_image_tags(root, tags.drop_last()).0;
        let h = at_str_fn(tags.last().0, mapping_fn(image_override_fn(tags.last().1)));
        match node_get(prev, "services"@) {
            Some(sv) => {
                lemma_update_str_entry_keys(entries_of(sv), tags.last().0, mapping_fn(image_override_fn(tags.last().1)));
            },
            None => {},
        }
        lemma_services_change_keeps_absent(prev, h, names);
    }
}

proof fn lemma_fold_services_keeps_absent(
    root: YamlView,
    g: spec_fn(Seq<YamlEntry>) -> (Seq<YamlEntry>, bool),
    names: Seq<Seq<char>>,
)
    requires
        services_absent(root, names),
        match node_get(root, "services"@) {
            Some(sv) => is_mapping(sv) ==> same_keys(g(entries_of(sv)).0, entries_of(sv)),
            None => true,
        },
    ensures
        services_absent(fold_services(root, g).0, names),
{
    match node_get(root, "services"@) {
        Some(sv) => if is_mapping(sv) {
            let r = g(entries_of(sv));
            lemma_services_change_keeps_absent(root, replace_fn(r.0), names);
        },
        None => {},
    }
}

/// The services removed because they are shared (or omitted) are absent from the
/// final rewritten document too: no later step adds a service (keys distinct, as in
/// any parsed document).
pub proof fn lemma_removed_services_absent_after_rewrite(input: YamlView, cfg: ComposeRewriteConfig)
    requires
        match node_get(input, "services"@) {
            Some(sv) => distinct_keys(entries_of(sv)),
            None => true,
        },
    ensures
        match rewrite_compose_spec(input, cfg) {
            Some(out) => services_absent(out, stub_names(cfg)),
            None => true,
        },
{
    reveal_strlit("services");
    reveal_strlit("volumes");
    assert("services"@[0] == 's' && "volumes"@[0] == 'v');
    assert("services"@ != "volumes"@);
    let names = stub_names(cfg);
    lemma_removed_services_gone(input, input, cfg);
    let s1 = step_remove_services(input, input, cfg).0;
    assert(services_absent(s1, names));
    // Step 2: only the top-level `volumes` entry changes.
    let s2 = step_omit_volumes(s1, cfg).0;
    match cfg.coastfile {
        Some(cf) => {
            let ov = string_views(cf.omit_volumes@);
            if ov.len() > 0 {
                let g = at_str_fn("volumes"@, mapping_fn(remove_all_fn(ov)));
                if is_mapping(s1) {
                    lemma_get_after_update(entries_of(s1), "volumes"@, "services"@, mapping_fn(remove_all_fn(ov)));
                }
                lemma_root_change_keeps_services(s1, g);
            }
        },
        None => {},
    }
    assert(services_absent(s2, names));
    // Step 3: image overrides change service definitions, not the service keys.
    lemma_image_tags_keep_absent(s2, image_tags_view(cfg), names);
    let s3 = step_image_tags(s2, image_tags_view(cfg)).0;
    // Step 4: only the top-level `volumes` entry changes.
    let s4 = step_coast_volumes(s3, cfg).0;
    match cfg.coastfile {
        Some(cf) => if cfg.has_volume_mounts {
            let g = coast_volumes_fn(string_views(cf.volume_names@));
            if is_mapping(s3) {
                let e = entries_of(s3);
                let f = mapping_fn(insert_volumes_fn(string_views(cf.volume_names@)));
                lemma_with_entry(e, "volumes"@, empty_mapping(), "services"@);
                lemma_get_after_update(with_entry(e, "volumes"@, empty_mapping()), "volumes"@, "services"@, f);
            }
            lemma_root_change_keeps_services(s3, g);
        },
        None => {},
    }
    assert(services_absent(s4, names));
    // Step 5: extras change service definitions, not the service keys.
    match node_get(s4, "services"@) {
        Some(sv) => { lemma_extras_fold_keys(entries_of(sv), string_keys(entries_of(sv)), cfg); },
        None => {},
    }
    lemma_fold_services_keeps_absent(s4, extras_all_fn(cfg), names);
    let s5 = step_extras(s4, cfg).0;
    // Step 6: rslave changes volume entries of services, not the service keys.
    if !(!cfg.default_hot && cfg.hot_services@.len() == 0) {
        match node_get(s5, "services"@) {
            Some(sv) => { lemma_rslave_fold_keys(entries_of(sv), string_keys(entries_of(sv)), cfg); },
            None => {},
        }
        lemma_fold_services_keeps_absent(s5, rslave_all_fn(cfg), names);
    }
}

} // verus!
