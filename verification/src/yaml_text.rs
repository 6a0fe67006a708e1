//! Compose files as text: parsing with `serde_yaml` into the document model of
//! [`crate::compose`], the rewrite of a compose text, and the service names of a
//! compose text.

use vstd::prelude::*;
use vstd::string::*;
use crate::compose::{
    YamlValue, YamlView, ComposeRewriteConfig, rewrite_compose_spec, rewrite_compose_value, is_mapping, node_get,
    entries_of, string_keys, view_seq, view_entries, untag_ref, node_get_ref, string_keys_exec,
};
use crate::text::string_views;

verus! {

#[verifier::external_type_specification]
#[verifier::external_body]
pub struct ExYamlNode(serde_yaml::Value);

/// The document a `serde_yaml::Value` holds.
pub uninterp spec fn serde_yaml_node(v: serde_yaml::Value) -> YamlView;

/// The document `serde_yaml::from_str` parses a text into, or `None` when the text is
/// not YAML.
pub uninterp spec fn yaml_parse(text: Seq<char>) -> Option<YamlView>;

/// The parts of a `serde_yaml::Value`: its scalar, or its children.
pub enum YamlParts {
    Null,
    Bool(bool),
    Number(String),
    Str(String),
    Sequence(Vec<serde_yaml::Value>),
    Mapping(Vec<(serde_yaml::Value, serde_yaml::Value)>),
    Tagged(String, serde_yaml::Value),
}

/// The document of a value's parts, its children taken by the document they hold.
pub open spec fn parts_node(p: YamlParts) -> YamlView {
    match p {
        YamlParts::Null => YamlView::Null,
        YamlParts::Bool(b) => YamlView::Bool(b),
        YamlParts::Number(n) => YamlView::Number(n@),
        YamlParts::Str(s) => YamlView::Str(s@),
        YamlParts::Sequence(items) => YamlView::Sequence(items@.map_values(|v: serde_yaml::Value| serde_yaml_node(v))),
        YamlParts::Mapping(es) => YamlView::Mapping(
            es@.map_values(|e: (serde_yaml::Value, serde_yaml::Value)| (serde_yaml_node(e.0), serde_yaml_node(e.1))),
        ),
        YamlParts::Tagged(t, v) => YamlView::Tagged(t@, Box::new(serde_yaml_node(v))),
    }
}

/// Parses a text with `serde_yaml::from_str` into a `serde_yaml::Value`; the contract
/// names the parse `yaml_parse` and leaves the YAML grammar unstated.
#[verifier::external_body]
fn yaml_from_str(text: &str) -> (r: Option<serde_yaml::Value>)
    ensures
        match r {
            Some(v) => yaml_parse(text@) == Some(serde_yaml_node(v)),
            None => yaml_parse(text@) is None,
        },
{
    serde_yaml::from_str::<serde_yaml::Value>(text).ok()
}

/// Takes a `serde_yaml::Value` apart into its variant's fields (a number as the text
/// `Number`'s `Display` prints, a mapping's entries in order, a tag as `Tag`'s
/// `Display` prints it); the contract says the parts hold the value's document.
#[verifier::external_body]
fn yaml_parts(v: serde_yaml::Value) -> (p: YamlParts)
    ensures
        parts_node(p) == serde_yaml_node(v),
{
    match v {
        serde_yaml::Value::Null => YamlParts::Null,
        serde_yaml::Value::Bool(b) => YamlParts::Bool(b),
        serde_yaml::Value::Number(n) => YamlParts::Number(n.to_string()),
        serde_yaml::Value::String(s) => YamlParts::Str(s),
        serde_yaml::Value::Sequence(items) => YamlParts::Sequence(items),
        serde_yaml::Value::Mapping(m) => YamlParts::Mapping(m.into_iter().collect()),
        serde_yaml::Value::Tagged(t) => YamlParts::Tagged(t.tag.to_string(), t.value),
    }
}

/// The document model of a `serde_yaml::Value`.
fn from_serde(v: serde_yaml::Value) -> (r: YamlValue)
    ensures
        r@ == serde_yaml_node(v),
    decreases serde_yaml_node(v),
{
    let ghost node = serde_yaml_node(v);
    let p = yaml_parts(v);
    match p {
        YamlParts::Null => YamlValue::Null,
        YamlParts::Bool(b) => YamlValue::Bool(b),
        YamlParts::Number(n) => YamlValue::Number(n),
        YamlParts::Str(s) => YamlValue::Str(s),
        YamlParts::Sequence(items) => {
            let ghost orig = items@;
            let ghost kids = orig.map_values(|c: serde_yaml::Value| serde_yaml_node(c));
            let mut rest = items;
            assert(orig.len() == rest.len());
            let mut out: Vec<YamlValue> = Vec::new();
            let mut k: usize = 0;
            while rest.len() > 0
                invariant
                    node == serde_yaml_node(v),
                    node == YamlView::Sequence(kids),
                    kids == orig.map_values(|c: serde_yaml::Value| serde_yaml_node(c)),
                    k <= orig.len(),
                    orig.len() <= usize::MAX,
                    rest@ == orig.skip(k as int),
                    view_seq(out@) == kids.take(k as int),
                decreases rest@.len(),
            {
                let c = rest.remove(0);
                proof {
                    assert(c == orig[k as int]);
                    assert(kids[k as int] == serde_yaml_node(c));
                    assert(node->Sequence_0 == kids);
                    assert(decreases_to!(node => node->Sequence_0));
                    assert(decreases_to!(kids => kids[k as int]));
                    assert(decreases_to!(node => serde_yaml_node(c)));
                }
                let x = from_serde(c);
                let ghost before = view_seq(out@);
                out.push(x);
                proof {
                    assert(view_seq(out@) =~= before.push(x@));
                    assert(kids.take(k + 1) =~= kids.take(k as int).push(kids[k as int]));
                    assert(rest@ =~= orig.skip(k + 1));
                }
                k = k + 1;
            }
            proof {
                assert(orig.skip(k as int).len() == 0);
                assert(kids.take(k as int) =~= kids);
            }
            YamlValue::Sequence(out)
        },
        YamlParts::Mapping(es) => {
            let ghost orig = es@;
            let ghost kids = orig.map_values(
                |e: (serde_yaml::Value, serde_yaml::Value)| (serde_yaml_node(e.0), serde_yaml_node(e.1)),
            );
            let mut rest = es;
            assert(orig.len() == rest.len());
            let mut out: Vec<(YamlValue, YamlValue)> = Vec::new();
            let mut k: usize = 0;
            while rest.len() > 0
                invariant
                    node == serde_yaml_node(v),
                    node == YamlView::Mapping(kids),
                    kids == orig.map_values(
                        |e: (serde_yaml::Value, serde_yaml::Value)| (serde_yaml_node(e.0), serde_yaml_node(e.1)),
                    ),
                    k <= orig.len(),
                    orig.len() <= usize::MAX,
                    rest@ == orig.skip(k as int),
                    view_entries(out@) == kids.take(k as int),
                decreases rest@.len(),
            {
                let (a, b) = rest.remove(0);
                proof {
                    assert((a, b) == orig[k as int]);
                    assert(kids[k as int] == (serde_yaml_node(a), serde_yaml_node(b)));
                    assert(node->Mapping_0 == kids);
                    assert(decreases_to!(node => node->Mapping_0));
                    assert(decreases_to!(kids => kids[k as int]));
                    assert(decreases_to!(kids[k as int] => kids[k as int].0));
                    assert(decreases_to!(kids[k as int] => kids[k as int].1));
                    assert(decreases_to!(node => serde_yaml_node(a)));
                    assert(decreases_to!(node => serde_yaml_node(b)));
                }
                let xa = from_serde(a);
                let xb = from_serde(b);
                let ghost before = view_entries(out@);
                out.push((xa, xb));
                proof {
                    assert(view_entries(out@) =~= before.push((xa@, xb@)));
                    assert(kids.take(k + 1) =~= kids.take(k as int).push(kids[k as int]));
                    assert(rest@ =~= orig.skip(k + 1));
                }
                k = k + 1;
            }
            proof {
                assert(orig.skip(k as int).len() == 0);
                assert(kids.take(k as int) =~= kids);
            }
            YamlValue::Mapping(out)
        },
        YamlParts::Tagged(t, c) => {
            proof {
                assert(node->Tagged_1 == Box::new(serde_yaml_node(c)));
                assert(decreases_to!(node => node->Tagged_1));
                assert(decreases_to!(node => serde_yaml_node(c)));
            }
            let x = from_serde(c);
            YamlValue::Tagged(t, Box::new(x))
        },
    }
}

/// Parses a compose text into the document model.
pub fn parse_compose(text: &str) -> (r: Option<YamlValue>)
    ensures
        match r {
            Some(d) => yaml_parse(text@) == Some(d@),
            None => yaml_parse(text@) is None,
        },
{
    match yaml_from_str(text) {
        Some(v) => Some(from_serde(v)),
        None => None,
    }
}

/// The outcome of rewriting a compose text for an instance.
pub enum ComposeTextRewrite {
    /// The text is not YAML.
    Invalid,
    /// Coast volumes are to be declared but the document is not a mapping (the
    /// daemon stops on such a compose file).
    RootNotMapping,
    /// Nothing needs changing.
    Unchanged,
    /// The rewritten document, to be written out as YAML.
    Rewritten(YamlValue),
}

/// Parses a compose text and applies the per-instance rewrite of
/// [`rewrite_compose_value`].
pub fn rewrite_compose_text(text: &str, cfg: &ComposeRewriteConfig) -> (r: ComposeTextRewrite)
    ensures
        match yaml_parse(text@) {
            None => r is Invalid,
            Some(d) => if cfg.has_volume_mounts && cfg.coastfile is Some && !is_mapping(d) {
                r is RootNotMapping
            } else {
                match rewrite_compose_spec(d, *cfg) {
                    None => r is Unchanged,
                    Some(o) => r matches ComposeTextRewrite::Rewritten(out) && out@ == o,
                }
            },
        },
{
    let doc = match parse_compose(text) {
        Some(d) => d,
        None => return ComposeTextRewrite::Invalid,
    };
    let root_is_mapping = match untag_ref(&doc) {
        YamlValue::Mapping(_) => true,
        _ => false,
    };
    if cfg.has_volume_mounts && cfg.coastfile.is_some() && !root_is_mapping {
        return ComposeTextRewrite::RootNotMapping;
    }
    match rewrite_compose_value(doc, cfg) {
        Some(out) => ComposeTextRewrite::Rewritten(out),
        None => ComposeTextRewrite::Unchanged,
    }
}

/// The string keys of the `services` mapping of a parsed compose document, in order
/// (empty without such a mapping).
pub open spec fn service_keys_spec(d: YamlView) -> Seq<Seq<char>> {
    match node_get(d, "services"@) {
        Some(sv) => string_keys(entries_of(sv)),
        None => Seq::empty(),
    }
}

/// The service names of a compose text (the string keys of its `services` mapping),
/// or `None` when the text is not YAML.
pub fn compose_service_keys(text: &str) -> (r: Option<Vec<String>>)
    ensures
        match yaml_parse(text@) {
            None => r is None,
            Some(d) => r matches Some(ks) && string_views(ks@) == service_keys_spec(d),
        },
{
    let doc = match parse_compose(text) {
        Some(d) => d,
        None => return None,
    };
    match node_get_ref(&doc, "services") {
        Some(sv) => match untag_ref(sv) {
            YamlValue::Mapping(m) => Some(string_keys_exec(m)),
            _ => {
                let empty: Vec<String> = Vec::new();
                assert(string_views(empty@) =~= Seq::<Seq<char>>::empty());
                Some(empty)
            },
        },
        None => {
            let empty: Vec<String> = Vec::new();
            assert(string_views(empty@) =~= Seq::<Seq<char>>::empty());
            Some(empty)
        },
    }
}

/// The services of an archive build that get secret mounts in its compose override:
/// with secret files, the service names of the compose text (none when there is no
/// text or it is not YAML); without secret files, none.
pub fn secret_mount_service_keys(compose_text: Option<&str>, has_secret_paths: bool) -> (ks: Vec<String>)
    ensures
        string_views(ks@) == (if has_secret_paths {
            match compose_text {
                Some(t) => match yaml_parse(t@) {
                    Some(d) => service_keys_spec(d),
                    None => Seq::<Seq<char>>::empty(),
                },
                None => Seq::<Seq<char>>::empty(),
            }
        } else {
            Seq::<Seq<char>>::empty()
        }),
{
    let empty: Vec<String> = Vec::new();
    assert(string_views(empty@) =~= Seq::<Seq<char>>::empty());
    if !has_secret_paths {
        return empty;
    }
    match compose_text {
        Some(t) => match compose_service_keys(t) {
            Some(ks) => ks,
            None => empty,
        },
        None => empty,
    }
}

/// The text of the number `n` parses to with `serde_yaml::Number`'s `FromStr`, as
/// its `Display` prints it; `None` when `n` is not a number.
pub uninterp spec fn yaml_number_text(n: Seq<char>) -> Option<Seq<char>>;

/// The entries of the `serde_yaml::Mapping` collected from entries holding these
/// documents: a key equal to an earlier one (as `serde_yaml::Value`s compare)
/// replaces that entry's value in place.
pub uninterp spec fn yaml_mapping_merge(entries: Seq<(YamlView, YamlView)>) -> Seq<(YamlView, YamlView)>;

/// The text `serde_yaml::to_string` prints for a value holding this document, or
/// `None` when it fails.
pub uninterp spec fn yaml_emit(doc: YamlView) -> Option<Seq<char>>;

/// A tag as `serde_yaml::value::Tag` displays it: one leading `!` is added unless the
/// tag already starts with `!` followed by something.
pub open spec fn tag_display(t: Seq<char>) -> Seq<char> {
    if t.len() > 1 && t[0] == '!' { t } else { "!"@ + t }
}

/// The document of the `serde_yaml::Value` built from a document: numbers as
/// `serde_yaml` reads them back (or as strings when they are no numbers), tags as
/// `Tag` displays them (an empty tag is dropped, `serde_yaml` has no syntax for it),
/// mappings as `serde_yaml::Mapping` collects them.
pub open spec fn serde_form(d: YamlView) -> YamlView
    decreases d,
{
    match d {
        YamlView::Null => YamlView::Null,
        YamlView::Bool(b) => YamlView::Bool(b),
        YamlView::Number(n) => match yaml_number_text(n) {
            Some(t) => YamlView::Number(t),
            None => YamlView::Str(n),
        },
        YamlView::Str(x) => YamlView::Str(x),
        YamlView::Sequence(items) => YamlView::Sequence(
            Seq::new(items.len(), |i: int| if 0 <= i < items.len() { serde_form(items[i]) } else { YamlView::Null }),
        ),
        YamlView::Mapping(es) => YamlView::Mapping(yaml_mapping_merge(serde_form_entries(es))),
        YamlView::Tagged(t, b) => if t.len() > 0 {
            YamlView::Tagged(tag_display(t), Box::new(serde_form(*b)))
        } else {
            serde_form(*b)
        },
    }
}

/// The entries of a mapping with `serde_form` applied to each key and value.
pub open spec fn serde_form_entries(es: Seq<(YamlView, YamlView)>) -> Seq<(YamlView, YamlView)>
    decreases es,
{
    Seq::new(es.len(), |i: int| if 0 <= i < es.len() {
        (serde_form(es[i].0), serde_form(es[i].1))
    } else {
        (YamlView::Null, YamlView::Null)
    })
}

/// `serde_yaml::Value::Null`.
#[verifier::external_body]
fn yaml_null() -> (r: serde_yaml::Value)
    ensures
        serde_yaml_node(r) == YamlView::Null,
{
    serde_yaml::Value::Null
}

/// `serde_yaml::Value::Bool`.
#[verifier::external_body]
fn yaml_bool(b: bool) -> (r: serde_yaml::Value)
    ensures
        serde_yaml_node(r) == YamlView::Bool(b),
{
    serde_yaml::Value::Bool(b)
}

/// `serde_yaml::Value::String`.
#[verifier::external_body]
fn yaml_string(s: String) -> (r: serde_yaml::Value)
    ensures
        serde_yaml_node(r) == YamlView::Str(s@),
{
    serde_yaml::Value::String(s)
}

/// The number `n` parses to with `serde_yaml::Number`'s `FromStr`, or the string `n`
/// when it does not parse.
#[verifier::external_body]
fn yaml_number(n: String) -> (r: serde_yaml::Value)
    ensures
        serde_yaml_node(r) == match yaml_number_text(n@) {
            Some(t) => YamlView::Number(t),
            None => YamlView::Str(n@),
        },
{
    match n.parse::<serde_yaml::Number>() {
        Ok(x) => serde_yaml::Value::Number(x),
        Err(_) => serde_yaml::Value::String(n),
    }
}

/// `serde_yaml::Value::Sequence` of the items.
#[verifier::external_body]
fn yaml_sequence(items: Vec<serde_yaml::Value>) -> (r: serde_yaml::Value)
    ensures
        serde_yaml_node(r) == YamlView::Sequence(items@.map_values(|v: serde_yaml::Value| serde_yaml_node(v))),
{
    serde_yaml::Value::Sequence(items)
}

/// `serde_yaml::Value::Mapping` collected from the entries (`Mapping::from_iter`).
#[verifier::external_body]
fn yaml_mapping(entries: Vec<(serde_yaml::Value, serde_yaml::Value)>) -> (r: serde_yaml::Value)
    ensures
        serde_yaml_node(r) == YamlView::Mapping(yaml_mapping_merge(entries@.map_values(
            |e: (serde_yaml::Value, serde_yaml::Value)| (serde_yaml_node(e.0), serde_yaml_node(e.1)),
        ))),
{
    serde_yaml::Value::Mapping(entries.into_iter().collect())
}

/// `serde_yaml::Value::Tagged` with `Tag::new(tag)` (which refuses an empty tag).
#[verifier::external_body]
fn yaml_tagged(tag: String, v: serde_yaml::Value) -> (r: serde_yaml::Value)
    requires
        tag@.len() > 0,
    ensures
        serde_yaml_node(r) == YamlView::Tagged(tag_display(tag@), Box::new(serde_yaml_node(v))),
{
    serde_yaml::Value::Tagged(Box::new(serde_yaml::value::TaggedValue { tag: serde_yaml::value::Tag::new(tag), value: v }))
}

/// `serde_yaml::to_string` of a value; the contract names the printed text
/// `yaml_emit` and leaves the YAML printer unstated.
#[verifier::external_body]
fn yaml_value_to_string(v: &serde_yaml::Value) -> (r: Option<String>)
    ensures
        match r {
            Some(s) => yaml_emit(serde_yaml_node(*v)) == Some(s@),
            None => yaml_emit(serde_yaml_node(*v)) is None,
        },
{
    serde_yaml::to_string(v).ok()
}

/// The `serde_yaml::Value` of a document.
fn to_serde(d: YamlValue) -> (r: serde_yaml::Value)
    ensures
        serde_yaml_node(r) == serde_form(d@),
    decreases d@,
{
    let ghost node = d@;
    match d {
        YamlValue::Null => {
            assert(node == YamlView::Null);
            yaml_null()
        },
        YamlValue::Bool(b) => {
            assert(node == YamlView::Bool(b));
            yaml_bool(b)
        },
        YamlValue::Number(n) => {
            assert(node == YamlView::Number(n@));
            yaml_number(n)
        },
        YamlValue::Str(x) => {
            assert(node == YamlView::Str(x@));
            yaml_string(x)
        },
        YamlValue::Sequence(items) => {
            let ghost orig = items@;
            let ghost kids = view_seq(orig);
            let ghost target = Seq::new(kids.len(), |i: int| if 0 <= i < kids.len() { serde_form(kids[i]) } else { YamlView::Null });
            assert(node == YamlView::Sequence(kids));
            let mut rest = items;
            assert(orig.len() == rest.len());
            let mut out: Vec<serde_yaml::Value> = Vec::new();
            let mut k: usize = 0;
            while rest.len() > 0
                invariant
                    node == d@,
                    node == YamlView::Sequence(kids),
                    kids == view_seq(orig),
                    target == Seq::new(kids.len(), |i: int| if 0 <= i < kids.len() { serde_form(kids[i]) } else { YamlView::Null }),
                    k <= orig.len(),
                    orig.len() <= usize::MAX,
                    rest@ == orig.skip(k as int),
                    out@.map_values(|v: serde_yaml::Value| serde_yaml_node(v)) == target.take(k as int),
                decreases rest@.len(),
            {
                let c = rest.remove(0);
                proof {
                    assert(c == orig[k as int]);
                    assert(kids[k as int] == c@);
                    assert(node->Sequence_0 == kids);
                    assert(decreases_to!(node => node->Sequence_0));
                    assert(decreases_to!(kids => kids[k as int]));
                    assert(decreases_to!(node => c@));
                }
                let x = to_serde(c);
                let ghost before = out@.map_values(|v: serde_yaml::Value| serde_yaml_node(v));
                out.push(x);
                proof {
                    assert(out@.map_values(|v: serde_yaml::Value| serde_yaml_node(v)) =~= before.push(serde_yaml_node(x)));
                    assert(target.take(k + 1) =~= target.take(k as int).push(target[k as int]));
                    assert(rest@ =~= orig.skip(k + 1));
                }
                k = k + 1;
            }
            proof {
                assert(orig.skip(k as int).len() == 0);
                assert(target.take(k as int) =~= target);
                assert(serde_form(node)->Sequence_0 =~= target);
            }
            yaml_sequence(out)
        },
        YamlValue::Mapping(es) => {
            let ghost orig = es@;
            let ghost kids = view_entries(orig);
            let ghost target = Seq::new(kids.len(), |i: int| if 0 <= i < kids.len() {
                (serde_form(kids[i].0), serde_form(kids[i].1))
            } else {
                (YamlView::Null, YamlView::Null)
            });
            assert(node == YamlView::Mapping(kids));
            let mut rest = es;
            assert(orig.len() == rest.len());
            let mut out: Vec<(serde_yaml::Value, serde_yaml::Value)> = Vec::new();
            let mut k: usize = 0;
            while rest.len() > 0
                invariant
                    node == d@,
                    node == YamlView::Mapping(kids),
                    kids == view_entries(orig),
                    target == Seq::new(kids.len(), |i: int| if 0 <= i < kids.len() {
                        (serde_form(kids[i].0), serde_form(kids[i].1))
                    } else {
                        (YamlView::Null, YamlView::Null)
                    }),
                    k <= orig.len(),
                    orig.len() <= usize::MAX,
                    rest@ == orig.skip(k as int),
                    out@.map_values(|e: (serde_yaml::Value, serde_yaml::Value)| (serde_yaml_node(e.0), serde_yaml_node(e.1)))
                        == target.take(k as int),
                decreases rest@.len(),
            {
                let (a, b) = rest.remove(0);
                proof {
                    assert((a, b) == orig[k as int]);
                    assert(kids[k as int] == (a@, b@));
                    assert(node->Mapping_0 == kids);
                    assert(decreases_to!(node => node->Mapping_0));
                    assert(decreases_to!(kids => kids[k as int]));
                    assert(decreases_to!(kids[k as int] => kids[k as int].0));
                    assert(decreases_to!(kids[k as int] => kids[k as int].1));
                    assert(decreases_to!(node => a@));
                    assert(decreases_to!(node => b@));
                }
                let xa = to_serde(a);
                let xb = to_serde(b);
                let ghost before = out@.map_values(
                    |e: (serde_yaml::Value, serde_yaml::Value)| (serde_yaml_node(e.0), serde_yaml_node(e.1)));
                out.push((xa, xb));
                proof {
                    assert(out@.map_values(|e: (serde_yaml::Value, serde_yaml::Value)| (serde_yaml_node(e.0), serde_yaml_node(e.1)))
                        =~= before.push((serde_yaml_node(xa), serde_yaml_node(xb))));
                    assert(target.take(k + 1) =~= target.take(k as int).push(target[k as int]));
                    assert(rest@ =~= orig.skip(k + 1));
                }
                k = k + 1;
            }
            proof {
                assert(orig.skip(k as int).len() == 0);
                assert(target.take(k as int) =~= target);
                assert(serde_form_entries(kids) =~= target);
            }
            yaml_mapping(out)
        },
        YamlValue::Tagged(t, b) => {
            proof {
                assert(node->Tagged_1 == Box::new((*b)@));
                assert(decreases_to!(node => node->Tagged_1));
                assert(decreases_to!(node => (*b)@));
            }
            let inner = to_serde(*b);
            if t.unicode_len() > 0 {
                yaml_tagged(t, inner)
            } else {
                inner
            }
        },
    }
}

/// A compose file's root is not a mapping although coast volumes are to be declared
/// in it.
#[derive(Debug)]
pub struct RootNotMapping;

/// The compose text of an instance: the text parsed, rewritten for the instance and
/// written out as YAML. `Ok(None)` when the text is not YAML, when nothing needs
/// changing, or when the rewritten document cannot be written.
pub fn rewrite_compose_yaml(compose_content: &str, cfg: &ComposeRewriteConfig)
    -> (r: Result<Option<String>, RootNotMapping>)
    ensures
        match yaml_parse(compose_content@) {
            None => r matches Ok(None),
            Some(d) => if cfg.has_volume_mounts && cfg.coastfile is Some && !is_mapping(d) {
                r is Err
            } else {
                match rewrite_compose_spec(d, *cfg) {
                    None => r matches Ok(None),
                    Some(o) => match yaml_emit(serde_form(o)) {
                        None => r matches Ok(None),
                        Some(t) => r matches Ok(Some(s)) && s@ == t,
                    },
                }
            },
        },
{
    match rewrite_compose_text(compose_content, cfg) {
        ComposeTextRewrite::Invalid => Ok(None),
        ComposeTextRewrite::Unchanged => Ok(None),
        ComposeTextRewrite::RootNotMapping => Err(RootNotMapping),
        ComposeTextRewrite::Rewritten(out) => {
            let v = to_serde(out);
            Ok(yaml_value_to_string(&v))
        },
    }
}

} // verus!
