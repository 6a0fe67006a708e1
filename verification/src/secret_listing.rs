//! What `coast secret` answers: the listing of an instance's secrets, which merges
//! the project's stored secrets (only those its Coastfile declares) with the
//! instance's own overrides, and the reply to setting an override.

use vstd::prelude::*;
use vstd::string::*;
use crate::text::{string_views, concat3, str_eq, names_contain};

verus! {

/// A secret as the keystore returns it.
pub struct StoredSecret {
    pub secret_name: String,
    pub extractor: String,
    pub inject_type: String,
    pub inject_target: String,
}

/// One row of a secret listing.
pub struct SecretInfo {
    pub name: String,
    pub extractor: String,
    pub inject: String,
    pub is_override: bool,
}

/// A listing row as plain values: name, extractor, injection, override flag.
pub type InfoView = (Seq<char>, Seq<char>, Seq<char>, bool);

/// The plain values of a row.
pub open spec fn info_view(i: SecretInfo) -> InfoView {
    (i.name@, i.extractor@, i.inject@, i.is_override)
}

/// The plain values of a listing.
pub open spec fn info_views(v: Seq<SecretInfo>) -> Seq<InfoView> {
    v.map_values(|i: SecretInfo| info_view(i))
}

/// The row that lists a stored secret: its injection reads `{type}:{target}`.
pub open spec fn stored_info(s: StoredSecret, is_override: bool) -> InfoView {
    (s.secret_name@, s.extractor@, s.inject_type@ + ":"@ + s.inject_target@, is_override)
}

/// Whether a stored secret of the project may be listed: when the Coastfile's
/// declared names are known, only a declared one.
pub open spec fn declared_allows(declared: Option<Seq<Seq<char>>>, name: Seq<char>) -> bool {
    match declared {
        Some(d) => d.contains(name),
        None => true,
    }
}

/// The project's stored secrets that may be listed, in keystore order.
pub open spec fn base_listing(base: Seq<StoredSecret>, declared: Option<Seq<Seq<char>>>) -> Seq<InfoView>
    decreases base.len(),
{
    if base.len() == 0 {
        Seq::empty()
    } else {
        let rest = base_listing(base.drop_last(), declared);
        if declared_allows(declared, base.last().secret_name@) {
            rest.push(stored_info(base.last(), false))
        } else {
            rest
        }
    }
}

/// `rows` without the rows named `name`.
pub open spec fn drop_named(rows: Seq<InfoView>, name: Seq<char>) -> Seq<InfoView>
    decreases rows.len(),
{
    if rows.len() == 0 {
        Seq::empty()
    } else {
        let rest = drop_named(rows.drop_last(), name);
        if rows.last().0 == name { rest } else { rest.push(rows.last()) }
    }
}

/// The listing: the allowed stored secrets, then each override in turn replacing
/// any row of the same name and going to the end.
pub open spec fn merged_listing(
    base: Seq<StoredSecret>,
    declared: Option<Seq<Seq<char>>>,
    overrides: Seq<StoredSecret>,
) -> Seq<InfoView>
    decreases overrides.len(),
{
    if overrides.len() == 0 {
        base_listing(base, declared)
    } else {
        drop_named(merged_listing(base, declared, overrides.drop_last()), overrides.last().secret_name@)
            .push(stored_info(overrides.last(), true))
    }
}

/// The declared names as plain values.
pub open spec fn declared_view(declared: Option<&[String]>) -> Option<Seq<Seq<char>>> {
    match declared {
        Some(d) => Some(string_views(d@)),
        None => None,
    }
}

fn stored_row(s: &StoredSecret, is_override: bool) -> (r: SecretInfo)
    ensures
        info_view(r) == stored_info(*s, is_override),
{
    SecretInfo {
        name: s.secret_name.clone(),
        extractor: s.extractor.clone(),
        inject: concat3(s.inject_type.as_str(), ":", s.inject_target.as_str()),
        is_override,
    }
}

fn copy_row(r: &SecretInfo) -> (c: SecretInfo)
    ensures
        info_view(c) == info_view(*r),
{
    SecretInfo { name: r.name.clone(), extractor: r.extractor.clone(), inject: r.inject.clone(), is_override: r.is_override }
}

fn drop_named_exec(rows: &Vec<SecretInfo>, name: &str) -> (out: Vec<SecretInfo>)
    ensures
        info_views(out@) == drop_named(info_views(rows@), name@),
{
    let mut out: Vec<SecretInfo> = Vec::new();
    let mut i: usize = 0;
    while i < rows.len()
        invariant
            i <= rows@.len(),
            info_views(out@) == drop_named(info_views(rows@.take(i as int)), name@),
        decreases rows@.len() - i,
    {
        let ghost before = rows@.take(i as int);
        if !str_eq(rows[i].name.as_str(), name) {
            out.push(copy_row(&rows[i]));
        }
        i = i + 1;
        proof {
            let now = rows@.take(i as int);
            assert(now.drop_last() =~= before);
            assert(info_views(now).drop_last() =~= info_views(before));
            assert(info_views(now).last() == info_view(rows@[i - 1]));
            assert(info_views(out@) =~= drop_named(info_views(now), name@));
        }
    }
    assert(rows@.take(rows@.len() as int) =~= rows@);
    out
}

/// The secrets `coast secret list` shows for an instance: the project's stored
/// secrets that its Coastfile declares (all of them when the declared names are not
/// known), then the instance's overrides, each replacing a listed secret of the same
/// name.
pub fn list_instance_secrets(
    base: &[StoredSecret],
    declared: Option<&[String]>,
    overrides: &[StoredSecret],
) -> (rows: Vec<SecretInfo>)
    ensures
        info_views(rows@) == merged_listing(base@, declared_view(declared), overrides@),
{
    let ghost dv = declared_view(declared);
    let mut rows: Vec<SecretInfo> = Vec::new();
    let mut i: usize = 0;
    assert(base@.take(0) =~= Seq::<StoredSecret>::empty());
    while i < base.len()
        invariant
            i <= base@.len(),
            dv == declared_view(declared),
            info_views(rows@) == base_listing(base@.take(i as int), dv),
        decreases base@.len() - i,
    {
        let ghost before = base@.take(i as int);
        let allowed = match declared {
            Some(d) => names_contain(d, base[i].secret_name.as_str()),
            None => true,
        };
        if allowed {
            rows.push(stored_row(&base[i], false));
        }
        i = i + 1;
        proof {
            let now = base@.take(i as int);
            assert(now.drop_last() =~= before);
            assert(now.last() == base@[i - 1]);
            assert(info_views(rows@) =~= base_listing(now, dv));
        }
    }
    assert(base@.take(base@.len() as int) =~= base@);
    let mut k: usize = 0;
    assert(overrides@.take(0) =~= Seq::<StoredSecret>::empty());
    while k < overrides.len()
        invariant
            k <= overrides@.len(),
            dv == declared_view(declared),
            info_views(rows@) == merged_listing(base@, dv, overrides@.take(k as int)),
        decreases overrides@.len() - k,
    {
        let ghost before = overrides@.take(k as int);
        let mut next = drop_named_exec(&rows, overrides[k].secret_name.as_str());
        next.push(stored_row(&overrides[k], true));
        rows = next;
        k = k + 1;
        proof {
            let now = overrides@.take(k as int);
            assert(now.drop_last() =~= before);
            assert(now.last() == overrides@[k - 1]);
            assert(info_views(rows@) =~= merged_listing(base@, dv, now));
        }
    }
    assert(overrides@.take(overrides@.len() as int) =~= overrides@);
    rows
}

/// No two rows share a name.
pub open spec fn rows_distinct(rows: Seq<InfoView>) -> bool {
    forall|a: int, b: int| 0 <= a < b < rows.len() ==> #[trigger] rows[a].0 != #[trigger] rows[b].0
}

/// No two stored secrets share a name.
pub open spec fn stored_names_distinct(base: Seq<StoredSecret>) -> bool {
    forall|a: int, b: int| 0 <= a < b < base.len() ==> #[trigger] base[a].secret_name@ != #[trigger] base[b].secret_name@
}

proof fn lemma_drop_named(rows: Seq<InfoView>, name: Seq<char>)
    ensures
        forall|k: int| 0 <= k < drop_named(rows, name).len() ==>
            (#[trigger] drop_named(rows, name)[k]).0 != name && rows.contains(drop_named(rows, name)[k]),
        forall|k: int| 0 <= k < rows.len() && (#[trigger] rows[k]).0 != name ==> drop_named(rows, name).contains(rows[k]),
        rows_distinct(rows) ==> rows_distinct(drop_named(rows, name)),
    decreases rows.len(),
{
    if rows.len() > 0 {
        let init = rows.drop_last();
        let d = drop_named(init, name);
        lemma_drop_named(init, name);
        let r = drop_named(rows, name);
        assert forall|k: int| 0 <= k < r.len() implies (#[trigger] r[k]).0 != name && rows.contains(r[k]) by {
            if k < d.len() {
                assert(r[k] == d[k]);
                let m = choose|m: int| 0 <= m < init.len() && init[m] == d[k];
                assert(rows[m] == init[m]);
            } else {
                assert(r[k] == rows.last());
                assert(rows[rows.len() - 1] == rows.last());
            }
        }
        assert forall|k: int| 0 <= k < rows.len() && (#[trigger] rows[k]).0 != name implies r.contains(rows[k]) by {
            if k < rows.len() - 1 {
                assert(init[k] == rows[k]);
                assert(d.contains(init[k]));
                let m = choose|m: int| 0 <= m < d.len() && d[m] == init[k];
                assert(r[m] == d[m]);
            } else {
                assert(r[r.len() - 1] == rows.last());
            }
        }
        if rows_distinct(rows) {
            assert forall|a: int, b: int| 0 <= a < b < init.len() implies #[trigger] init[a].0 != #[trigger] init[b].0 by {
                assert(init[a] == rows[a] && init[b] == rows[b]);
            }
            if rows.last().0 != name {
                assert forall|a: int, b: int| 0 <= a < b < r.len() implies #[trigger] r[a].0 != #[trigger] r[b].0 by {
                    if b < d.len() {
                        assert(r[a] == d[a] && r[b] == d[b]);
                    } else {
                        assert(r[a] == d[a]);
                        assert(init.contains(d[a]));
                        let m = choose|m: int| 0 <= m < init.len() && init[m] == d[a];
                        assert(rows[m] == init[m]);
                        assert(rows[rows.len() - 1] == rows.last());
                    }
                }
            }
        }
    }
}

proof fn lemma_base_listing(base: Seq<StoredSecret>, declared: Option<Seq<Seq<char>>>)
    ensures
        forall|k: int| 0 <= k < base_listing(base, declared).len() ==> {
            let row = #[trigger] base_listing(base, declared)[k];
            &&& !row.3
            &&& declared_allows(declared, row.0)
            &&& exists|m: int| 0 <= m < base.len() && row.0 == (#[trigger] base[m]).secret_name@
        },
        stored_names_distinct(base) ==> rows_distinct(base_listing(base, declared)),
    decreases base.len(),
{
    if base.len() > 0 {
        let init = base.drop_last();
        let prev = base_listing(init, declared);
        lemma_base_listing(init, declared);
        let bl = base_listing(base, declared);
        assert forall|k: int| 0 <= k < bl.len() implies {
            let row = #[trigger] bl[k];
            &&& !row.3
            &&& declared_allows(declared, row.0)
            &&& exists|m: int| 0 <= m < base.len() && row.0 == (#[trigger] base[m]).secret_name@
        } by {
            if k < prev.len() {
                assert(bl[k] == prev[k]);
                let m = choose|m: int| 0 <= m < init.len() && prev[k].0 == (#[trigger] init[m]).secret_name@;
                assert(base[m] == init[m]);
            } else {
                assert(bl[k] == stored_info(base.last(), false));
                assert(base[base.len() - 1] == base.last());
            }
        }
        if stored_names_distinct(base) {
            assert forall|a: int, b: int| 0 <= a < b < init.len() implies
                #[trigger] init[a].secret_name@ != #[trigger] init[b].secret_name@ by {
                assert(init[a] == base[a] && init[b] == base[b]);
            }
            assert forall|a: int, b: int| 0 <= a < b < bl.len() implies #[trigger] bl[a].0 != #[trigger] bl[b].0 by {
                if b < prev.len() {
                    assert(bl[a] == prev[a] && bl[b] == prev[b]);
                } else {
                    assert(bl[a] == prev[a]);
                    let m = choose|m: int| 0 <= m < init.len() && prev[a].0 == (#[trigger] init[m]).secret_name@;
                    assert(base[m] == init[m]);
                    assert(base[base.len() - 1] == base.last());
                }
            }
        }
    }
}

/// What a secret listing promises: every override of the instance is listed as an
/// override; a row that is no override is a stored secret the Coastfile declares
/// (when its declared names are known) and that no override replaces; and when the
/// stored names are distinct, no name is listed twice.
pub proof fn lemma_merged_listing(
    base: Seq<StoredSecret>,
    declared: Option<Seq<Seq<char>>>,
    overrides: Seq<StoredSecret>,
)
    ensures
        forall|i: int| 0 <= i < overrides.len() ==> exists|j: int|
            0 <= j < merged_listing(base, declared, overrides).len()
                && (#[trigger] merged_listing(base, declared, overrides)[j]).0 == (#[trigger] overrides[i]).secret_name@
                && merged_listing(base, declared, overrides)[j].3,
        forall|j: int| 0 <= j < merged_listing(base, declared, overrides).len()
            && !(#[trigger] merged_listing(base, declared, overrides)[j]).3 ==> {
                &&& declared_allows(declared, merged_listing(base, declared, overrides)[j].0)
                &&& forall|i: int| 0 <= i < overrides.len()
                    ==> (#[trigger] overrides[i]).secret_name@ != merged_listing(base, declared, overrides)[j].0
            },
        stored_names_distinct(base) ==> rows_distinct(merged_listing(base, declared, overrides)),
    decreases overrides.len(),
{
    lemma_base_listing(base, declared);
    if overrides.len() > 0 {
        let init = overrides.drop_last();
        let last = overrides.last();
        let prev = merged_listing(base, declared, init);
        lemma_merged_listing(base, declared, init);
        let d = drop_named(prev, last.secret_name@);
        lemma_drop_named(prev, last.secret_name@);
        let m = merged_listing(base, declared, overrides);
        assert(m == d.push(stored_info(last, true)));
        assert(overrides[overrides.len() - 1] == last);
        assert forall|i: int| 0 <= i < overrides.len() implies exists|j: int|
            0 <= j < m.len() && (#[trigger] m[j]).0 == (#[trigger] overrides[i]).secret_name@ && m[j].3 by {
            if overrides[i].secret_name@ == last.secret_name@ {
                assert(m[m.len() - 1] == stored_info(last, true));
            } else {
                assert(init[i] == overrides[i]);
                let j0 = choose|j: int| 0 <= j < prev.len() && (#[trigger] prev[j]).0 == (#[trigger] init[i]).secret_name@ && prev[j].3;
                assert(d.contains(prev[j0]));
                let j1 = choose|j: int| 0 <= j < d.len() && d[j] == prev[j0];
                assert(m[j1] == d[j1]);
            }
        }
        assert forall|j: int| 0 <= j < m.len() && !(#[trigger] m[j]).3 implies {
            &&& declared_allows(declared, m[j].0)
            &&& forall|i: int| 0 <= i < overrides.len() ==> (#[trigger] overrides[i]).secret_name@ != m[j].0
        } by {
            assert(j < d.len());
            assert(m[j] == d[j]);
            let p = choose|p: int| 0 <= p < prev.len() && prev[p] == d[j];
            assert(!prev[p].3);
            assert forall|i: int| 0 <= i < overrides.len() implies (#[trigger] overrides[i]).secret_name@ != m[j].0 by {
                if i < overrides.len() - 1 {
                    assert(init[i] == overrides[i]);
                    assert(init[i].secret_name@ != prev[p].0);
                }
            }
        }
        if stored_names_distinct(base) {
            assert forall|a: int, b: int| 0 <= a < b < m.len() implies #[trigger] m[a].0 != #[trigger] m[b].0 by {
                if b < d.len() {
                    assert(m[a] == d[a] && m[b] == d[b]);
                } else {
                    assert(m[a] == d[a]);
                }
            }
        }
    }
}

/// The keystore scope of an instance's overrides: `{project}/{instance}`.
pub fn instance_secret_scope(project: &str, instance: &str) -> (scope: String)
    ensures
        scope@ == project@ + "/"@ + instance@,
{
    concat3(project, "/", instance)
}

/// The reply to setting an override.
pub fn secret_set_message(name: &str, instance: &str, project: &str) -> (msg: String)
    ensures
        msg@ == "Secret '"@ + name@ + "' set for instance '"@ + instance@ + "' in project '"@ + project@ + "'."@,
{
    let mut msg = concat3("Secret '", name, "' set for instance '");
    msg.append(instance);
    msg.append("' in project '");
    msg.append(project);
    msg.append("'.");
    msg
}

/// The headline of a secret listing.
pub fn secret_list_message(instance: &str, project: &str) -> (msg: String)
    ensures
        msg@ == "Secrets for instance '"@ + instance@ + "' in project '"@ + project@ + "'."@,
{
    let mut msg = concat3("Secrets for instance '", instance, "' in project '");
    msg.append(project);
    msg.append("'.");
    msg
}

/// The row that reports a newly set override: extracted by hand, injected as an
/// environment variable.
pub fn manual_override_row(name: String) -> (row: SecretInfo)
    ensures
        info_view(row) == (name@, "manual"@, "env"@, true),
{
    SecretInfo { name, extractor: "manual".to_owned(), inject: "env".to_owned(), is_override: true }
}

} // verus!
