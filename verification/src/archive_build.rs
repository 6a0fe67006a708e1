//! The compose override written inside the build container of an archive build:
//! coast-managed volumes, per-instance images, secret mounts and `extra_hosts`,
//! with the services listed once each in `str` order.

use vstd::prelude::*;
use vstd::string::*;
use crate::text::{string_views, str_eq, names_contain, chars_of, string_from_chars, extend_chars};

verus! {

/// `a` comes before `b` in `str` order (code point by code point, a proper prefix first).
pub open spec fn code_lt(a: Seq<char>, b: Seq<char>) -> bool
    decreases a.len(),
{
    if b.len() == 0 {
        false
    } else if a.len() == 0 {
        true
    } else if a[0] != b[0] {
        a[0] < b[0]
    } else {
        code_lt(a.drop_first(), b.drop_first())
    }
}

proof fn lemma_code_lt_irreflexive(a: Seq<char>)
    ensures
        !code_lt(a, a),
    decreases a.len(),
{
    if a.len() > 0 {
        lemma_code_lt_irreflexive(a.drop_first());
    }
}

proof fn lemma_code_lt_total(a: Seq<char>, b: Seq<char>)
    ensures
        a == b || code_lt(a, b) || code_lt(b, a),
        !(code_lt(a, b) && code_lt(b, a)),
    decreases a.len(),
{
    if a.len() > 0 && b.len() > 0 && a[0] == b[0] {
        lemma_code_lt_total(a.drop_first(), b.drop_first());
        if a.drop_first() == b.drop_first() {
            assert forall|i: int| 0 <= i < a.len() implies a[i] == b[i] by {
                if i > 0 {
                    assert(a[i] == a.drop_first()[i - 1]);
                    assert(b[i] == b.drop_first()[i - 1]);
                }
            }
            assert(a =~= b);
        }
    } else if a.len() == 0 && b.len() == 0 {
        assert(a =~= b);
    } else if a.len() > 0 && b.len() > 0 {
        assert(a[0] != b[0]);
        assert((a[0] as int) != (b[0] as int));
    }
}

proof fn lemma_code_lt_transitive(a: Seq<char>, b: Seq<char>, c: Seq<char>)
    requires
        code_lt(a, b),
        code_lt(b, c),
    ensures
        code_lt(a, c),
    decreases a.len(),
{
    if a.len() > 0 && a[0] == b[0] && b[0] == c[0] {
        lemma_code_lt_transitive(a.drop_first(), b.drop_first(), c.drop_first());
    }
}

/// Whether `s` is in strictly increasing `str` order (so each name occurs once).
pub open spec fn strictly_sorted(s: Seq<Seq<char>>) -> bool {
    forall|i: int, j: int| 0 <= i < j < s.len() ==> code_lt(#[trigger] s[i], #[trigger] s[j])
}

/// The names of a finite set in increasing `str` order.
pub open spec fn sorted_of(names: Set<Seq<char>>) -> Seq<Seq<char>> {
    choose|s: Seq<Seq<char>>| strictly_sorted(s) && s.to_set() == names
}

/// Two strictly sorted sequences with the same elements are equal: a set has one
/// sorted listing.
pub proof fn lemma_sorted_unique(a: Seq<Seq<char>>, b: Seq<Seq<char>>)
    requires
        strictly_sorted(a),
        strictly_sorted(b),
        a.to_set() == b.to_set(),
    ensures
        a == b,
    decreases a.len(),
{
    if a.len() == 0 {
        if b.len() > 0 {
            assert(b.to_set().contains(b[0]));
        }
        assert(a =~= b);
    } else {
        assert(a.to_set().contains(a[0]));
        if b.len() == 0 {
            assert(false);
        }
        assert(b.to_set().contains(b[0]));
        let k = choose|k: int| 0 <= k < a.len() && a[k] == b[0];
        let m = choose|m: int| 0 <= m < b.len() && b[m] == a[0];
        if a[0] != b[0] {
            assert(k > 0 && m > 0);
            assert(code_lt(a[0], a[k]));
            assert(code_lt(b[0], b[m]));
            lemma_code_lt_total(a[0], b[0]);
        }
        let ta = a.drop_first();
        let tb = b.drop_first();
        assert forall|y: Seq<char>| ta.to_set().contains(y) <==> tb.to_set().contains(y) by {
            if ta.to_set().contains(y) {
                let i = choose|i: int| 0 <= i < ta.len() && ta[i] == y;
                assert(a[i + 1] == y);
                assert(code_lt(a[0], a[i + 1]));
                lemma_code_lt_irreflexive(y);
                assert(a.to_set().contains(y));
                assert(b.to_set().contains(y));
                let j = choose|j: int| 0 <= j < b.len() && b[j] == y;
                assert(j != 0);
                assert(tb[j - 1] == y);
            }
            if tb.to_set().contains(y) {
                let i = choose|i: int| 0 <= i < tb.len() && tb[i] == y;
                assert(b[i + 1] == y);
                assert(code_lt(b[0], b[i + 1]));
                lemma_code_lt_irreflexive(y);
                assert(b.to_set().contains(y));
                assert(a.to_set().contains(y));
                let j = choose|j: int| 0 <= j < a.len() && a[j] == y;
                assert(j != 0);
                assert(ta[j - 1] == y);
            }
        }
        assert(ta.to_set() =~= tb.to_set());
        assert forall|i: int, j: int| 0 <= i < j < ta.len() implies code_lt(#[trigger] ta[i], #[trigger] ta[j]) by {
            assert(ta[i] == a[i + 1] && ta[j] == a[j + 1]);
        }
        assert forall|i: int, j: int| 0 <= i < j < tb.len() implies code_lt(#[trigger] tb[i], #[trigger] tb[j]) by {
            assert(tb[i] == b[i + 1] && tb[j] == b[j + 1]);
        }
        lemma_sorted_unique(ta, tb);
        assert forall|i: int| 0 <= i < a.len() implies a[i] == b[i] by {
            if i > 0 {
                assert(a[i] == ta[i - 1] && b[i] == tb[i - 1]);
            }
        }
        assert(a =~= b);
    }
}

/// Whether `a` comes before `b` in `str` order.
fn code_less(a: &str, b: &str) -> (r: bool)
    ensures
        r == code_lt(a@, b@),
{
    let ac = chars_of(a);
    let bc = chars_of(b);
    let mut i: usize = 0;
    assert(a@.skip(0) =~= a@ && b@.skip(0) =~= b@);
    while i < ac.len() && i < bc.len() && ac[i] == bc[i]
        invariant
            i <= ac@.len(),
            i <= bc@.len(),
            ac@ == a@,
            bc@ == b@,
            code_lt(a@, b@) == code_lt(a@.skip(i as int), b@.skip(i as int)),
        decreases ac@.len() - i,
    {
        proof {
            let sa = a@.skip(i as int);
            let sb = b@.skip(i as int);
            assert(sa[0] == sb[0]);
            assert(sa.drop_first() =~= a@.skip(i + 1));
            assert(sb.drop_first() =~= b@.skip(i + 1));
        }
        i = i + 1;
    }
    if i == bc.len() {
        false
    } else if i == ac.len() {
        true
    } else {
        proof {
            assert(a@.skip(i as int)[0] == ac@[i as int]);
            assert(b@.skip(i as int)[0] == bc@[i as int]);
        }
        ac[i] < bc[i]
    }
}

proof fn lemma_take_to_set_step(s: Seq<Seq<char>>, j: int)
    requires
        0 <= j < s.len(),
    ensures
        s.take(j + 1).to_set() == s.take(j).to_set().insert(s[j]),
{
    let a = s.take(j + 1);
    let b = s.take(j);
    assert forall|y: Seq<char>| a.to_set().contains(y) <==> b.to_set().insert(s[j]).contains(y) by {
        if a.to_set().contains(y) {
            let i = choose|i: int| 0 <= i < a.len() && a[i] == y;
            if i < j {
                assert(b[i] == y);
            }
        }
        if b.to_set().contains(y) {
            let i = choose|i: int| 0 <= i < b.len() && b[i] == y;
            assert(a[i] == y);
        }
        if y == s[j] {
            assert(a[j] == y);
        }
    }
    assert(a.to_set() =~= b.to_set().insert(s[j]));
}

/// Inserts `x` into a strictly sorted list unless it is already there.
fn insert_sorted(v: &mut Vec<String>, x: &str)
    requires
        strictly_sorted(string_views(old(v)@)),
    ensures
        strictly_sorted(string_views(final(v)@)),
        string_views(final(v)@).to_set() == string_views(old(v)@).to_set().insert(x@),
{
    let ghost o = string_views(v@);
    let mut p: usize = 0;
    while p < v.len() && code_less(v[p].as_str(), x)
        invariant
            p <= v@.len(),
            o == string_views(v@),
            forall|i: int| 0 <= i < p ==> code_lt(#[trigger] o[i], x@),
        decreases v@.len() - p,
    {
        p = p + 1;
    }
    if p < v.len() && str_eq(v[p].as_str(), x) {
        proof {
            assert(o[p as int] == x@);
            assert(o.to_set().contains(x@));
            assert(o.to_set().insert(x@) =~= o.to_set());
        }
        return;
    }
    proof {
        if p < o.len() {
            lemma_code_lt_total(o[p as int], x@);
            assert(code_lt(x@, o[p as int]));
        }
    }
    v.insert(p, x.to_owned());
    proof {
        let n = string_views(v@);
        assert(n =~= o.insert(p as int, x@));
        assert forall|i: int, j: int| 0 <= i < j < n.len() implies code_lt(#[trigger] n[i], #[trigger] n[j]) by {
            if j < p {
                assert(n[i] == o[i] && n[j] == o[j]);
            } else if j == p {
                assert(n[i] == o[i]);
            } else if i < p {
                assert(n[i] == o[i] && n[j] == o[j - 1]);
                assert(code_lt(o[i], x@));
                assert(code_lt(x@, o[p as int]));
                if j - 1 > p {
                    assert(code_lt(o[p as int], o[j - 1]));
                    lemma_code_lt_transitive(x@, o[p as int], o[j - 1]);
                }
                lemma_code_lt_transitive(o[i], x@, o[j - 1]);
            } else if i == p {
                assert(n[j] == o[j - 1]);
                if j - 1 > p {
                    assert(code_lt(o[p as int], o[j - 1]));
                    lemma_code_lt_transitive(x@, o[p as int], o[j - 1]);
                }
            } else {
                assert(n[i] == o[i - 1] && n[j] == o[j - 1]);
            }
        }
        assert forall|y: Seq<char>| n.to_set().contains(y) <==> o.to_set().insert(x@).contains(y) by {
            if n.to_set().contains(y) {
                let i = choose|i: int| 0 <= i < n.len() && n[i] == y;
                if i < p {
                    assert(o[i] == y);
                } else if i > p {
                    assert(o[i - 1] == y);
                }
            }
            if o.to_set().contains(y) {
                let i = choose|i: int| 0 <= i < o.len() && o[i] == y;
                if i < p {
                    assert(n[i] == y);
                } else {
                    assert(n[i + 1] == y);
                }
            }
            if y == x@ {
                assert(n[p as int] == y);
            }
        }
        assert(n.to_set() =~= o.to_set().insert(x@));
    }
}

/// The names of `names`, sorted in `str` order, each once.
pub fn sorted_unique_names(names: &[String]) -> (r: Vec<String>)
    ensures
        strictly_sorted(string_views(r@)),
        string_views(r@).to_set() == string_views(names@).to_set(),
        string_views(r@) == sorted_of(string_views(names@).to_set()),
{
    let ghost all = string_views(names@);
    let mut out: Vec<String> = Vec::new();
    proof {
        assert(string_views(out@).to_set() =~= all.take(0).to_set());
    }
    let mut j: usize = 0;
    while j < names.len()
        invariant
            j <= names@.len(),
            all == string_views(names@),
            strictly_sorted(string_views(out@)),
            string_views(out@).to_set() == all.take(j as int).to_set(),
        decreases names@.len() - j,
    {
        proof { lemma_take_to_set_step(all, j as int); }
        insert_sorted(&mut out, names[j].as_str());
        j = j + 1;
    }
    proof {
        assert(all.take(names@.len() as int) =~= all);
        let s = sorted_of(all.to_set());
        assert(strictly_sorted(string_views(out@)) && string_views(out@).to_set() == all.to_set());
        assert(strictly_sorted(s) && s.to_set() == all.to_set());
        lemma_sorted_unique(string_views(out@), s);
    }
    out
}

/// Concatenation of all pieces, in order.
pub open spec fn concat_all(parts: Seq<Seq<char>>) -> Seq<char>
    decreases parts.len(),
{
    if parts.len() == 0 {
        Seq::empty()
    } else {
        concat_all(parts.drop_last()) + parts.last()
    }
}

/// First line of the override file.
pub open spec fn override_header() -> Seq<char> {
    "# Auto-generated by Coast - do not edit\n"@
}

/// The declaration of a coast-managed volume bound to `/coast-volumes/{name}`.
pub open spec fn volume_block(name: Seq<char>) -> Seq<char> {
    "  "@ + name + ":\n    driver: local\n    driver_opts:\n      type: none\n      device: /coast-volumes/"@
        + name + "\n      o: bind\n"@
}

/// The tag of the last per-instance image entry for `svc`.
pub open spec fn last_tag(tags: Seq<(Seq<char>, Seq<char>)>, svc: Seq<char>) -> Option<Seq<char>>
    decreases tags.len(),
{
    if tags.len() == 0 {
        None
    } else if tags.last().0 == svc {
        Some(tags.last().1)
    } else {
        last_tag(tags.drop_last(), svc)
    }
}

/// How many times `x` occurs in `s`.
pub open spec fn occurrences(s: Seq<Seq<char>>, x: Seq<char>) -> nat
    decreases s.len(),
{
    if s.len() == 0 {
        0
    } else {
        occurrences(s.drop_last(), x) + if s.last() == x { 1nat } else { 0nat }
    }
}

/// A secret mount line `      - {path}:{path}:ro`.
pub open spec fn mount_line(p: Seq<char>) -> Seq<char> {
    "      - "@ + p + ":"@ + p + ":ro\n"@
}

/// The `extra_hosts` line for the host gateway.
pub open spec fn host_line() -> Seq<char> {
    "      - \"host.docker.internal:host-gateway\"\n"@
}

/// The override entry of one service.
pub open spec fn service_block(
    svc: Seq<char>,
    tags: Seq<(Seq<char>, Seq<char>)>,
    paths: Seq<Seq<char>>,
    keys: Seq<Seq<char>>,
    hosts: Seq<Seq<char>>,
) -> Seq<char> {
    "  "@ + svc + ":\n"@
        + (match last_tag(tags, svc) {
            Some(t) => "    image: "@ + t + "\n"@,
            None => Seq::empty(),
        })
        + (if paths.len() > 0 && keys.contains(svc) {
            "    volumes:\n"@ + concat_all(paths.map_values(|p: Seq<char>| mount_line(p)))
        } else {
            Seq::empty()
        })
        + (if hosts.contains(svc) {
            "    extra_hosts:\n"@ + concat_all(Seq::new(occurrences(hosts, svc), |i: int| host_line()))
        } else {
            Seq::empty()
        })
        + "    environment:\n      WATCHPACK_POLLING: \"true\"\n"@
}

/// The services with an override entry: those with a per-instance image, every
/// compose service when there are secret mounts, and every service given
/// `extra_hosts`.
pub open spec fn override_service_names(
    tags: Seq<(Seq<char>, Seq<char>)>,
    paths: Seq<Seq<char>>,
    keys: Seq<Seq<char>>,
    hosts: Seq<Seq<char>>,
) -> Seq<Seq<char>> {
    tags.map_values(|t: (Seq<char>, Seq<char>)| t.0) + (if paths.len() > 0 { keys } else { Seq::empty() }) + hosts
}

/// The override file, or `None` when there is nothing to override.
pub open spec fn override_spec(
    has_volume_mounts: bool,
    volume_names: Seq<Seq<char>>,
    tags: Seq<(Seq<char>, Seq<char>)>,
    paths: Seq<Seq<char>>,
    keys: Seq<Seq<char>>,
    hosts: Seq<Seq<char>>,
) -> Option<Seq<char>> {
    let svcs = sorted_of(override_service_names(tags, paths, keys, hosts).to_set());
    if !has_volume_mounts && svcs.len() == 0 {
        None
    } else {
        Some(override_header()
            + (if has_volume_mounts {
                "volumes:\n"@ + concat_all(volume_names.map_values(|n: Seq<char>| volume_block(n)))
            } else {
                Seq::empty()
            })
            + (if svcs.len() > 0 {
                "services:\n"@ + concat_all(svcs.map_values(|svc: Seq<char>| service_block(svc, tags, paths, keys, hosts)))
            } else {
                Seq::empty()
            }))
    }
}

proof fn lemma_concat_all_push(parts: Seq<Seq<char>>, j: int)
    requires
        0 <= j < parts.len(),
    ensures
        concat_all(parts.take(j + 1)) == concat_all(parts.take(j)) + parts[j],
{
    assert(parts.take(j + 1).drop_last() =~= parts.take(j));
}

/// Appends the volume declarations.
fn push_volume_blocks(out: &mut Vec<char>, names: &[String])
    ensures
        final(out)@ == old(out)@ + concat_all(string_views(names@).map_values(|n: Seq<char>| volume_block(n))),
{
    let ghost start = out@;
    let ghost parts = string_views(names@).map_values(|n: Seq<char>| volume_block(n));
    let mut j: usize = 0;
    while j < names.len()
        invariant
            j <= names@.len(),
            parts == string_views(names@).map_values(|n: Seq<char>| volume_block(n)),
            out@ == start + concat_all(parts.take(j as int)),
        decreases names@.len() - j,
    {
        let n = names[j].as_str();
        let ghost before = out@;
        extend_chars(out, "  ");
        extend_chars(out, n);
        extend_chars(out, ":\n    driver: local\n    driver_opts:\n      type: none\n      device: /coast-volumes/");
        extend_chars(out, n);
        extend_chars(out, "\n      o: bind\n");
        proof {
            lemma_concat_all_push(parts, j as int);
            assert(parts[j as int] == volume_block(names@[j as int]@));
            assert(out@ =~= before + volume_block(n@));
        }
        j = j + 1;
    }
    assert(parts.take(names@.len() as int) =~= parts);
}

/// The last per-instance image tag for `svc`.
fn last_tag_exec<'a>(tags: &'a [(String, String)], svc: &str) -> (r: Option<&'a String>)
    ensures
        match r {
            Some(t) => last_tag(tags@.map_values(|t: (String, String)| (t.0@, t.1@)), svc@) == Some(t@),
            None => last_tag(tags@.map_values(|t: (String, String)| (t.0@, t.1@)), svc@) is None,
        },
{
    let ghost tv = tags@.map_values(|t: (String, String)| (t.0@, t.1@));
    let mut cur: Option<&'a String> = None;
    let mut j: usize = 0;
    while j < tags.len()
        invariant
            j <= tags@.len(),
            tv == tags@.map_values(|t: (String, String)| (t.0@, t.1@)),
            match cur {
                Some(t) => last_tag(tv.take(j as int), svc@) == Some(t@),
                None => last_tag(tv.take(j as int), svc@) is None,
            },
        decreases tags@.len() - j,
    {
        proof {
            assert(tv.take(j + 1).drop_last() =~= tv.take(j as int));
            assert(tv.take(j + 1).last() == (tags@[j as int].0@, tags@[j as int].1@));
        }
        if str_eq(tags[j].0.as_str(), svc) {
            cur = Some(&tags[j].1);
        }
        j = j + 1;
    }
    assert(tv.take(tags@.len() as int) =~= tv);
    cur
}

/// How many times `x` occurs in `names`.
fn occurrences_exec(names: &[String], x: &str) -> (n: usize)
    ensures
        n == occurrences(string_views(names@), x@),
{
    let ghost nv = string_views(names@);
    let mut n: usize = 0;
    let mut j: usize = 0;
    while j < names.len()
        invariant
            j <= names@.len(),
            nv == string_views(names@),
            n == occurrences(nv.take(j as int), x@),
            n <= j,
        decreases names@.len() - j,
    {
        proof {
            assert(nv.take(j + 1).drop_last() =~= nv.take(j as int));
            assert(nv.take(j + 1).last() == names@[j as int]@);
        }
        if str_eq(names[j].as_str(), x) {
            n = n + 1;
        }
        j = j + 1;
    }
    assert(nv.take(names@.len() as int) =~= nv);
    n
}

/// Appends the override entry of one service.
fn push_service_block(
    out: &mut Vec<char>,
    svc: &str,
    tags: &[(String, String)],
    paths: &[String],
    keys: &[String],
    hosts: &[String],
)
    ensures
        final(out)@ == old(out)@ + service_block(svc@, tags@.map_values(|t: (String, String)| (t.0@, t.1@)),
            string_views(paths@), string_views(keys@), string_views(hosts@)),
{
    let ghost tv = tags@.map_values(|t: (String, String)| (t.0@, t.1@));
    let ghost pv = string_views(paths@);
    let ghost start = out@;
    extend_chars(out, "  ");
    extend_chars(out, svc);
    extend_chars(out, ":\n");
    let ghost a1 = out@;
    match last_tag_exec(tags, svc) {
        Some(t) => {
            extend_chars(out, "    image: ");
            extend_chars(out, t.as_str());
            extend_chars(out, "\n");
        },
        None => {},
    }
    let ghost img = match last_tag(tv, svc@) {
        Some(t) => "    image: "@ + t + "\n"@,
        None => Seq::<char>::empty(),
    };
    assert(out@ =~= a1 + img);
    let ghost a2 = out@;
    if paths.len() > 0 && names_contain(keys, svc) {
        extend_chars(out, "    volumes:\n");
        let ghost b0 = out@;
        let ghost parts = pv.map_values(|p: Seq<char>| mount_line(p));
        let mut j: usize = 0;
        while j < paths.len()
            invariant
                j <= paths@.len(),
                pv == string_views(paths@),
                parts == pv.map_values(|p: Seq<char>| mount_line(p)),
                out@ == b0 + concat_all(parts.take(j as int)),
            decreases paths@.len() - j,
        {
            let p = paths[j].as_str();
            let ghost before = out@;
            extend_chars(out, "      - ");
            extend_chars(out, p);
            extend_chars(out, ":");
            extend_chars(out, p);
            extend_chars(out, ":ro\n");
            proof {
                lemma_concat_all_push(parts, j as int);
                assert(parts[j as int] == mount_line(paths@[j as int]@));
                assert(out@ =~= before + mount_line(p@));
            }
            j = j + 1;
        }
        assert(parts.take(paths@.len() as int) =~= parts);
    }
    let ghost vol = if pv.len() > 0 && string_views(keys@).contains(svc@) {
        "    volumes:\n"@ + concat_all(pv.map_values(|p: Seq<char>| mount_line(p)))
    } else {
        Seq::<char>::empty()
    };
    assert(out@ =~= a2 + vol);
    let ghost a3 = out@;
    let count = occurrences_exec(hosts, svc);
    let ghost hl = Seq::new(count as nat, |i: int| host_line());
    if count > 0 {
        extend_chars(out, "    extra_hosts:\n");
        let ghost b0 = out@;
        let mut j: usize = 0;
        while j < count
            invariant
                j <= count,
                hl == Seq::new(count as nat, |i: int| host_line()),
                out@ == b0 + concat_all(hl.take(j as int)),
            decreases count - j,
        {
            let ghost before = out@;
            extend_chars(out, "      - \"host.docker.internal:host-gateway\"\n");
            proof { lemma_concat_all_push(hl, j as int); }
            j = j + 1;
        }
        assert(hl.take(count as int) =~= hl);
    }
    proof {
        lemma_occurrences_contains(string_views(hosts@), svc@);
    }
    let ghost hst = if string_views(hosts@).contains(svc@) {
        "    extra_hosts:\n"@ + concat_all(hl)
    } else {
        Seq::<char>::empty()
    };
    assert(out@ =~= a3 + hst);
    extend_chars(out, "    environment:\n      WATCHPACK_POLLING: \"true\"\n");
}

proof fn lemma_occurrences_contains(s: Seq<Seq<char>>, x: Seq<char>)
    ensures
        (occurrences(s, x) > 0) == s.contains(x),
    decreases s.len(),
{
    if s.len() > 0 {
        lemma_occurrences_contains(s.drop_last(), x);
        if s.drop_last().contains(x) {
            let i = choose|i: int| 0 <= i < s.drop_last().len() && s.drop_last()[i] == x;
            assert(s[i] == x);
        }
        if s.contains(x) {
            let i = choose|i: int| 0 <= i < s.len() && s[i] == x;
            if i < s.len() - 1 {
                assert(s.drop_last()[i] == x);
            }
        }
        if s.last() == x {
            assert(s[s.len() - 1] == x);
        }
    }
}

/// The compose override written inside the build container of an archive build,
/// or `None` when nothing needs overriding. `volume_names` are the Coastfile's
/// coast-managed volumes (read only with volume mounts), `service_keys` the string
/// keys of the compose `services` mapping, and `compose_services` the services
/// that get the host gateway in `extra_hosts`.
pub fn archive_compose_override(
    has_volume_mounts: bool,
    volume_names: &[String],
    per_instance_image_tags: &[(String, String)],
    secret_container_paths: &[String],
    service_keys: &[String],
    compose_services: &[String],
) -> (r: Option<String>)
    ensures
        match r {
            Some(t) => override_spec(has_volume_mounts, string_views(volume_names@),
                per_instance_image_tags@.map_values(|t: (String, String)| (t.0@, t.1@)),
                string_views(secret_container_paths@), string_views(service_keys@),
                string_views(compose_services@)) == Some(t@),
            None => override_spec(has_volume_mounts, string_views(volume_names@),
                per_instance_image_tags@.map_values(|t: (String, String)| (t.0@, t.1@)),
                string_views(secret_container_paths@), string_views(service_keys@),
                string_views(compose_services@)) is None,
        },
{
    let ghost tv = per_instance_image_tags@.map_values(|t: (String, String)| (t.0@, t.1@));
    let ghost pv = string_views(secret_container_paths@);
    let ghost kv = string_views(service_keys@);
    let ghost hv = string_views(compose_services@);
    let mut all: Vec<String> = Vec::new();
    let mut j: usize = 0;
    while j < per_instance_image_tags.len()
        invariant
            j <= per_instance_image_tags@.len(),
            tv == per_instance_image_tags@.map_values(|t: (String, String)| (t.0@, t.1@)),
            string_views(all@) == tv.map_values(|t: (Seq<char>, Seq<char>)| t.0).take(j as int),
        decreases per_instance_image_tags@.len() - j,
    {
        let ghost before = string_views(all@);
        let name = per_instance_image_tags[j].0.clone();
        all.push(name);
        proof {
            let names = tv.map_values(|t: (Seq<char>, Seq<char>)| t.0);
            assert(string_views(all@) =~= before.push(name@));
            assert(names[j as int] == per_instance_image_tags@[j as int].0@);
            assert(names.take(j + 1) =~= names.take(j as int).push(names[j as int]));
        }
        j = j + 1;
    }
    assert(tv.map_values(|t: (Seq<char>, Seq<char>)| t.0).take(per_instance_image_tags@.len() as int)
        =~= tv.map_values(|t: (Seq<char>, Seq<char>)| t.0));
    let ghost base = string_views(all@);
    if secret_container_paths.len() > 0 {
        let mut k: usize = 0;
        while k < service_keys.len()
            invariant
                k <= service_keys@.len(),
                kv == string_views(service_keys@),
                string_views(all@) == base + kv.take(k as int),
            decreases service_keys@.len() - k,
        {
            let ghost before = string_views(all@);
            let key = service_keys[k].clone();
            all.push(key);
            proof {
                assert(string_views(all@) =~= before.push(key@));
                assert(kv.take(k + 1) =~= kv.take(k as int).push(kv[k as int]));
            }
            k = k + 1;
        }
        assert(kv.take(service_keys@.len() as int) =~= kv);
    } else {
        assert(string_views(all@) =~= base + Seq::<Seq<char>>::empty());
    }
    let ghost mid = string_views(all@);
    let mut h: usize = 0;
    while h < compose_services.len()
        invariant
            h <= compose_services@.len(),
            hv == string_views(compose_services@),
            string_views(all@) == mid + hv.take(h as int),
        decreases compose_services@.len() - h,
    {
        let ghost before = string_views(all@);
        let svc = compose_services[h].clone();
        all.push(svc);
        proof {
            assert(string_views(all@) =~= before.push(svc@));
            assert(hv.take(h + 1) =~= hv.take(h as int).push(hv[h as int]));
        }
        h = h + 1;
    }
    assert(hv.take(compose_services@.len() as int) =~= hv);
    assert(string_views(all@) =~= override_service_names(tv, pv, kv, hv));
    let svcs = sorted_unique_names(all.as_slice());
    if !has_volume_mounts && svcs.len() == 0 {
        return None;
    }
    let mut out: Vec<char> = Vec::new();
    extend_chars(&mut out, "# Auto-generated by Coast - do not edit\n");
    let ghost o1 = out@;
    if has_volume_mounts {
        extend_chars(&mut out, "volumes:\n");
        push_volume_blocks(&mut out, volume_names);
    }
    let ghost o2 = out@;
    let ghost sv = string_views(svcs@);
    if svcs.len() > 0 {
        extend_chars(&mut out, "services:\n");
        let ghost b0 = out@;
        let ghost parts = sv.map_values(|s: Seq<char>| service_block(s, tv, pv, kv, hv));
        let mut q: usize = 0;
        while q < svcs.len()
            invariant
                q <= svcs@.len(),
                sv == string_views(svcs@),
                tv == per_instance_image_tags@.map_values(|t: (String, String)| (t.0@, t.1@)),
                pv == string_views(secret_container_paths@),
                kv == string_views(service_keys@),
                hv == string_views(compose_services@),
                parts == sv.map_values(|s: Seq<char>| service_block(s, tv, pv, kv, hv)),
                out@ == b0 + concat_all(parts.take(q as int)),
            decreases svcs@.len() - q,
        {
            push_service_block(&mut out, svcs[q].as_str(), per_instance_image_tags, secret_container_paths,
                service_keys, compose_services);
            proof {
                lemma_concat_all_push(parts, q as int);
                assert(parts[q as int] == service_block(svcs@[q as int]@, tv, pv, kv, hv));
            }
            q = q + 1;
        }
        assert(parts.take(svcs@.len() as int) =~= parts);
    }
    proof {
        let vols = if has_volume_mounts {
            "volumes:\n"@ + concat_all(string_views(volume_names@).map_values(|n: Seq<char>| volume_block(n)))
        } else {
            Seq::<char>::empty()
        };
        assert(o2 =~= o1 + vols);
        let srv = if sv.len() > 0 {
            "services:\n"@ + concat_all(sv.map_values(|s: Seq<char>| service_block(s, tv, pv, kv, hv)))
        } else {
            Seq::<char>::empty()
        };
        assert(out@ =~= o2 + srv);
        assert(out@ =~= override_header() + vols + srv);
    }
    Some(string_from_chars(out.as_slice()))
}

/// The build context of a compose build directive inside the build container.
pub open spec fn dind_build_context(context: Seq<char>) -> Seq<char> {
    if context == "."@ { "/tmp/coast-build"@ } else { "/tmp/coast-build/"@ + context }
}

/// `docker build` of a per-instance image inside the build container; a Dockerfile
/// other than `Dockerfile` is passed with `-f`.
pub open spec fn dind_build_command_spec(tag: Seq<char>, context: Seq<char>, dockerfile: Option<Seq<char>>) -> Seq<Seq<char>> {
    let ctx = dind_build_context(context);
    seq!["docker"@, "build"@, "-t"@, tag]
        + (match dockerfile {
            Some(d) => if d != "Dockerfile"@ { seq!["-f"@, ctx + "/"@ + d] } else { Seq::empty() },
            None => Seq::empty(),
        })
        + seq![ctx]
}

/// The `docker build` command for a per-instance image built inside the build container.
pub fn dind_build_command(instance_tag: &str, context: &str, dockerfile: Option<&str>) -> (cmd: Vec<String>)
    ensures
        string_views(cmd@) == dind_build_command_spec(instance_tag@, context@,
            match dockerfile { Some(d) => Some(d@), None => None }),
{
    let ctx: String = if str_eq(context, ".") {
        "/tmp/coast-build".to_owned()
    } else {
        crate::text::concat2("/tmp/coast-build/", context)
    };
    let ghost cv = dind_build_context(context@);
    assert(ctx@ == cv);
    let mut cmd: Vec<String> = vec!["docker".to_owned(), "build".to_owned(), "-t".to_owned(), instance_tag.to_owned()];
    let ghost head = seq!["docker"@, "build"@, "-t"@, instance_tag@];
    assert(string_views(cmd@) =~= head);
    match dockerfile {
        Some(d) => {
            if !str_eq(d, "Dockerfile") {
                cmd.push("-f".to_owned());
                cmd.push(crate::text::concat3(ctx.as_str(), "/", d));
                assert(string_views(cmd@) =~= head + seq!["-f"@, cv + "/"@ + d@]);
            } else {
                assert(string_views(cmd@) =~= head + Seq::<Seq<char>>::empty());
            }
        },
        None => {
            assert(string_views(cmd@) =~= head + Seq::<Seq<char>>::empty());
        },
    }
    let ghost mid = string_views(cmd@);
    cmd.push(ctx);
    assert(string_views(cmd@) =~= mid + seq![cv]);
    cmd
}

/// The compose file names looked for in a project's code, in order of preference.
pub open spec fn compose_candidates_spec() -> Seq<Seq<char>> {
    seq!["docker-compose.yml"@, "docker-compose.yaml"@, "compose.yml"@, "compose.yaml"@]
}

/// The compose file names looked for in a project's code, in order of preference.
pub fn compose_file_candidates() -> (names: Vec<String>)
    ensures
        string_views(names@) == compose_candidates_spec(),
{
    let names = vec![
        "docker-compose.yml".to_owned(),
        "docker-compose.yaml".to_owned(),
        "compose.yml".to_owned(),
        "compose.yaml".to_owned(),
    ];
    assert(string_views(names@) =~= compose_candidates_spec());
    names
}

/// The first candidate that exists, given whether each one does.
pub fn first_present(exists: &[bool]) -> (i: Option<usize>)
    ensures
        match i {
            Some(k) => k < exists@.len() && exists@[k as int] && forall|j: int| 0 <= j < k ==> !exists@[j],
            None => forall|j: int| 0 <= j < exists@.len() ==> !exists@[j],
        },
{
    let mut k: usize = 0;
    while k < exists.len()
        invariant
            k <= exists@.len(),
            forall|j: int| 0 <= j < k ==> !exists@[j],
        decreases exists@.len() - k,
    {
        if exists[k] {
            return Some(k);
        }
        k = k + 1;
    }
    None
}

/// The `git archive` arguments that stream a branch's tree.
pub fn git_archive_args(branch: &str) -> (args: Vec<String>)
    ensures
        string_views(args@) == seq!["archive"@, branch@],
{
    let args = vec!["archive".to_owned(), branch.to_owned()];
    assert(string_views(args@) =~= seq!["archive"@, branch@]);
    args
}

/// The `docker` arguments that unpack the streamed tree into the build directory of
/// the coast container.
pub fn archive_extract_args(container_id: &str) -> (args: Vec<String>)
    ensures
        string_views(args@) == seq!["exec"@, "-i"@, container_id@, "tar"@, "-x"@, "-C"@, "/tmp/coast-build"@],
{
    let args = vec![
        "exec".to_owned(),
        "-i".to_owned(),
        container_id.to_owned(),
        "tar".to_owned(),
        "-x".to_owned(),
        "-C".to_owned(),
        "/tmp/coast-build".to_owned(),
    ];
    assert(string_views(args@) =~= seq!["exec"@, "-i"@, container_id@, "tar"@, "-x"@, "-C"@, "/tmp/coast-build"@]);
    args
}

/// The error when unpacking the archive failed, with the trimmed error output.
pub fn archive_extract_failed_message(stderr_trimmed: &str) -> (msg: String)
    ensures
        msg@ == "Failed to extract git archive into DinD: "@ + stderr_trimmed@,
{
    crate::text::concat2("Failed to extract git archive into DinD: ", stderr_trimmed)
}

/// The error when `git archive` could not be run for a branch.
pub fn git_archive_failed_message(branch: &str, error: &str) -> (msg: String)
    ensures
        msg@ == "Failed to run git archive for branch '"@ + branch@ + "': "@ + error@,
{
    let mut msg = crate::text::concat3("Failed to run git archive for branch '", branch, "': ");
    msg.append(error);
    msg
}

} // verus!
