//! Which cached image tarballs to load into a coast's inner daemon.

use vstd::prelude::*;
use vstd::string::*;
use crate::text::{string_views, chars_of, extend_chars};

verus! {

/// An image reference made safe for use in a tarball file name: `/` and `:` become `_`.
pub open spec fn safe_image_name(image: Seq<char>) -> Seq<char> {
    image.map_values(|c: char| if c == '/' || c == ':' { '_' } else { c })
}

/// `s` starts with `prefix`.
pub open spec fn has_prefix(s: Seq<char>, prefix: Seq<char>) -> bool {
    prefix.len() <= s.len() && s.take(prefix.len() as int) == prefix
}

/// A tarball is already loaded when its name starts with the safe name of an existing image.
pub open spec fn tarball_already_loaded(tarball: Seq<char>, existing: Seq<Seq<char>>) -> bool {
    exists|j: int| 0 <= j < existing.len() && has_prefix(tarball, safe_image_name(#[trigger] existing[j]))
}

/// The tarballs still to load, in their original order.
pub open spec fn tarballs_to_load_spec(tarballs: Seq<Seq<char>>, existing: Seq<Seq<char>>) -> Seq<Seq<char>>
    decreases tarballs.len(),
{
    if tarballs.len() == 0 {
        Seq::empty()
    } else {
        let rest = tarballs_to_load_spec(tarballs.drop_last(), existing);
        if tarball_already_loaded(tarballs.last(), existing) { rest } else { rest.push(tarballs.last()) }
    }
}

/// `has_prefix` of a safe image name, character by character.
proof fn lemma_safe_prefix_chars(t: Seq<char>, img: Seq<char>)
    ensures
        has_prefix(t, safe_image_name(img)) <==> (img.len() <= t.len() && forall|k: int| 0 <= k < img.len()
            ==> #[trigger] t[k] == (if img[k] == '/' || img[k] == ':' { '_' } else { img[k] })),
{
    let s = safe_image_name(img);
    assert(s.len() == img.len());
    if has_prefix(t, s) {
        assert forall|k: int| 0 <= k < img.len() implies #[trigger] t[k] == (if img[k] == '/' || img[k] == ':' { '_' } else {
            img[k] }) by {
            assert(t.take(s.len() as int)[k] == s[k]);
        }
    }
    if img.len() <= t.len() && forall|k: int| 0 <= k < img.len()
        ==> #[trigger] t[k] == (if img[k] == '/' || img[k] == ':' { '_' } else { img[k] }) {
        assert(t.take(s.len() as int) =~= s);
    }
}

/// Whether a tarball is already loaded, stated over the characters of the images.
proof fn lemma_already_loaded_chars(t: Seq<char>, existing: Seq<Seq<char>>)
    ensures
        tarball_already_loaded(t, existing) <==> (exists|j: int| 0 <= j < existing.len()
            && (#[trigger] existing[j]).len() <= t.len() && forall|k: int| 0 <= k < existing[j].len()
            ==> #[trigger] t[k] == (if existing[j][k] == '/' || existing[j][k] == ':' { '_' } else { existing[j][k] })),
{
    if tarball_already_loaded(t, existing) {
        let j = choose|j: int| 0 <= j < existing.len() && has_prefix(t, safe_image_name(#[trigger] existing[j]));
        lemma_safe_prefix_chars(t, existing[j]);
    }
    if exists|j: int| 0 <= j < existing.len()
        && (#[trigger] existing[j]).len() <= t.len() && forall|k: int| 0 <= k < existing[j].len()
        ==> #[trigger] t[k] == (if existing[j][k] == '/' || existing[j][k] == ':' { '_' } else { existing[j][k] }) {
        let j = choose|j: int| 0 <= j < existing.len()
            && (#[trigger] existing[j]).len() <= t.len() && forall|k: int| 0 <= k < existing[j].len()
            ==> #[trigger] t[k] == (if existing[j][k] == '/' || existing[j][k] == ':' { '_' } else { existing[j][k] });
        lemma_safe_prefix_chars(t, existing[j]);
    }
}

/// The tarballs to load are exactly the given tarballs, in their order, without
/// those whose name starts with some existing image (any of them, wherever it stands
/// in the list) with `/` and `:` replaced by `_`.
pub proof fn lemma_tarballs_to_load_filters(tarballs: Seq<Seq<char>>, existing: Seq<Seq<char>>)
    ensures
        tarballs_to_load_spec(tarballs, existing) == tarballs.filter(|t: Seq<char>| !(exists|j: int| 0 <= j < existing.len()
            && (#[trigger] existing[j]).len() <= t.len() && forall|k: int| 0 <= k < existing[j].len()
            ==> #[trigger] t[k] == (if existing[j][k] == '/' || existing[j][k] == ':' { '_' } else { existing[j][k] }))),
    decreases tarballs.len(),
{
    let pred = |t: Seq<char>| !(exists|j: int| 0 <= j < existing.len()
            && (#[trigger] existing[j]).len() <= t.len() && forall|k: int| 0 <= k < existing[j].len()
            ==> #[trigger] t[k] == (if existing[j][k] == '/' || existing[j][k] == ':' { '_' } else { existing[j][k] }));
    reveal(Seq::filter);
    if tarballs.len() > 0 {
        lemma_tarballs_to_load_filters(tarballs.drop_last(), existing);
        lemma_already_loaded_chars(tarballs.last(), existing);
        assert(tarball_already_loaded(tarballs.last(), existing) <==> !pred(tarballs.last()));
    }
}

/// Which tarballs are loaded depends only on which images exist, not on the order
/// (or repetition) in which they are listed.
pub proof fn lemma_tarballs_to_load_ignores_image_order(tarballs: Seq<Seq<char>>, e1: Seq<Seq<char>>, e2: Seq<Seq<char>>)
    requires
        forall|img: Seq<char>| e1.contains(img) <==> e2.contains(img),
    ensures
        tarballs_to_load_spec(tarballs, e1) == tarballs_to_load_spec(tarballs, e2),
    decreases tarballs.len(),
{
    if tarballs.len() > 0 {
        lemma_tarballs_to_load_ignores_image_order(tarballs.drop_last(), e1, e2);
        let t = tarballs.last();
        if tarball_already_loaded(t, e1) {
            let j = choose|j: int| 0 <= j < e1.len() && has_prefix(t, safe_image_name(#[trigger] e1[j]));
            assert(e1.contains(e1[j]));
            let i = choose|i: int| 0 <= i < e2.len() && e2[i] == e1[j];
            assert(has_prefix(t, safe_image_name(e2[i])));
        }
        if tarball_already_loaded(t, e2) {
            let j = choose|j: int| 0 <= j < e2.len() && has_prefix(t, safe_image_name(#[trigger] e2[j]));
            assert(e2.contains(e2[j]));
            let i = choose|i: int| 0 <= i < e1.len() && e1[i] == e2[j];
            assert(has_prefix(t, safe_image_name(e1[i])));
        }
    }
}

fn safe_name_chars(image: &str) -> (v: Vec<char>)
    ensures
        v@ == safe_image_name(image@),
{
    let c = chars_of(image);
    let mut v: Vec<char> = Vec::new();
    let mut i: usize = 0;
    while i < c.len()
        invariant
            i <= c@.len(),
            c@ == image@,
            v@ == safe_image_name(c@.take(i as int)),
        decreases c@.len() - i,
    {
        let ch = c[i];
        v.push(if ch == '/' || ch == ':' { '_' } else { ch });
        i = i + 1;
        assert(v@ =~= safe_image_name(c@.take(i as int)));
    }
    assert(c@.take(c@.len() as int) =~= c@);
    v
}

/// Whether `s` starts with `prefix`.
pub fn starts_with_chars(s: &[char], prefix: &[char]) -> (b: bool)
    ensures
        b == has_prefix(s@, prefix@),
{
    if prefix.len() > s.len() {
        return false;
    }
    let mut i: usize = 0;
    while i < prefix.len()
        invariant
            i <= prefix@.len(),
            prefix@.len() <= s@.len(),
            forall|j: int| 0 <= j < i ==> s@[j] == prefix@[j],
        decreases prefix@.len() - i,
    {
        if s[i] != prefix[i] {
            assert(s@.take(prefix@.len() as int)[i as int] != prefix@[i as int]);
            return false;
        }
        i = i + 1;
    }
    assert(s@.take(prefix@.len() as int) =~= prefix@);
    true
}

/// Filter tarballs to only those whose images aren't already present in the inner
/// daemon. Returns `(tarballs_to_load, skipped_count)`.
pub fn filter_tarballs_to_load(tarball_names: Vec<String>, existing_images: &[String]) -> (r: (Vec<String>, usize))
    ensures
        string_views(r.0@) == tarballs_to_load_spec(string_views(tarball_names@), string_views(existing_images@)),
        r.1 == tarball_names@.len() - r.0@.len(),
        r.0@.len() <= tarball_names@.len(),
        ({
            let e = string_views(existing_images@);
            string_views(r.0@) == string_views(tarball_names@).filter(|t: Seq<char>| !(exists|j: int| 0 <= j < e.len()
                && (#[trigger] e[j]).len() <= t.len() && forall|k: int| 0 <= k < e[j].len()
                ==> #[trigger] t[k] == (if e[j][k] == '/' || e[j][k] == ':' { '_' } else { e[j][k] })))
        }),
{
    let ghost existing = string_views(existing_images@);
    let ghost names = string_views(tarball_names@);
    let mut safe: Vec<Vec<char>> = Vec::new();
    let mut e: usize = 0;
    while e < existing_images.len()
        invariant
            e <= existing_images@.len(),
            existing == string_views(existing_images@),
            safe@.len() == e,
            forall|j: int| 0 <= j < e ==> (#[trigger] safe@[j])@ == safe_image_name(existing[j]),
        decreases existing_images@.len() - e,
    {
        safe.push(safe_name_chars(existing_images[e].as_str()));
        e = e + 1;
    }
    let total = tarball_names.len();
    let mut to_load: Vec<String> = Vec::new();
    let mut i: usize = 0;
    while i < total
        invariant
            i <= total,
            total == tarball_names@.len(),
            names == string_views(tarball_names@),
            existing == string_views(existing_images@),
            safe@.len() == existing.len(),
            forall|j: int| 0 <= j < safe@.len() ==> (#[trigger] safe@[j])@ == safe_image_name(existing[j]),
            string_views(to_load@) == tarballs_to_load_spec(names.take(i as int), existing),
            to_load@.len() <= i,
        decreases total - i,
    {
        let t = chars_of(tarball_names[i].as_str());
        let mut found = false;
        let mut j: usize = 0;
        while j < safe.len()
            invariant
                j <= safe@.len(),
                safe@.len() == existing.len(),
                forall|q: int| 0 <= q < safe@.len() ==> (#[trigger] safe@[q])@ == safe_image_name(existing[q]),
                found == exists|q: int| 0 <= q < j && has_prefix(t@, safe_image_name(#[trigger] existing[q])),
            decreases safe@.len() - j,
        {
            if starts_with_chars(t.as_slice(), safe[j].as_slice()) {
                found = true;
            }
            j = j + 1;
        }
        proof {
            assert(names.take(i + 1).drop_last() =~= names.take(i as int));
            assert(names.take(i + 1).last() == tarball_names@[i as int]@);
        }
        if !found {
            let ghost before = string_views(to_load@);
            to_load.push(tarball_names[i].clone());
            assert(string_views(to_load@) =~= before.push(tarball_names@[i as int]@));
        }
        i = i + 1;
    }
    assert(names.take(total as int) =~= names);
    proof {
        lemma_tarballs_to_load_filters(names, existing);
    }
    let skipped = total - to_load.len();
    (to_load, skipped)
}

/// File names `std::path::Path::extension` reports as `tar`: a name ending in `.tar`
/// with something before the dot.
pub open spec fn has_tar_extension(name: Seq<char>) -> bool {
    name.len() > 4 && name.skip(name.len() - 4) == ".tar"@
}

/// `coast-built_{project with / and : replaced by _}_`
pub open spec fn project_tarball_prefix(project: Seq<char>) -> Seq<char> {
    "coast-built_"@ + safe_image_name(project) + "_"@
}

/// A cached tarball is loaded for `project` when it is a `.tar` file that is either one of
/// the project's own built images or a base image (not built for another project).
pub open spec fn project_tarball_selected(name: Seq<char>, project: Seq<char>) -> bool {
    has_tar_extension(name)
        && (has_prefix(name, project_tarball_prefix(project)) || !has_prefix(name, "coast-built_"@))
}

/// The selected file names, in listing order.
pub open spec fn select_project_tarballs_spec(names: Seq<Seq<char>>, project: Seq<char>) -> Seq<Seq<char>>
    decreases names.len(),
{
    if names.len() == 0 {
        Seq::empty()
    } else {
        let rest = select_project_tarballs_spec(names.drop_last(), project);
        if project_tarball_selected(names.last(), project) { rest.push(names.last()) } else { rest }
    }
}

/// Whether a cache file is selected for `project`, stated over its characters.
proof fn lemma_selected_chars(name: Seq<char>, project: Seq<char>)
    ensures
        project_tarball_selected(name, project) <==> (
            name.len() > 4 && name.subrange(name.len() - 4, name.len() as int) == ".tar"@
            && ((name.len() >= 13 + project.len() && name.take(12) == "coast-built_"@
                && (forall|k: int| 0 <= k < project.len() ==> #[trigger] name[12 + k]
                    == (if project[k] == '/' || project[k] == ':' { '_' } else { project[k] }))
                && name[12 + project.len() as int] == '_')
            || !(name.len() >= 12 && name.take(12) == "coast-built_"@))),
{
    reveal_strlit("coast-built_");
    reveal_strlit("_");
    reveal_strlit(".tar");
    let lit = "coast-built_"@;
    let sp = safe_image_name(project);
    let pre = project_tarball_prefix(project);
    assert(lit.len() == 12);
    assert(sp.len() == project.len());
    assert(pre.len() == 13 + project.len());
    assert(name.len() > 4 ==> name.skip(name.len() - 4) =~= name.subrange(name.len() - 4, name.len() as int));
    if has_prefix(name, pre) {
        assert(name.take(12) =~= lit) by {
            assert forall|i: int| 0 <= i < 12 implies name.take(12)[i] == lit[i] by {
                assert(name.take(pre.len() as int)[i] == pre[i]);
            }
        }
        assert forall|k: int| 0 <= k < project.len() implies #[trigger] name[12 + k]
            == (if project[k] == '/' || project[k] == ':' { '_' } else { project[k] }) by {
            assert(name.take(pre.len() as int)[12 + k] == pre[12 + k]);
        }
        assert(name.take(pre.len() as int)[12 + project.len() as int] == pre[12 + project.len() as int]);
    }
    if name.len() >= 13 + project.len() && name.take(12) == lit
        && (forall|k: int| 0 <= k < project.len() ==> #[trigger] name[12 + k]
            == (if project[k] == '/' || project[k] == ':' { '_' } else { project[k] }))
        && name[12 + project.len() as int] == '_' {
        assert(name.take(pre.len() as int) =~= pre) by {
            assert forall|i: int| 0 <= i < pre.len() implies name.take(pre.len() as int)[i] == pre[i] by {
                if i < 12 {
                    assert(name.take(12)[i] == lit[i]);
                } else if i < 12 + project.len() {
                    assert(name[12 + (i - 12)] == sp[i - 12]);
                }
            }
        }
    }
}

/// The cache files loaded for a project are exactly the listed `.tar` files, in
/// listing order, that are this project's own built images
/// (`coast-built_{project with / and : as _}_...`) or no built image at all.
pub proof fn lemma_select_project_tarballs_filters(names: Seq<Seq<char>>, project: Seq<char>)
    ensures
        select_project_tarballs_spec(names, project) == names.filter(|name: Seq<char>|
            name.len() > 4 && name.subrange(name.len() - 4, name.len() as int) == ".tar"@
            && ((name.len() >= 13 + project.len() && name.take(12) == "coast-built_"@
                && (forall|k: int| 0 <= k < project.len() ==> #[trigger] name[12 + k]
                    == (if project[k] == '/' || project[k] == ':' { '_' } else { project[k] }))
                && name[12 + project.len() as int] == '_')
            || !(name.len() >= 12 && name.take(12) == "coast-built_"@))),
    decreases names.len(),
{
    reveal(Seq::filter);
    if names.len() > 0 {
        lemma_select_project_tarballs_filters(names.drop_last(), project);
        lemma_selected_chars(names.last(), project);
    }
}

/// From the file names of the image cache directory, keep this project's coast-built
/// image tarballs plus all base image tarballs.
pub fn select_project_tarballs(file_names: &[String], project: &str) -> (r: Vec<String>)
    ensures
        string_views(r@) == select_project_tarballs_spec(string_views(file_names@), project@),
        string_views(r@) == string_views(file_names@).filter(|name: Seq<char>|
            name.len() > 4 && name.subrange(name.len() - 4, name.len() as int) == ".tar"@
            && ((name.len() >= 13 + project@.len() && name.take(12) == "coast-built_"@
                && (forall|k: int| 0 <= k < project@.len() ==> #[trigger] name[12 + k]
                    == (if project@[k] == '/' || project@[k] == ':' { '_' } else { project@[k] }))
                && name[12 + project@.len() as int] == '_')
            || !(name.len() >= 12 && name.take(12) == "coast-built_"@))),
{
    let ghost names = string_views(file_names@);
    let mut prefix: Vec<char> = Vec::new();
    extend_chars(&mut prefix, "coast-built_");
    let sp = safe_name_chars(project);
    let mut k: usize = 0;
    let ghost p0 = prefix@;
    while k < sp.len()
        invariant
            k <= sp@.len(),
            prefix@ == p0 + sp@.take(k as int),
        decreases sp@.len() - k,
    {
        prefix.push(sp[k]);
        k = k + 1;
        assert(prefix@ =~= p0 + sp@.take(k as int));
    }
    assert(sp@.take(sp@.len() as int) =~= sp@);
    prefix.push('_');
    proof { reveal_strlit("_"); }
    assert(prefix@ =~= project_tarball_prefix(project@));
    let mut built: Vec<char> = Vec::new();
    extend_chars(&mut built, "coast-built_");
    let mut tar: Vec<char> = Vec::new();
    extend_chars(&mut tar, ".tar");
    proof { reveal_strlit(".tar"); }
    let mut out: Vec<String> = Vec::new();
    let mut i: usize = 0;
    while i < file_names.len()
        invariant
            i <= file_names@.len(),
            names == string_views(file_names@),
            prefix@ == project_tarball_prefix(project@),
            built@ == "coast-built_"@,
            tar@ == ".tar"@,
            tar@.len() == 4,
            string_views(out@) == select_project_tarballs_spec(names.take(i as int), project@),
        decreases file_names@.len() - i,
    {
        let name = chars_of(file_names[i].as_str());
        let mut is_tar = false;
        if name.len() > 4 {
            let mut tail: Vec<char> = Vec::new();
            let mut q: usize = name.len() - 4;
            while q < name.len()
                invariant
                    name@.len() > 4,
                    name@.len() - 4 <= q <= name@.len(),
                    tail@ == name@.subrange(name@.len() - 4, q as int),
                decreases name@.len() - q,
            {
                tail.push(name[q]);
                q = q + 1;
                assert(tail@ =~= name@.subrange(name@.len() - 4, q as int));
            }
            assert(tail@ =~= name@.skip(name@.len() - 4));
            is_tar = crate::text::str_eq(string_from(&tail).as_str(), ".tar");
        }
        let selected = is_tar && (starts_with_chars(name.as_slice(), prefix.as_slice())
            || !starts_with_chars(name.as_slice(), built.as_slice()));
        proof {
            assert(names.take(i + 1).drop_last() =~= names.take(i as int));
            assert(names.take(i + 1).last() == file_names@[i as int]@);
        }
        if selected {
            let ghost before = string_views(out@);
            out.push(file_names[i].clone());
            assert(string_views(out@) =~= before.push(file_names@[i as int]@));
        }
        i = i + 1;
    }
    assert(names.take(file_names@.len() as int) =~= names);
    proof { lemma_select_project_tarballs_filters(names, project@); }
    out
}

fn string_from(v: &Vec<char>) -> (s: String)
    ensures
        s@ == v@,
{
    crate::text::string_from_chars(v.as_slice())
}

} // verus!
