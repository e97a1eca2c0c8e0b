//! Which files an out-of-line `mod name;` declaration may live in: the
//! files its `#[path = ..]` attributes name, else `name.rs` and
//! `name/mod.rs`, and every file a `#[cfg_attr(.., path = ..)]` names for
//! some configuration.
//!
//! Attributes are held as meta items (see [`crate::feature_gates`]).

use vstd::prelude::*;

use crate::feature_gates::MetaItem;
use crate::feature_gates::ident_of;
use crate::feature_gates::meta_ident_is;
use crate::settings::join_path;
use crate::settings::joined_path;

verus! {

/// What `Path == Path` answers for two paths given as text: whether they
/// have the same components.
pub uninterp spec fn same_path(a: Seq<char>, b: Seq<char>) -> bool;

/// Whether two paths have the same components.
///
/// Wraps `<Path as PartialEq>::eq`; the contract only names its result.
#[verifier::external_body]
fn paths_equal(a: &str, b: &str) -> (r: bool)
    ensures
        r == same_path(a@, b@),
{
    std::path::Path::new(a) == std::path::Path::new(b)
}

/// The string a `name = "..."` meta item assigns, if it assigns one.
pub open spec fn path_from_meta_spec(meta: MetaItem) -> Option<Seq<char>> {
    match meta {
        MetaItem::NameValue { value, .. } => match value {
            Some(text) => Some(text@),
            None => None,
        },
        _ => None,
    }
}

/// The file a `#[path = "..."]` attribute names.
pub open spec fn direct_path_spec(attribute: MetaItem) -> Option<Seq<char>> {
    if ident_of(attribute) == Some("path"@) {
        path_from_meta_spec(attribute)
    } else {
        None
    }
}

/// The files a meta item applied by `cfg_attr` names: a `path = "..."`
/// names one; a nested `cfg_attr(predicate, ..)` names those of the
/// attributes it applies.
pub open spec fn conditional_paths(meta: MetaItem) -> Seq<Seq<char>>
    decreases meta,
{
    if ident_of(meta) == Some("path"@) {
        match path_from_meta_spec(meta) {
            Some(path) => seq![path],
            None => seq![],
        }
    } else if ident_of(meta) != Some("cfg_attr"@) {
        seq![]
    } else {
        match meta {
            MetaItem::List { nested, .. } => match nested {
                Some(v) => if v@.len() > 0 {
                    conditional_paths_all(v@.drop_first())
                } else {
                    seq![]
                },
                None => seq![],
            },
            _ => seq![],
        }
    }
}

/// The files a list of applied attributes names, in order.
pub open spec fn conditional_paths_all(s: Seq<MetaItem>) -> Seq<Seq<char>>
    decreases s,
{
    if s.len() == 0 {
        seq![]
    } else {
        conditional_paths_all(s.drop_last()) + conditional_paths(s.last())
    }
}

/// The files a `#[cfg_attr(predicate, attributes..)]` names through the
/// attributes it applies; none for another attribute, or one whose
/// arguments do not read as meta items.
pub open spec fn conditional_path_attributes_spec(attribute: MetaItem) -> Seq<Seq<char>> {
    if ident_of(attribute) == Some("cfg_attr"@) {
        match attribute {
            MetaItem::List { nested, .. } => match nested {
                Some(v) => if v@.len() > 0 {
                    conditional_paths_all(v@.drop_first())
                } else {
                    seq![]
                },
                None => seq![],
            },
            _ => seq![],
        }
    } else {
        seq![]
    }
}

/// The string a `name = "..."` meta item assigns.
pub fn path_from_meta(meta: &MetaItem) -> (r: Option<String>)
    ensures
        match r {
            Some(text) => path_from_meta_spec(*meta) == Some(text@),
            None => path_from_meta_spec(*meta) is None,
        },
{
    match meta {
        MetaItem::NameValue { value, .. } => match value {
            Some(text) => Some(text.clone()),
            None => None,
        },
        _ => None,
    }
}

/// The file a `#[path = "..."]` attribute names.
pub fn direct_path_attribute(attribute: &MetaItem) -> (r: Option<String>)
    ensures
        match r {
            Some(text) => direct_path_spec(*attribute) == Some(text@),
            None => direct_path_spec(*attribute) is None,
        },
{
    if !meta_ident_is(attribute, "path") {
        return None;
    }
    path_from_meta(attribute)
}

pub open spec fn texts_of(v: Seq<String>) -> Seq<Seq<char>> {
    v.map_values(|s: String| s@)
}

/// Appends the files `meta` names when `cfg_attr` applies it.
pub fn collect_conditional_paths(meta: &MetaItem, paths: &mut Vec<String>)
    ensures
        texts_of(final(paths)@) == texts_of(old(paths)@) + conditional_paths(*meta),
    decreases meta,
{
    if meta_ident_is(meta, "path") {
        if let Some(path) = path_from_meta(meta) {
            let ghost before = paths@;
            paths.push(path);
            assert(texts_of(paths@) =~= texts_of(before) + conditional_paths(*meta));
        } else {
            assert(texts_of(paths@) =~= texts_of(paths@) + conditional_paths(*meta));
        }
        return;
    }
    if !meta_ident_is(meta, "cfg_attr") {
        assert(texts_of(paths@) =~= texts_of(paths@) + conditional_paths(*meta));
        return;
    }
    match meta {
        MetaItem::List { nested, .. } => match nested {
            Some(items) => {
                if items.len() == 0 {
                    assert(texts_of(paths@) =~= texts_of(paths@) + conditional_paths(*meta));
                    return;
                }
                let ghost start = paths@;
                let ghost rest = items@.drop_first();
                let mut i: usize = 1;
                assert(items@.subrange(1, 1) =~= seq![]);
                assert(texts_of(paths@) =~= texts_of(start) + conditional_paths_all(
                    items@.subrange(1, 1),
                ));
                while i < items.len()
                    invariant
                        1 <= i <= items.len(),
                        *meta is List,
                        meta->nested == Some(*items),
                        texts_of(paths@) == texts_of(start) + conditional_paths_all(
                            items@.subrange(1, i as int),
                        ),
                    decreases items.len() - i,
                {
                    proof {
                        assert(decreases_to!(*meta => meta->nested));
                        assert(decreases_to!(meta->nested => meta->nested->0));
                        assert(decreases_to!(meta->nested->0 => meta->nested->0[i as int]));
                    }
                    let ghost before = paths@;
                    collect_conditional_paths(&items[i], paths);
                    assert(items@.subrange(1, i + 1).drop_last() =~= items@.subrange(1, i as int));
                    assert(items@.subrange(1, i + 1).last() == items@[i as int]);
                    i = i + 1;
                    assert(texts_of(paths@) =~= texts_of(start) + conditional_paths_all(
                        items@.subrange(1, i as int),
                    ));
                }
                assert(items@.subrange(1, items.len() as int) =~= rest);
            },
            None => {
                assert(texts_of(paths@) =~= texts_of(paths@) + conditional_paths(*meta));
            },
        },
        _ => {
            assert(texts_of(paths@) =~= texts_of(paths@) + conditional_paths(*meta));
        },
    }
}

/// The files a `#[cfg_attr(..)]` attribute names through the attributes it
/// applies.
pub fn conditional_path_attributes(attribute: &MetaItem) -> (r: Vec<String>)
    ensures
        texts_of(r@) == conditional_path_attributes_spec(*attribute),
{
    let mut paths: Vec<String> = Vec::new();
    assert(texts_of(paths@) =~= seq![]);
    if !meta_ident_is(attribute, "cfg_attr") {
        return paths;
    }
    match attribute {
        MetaItem::List { nested, .. } => match nested {
            Some(items) => {
                if items.len() == 0 {
                    return paths;
                }
                let mut i: usize = 1;
                assert(items@.subrange(1, 1) =~= seq![]);
                while i < items.len()
                    invariant
                        1 <= i <= items.len(),
                        texts_of(paths@) == conditional_paths_all(items@.subrange(1, i as int)),
                    decreases items.len() - i,
                {
                    collect_conditional_paths(&items[i], &mut paths);
                    assert(items@.subrange(1, i + 1).drop_last() =~= items@.subrange(1, i as int));
                    assert(items@.subrange(1, i + 1).last() == items@[i as int]);
                    i = i + 1;
                }
                assert(items@.subrange(1, items.len() as int) =~= items@.drop_first());
                paths
            },
            None => paths,
        },
        _ => paths,
    }
}

/// The files each attribute names directly, below `dir`, in order.
pub open spec fn direct_candidates(dir: Seq<char>, attributes: Seq<MetaItem>) -> Seq<Seq<char>>
    decreases attributes.len(),
{
    if attributes.len() == 0 {
        seq![]
    } else {
        let rest = direct_candidates(dir, attributes.drop_last());
        match direct_path_spec(attributes.last()) {
            Some(path) => rest.push(joined_path(dir, path)),
            None => rest,
        }
    }
}

/// The files the attributes name through `cfg_attr`, in order.
pub open spec fn conditional_candidates(attributes: Seq<MetaItem>) -> Seq<Seq<char>>
    decreases attributes.len(),
{
    if attributes.len() == 0 {
        seq![]
    } else {
        conditional_candidates(attributes.drop_last()) + conditional_path_attributes_spec(
            attributes.last(),
        )
    }
}

/// `candidates` with each of `extra`, joined below `dir`, appended unless a
/// candidate already names the same path.
pub open spec fn with_new_paths(
    candidates: Seq<Seq<char>>,
    dir: Seq<char>,
    extra: Seq<Seq<char>>,
) -> Seq<Seq<char>>
    decreases extra.len(),
{
    if extra.len() == 0 {
        candidates
    } else {
        let before = with_new_paths(candidates, dir, extra.drop_last());
        let candidate = joined_path(dir, extra.last());
        if exists|i: int| 0 <= i < before.len() && same_path(#[trigger] before[i], candidate) {
            before
        } else {
            before.push(candidate)
        }
    }
}

/// The files an out-of-line `mod name;` may live in, below the declaring
/// module's directory `dir`: those its `#[path]` attributes name, or else
/// `name.rs` and `name/mod.rs`; then each file a `cfg_attr` names that is
/// not among them yet.
pub open spec fn module_file_candidates(
    name: Seq<char>,
    attributes: Seq<MetaItem>,
    dir: Seq<char>,
) -> Seq<Seq<char>> {
    let direct = direct_candidates(dir, attributes);
    let base = if direct.len() == 0 {
        seq![joined_path(dir, name + ".rs"@), joined_path(joined_path(dir, name), "mod.rs"@)]
    } else {
        direct
    };
    with_new_paths(base, dir, conditional_candidates(attributes))
}

/// The files an out-of-line `mod name;` declared with `attributes` may
/// live in, below the declaring module's directory.
pub fn external_module_files(name: &str, attributes: &Vec<MetaItem>, module_directory: &str) -> (r:
    Vec<String>)
    ensures
        texts_of(r@) == module_file_candidates(name@, attributes@, module_directory@),
{
    let ghost dir = module_directory@;
    let mut candidates: Vec<String> = Vec::new();
    let mut i: usize = 0;
    assert(attributes@.take(0) =~= seq![]);
    while i < attributes.len()
        invariant
            i <= attributes.len(),
            dir == module_directory@,
            texts_of(candidates@) == direct_candidates(dir, attributes@.take(i as int)),
        decreases attributes.len() - i,
    {
        let ghost before = candidates@;
        assert(attributes@.take(i + 1).drop_last() =~= attributes@.take(i as int));
        assert(attributes@.take(i + 1).last() == attributes@[i as int]);
        if let Some(path) = direct_path_attribute(&attributes[i]) {
            candidates.push(join_path(module_directory, path.as_str()));
            assert(texts_of(candidates@) =~= texts_of(before).push(joined_path(dir, path@)));
        }
        i = i + 1;
    }
    assert(attributes@.take(attributes.len() as int) =~= attributes@);
    if candidates.len() == 0 {
        let mut file_name = String::from_str(name);
        file_name.append(".rs");
        let below = join_path(module_directory, name);
        let ghost before = candidates@;
        candidates.push(join_path(module_directory, file_name.as_str()));
        candidates.push(join_path(below.as_str(), "mod.rs"));
        assert(texts_of(candidates@) =~= seq![
            joined_path(dir, name@ + ".rs"@),
            joined_path(joined_path(dir, name@), "mod.rs"@),
        ]);
    }
    let ghost base = texts_of(candidates@);
    let ghost extra_all = conditional_candidates(attributes@);
    let mut extra: Vec<String> = Vec::new();
    let mut j: usize = 0;
    assert(texts_of(extra@) =~= seq![]);
    assert(attributes@.take(0) =~= seq![]);
    while j < attributes.len()
        invariant
            j <= attributes.len(),
            texts_of(extra@) == conditional_candidates(attributes@.take(j as int)),
        decreases attributes.len() - j,
    {
        let found = conditional_path_attributes(&attributes[j]);
        let ghost before = extra@;
        let mut k: usize = 0;
        while k < found.len()
            invariant
                k <= found.len(),
                texts_of(extra@) == texts_of(before) + texts_of(found@).take(k as int),
            decreases found.len() - k,
        {
            let ghost was = extra@;
            let copy = found[k].clone();
            assert(copy@ == texts_of(found@)[k as int]);
            extra.push(copy);
            assert(texts_of(extra@) =~= texts_of(was).push(copy@));
            assert(texts_of(found@).take(k + 1) =~= texts_of(found@).take(k as int).push(copy@));
            k = k + 1;
            assert(texts_of(extra@) =~= texts_of(before) + texts_of(found@).take(k as int));
        }
        assert(texts_of(found@).take(found.len() as int) =~= texts_of(found@));
        assert(attributes@.take(j + 1).drop_last() =~= attributes@.take(j as int));
        assert(attributes@.take(j + 1).last() == attributes@[j as int]);
        j = j + 1;
    }
    assert(attributes@.take(attributes.len() as int) =~= attributes@);
    let mut e: usize = 0;
    assert(texts_of(extra@).take(0) =~= seq![]);
    while e < extra.len()
        invariant
            e <= extra.len(),
            dir == module_directory@,
            texts_of(extra@) == extra_all,
            texts_of(candidates@) == with_new_paths(base, dir, extra_all.take(e as int)),
        decreases extra.len() - e,
    {
        let candidate = join_path(module_directory, extra[e].as_str());
        let ghost now = texts_of(candidates@);
        assert(extra_all.take(e + 1).drop_last() =~= extra_all.take(e as int));
        assert(extra_all.take(e + 1).last() == extra@[e as int]@);
        let mut present = false;
        let mut c: usize = 0;
        while c < candidates.len()
            invariant
                c <= candidates.len(),
                now == texts_of(candidates@),
                present == exists|m: int| 0 <= m < c && same_path(#[trigger] now[m], candidate@),
            decreases candidates.len() - c,
        {
            let same = paths_equal(candidates[c].as_str(), candidate.as_str());
            assert(now[c as int] == candidates@[c as int]@);
            present = present || same;
            c = c + 1;
        }
        if !present {
            candidates.push(candidate);
            assert(texts_of(candidates@) =~= now.push(joined_path(dir, extra@[e as int]@)));
        }
        e = e + 1;
    }
    assert(extra_all.take(extra.len() as int) =~= extra_all);
    candidates
}

} // verus!
