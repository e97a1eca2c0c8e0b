//! The `use` items of a parent facade: which names they re-export from a
//! child module, and whether `--fix pub-use` can rewrite them.
//!
//! A `use` tree is held as written: paths, names, renames, globs and
//! groups. The application builds it from the parsed source file.

use vstd::prelude::*;

use crate::boundary::copy_path;
use crate::boundary::path_view;
use crate::boundary::paths_view;
use crate::boundary::pushed;
use crate::boundary::text_is;
use crate::facade_exports::ParentFacadeFixSupport;
use crate::facade_exports::ParentFacadeSpelling;
use crate::facade_paths::UseRename;
use crate::ordered::ascending;
use crate::ordered::insert_text;
use crate::ordered::text_set;
use crate::ordered::texts;
use crate::text::byte_len;
use crate::text::chars_of;
use crate::text::char_width;
use crate::text::leading_lines_len;
use crate::text::lemma_utf8_len_take;
use crate::text::utf8_len;

verus! {

/// A `use` tree as written.
#[derive(Debug)]
pub enum UseTree {
    /// `ident::tree`
    Path { ident: String, tree: Box<UseTree> },
    /// `ident`
    Name { ident: String },
    /// `ident as rename`
    Rename { ident: String, rename: String },
    /// `*`
    Glob,
    /// `{item, ...}`
    Group { items: Vec<UseTree> },
}

/// Every path a `use` tree imports, each behind `prefix`: a rename yields
/// the imported name and then the new one, a glob yields `*`.
pub open spec fn flattened(prefix: Seq<Seq<char>>, tree: UseTree) -> Seq<Seq<Seq<char>>>
    decreases tree,
{
    match tree {
        UseTree::Path { ident, tree: sub } => flattened(prefix.push(ident@), *sub),
        UseTree::Name { ident } => seq![prefix.push(ident@)],
        UseTree::Rename { ident, rename } => seq![prefix.push(ident@).push(rename@)],
        UseTree::Glob => seq![prefix.push("*"@)],
        UseTree::Group { items } => flattened_items(prefix, items@),
    }
}

/// The paths of a group's items, in order.
pub open spec fn flattened_items(prefix: Seq<Seq<char>>, items: Seq<UseTree>) -> Seq<
    Seq<Seq<char>>,
>
    decreases items,
{
    if items.len() == 0 {
        seq![]
    } else {
        flattened_items(prefix, items.drop_last()) + flattened(prefix, items.last())
    }
}

/// Appends to `out` every path `tree` imports, behind `prefix`.
pub fn flatten_use_tree(prefix: Vec<String>, tree: &UseTree, out: &mut Vec<Vec<String>>)
    ensures
        paths_view(final(out)@) == paths_view(old(out)@) + flattened(path_view(prefix@), *tree),
    decreases tree,
{
    match tree {
        UseTree::Path { ident, tree: sub } => {
            let next = pushed(&prefix, ident.as_str());
            flatten_use_tree(next, &**sub, out);
        },
        UseTree::Name { ident } => {
            let next = pushed(&prefix, ident.as_str());
            let ghost before = out@;
            out.push(next);
            assert(paths_view(out@) =~= paths_view(before) + flattened(
                path_view(prefix@),
                *tree,
            ));
        },
        UseTree::Rename { ident, rename } => {
            let first = pushed(&prefix, ident.as_str());
            let next = pushed(&first, rename.as_str());
            let ghost before = out@;
            out.push(next);
            assert(paths_view(out@) =~= paths_view(before) + flattened(
                path_view(prefix@),
                *tree,
            ));
        },
        UseTree::Glob => {
            let next = pushed(&prefix, "*");
            let ghost before = out@;
            out.push(next);
            assert(paths_view(out@) =~= paths_view(before) + flattened(
                path_view(prefix@),
                *tree,
            ));
        },
        UseTree::Group { items } => {
            let ghost start = out@;
            let ghost p = path_view(prefix@);
            let mut i: usize = 0;
            while i < items.len()
                invariant
                    i <= items.len(),
                    p == path_view(prefix@),
                    *tree == (UseTree::Group { items: *items }),
                    paths_view(out@) == paths_view(start) + flattened_items(
                        p,
                        items@.take(i as int),
                    ),
                decreases items.len() - i,
            {
                let ghost before = out@;
                let copy = copy_path(&prefix, prefix.len());
                assert(path_view(prefix@).take(prefix@.len() as int) =~= p);
                proof {
                    assert(decreases_to!(*tree => tree->items));
                    assert(decreases_to!(tree->items => tree->items[i as int]));
                }
                flatten_use_tree(copy, &items[i], out);
                assert(items@.take(i + 1).drop_last() =~= items@.take(i as int));
                assert(items@.take(i + 1).last() == items@[i as int]);
                i = i + 1;
                assert(paths_view(out@) =~= paths_view(start) + flattened_items(
                    p,
                    items@.take(i as int),
                ));
            }
            assert(items@.take(items.len() as int) =~= items@);
        },
    }
}

/// A rename as text: the alias, the path it stands for, and the inline
/// module it is written in.
pub open spec fn rename_view(r: UseRename) -> (Seq<char>, Seq<Seq<char>>, Seq<Seq<char>>) {
    (r.alias@, path_view(r.original_path@), path_view(r.module_suffix@))
}

pub open spec fn rename_views(v: Seq<UseRename>) -> Seq<(Seq<char>, Seq<Seq<char>>, Seq<Seq<char>>)> {
    v.map_values(|r: UseRename| rename_view(r))
}

/// The renames a `use` tree written behind `prefix` in the inline module
/// `suffix` makes: each `ident as alias` stands for the prefix followed by
/// `ident`.
pub open spec fn renames_of(
    prefix: Seq<Seq<char>>,
    tree: UseTree,
    suffix: Seq<Seq<char>>,
) -> Seq<(Seq<char>, Seq<Seq<char>>, Seq<Seq<char>>)>
    decreases tree,
{
    match tree {
        UseTree::Path { ident, tree: sub } => renames_of(prefix.push(ident@), *sub, suffix),
        UseTree::Rename { ident, rename } => seq![(rename@, prefix.push(ident@), suffix)],
        UseTree::Group { items } => renames_of_items(prefix, items@, suffix),
        UseTree::Name { .. } => seq![],
        UseTree::Glob => seq![],
    }
}

/// The renames of a group's items, in order.
pub open spec fn renames_of_items(
    prefix: Seq<Seq<char>>,
    items: Seq<UseTree>,
    suffix: Seq<Seq<char>>,
) -> Seq<(Seq<char>, Seq<Seq<char>>, Seq<Seq<char>>)>
    decreases items,
{
    if items.len() == 0 {
        seq![]
    } else {
        renames_of_items(prefix, items.drop_last(), suffix) + renames_of(prefix, items.last(), suffix)
    }
}

/// Appends to `out` the renames `tree` makes, written behind `prefix` in the
/// inline module `module_suffix`.
pub fn extract_use_renames(
    prefix: Vec<String>,
    tree: &UseTree,
    module_suffix: &Vec<String>,
    out: &mut Vec<UseRename>,
)
    ensures
        rename_views(final(out)@) == rename_views(old(out)@) + renames_of(
            path_view(prefix@),
            *tree,
            path_view(module_suffix@),
        ),
    decreases tree,
{
    match tree {
        UseTree::Path { ident, tree: sub } => {
            let next = pushed(&prefix, ident.as_str());
            extract_use_renames(next, &**sub, module_suffix, out);
        },
        UseTree::Rename { ident, rename } => {
            let original_path = pushed(&prefix, ident.as_str());
            let suffix = copy_path(module_suffix, module_suffix.len());
            assert(path_view(module_suffix@).take(module_suffix@.len() as int) =~= path_view(
                module_suffix@,
            ));
            let ghost before = out@;
            out.push(UseRename { alias: rename.clone(), original_path, module_suffix: suffix });
            assert(rename_views(out@) =~= rename_views(before) + renames_of(
                path_view(prefix@),
                *tree,
                path_view(module_suffix@),
            ));
        },
        UseTree::Group { items } => {
            let ghost start = out@;
            let ghost p = path_view(prefix@);
            let ghost m = path_view(module_suffix@);
            let mut i: usize = 0;
            assert(items@.take(0) =~= seq![]);
            while i < items.len()
                invariant
                    i <= items.len(),
                    p == path_view(prefix@),
                    m == path_view(module_suffix@),
                    *tree == (UseTree::Group { items: *items }),
                    rename_views(out@) == rename_views(start) + renames_of_items(
                        p,
                        items@.take(i as int),
                        m,
                    ),
                decreases items.len() - i,
            {
                let copy = copy_path(&prefix, prefix.len());
                assert(path_view(prefix@).take(prefix@.len() as int) =~= p);
                proof {
                    assert(decreases_to!(*tree => tree->items));
                    assert(decreases_to!(tree->items => tree->items[i as int]));
                }
                extract_use_renames(copy, &items[i], module_suffix, out);
                assert(items@.take(i + 1).drop_last() =~= items@.take(i as int));
                assert(items@.take(i + 1).last() == items@[i as int]);
                i = i + 1;
                assert(rename_views(out@) =~= rename_views(start) + renames_of_items(
                    p,
                    items@.take(i as int),
                    m,
                ));
            }
            assert(items@.take(items.len() as int) =~= items@);
        },
        UseTree::Name { .. } => {
            assert(rename_views(out@) =~= rename_views(out@) + renames_of(
                path_view(prefix@),
                *tree,
                path_view(module_suffix@),
            ));
        },
        UseTree::Glob => {
            assert(rename_views(out@) =~= rename_views(out@) + renames_of(
                path_view(prefix@),
                *tree,
                path_view(module_suffix@),
            ));
        },
    }
}

/// A `use` item: the visibility it is written with, and what it imports.
#[derive(Debug)]
pub struct UseItem {
    pub visibility: ParentFacadeSpelling,
    pub tree: UseTree,
}

/// The names a parent facade re-exports an item under, sorted and without
/// repeats, and whether `--fix pub-use` can rewrite the re-export.
#[derive(Debug)]
pub struct ParentFacadeExports {
    pub explicit: Vec<String>,
    pub fix_support: ParentFacadeFixSupport,
}

/// The `use` keywords a rewritten facade line starts with, for the
/// visibilities a facade can be rewritten from.
pub open spec fn facade_use_prefix_spec(visibility: ParentFacadeSpelling) -> Option<Seq<char>> {
    match visibility {
        ParentFacadeSpelling::Public => Some("pub use"@),
        ParentFacadeSpelling::Crate => Some("pub(crate) use"@),
        ParentFacadeSpelling::Super => Some("pub(super) use"@),
        ParentFacadeSpelling::Other => None,
    }
}

/// The `use` keywords for a facade written with `visibility`, if a fix can
/// rewrite it.
pub fn facade_use_prefix(visibility: ParentFacadeSpelling) -> (r: Option<&'static str>)
    ensures
        match r {
            Some(text) => facade_use_prefix_spec(visibility) == Some(text@),
            None => facade_use_prefix_spec(visibility) is None,
        },
{
    match visibility {
        ParentFacadeSpelling::Public => Some("pub use"),
        ParentFacadeSpelling::Crate => Some("pub(crate) use"),
        ParentFacadeSpelling::Super => Some("pub(super) use"),
        ParentFacadeSpelling::Other => None,
    }
}

/// A path with a leading `self` segment dropped.
pub open spec fn trimmed(p: Seq<Seq<char>>) -> Seq<Seq<char>> {
    if p.len() > 0 && p[0] == "self"@ {
        p.drop_first()
    } else {
        p
    }
}

/// The path goes through the child module `child` and names `item` below
/// it.
pub open spec fn names_child_item(p: Seq<Seq<char>>, child: Seq<char>, item: Seq<char>) -> bool {
    let n = trimmed(p);
    &&& n.len() >= 2
    &&& n[0] == child
    &&& exists|k: int| 1 <= k < n.len() && n[k] == item
}

/// The paths a `use` tree imports.
pub open spec fn use_paths(tree: UseTree) -> Seq<Seq<Seq<char>>> {
    flattened(seq![], tree)
}

/// Some path of the tree names the child's item.
pub open spec fn reexports_child_item(tree: UseTree, child: Seq<char>, item: Seq<char>) -> bool {
    exists|j: int|
        0 <= j < use_paths(tree).len() && names_child_item(#[trigger] use_paths(tree)[j], child, item)
}

/// The names the tree re-exports the child's item under: the last segment
/// of each path that names it.
pub open spec fn export_names_of(tree: UseTree, child: Seq<char>, item: Seq<char>) -> Set<
    Seq<char>,
> {
    Set::new(
        |name: Seq<char>|
            exists|j: int|
                0 <= j < use_paths(tree).len() && names_child_item(
                    #[trigger] use_paths(tree)[j],
                    child,
                    item,
                ) && trimmed(use_paths(tree)[j]).last() == name,
    )
}

/// Whether a fix can rewrite the re-export: the tree imports `item` by its
/// own name straight from the child module, with no rename or glob on the
/// way.
pub open spec fn fix_supported(
    prefix: Seq<Seq<char>>,
    tree: UseTree,
    child: Seq<char>,
    item: Seq<char>,
) -> bool
    decreases tree,
{
    match tree {
        UseTree::Path { ident, tree: sub } => fix_supported(prefix.push(ident@), *sub, child, item),
        UseTree::Name { ident } => {
            let n = trimmed(prefix);
            n.len() == 1 && n[0] == child && ident@ == item
        },
        UseTree::Group { items } => any_fix_supported(prefix, items@, child, item),
        UseTree::Rename { .. } => false,
        UseTree::Glob => false,
    }
}

/// Some item of a group supports the fix.
pub open spec fn any_fix_supported(
    prefix: Seq<Seq<char>>,
    items: Seq<UseTree>,
    child: Seq<char>,
    item: Seq<char>,
) -> bool
    decreases items,
{
    if items.len() == 0 {
        false
    } else {
        any_fix_supported(prefix, items.drop_last(), child, item) || fix_supported(
            prefix,
            items.last(),
            child,
            item,
        )
    }
}

/// The item re-exports the child's item, its visibility has a facade
/// prefix, and its tree is one a fix can rewrite.
pub open spec fn item_fixable(u: UseItem, child: Seq<char>, item: Seq<char>) -> bool {
    &&& reexports_child_item(u.tree, child, item)
    &&& facade_use_prefix_spec(u.visibility) is Some
    &&& fix_supported(seq![], u.tree, child, item)
}

/// Every name the items re-export the child's item under.
pub open spec fn all_export_names(items: Seq<UseItem>, child: Seq<char>, item: Seq<char>) -> Set<
    Seq<char>,
> {
    Set::new(
        |name: Seq<char>|
            exists|i: int|
                0 <= i < items.len() && #[trigger] export_names_of(items[i].tree, child, item).contains(
                    name,
                ),
    )
}

/// Some item re-exports the child's item in a form a fix can rewrite.
pub open spec fn some_item_fixable(items: Seq<UseItem>, child: Seq<char>, item: Seq<char>) -> bool {
    exists|i: int| 0 <= i < items.len() && #[trigger] item_fixable(items[i], child, item)
}

/// Some path the tree imports behind `prefix` reads `child::item` once a
/// leading `self` is dropped, when a fix can rewrite the tree.
proof fn lemma_fix_supported_path(
    prefix: Seq<Seq<char>>,
    tree: UseTree,
    child: Seq<char>,
    item: Seq<char>,
)
    requires
        fix_supported(prefix, tree, child, item),
    ensures
        exists|j: int|
            0 <= j < flattened(prefix, tree).len() && trimmed(#[trigger] flattened(prefix, tree)[j])
                == seq![child, item],
    decreases tree,
{
    match tree {
        UseTree::Path { ident, tree: sub } => {
            lemma_fix_supported_path(prefix.push(ident@), *sub, child, item);
        },
        UseTree::Name { ident } => {
            let p = prefix.push(ident@);
            assert(flattened(prefix, tree)[0] == p);
            if prefix.len() > 0 && prefix[0] == "self"@ {
                assert(trimmed(p) =~= seq![child, item]);
            } else {
                assert(trimmed(p) =~= seq![child, item]);
            }
        },
        UseTree::Group { items } => {
            lemma_any_fix_supported_path(prefix, items@, child, item);
        },
        _ => {},
    }
}

proof fn lemma_any_fix_supported_path(
    prefix: Seq<Seq<char>>,
    items: Seq<UseTree>,
    child: Seq<char>,
    item: Seq<char>,
)
    requires
        any_fix_supported(prefix, items, child, item),
    ensures
        exists|j: int|
            0 <= j < flattened_items(prefix, items).len() && trimmed(
                #[trigger] flattened_items(prefix, items)[j],
            ) == seq![child, item],
    decreases items,
{
    let before = flattened_items(prefix, items.drop_last());
    let last = flattened(prefix, items.last());
    assert(flattened_items(prefix, items) == before + last);
    if any_fix_supported(prefix, items.drop_last(), child, item) {
        lemma_any_fix_supported_path(prefix, items.drop_last(), child, item);
        let j = choose|j: int|
            0 <= j < before.len() && trimmed(#[trigger] before[j]) == seq![child, item];
        assert((before + last)[j] == before[j]);
    } else {
        lemma_fix_supported_path(prefix, items.last(), child, item);
        let j = choose|j: int| 0 <= j < last.len() && trimmed(#[trigger] last[j]) == seq![child, item];
        assert((before + last)[before.len() + j] == last[j]);
    }
}

/// A re-export a fix can rewrite names the child's item directly, so the
/// item is among the names the tree re-exports it under, by its own name.
pub proof fn lemma_fixable_reexport_keeps_its_name(tree: UseTree, child: Seq<char>, item: Seq<char>)
    requires
        fix_supported(seq![], tree, child, item),
    ensures
        reexports_child_item(tree, child, item),
        export_names_of(tree, child, item).contains(item),
{
    lemma_fix_supported_path(seq![], tree, child, item);
    let j = choose|j: int|
        0 <= j < flattened(seq![], tree).len() && trimmed(#[trigger] flattened(seq![], tree)[j])
            == seq![child, item];
    let n = trimmed(use_paths(tree)[j]);
    assert(n[1] == item);
    assert(names_child_item(use_paths(tree)[j], child, item));
    assert(n.last() == item);
}

/// Where a path's segments start once a leading `self` is dropped.
fn trimmed_start(p: &Vec<String>) -> (r: usize)
    ensures
        r <= p.len(),
        trimmed(path_view(p@)) == path_view(p@).skip(r as int),
{
    if p.len() > 0 && text_is(&p[0], "self") {
        assert(path_view(p@).drop_first() =~= path_view(p@).skip(1));
        1
    } else {
        assert(path_view(p@) =~= path_view(p@).skip(0));
        0
    }
}

/// Whether the path names `item` below the child module `child`.
fn path_names_child_item(p: &Vec<String>, child: &str, item: &str) -> (r: bool)
    ensures
        r == names_child_item(path_view(p@), child@, item@),
{
    let start = trimmed_start(p);
    let ghost n = path_view(p@).skip(start as int);
    if p.len() - start < 2 || !text_is(&p[start], child) {
        return false;
    }
    let mut k: usize = start + 1;
    while k < p.len()
        invariant
            start + 1 <= k <= p.len(),
            n == path_view(p@).skip(start as int),
            trimmed(path_view(p@)) == n,
            n.len() == p.len() - start,
            n.len() >= 2,
            n[0] == child@,
            forall|m: int| 1 <= m < k - start ==> n[m] != item@,
        decreases p.len() - k,
    {
        assert(n[k - start] == p@[k as int]@);
        if text_is(&p[k], item) {
            assert(n[k - start] == item@);
            assert(trimmed(path_view(p@)) == n);
            return true;
        }
        k = k + 1;
    }
    false
}

/// Whether a fix can rewrite the re-export of `item` from the child module
/// `child`, for a tree written behind `prefix`.
pub fn pub_use_is_fix_supported_with_prefix(
    prefix: Vec<String>,
    tree: &UseTree,
    child: &str,
    item: &str,
) -> (r: bool)
    ensures
        r == fix_supported(path_view(prefix@), *tree, child@, item@),
    decreases tree,
{
    match tree {
        UseTree::Path { ident, tree: sub } => {
            let next = pushed(&prefix, ident.as_str());
            pub_use_is_fix_supported_with_prefix(next, &**sub, child, item)
        },
        UseTree::Name { ident } => {
            let start = trimmed_start(&prefix);
            prefix.len() - start == 1 && text_is(&prefix[start], child) && text_is(ident, item)
        },
        UseTree::Group { items } => {
            let ghost p = path_view(prefix@);
            let mut found = false;
            let mut i: usize = 0;
            while i < items.len()
                invariant
                    i <= items.len(),
                    p == path_view(prefix@),
                    *tree == (UseTree::Group { items: *items }),
                    found == any_fix_supported(p, items@.take(i as int), child@, item@),
                decreases items.len() - i,
            {
                let copy = copy_path(&prefix, prefix.len());
                assert(path_view(prefix@).take(prefix@.len() as int) =~= p);
                proof {
                    assert(decreases_to!(*tree => tree->items));
                    assert(decreases_to!(tree->items => tree->items[i as int]));
                }
                let here = pub_use_is_fix_supported_with_prefix(copy, &items[i], child, item);
                assert(items@.take(i + 1).drop_last() =~= items@.take(i as int));
                assert(items@.take(i + 1).last() == items@[i as int]);
                found = found || here;
                i = i + 1;
            }
            assert(items@.take(items.len() as int) =~= items@);
            found
        },
        UseTree::Rename { .. } => false,
        UseTree::Glob => false,
    }
}

/// Whether a fix can rewrite the re-export of `item` from the child module
/// `child`.
pub fn pub_use_is_fix_supported(tree: &UseTree, child: &str, item: &str) -> (r: bool)
    ensures
        r == fix_supported(seq![], *tree, child@, item@),
{
    let prefix: Vec<String> = Vec::new();
    assert(path_view(prefix@) =~= seq![]);
    pub_use_is_fix_supported_with_prefix(prefix, tree, child, item)
}

/// Adds to `exported` the names `item_use` re-exports the child's item
/// under, and marks the fix supported when the item re-exports it and a fix
/// can rewrite the line.
pub fn collect_matching_pub_use_exports(
    item_use: &UseItem,
    child: &str,
    item: &str,
    exported: &mut ParentFacadeExports,
)
    requires
        ascending(texts(old(exported).explicit@)),
    ensures
        ascending(texts(final(exported).explicit@)),
        text_set(final(exported).explicit@) == text_set(old(exported).explicit@).union(
            export_names_of(item_use.tree, child@, item@),
        ),
        final(exported).fix_support == (if item_fixable(*item_use, child@, item@) {
            ParentFacadeFixSupport::Supported
        } else {
            old(exported).fix_support
        }),
{
    let mut paths: Vec<Vec<String>> = Vec::new();
    let empty: Vec<String> = Vec::new();
    assert(path_view(empty@) =~= seq![]);
    flatten_use_tree(empty, &item_use.tree, &mut paths);
    assert(paths_view(paths@) =~= use_paths(item_use.tree));
    let ghost all = use_paths(item_use.tree);
    let ghost names = export_names_of(item_use.tree, child@, item@);
    let ghost start = text_set(exported.explicit@);
    let mut matched = false;
    let mut j: usize = 0;
    while j < paths.len()
        invariant
            j <= paths.len(),
            all == paths_view(paths@),
            all == use_paths(item_use.tree),
            names == export_names_of(item_use.tree, child@, item@),
            ascending(texts(exported.explicit@)),
            exported.fix_support == old(exported).fix_support,
            text_set(exported.explicit@) == start.union(
                Set::new(
                    |name: Seq<char>|
                        exists|m: int|
                            0 <= m < j && names_child_item(#[trigger] all[m], child@, item@)
                                && trimmed(all[m]).last() == name,
                ),
            ),
            matched == exists|m: int| 0 <= m < j && names_child_item(#[trigger] all[m], child@, item@),
        decreases paths.len() - j,
    {
        let ghost before = text_set(exported.explicit@);
        assert(path_view(paths@[j as int]@) == all[j as int]);
        if path_names_child_item(&paths[j], child, item) {
            let start_at = trimmed_start(&paths[j]);
            let last = paths[j][paths[j].len() - 1].clone();
            assert(last@ == trimmed(all[j as int]).last());
            insert_text(&mut exported.explicit, last);
            matched = true;
        }
        j = j + 1;
        assert(text_set(exported.explicit@) =~= start.union(
            Set::new(
                |name: Seq<char>|
                    exists|m: int|
                        0 <= m < j && names_child_item(#[trigger] all[m], child@, item@)
                            && trimmed(all[m]).last() == name,
            ),
        )) by {
            assert forall|name: Seq<char>|
                text_set(exported.explicit@).contains(name) <==> start.union(
                    Set::new(
                        |nm: Seq<char>|
                            exists|m: int|
                                0 <= m < j && names_child_item(#[trigger] all[m], child@, item@)
                                    && trimmed(all[m]).last() == nm,
                    ),
                ).contains(name) by {
                if names_child_item(all[j - 1], child@, item@) && trimmed(all[j - 1]).last()
                    == name {
                    assert(start.union(
                        Set::new(
                            |nm: Seq<char>|
                                exists|m: int|
                                    0 <= m < j && names_child_item(
                                        #[trigger] all[m],
                                        child@,
                                        item@,
                                    ) && trimmed(all[m]).last() == nm,
                        ),
                    ).contains(name));
                }
            }
        }
    }
    assert(start.union(
        Set::new(
            |name: Seq<char>|
                exists|m: int|
                    0 <= m < paths.len() && names_child_item(#[trigger] all[m], child@, item@)
                        && trimmed(all[m]).last() == name,
        ),
    ) =~= start.union(names));
    if matched && facade_use_prefix(item_use.visibility).is_some()
        && pub_use_is_fix_supported(&item_use.tree, child, item) {
        exported.fix_support = ParentFacadeFixSupport::Supported;
    }
}

/// The names a parent facade's `use` items re-export the child module's
/// item under, sorted and without repeats, and whether some item can be
/// rewritten by a fix.
pub fn exported_names_from_parent_boundary(
    items: &Vec<UseItem>,
    child: &str,
    item: &str,
) -> (r: ParentFacadeExports)
    ensures
        ascending(texts(r.explicit@)),
        text_set(r.explicit@) == all_export_names(items@, child@, item@),
        r.fix_support == (if some_item_fixable(items@, child@, item@) {
            ParentFacadeFixSupport::Supported
        } else {
            ParentFacadeFixSupport::Unsupported
        }),
{
    let mut exported = ParentFacadeExports {
        explicit: Vec::new(),
        fix_support: ParentFacadeFixSupport::Unsupported,
    };
    assert(text_set(exported.explicit@) =~= Set::empty());
    let mut i: usize = 0;
    while i < items.len()
        invariant
            i <= items.len(),
            ascending(texts(exported.explicit@)),
            text_set(exported.explicit@) == all_export_names(items@.take(i as int), child@, item@),
            exported.fix_support == (if some_item_fixable(items@.take(i as int), child@, item@) {
                ParentFacadeFixSupport::Supported
            } else {
                ParentFacadeFixSupport::Unsupported
            }),
        decreases items.len() - i,
    {
        collect_matching_pub_use_exports(&items[i], child, item, &mut exported);
        let ghost now = items@.take(i + 1);
        let ghost was = items@.take(i as int);
        assert(now[i as int] == items@[i as int]);
        assert(all_export_names(now, child@, item@) =~= all_export_names(was, child@, item@).union(
            export_names_of(items@[i as int].tree, child@, item@),
        )) by {
            assert forall|name: Seq<char>|
                #[trigger] all_export_names(now, child@, item@).contains(name) implies all_export_names(
                was,
                child@,
                item@,
            ).union(export_names_of(items@[i as int].tree, child@, item@)).contains(name) by {
                let k = choose|k: int|
                    0 <= k < now.len() && #[trigger] export_names_of(
                        now[k].tree,
                        child@,
                        item@,
                    ).contains(name);
                if k < i {
                    assert(was[k] == now[k]);
                }
            }
            assert forall|name: Seq<char>|
                all_export_names(was, child@, item@).contains(name) implies #[trigger] all_export_names(
                now,
                child@,
                item@,
            ).contains(name) by {
                let k = choose|k: int|
                    0 <= k < was.len() && #[trigger] export_names_of(
                        was[k].tree,
                        child@,
                        item@,
                    ).contains(name);
                assert(now[k] == was[k]);
            }
        }
        assert(some_item_fixable(now, child@, item@) == (some_item_fixable(was, child@, item@)
            || item_fixable(items@[i as int], child@, item@))) by {
            if some_item_fixable(now, child@, item@) {
                let k = choose|k: int|
                    0 <= k < now.len() && #[trigger] item_fixable(now[k], child@, item@);
                if k < i {
                    assert(was[k] == now[k]);
                }
            }
            if some_item_fixable(was, child@, item@) {
                let k = choose|k: int|
                    0 <= k < was.len() && #[trigger] item_fixable(was[k], child@, item@);
                assert(now[k] == was[k]);
            }
        }
        i = i + 1;
    }
    assert(items@.take(items.len() as int) =~= items@);
    exported
}

/// Whether the crate's root module re-exports `item` from the child module
/// `child_module` (none when the child's file names no child module):
/// some `use` item of the root file (none when it was not parsed) names it.
pub fn root_module_exports_item(
    child_module: Option<&str>,
    root_uses: Option<&Vec<UseItem>>,
    item: &str,
) -> (r: bool)
    ensures
        r == (child_module is Some && root_uses is Some && all_export_names(
            root_uses->0@,
            child_module->0@,
            item@,
        ) != Set::<Seq<char>>::empty()),
{
    let child = match child_module {
        Some(c) => c,
        None => return false,
    };
    let uses = match root_uses {
        Some(u) => u,
        None => return false,
    };
    let exports = exported_names_from_parent_boundary(uses, child, item);
    proof {
        let names = all_export_names(uses@, child@, item@);
        if exports.explicit.len() > 0 {
            assert(texts(exports.explicit@)[0] == exports.explicit@[0]@);
            assert(texts(exports.explicit@).to_set().contains(exports.explicit@[0]@));
            assert(names.contains(exports.explicit@[0]@));
        } else {
            assert(texts(exports.explicit@).to_set() =~= Set::<Seq<char>>::empty());
        }
    }
    exports.explicit.len() > 0
}

/// A `use` item of a parsed parent file, with the byte offset its text
/// starts at, when its position lies within the file.
#[derive(Debug)]
pub struct LocatedUseItem {
    pub start_offset: Option<usize>,
    pub item: UseItem,
}

/// The position of the first item that starts at `offset`.
pub open spec fn first_at_offset(items: Seq<LocatedUseItem>, offset: usize) -> Option<int> {
    if exists|i: int| 0 <= i < items.len() && #[trigger] items[i].start_offset == Some(offset) {
        Some(
            choose|i: int|
                0 <= i < items.len() && #[trigger] items[i].start_offset == Some(offset) && forall|
                    j: int,
                |
                    0 <= j < i ==> #[trigger] items[j].start_offset != Some(offset),
        )
    } else {
        None
    }
}

/// Whether a fix can rewrite the re-export written at `use_offset` of the
/// parent file: the item is re-exported once, the child file names a child
/// module, the parent file was parsed, and the `use` item starting there has
/// a facade prefix and a tree a fix can rewrite.
pub open spec fn located_fix_supported(
    unique_export: bool,
    child: Option<Seq<char>>,
    uses: Option<Seq<LocatedUseItem>>,
    use_offset: usize,
    item: Seq<char>,
) -> bool {
    &&& unique_export
    &&& child is Some
    &&& uses is Some
    &&& first_at_offset(uses->0, use_offset) is Some
    &&& facade_use_prefix_spec(uses->0[first_at_offset(uses->0, use_offset)->0].item.visibility) is Some
    &&& fix_supported(
        seq![],
        uses->0[first_at_offset(uses->0, use_offset)->0].item.tree,
        child->0,
        item,
    )
}

/// Whether `--fix pub-use` can rewrite the parent facade's re-export of
/// `item` written at `use_offset`. `child_module` is the child module the
/// child file declares, if it declares one; `uses` are the parent file's
/// `use` items, if it could be read and parsed.
pub fn parent_facade_fix_support(
    unique_export: bool,
    child_module: Option<&str>,
    uses: Option<&Vec<LocatedUseItem>>,
    use_offset: usize,
    item: &str,
) -> (r: ParentFacadeFixSupport)
    ensures
        r == (if located_fix_supported(
            unique_export,
            match child_module {
                Some(c) => Some(c@),
                None => None,
            },
            match uses {
                Some(v) => Some(v@),
                None => None,
            },
            use_offset,
            item@,
        ) {
            ParentFacadeFixSupport::Supported
        } else {
            ParentFacadeFixSupport::Unsupported
        }),
{
    if !unique_export {
        return ParentFacadeFixSupport::Unsupported;
    }
    let child = match child_module {
        Some(c) => c,
        None => return ParentFacadeFixSupport::Unsupported,
    };
    let items = match uses {
        Some(v) => v,
        None => return ParentFacadeFixSupport::Unsupported,
    };
    let mut i: usize = 0;
    while i < items.len()
        invariant
            i <= items.len(),
            unique_export,
            child_module == Some(child),
            uses == Some(items),
            forall|j: int| 0 <= j < i ==> #[trigger] items@[j].start_offset != Some(use_offset),
        decreases items.len() - i,
    {
        if items[i].start_offset == Some(use_offset) {
            let found = &items[i].item;
            proof {
                let w = first_at_offset(items@, use_offset);
                assert(items@[i as int].start_offset == Some(use_offset));
                assert(w is Some);
                let k = w->0;
                assert(items@[k].start_offset == Some(use_offset));
                if k < i {
                    assert(items@[k].start_offset != Some(use_offset));
                }
                if k > i {
                    assert(items@[i as int].start_offset != Some(use_offset));
                }
                assert(k == i);
            }
            if facade_use_prefix(found.visibility).is_some() && pub_use_is_fix_supported(
                &found.tree,
                child,
                item,
            ) {
                return ParentFacadeFixSupport::Supported;
            }
            return ParentFacadeFixSupport::Unsupported;
        }
        i = i + 1;
    }
    ParentFacadeFixSupport::Unsupported
}

/// The byte offset of a `use` item's first character, given the 1-based
/// line and 0-based column its span starts at: the bytes of the lines
/// before it plus the column, when that lies within the source.
pub open spec fn start_offset_spec(source: Seq<char>, line: nat, column: nat) -> Option<nat> {
    let lines_before: nat = if line >= 1 {
        (line - 1) as nat
    } else {
        0
    };
    let before = utf8_len(source.take(leading_lines_len(source, lines_before) as int));
    if before + column <= utf8_len(source) {
        Some(before + column)
    } else {
        None
    }
}

/// The byte offset a `use` item starts at in `source`, from the line
/// (1-based) and column its span starts at.
pub fn item_use_start_offset(source: &str, line: usize, column: usize) -> (r: Option<usize>)
    ensures
        match r {
            Some(o) => start_offset_spec(source@, line as nat, column as nat) == Some(o as nat),
            None => start_offset_spec(source@, line as nat, column as nat) is None,
        },
{
    let v = chars_of(source);
    let total = byte_len(source);
    let ghost s = source@;
    let lines_before: usize = if line >= 1 {
        line - 1
    } else {
        0
    };
    let mut remaining: usize = lines_before;
    let mut bytes: usize = 0;
    let mut i: usize = 0;
    assert(s.skip(0) =~= s);
    assert(s.take(0) =~= seq![]);
    while i < v.len() && remaining > 0
        invariant
            v@ == s,
            i <= v.len(),
            total == utf8_len(s),
            bytes == utf8_len(s.take(i as int)),
            i + leading_lines_len(s.skip(i as int), remaining as nat) == leading_lines_len(
                s,
                lines_before as nat,
            ),
        decreases v.len() - i,
    {
        let c = v[i];
        assert(s.skip(i as int).drop_first() =~= s.skip(i + 1));
        assert(s.skip(i as int)[0] == c);
        if c == '\n' {
            remaining = remaining - 1;
        }
        proof {
            assert(s.take(i + 1).drop_last() =~= s.take(i as int));
            lemma_utf8_len_take(s, i + 1);
        }
        bytes = bytes + char_width(c);
        i = i + 1;
    }
    proof {
        if i == v.len() {
            assert(s.skip(i as int).len() == 0);
        }
        lemma_utf8_len_take(s, i as int);
    }
    if column <= total - bytes {
        Some(bytes + column)
    } else {
        None
    }
}

} // verus!
