//! The house rules for `pub(crate)` and for items whose `pub` reaches no one,
//! and how a module's place in the source tree is read from its file path.
//!
//! File paths are given as their components (`["src", "a", "mod.rs"]`).

use vstd::prelude::*;
use crate::text::{chars_of, chars_eq, string_from_chars, copy_range};

verus! {

#[derive(Debug, Clone, Copy, PartialEq, Eq, Structural)]
pub enum CrateKind {
    Library,
    Binary,
}

/// Where a module sits relative to the crate root.
#[derive(Debug, Clone, Copy, PartialEq, Eq, Structural)]
pub enum ModuleLocation {
    CrateRoot,
    TopLevelPrivateModule,
    NestedModule,
}

pub open spec fn allow_pub_crate_spec(
    crate_kind: CrateKind,
    module_location: ModuleLocation,
    parent_is_public: bool,
) -> bool {
    match module_location {
        ModuleLocation::CrateRoot => crate_kind == CrateKind::Library,
        ModuleLocation::TopLevelPrivateModule => !parent_is_public,
        ModuleLocation::NestedModule => false,
    }
}

/// `pub(crate)` is allowed on a library's crate-root items and in a
/// top-level module whose parent does not make it public; nowhere else.
pub fn allow_pub_crate_by_policy(
    crate_kind: CrateKind,
    module_location: ModuleLocation,
    parent_is_public: bool,
) -> (r: bool)
    ensures
        r == allow_pub_crate_spec(crate_kind, module_location, parent_is_public),
{
    match (crate_kind, module_location) {
        (CrateKind::Library, ModuleLocation::CrateRoot) => true,
        (_, ModuleLocation::TopLevelPrivateModule) => !parent_is_public,
        _ => false,
    }
}

pub open spec fn forbidden_pub_crate_help_spec(module_location: ModuleLocation) -> Seq<char> {
    if module_location == ModuleLocation::NestedModule {
        "consider using `pub(super)` or removing `pub(crate)` entirely"@
    } else {
        "consider using just `pub` or removing `pub(crate)` entirely"@
    }
}

/// The help text of a forbidden `pub(crate)`: at the crate root or in a
/// top-level module plain `pub` serves, deeper in the tree `pub(super)` does.
pub fn forbidden_pub_crate_help(module_location: ModuleLocation) -> (r: &'static str)
    ensures
        r@ == forbidden_pub_crate_help_spec(module_location),
{
    if matches!(module_location, ModuleLocation::CrateRoot | ModuleLocation::TopLevelPrivateModule) {
        "consider using just `pub` or removing `pub(crate)` entirely"
    } else {
        "consider using `pub(super)` or removing `pub(crate)` entirely"
    }
}

pub open spec fn suspicious_pub_note_spec(crate_kind: CrateKind, kind_label: Seq<char>) -> Seq<char> {
    match crate_kind {
        CrateKind::Library => kind_label + " is not reachable from the crate's public API"@,
        CrateKind::Binary => kind_label + " is not used outside its parent module subtree"@,
    }
}

/// Why a `pub` item looks suspicious: a library item unreachable from the
/// public API, or a binary item used only inside its parent's subtree.
pub fn suspicious_pub_note(crate_kind: CrateKind, kind_label: &str) -> (r: String)
    ensures
        r@ == suspicious_pub_note_spec(crate_kind, kind_label@),
{
    let mut note = String::from_str(kind_label);
    match crate_kind {
        CrateKind::Library => note.append(" is not reachable from the crate's public API"),
        CrateKind::Binary => note.append(" is not used outside its parent module subtree"),
    }
    note
}

pub open spec fn components_view(p: Seq<String>) -> Seq<Seq<char>> {
    p.map_values(|s: String| s@)
}

/// `path.strip_prefix(base)` on components.
pub open spec fn strip_components(path: Seq<Seq<char>>, base: Seq<Seq<char>>) -> Option<
    Seq<Seq<char>>,
> {
    if base.len() <= path.len() && path.take(base.len() as int) == base {
        Some(path.skip(base.len() as int))
    } else {
        None
    }
}

pub open spec fn is_top_level_module_file_spec(
    src_root: Seq<Seq<char>>,
    root_module: Seq<Seq<char>>,
    file: Seq<Seq<char>>,
) -> bool {
    file != root_module && match strip_components(file, src_root) {
        None => false,
        Some(rel) => rel.len() == 1 || (rel.len() == 2 && rel[1] == "mod.rs"@),
    }
}

pub open spec fn is_boundary_file_spec(
    src_root: Seq<Seq<char>>,
    root_module: Seq<Seq<char>>,
    file: Seq<Seq<char>>,
) -> bool {
    file == root_module || (file.len() > 0 && file.last() == "mod.rs"@) || match strip_components(
        file,
        src_root,
    ) {
        None => false,
        Some(rel) => rel.len() == 1,
    }
}

/// Whether two component lists name the same path.
pub fn components_eq(a: &Vec<String>, b: &Vec<String>) -> (r: bool)
    ensures
        r == (components_view(a@) == components_view(b@)),
{
    if a.len() != b.len() {
        assert(components_view(a@).len() != components_view(b@).len());
        return false;
    }
    let mut i: usize = 0;
    while i < a.len()
        invariant
            a.len() == b.len(),
            i <= a.len(),
            forall|j: int| 0 <= j < i ==> a@[j]@ == b@[j]@,
        decreases a.len() - i,
    {
        if a[i] != b[i] {
            assert(components_view(a@)[i as int] != components_view(b@)[i as int]);
            return false;
        }
        i = i + 1;
    }
    assert(components_view(a@) =~= components_view(b@));
    true
}

/// The number of components `path` has beyond `base`, when `base` is a prefix of it.
pub fn relative_len(path: &Vec<String>, base: &Vec<String>) -> (r: Option<usize>)
    ensures
        r is None <==> strip_components(components_view(path@), components_view(base@)) is None,
        r is Some ==> r->0 == strip_components(components_view(path@), components_view(base@))->0.len(),
{
    let ghost p = components_view(path@);
    let ghost b = components_view(base@);
    if base.len() > path.len() {
        return None;
    }
    let mut i: usize = 0;
    while i < base.len()
        invariant
            base.len() <= path.len(),
            i <= base.len(),
            p == components_view(path@),
            b == components_view(base@),
            forall|j: int| 0 <= j < i ==> p[j] == b[j],
        decreases base.len() - i,
    {
        if path[i] != base[i] {
            assert(p.take(b.len() as int)[i as int] != b[i as int]);
            return None;
        }
        i = i + 1;
    }
    assert(p.take(b.len() as int) =~= b);
    Some(path.len() - base.len())
}

fn is_named(component: &String, name: &str) -> (r: bool)
    ensures
        r == (component@ == name@),
{
    let wanted = String::from_str(name);
    *component == wanted
}

/// True when `file` is a top-level module of the tree under `src_root`,
/// either `src/foo.rs` or `src/foo/mod.rs`, but not the root module itself.
pub fn is_top_level_module_file(src_root: &Vec<String>, root_module: &Vec<String>, file: &Vec<
    String,
>) -> (r: bool)
    ensures
        r == is_top_level_module_file_spec(
            components_view(src_root@),
            components_view(root_module@),
            components_view(file@),
        ),
{
    if components_eq(file, root_module) {
        return false;
    }
    match relative_len(file, src_root) {
        None => false,
        Some(count) => {
            if count == 1 {
                true
            } else if count == 2 {
                let r = is_named(&file[file.len() - 1], "mod.rs");
                assert(components_view(file@).skip(src_root@.len() as int)[1] == file@[file@.len()
                    - 1]@);
                r
            } else {
                false
            }
        },
    }
}

/// True for the files that open a module boundary: the root module, any
/// `mod.rs`, and any file directly under `src_root`.
pub fn is_boundary_file(src_root: &Vec<String>, root_module: &Vec<String>, file: &Vec<String>) -> (r:
    bool)
    ensures
        r == is_boundary_file_spec(
            components_view(src_root@),
            components_view(root_module@),
            components_view(file@),
        ),
{
    if components_eq(file, root_module) {
        return true;
    }
    if file.len() > 0 && is_named(&file[file.len() - 1], "mod.rs") {
        return true;
    }
    match relative_len(file, src_root) {
        None => false,
        Some(count) => count == 1,
    }
}

/// A file directly under the source root, other than the root module, is a
/// top-level module file.
pub proof fn lemma_file_directly_under_root_is_top_level(
    src_root: Seq<Seq<char>>,
    root_module: Seq<Seq<char>>,
    name: Seq<char>,
)
    requires
        src_root.push(name) != root_module,
    ensures
        is_top_level_module_file_spec(src_root, root_module, src_root.push(name)),
{
    let file = src_root.push(name);
    assert(file.take(src_root.len() as int) =~= src_root);
    assert(file.skip(src_root.len() as int).len() == 1);
}

/// A `mod.rs` one directory below the source root, other than the root
/// module, is a top-level module file.
pub proof fn lemma_mod_rs_one_below_root_is_top_level(
    src_root: Seq<Seq<char>>,
    root_module: Seq<Seq<char>>,
    dir: Seq<char>,
)
    requires
        src_root.push(dir).push("mod.rs"@) != root_module,
    ensures
        is_top_level_module_file_spec(src_root, root_module, src_root.push(dir).push("mod.rs"@)),
{
    let file = src_root.push(dir).push("mod.rs"@);
    assert(file.take(src_root.len() as int) =~= src_root);
    let rel = file.skip(src_root.len() as int);
    assert(rel.len() == 2);
    assert(rel[1] == file[src_root.len() + 1int]);
}

/// No other file is: not the root module, not a file outside the source
/// root, not a file two directories down, and not a file other than
/// `mod.rs` one directory down.
pub proof fn lemma_top_level_module_file_shape(
    src_root: Seq<Seq<char>>,
    root_module: Seq<Seq<char>>,
    file: Seq<Seq<char>>,
)
    requires
        is_top_level_module_file_spec(src_root, root_module, file),
    ensures
        file != root_module,
        file.take(src_root.len() as int) == src_root,
        file.len() == src_root.len() + 1 || (file.len() == src_root.len() + 2 && file.last()
            == "mod.rs"@),
{
    let rel = file.skip(src_root.len() as int);
    if rel.len() == 2 {
        assert(rel[1] == file.last());
    }
}

} // verus!
