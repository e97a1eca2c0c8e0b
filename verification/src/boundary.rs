//! Where a source file's parent module boundary is, and which module path
//! a boundary file declares.
//!
//! Paths are handled as lists of components, as `Path::components` yields
//! them (a root is the component `/`). Which files exist is a list of paths
//! the application found in the source tree.

use vstd::prelude::*;

use crate::text::chars_eq;
use crate::text::chars_of;
use crate::text::copy_range;
use crate::text::string_from_chars;

verus! {

/// The text of each component.
pub open spec fn path_view(p: Seq<String>) -> Seq<Seq<char>> {
    p.map_values(|c: String| c@)
}

/// The texts of each path.
pub open spec fn paths_view(files: Seq<Vec<String>>) -> Seq<Seq<Seq<char>>> {
    files.map_values(|f: Vec<String>| path_view(f@))
}

/// Whether a component is a name rather than `/`, `.` or `..`.
pub open spec fn is_name(c: Seq<char>) -> bool {
    c != "/"@ && c != "."@ && c != ".."@
}

/// `Path::file_name`: the last component, when it is a name.
pub open spec fn file_name(p: Seq<Seq<char>>) -> Option<Seq<char>> {
    if p.len() > 0 && is_name(p.last()) {
        Some(p.last())
    } else {
        None
    }
}

/// `Path::parent`: all but the last component, unless the path is empty or
/// ends at the root.
pub open spec fn parent(p: Seq<Seq<char>>) -> Option<Seq<Seq<char>>> {
    if p.len() > 0 && p.last() != "/"@ {
        Some(p.drop_last())
    } else {
        None
    }
}

/// `Path::strip_prefix`: the components after `root`, if `p` starts with it.
pub open spec fn strip_prefix(p: Seq<Seq<char>>, root: Seq<Seq<char>>) -> Option<Seq<Seq<char>>> {
    if root.len() <= p.len() && p.take(root.len() as int) == root {
        Some(p.skip(root.len() as int))
    } else {
        None
    }
}

/// The index of the last `.` in `name`, if any.
pub open spec fn last_dot(name: Seq<char>) -> Option<int>
    decreases name.len(),
{
    if name.len() == 0 {
        None
    } else if name.last() == '.' {
        Some(name.len() - 1)
    } else {
        last_dot(name.drop_last())
    }
}

/// `Path::file_stem` of a name: everything before the last `.`, unless the
/// only `.` is the first character or there is none.
pub open spec fn stem(name: Seq<char>) -> Seq<char> {
    match last_dot(name) {
        Some(k) => if k == 0 {
            name
        } else {
            name.take(k)
        },
        None => name,
    }
}

/// `Path::with_extension("rs")`: the last name's extension replaced by (or
/// extended with) `.rs`; a path without a file name is unchanged.
pub open spec fn with_rs_extension(p: Seq<Seq<char>>) -> Seq<Seq<char>> {
    match file_name(p) {
        Some(name) => p.drop_last().push(stem(name) + ".rs"@),
        None => p,
    }
}

/// Whether `name` ends with `.rs`.
pub open spec fn ends_with_rs(name: Seq<char>) -> bool {
    name.len() >= 3 && name.skip(name.len() - 3) == ".rs"@
}

/// The module path of a directory below the source root: its components
/// after the root, if there are any.
pub open spec fn module_path_from_dir_spec(
    root: Seq<Seq<char>>,
    dir: Seq<Seq<char>>,
) -> Option<Seq<Seq<char>>> {
    match strip_prefix(dir, root) {
        Some(rel) => if rel.len() > 0 {
            Some(rel)
        } else {
            None
        },
        None => None,
    }
}

/// The module path a boundary file declares: its components after the
/// source root with `.rs` taken off the last; `lib.rs` and `main.rs`
/// directly under the root declare the crate root.
pub open spec fn module_path_from_boundary_file_spec(
    root: Seq<Seq<char>>,
    file: Seq<Seq<char>>,
) -> Option<Seq<Seq<char>>> {
    match strip_prefix(file, root) {
        Some(rel) => if rel.len() > 0 && ends_with_rs(rel.last()) {
            let path = rel.drop_last().push(rel.last().take(rel.last().len() - 3));
            if path == seq!["lib"@] || path == seq!["main"@] {
                Some(Seq::empty())
            } else {
                Some(path)
            }
        } else {
            None
        },
        None => None,
    }
}

/// The module path of any source file: a `mod.rs` names its directory's
/// module, any other file the module of its own name.
pub open spec fn module_path_from_source_file_spec(
    root: Seq<Seq<char>>,
    file: Seq<Seq<char>>,
) -> Option<Seq<Seq<char>>> {
    if file_name(file) == Some("mod.rs"@) {
        match parent(file) {
            Some(dir) => module_path_from_dir_spec(root, dir),
            None => None,
        }
    } else {
        module_path_from_boundary_file_spec(root, file)
    }
}

/// A parent module boundary: the file that declares the module, the
/// directory that holds its submodules, and its module path.
#[derive(Debug, Clone, PartialEq, Eq)]
pub struct ParentBoundary {
    pub boundary_file: Vec<String>,
    pub subtree_root: Vec<String>,
    pub module_segments: Vec<String>,
}

/// The specification view of a [`ParentBoundary`].
pub struct ParentBoundaryView {
    pub boundary_file: Seq<Seq<char>>,
    pub subtree_root: Seq<Seq<char>>,
    pub module_segments: Seq<Seq<char>>,
}

impl View for ParentBoundary {
    type V = ParentBoundaryView;

    open spec fn view(&self) -> ParentBoundaryView {
        ParentBoundaryView {
            boundary_file: path_view(self.boundary_file@),
            subtree_root: path_view(self.subtree_root@),
            module_segments: path_view(self.module_segments@),
        }
    }
}

/// The view of an optional boundary.
pub open spec fn boundary_view(b: Option<ParentBoundary>) -> Option<ParentBoundaryView> {
    match b {
        Some(b) => Some(b@),
        None => None,
    }
}

/// A boundary in `dir` declared by `file`, whose module path is `path`.
pub open spec fn boundary_at(
    file: Seq<Seq<char>>,
    dir: Seq<Seq<char>>,
    path: Option<Seq<Seq<char>>>,
) -> Option<ParentBoundaryView> {
    match path {
        Some(module_segments) => Some(
            ParentBoundaryView { boundary_file: file, subtree_root: dir, module_segments },
        ),
        None => None,
    }
}

/// The boundary that declares the module directory `dir`: its `mod.rs`,
/// else the file named like the directory beside it.
pub open spec fn boundary_for_dir(
    root: Seq<Seq<char>>,
    dir: Seq<Seq<char>>,
    files: Seq<Seq<Seq<char>>>,
) -> Option<ParentBoundaryView> {
    let mod_rs = dir.push("mod.rs"@);
    let named = with_rs_extension(dir);
    if files.contains(mod_rs) {
        boundary_at(mod_rs, dir, module_path_from_dir_spec(root, dir))
    } else if files.contains(named) {
        boundary_at(named, dir, module_path_from_boundary_file_spec(root, named))
    } else {
        None
    }
}

/// The parent boundary of a child source file: the boundary that declares
/// the child's directory.
pub open spec fn parent_boundary_for_child_spec(
    root: Seq<Seq<char>>,
    child: Seq<Seq<char>>,
    files: Seq<Seq<Seq<char>>>,
) -> Option<ParentBoundaryView> {
    match parent(child) {
        Some(dir) => boundary_for_dir(root, dir, files),
        None => None,
    }
}

/// The parent boundary of a boundary file. A `mod.rs` is declared from its
/// directory's parent: that directory's `mod.rs`, its named file, or a
/// crate root file in it. Any other boundary file is treated as a child.
pub open spec fn parent_of_boundary_spec(
    root: Seq<Seq<char>>,
    boundary: Seq<Seq<char>>,
    files: Seq<Seq<Seq<char>>>,
) -> Option<ParentBoundaryView> {
    match file_name(boundary) {
        None => None,
        Some(name) => if name != "mod.rs"@ {
            parent_boundary_for_child_spec(root, boundary, files)
        } else {
            match parent(boundary) {
                None => None,
                Some(own_dir) => match parent(own_dir) {
                    None => None,
                    Some(container) => match boundary_for_dir(root, container, files) {
                        Some(b) => Some(b),
                        None => if files.contains(container.push("lib.rs"@)) {
                            Some(
                                ParentBoundaryView {
                                    boundary_file: container.push("lib.rs"@),
                                    subtree_root: container,
                                    module_segments: Seq::empty(),
                                },
                            )
                        } else if files.contains(container.push("main.rs"@)) {
                            Some(
                                ParentBoundaryView {
                                    boundary_file: container.push("main.rs"@),
                                    subtree_root: container,
                                    module_segments: Seq::empty(),
                                },
                            )
                        } else {
                            None
                        },
                    },
                },
            }
        },
    }
}

pub(crate) fn text_is(s: &String, lit: &str) -> (r: bool)
    ensures
        r == (s@ == lit@),
{
    let a = chars_of(s.as_str());
    let b = chars_of(lit);
    chars_eq(&a, &b)
}

fn same_path(a: &Vec<String>, b: &Vec<String>) -> (r: bool)
    ensures
        r == (path_view(a@) == path_view(b@)),
{
    if a.len() != b.len() {
        return false;
    }
    let mut i: usize = 0;
    while i < a.len()
        invariant
            a.len() == b.len(),
            i <= a.len(),
            forall|j: int| 0 <= j < i ==> a@[j]@ == b@[j]@,
        decreases a.len() - i,
    {
        if a[i] != b[i] {
            assert(path_view(a@)[i as int] != path_view(b@)[i as int]);
            return false;
        }
        i = i + 1;
    }
    assert(path_view(a@) =~= path_view(b@));
    true
}

fn is_file(files: &Vec<Vec<String>>, p: &Vec<String>) -> (r: bool)
    ensures
        r == paths_view(files@).contains(path_view(p@)),
{
    let mut i: usize = 0;
    while i < files.len()
        invariant
            i <= files.len(),
            forall|j: int| 0 <= j < i ==> path_view(files@[j]@) != path_view(p@),
        decreases files.len() - i,
    {
        if same_path(&files[i], p) {
            assert(paths_view(files@)[i as int] == path_view(p@));
            return true;
        }
        i = i + 1;
    }
    assert forall|j: int| 0 <= j < paths_view(files@).len() implies paths_view(files@)[j]
        != path_view(p@) by {
        assert(paths_view(files@)[j] == path_view(files@[j]@));
    }
    false
}

pub(crate) fn copy_path(p: &Vec<String>, n: usize) -> (out: Vec<String>)
    requires
        n <= p.len(),
    ensures
        path_view(out@) == path_view(p@).take(n as int),
{
    let mut out: Vec<String> = Vec::new();
    let mut i: usize = 0;
    while i < n
        invariant
            i <= n <= p.len(),
            path_view(out@) =~= path_view(p@).take(i as int),
        decreases n - i,
    {
        let ghost before = out@;
        let c = p[i].clone();
        assert(c@ == p@[i as int]@);
        out.push(c);
        i = i + 1;
        assert(path_view(out@) =~= path_view(before).push(c@));
        assert(path_view(out@) =~= path_view(p@).take(i as int));
    }
    out
}

fn skip_path(p: &Vec<String>, n: usize) -> (out: Vec<String>)
    requires
        n <= p.len(),
    ensures
        path_view(out@) == path_view(p@).skip(n as int),
{
    let mut out: Vec<String> = Vec::new();
    let mut i: usize = n;
    while i < p.len()
        invariant
            n <= i <= p.len(),
            path_view(out@) =~= path_view(p@).subrange(n as int, i as int),
        decreases p.len() - i,
    {
        let ghost before = out@;
        let c = p[i].clone();
        assert(c@ == p@[i as int]@);
        out.push(c);
        i = i + 1;
        assert(path_view(out@) =~= path_view(before).push(c@));
        assert(path_view(out@) =~= path_view(p@).subrange(n as int, i as int));
    }
    out
}

pub(crate) fn pushed(p: &Vec<String>, name: &str) -> (out: Vec<String>)
    ensures
        path_view(out@) == path_view(p@).push(name@),
{
    let mut out = copy_path(p, p.len());
    let ghost before = out@;
    out.push(name.to_owned());
    assert(path_view(p@).take(p@.len() as int) =~= path_view(p@));
    assert(path_view(out@) =~= path_view(before).push(name@));
    out
}

fn path_parent(p: &Vec<String>) -> (r: Option<Vec<String>>)
    ensures
        match r {
            Some(q) => parent(path_view(p@)) == Some(path_view(q@)),
            None => parent(path_view(p@)) is None,
        },
{
    if p.len() == 0 || text_is(&p[p.len() - 1], "/") {
        None
    } else {
        let q = copy_path(p, p.len() - 1);
        assert(path_view(p@).drop_last() =~= path_view(p@).take(p.len() - 1));
        Some(q)
    }
}

fn path_file_name(p: &Vec<String>) -> (r: Option<String>)
    ensures
        match r {
            Some(n) => file_name(path_view(p@)) == Some(n@),
            None => file_name(path_view(p@)) is None,
        },
{
    if p.len() == 0 {
        return None;
    }
    let last = &p[p.len() - 1];
    if text_is(last, "/") || text_is(last, ".") || text_is(last, "..") {
        None
    } else {
        Some(last.clone())
    }
}

fn strip_path_prefix(p: &Vec<String>, root: &Vec<String>) -> (r: Option<Vec<String>>)
    ensures
        match r {
            Some(q) => strip_prefix(path_view(p@), path_view(root@)) == Some(path_view(q@)),
            None => strip_prefix(path_view(p@), path_view(root@)) is None,
        },
{
    if root.len() > p.len() {
        return None;
    }
    let head = copy_path(p, root.len());
    if same_path(&head, root) {
        Some(skip_path(p, root.len()))
    } else {
        None
    }
}

proof fn lemma_last_dot_bounds(name: Seq<char>)
    ensures
        last_dot(name) matches Some(k) ==> 0 <= k < name.len() && name[k] == '.' && forall|
            j: int,
        | k < j < name.len() ==> name[j] != '.',
        last_dot(name) is None ==> forall|j: int| 0 <= j < name.len() ==> name[j] != '.',
    decreases name.len(),
{
    if name.len() > 0 && name.last() != '.' {
        let rest = name.drop_last();
        lemma_last_dot_bounds(rest);
        assert forall|j: int| 0 <= j < rest.len() implies rest[j] == name[j] by {}
    }
}

fn rs_stem(name: &String) -> (out: String)
    ensures
        out@ == stem(name@) + ".rs"@,
{
    let v = chars_of(name.as_str());
    let mut k: usize = v.len();
    while k > 0 && v[k - 1] != '.'
        invariant
            k <= v.len(),
            v@ == name@,
            forall|j: int| k <= j < v.len() ==> v@[j] != '.',
        decreases k,
    {
        k = k - 1;
    }
    let found = k > 0;
    proof {
        lemma_last_dot_bounds(name@);
        if found {
            assert(last_dot(name@) == Some((k - 1) as int)) by {
                match last_dot(name@) {
                    Some(d) => {
                        assert(d == k - 1);
                    },
                    None => {},
                }
            }
        } else {
            assert(k == 0);
            assert(last_dot(name@) is None) by {
                match last_dot(name@) {
                    Some(d) => {
                        assert(v@[d] == '.');
                    },
                    None => {},
                }
            }
        }
    }
    let base = if found && k - 1 > 0 {
        copy_range(&v, 0, k - 1)
    } else {
        copy_range(&v, 0, v.len())
    };
    assert(v@.subrange(0, v@.len() as int) =~= v@);
    assert(base@ == stem(name@));
    let mut out = string_from_chars(&base);
    out.append(".rs");
    out
}

fn with_rs_ext(p: &Vec<String>) -> (out: Vec<String>)
    ensures
        path_view(out@) == with_rs_extension(path_view(p@)),
{
    match path_file_name(p) {
        Some(name) => {
            let mut out = copy_path(p, p.len() - 1);
            let ghost before = out@;
            out.push(rs_stem(&name));
            assert(path_view(p@).drop_last() =~= path_view(p@).take(p.len() - 1));
            assert(path_view(out@) =~= path_view(before).push(stem(name@) + ".rs"@));
            out
        },
        None => copy_path(p, p.len()),
    }
}

/// The module path of a directory below the source root.
pub fn module_path_from_dir(source_root: &Vec<String>, module_dir: &Vec<String>) -> (r: Option<
    Vec<String>,
>)
    ensures
        match r {
            Some(m) => module_path_from_dir_spec(path_view(source_root@), path_view(module_dir@))
                == Some(path_view(m@)),
            None => module_path_from_dir_spec(
                path_view(source_root@),
                path_view(module_dir@),
            ) is None,
        },
{
    match strip_path_prefix(module_dir, source_root) {
        Some(rel) => if rel.len() > 0 {
            Some(rel)
        } else {
            None
        },
        None => None,
    }
}

/// The module path a boundary file declares.
pub fn module_path_from_boundary_file(
    source_root: &Vec<String>,
    boundary_file: &Vec<String>,
) -> (r: Option<Vec<String>>)
    ensures
        match r {
            Some(m) => module_path_from_boundary_file_spec(
                path_view(source_root@),
                path_view(boundary_file@),
            ) == Some(path_view(m@)),
            None => module_path_from_boundary_file_spec(
                path_view(source_root@),
                path_view(boundary_file@),
            ) is None,
        },
{
    let rel = match strip_path_prefix(boundary_file, source_root) {
        Some(rel) => rel,
        None => return None,
    };
    if rel.len() == 0 {
        return None;
    }
    let last = chars_of(rel[rel.len() - 1].as_str());
    let suffix = chars_of(".rs");
    proof {
        reveal_strlit(".rs");
    }
    if last.len() < 3 {
        return None;
    }
    let tail = copy_range(&last, last.len() - 3, last.len());
    if !chars_eq(&tail, &suffix) {
        assert(last@.skip(last@.len() - 3) =~= tail@);
        return None;
    }
    assert(last@.skip(last@.len() - 3) =~= tail@);
    let name = string_from_chars(&copy_range(&last, 0, last.len() - 3));
    let mut path = copy_path(&rel, rel.len() - 1);
    let ghost before = path@;
    path.push(name);
    let ghost rv = path_view(rel@);
    assert(rv.drop_last() =~= rv.take(rel.len() - 1));
    assert(path_view(path@) =~= rv.drop_last().push(rv.last().take(rv.last().len() - 3)));
    if path.len() == 1 && (text_is(&path[0], "lib") || text_is(&path[0], "main")) {
        assert(path_view(path@) == seq![path@[0]@]) by {
            assert(path_view(path@) =~= seq![path@[0]@]);
        }
        Some(Vec::new())
    } else {
        proof {
            if path_view(path@) == seq!["lib"@] || path_view(path@) == seq!["main"@] {
                assert(path_view(path@)[0] == path@[0]@);
            }
        }
        Some(path)
    }
}

/// The module path of any source file.
pub fn module_path_from_source_file(source_root: &Vec<String>, source_file: &Vec<String>) -> (r:
    Option<Vec<String>>)
    ensures
        match r {
            Some(m) => module_path_from_source_file_spec(
                path_view(source_root@),
                path_view(source_file@),
            ) == Some(path_view(m@)),
            None => module_path_from_source_file_spec(
                path_view(source_root@),
                path_view(source_file@),
            ) is None,
        },
{
    let is_mod_rs = match path_file_name(source_file) {
        Some(name) => text_is(&name, "mod.rs"),
        None => false,
    };
    if is_mod_rs {
        match path_parent(source_file) {
            Some(dir) => module_path_from_dir(source_root, &dir),
            None => None,
        }
    } else {
        module_path_from_boundary_file(source_root, source_file)
    }
}

fn boundary_for_directory(
    source_root: &Vec<String>,
    dir: &Vec<String>,
    files: &Vec<Vec<String>>,
) -> (r: Option<ParentBoundary>)
    ensures
        boundary_view(r) == boundary_for_dir(path_view(source_root@), path_view(dir@), paths_view(files@)),
{
    let mod_rs = pushed(dir, "mod.rs");
    if is_file(files, &mod_rs) {
        return match module_path_from_dir(source_root, dir) {
            Some(m) => {
                let subtree_root = copy_path(dir, dir.len());
                assert(path_view(dir@).take(dir@.len() as int) =~= path_view(dir@));
                Some(ParentBoundary { boundary_file: mod_rs, subtree_root, module_segments: m })
            },
            None => None,
        };
    }
    let named = with_rs_ext(dir);
    if is_file(files, &named) {
        return match module_path_from_boundary_file(source_root, &named) {
            Some(m) => {
                let subtree_root = copy_path(dir, dir.len());
                assert(path_view(dir@).take(dir@.len() as int) =~= path_view(dir@));
                Some(ParentBoundary { boundary_file: named, subtree_root, module_segments: m })
            },
            None => None,
        };
    }
    None
}

/// The parent boundary of a child source file, among the files that exist.
pub fn parent_boundary_for_child(
    source_root: &Vec<String>,
    child_file: &Vec<String>,
    files: &Vec<Vec<String>>,
) -> (r: Option<ParentBoundary>)
    ensures
        boundary_view(r) == parent_boundary_for_child_spec(
            path_view(source_root@),
            path_view(child_file@),
            paths_view(files@),
        ),
{
    match path_parent(child_file) {
        Some(dir) => boundary_for_directory(source_root, &dir, files),
        None => None,
    }
}

fn crate_root_boundary(container: &Vec<String>, name: &str) -> (b: ParentBoundary)
    ensures
        b@ == (ParentBoundaryView {
            boundary_file: path_view(container@).push(name@),
            subtree_root: path_view(container@),
            module_segments: Seq::empty(),
        }),
{
    let subtree_root = copy_path(container, container.len());
    assert(path_view(container@).take(container@.len() as int) =~= path_view(container@));
    let module_segments: Vec<String> = Vec::new();
    assert(path_view(module_segments@) =~= Seq::empty());
    ParentBoundary { boundary_file: pushed(container, name), subtree_root, module_segments }
}

/// The parent boundary of a boundary file, among the files that exist.
pub fn parent_of_boundary(
    source_root: &Vec<String>,
    boundary_file: &Vec<String>,
    files: &Vec<Vec<String>>,
) -> (r: Option<ParentBoundary>)
    ensures
        boundary_view(r) == parent_of_boundary_spec(
            path_view(source_root@),
            path_view(boundary_file@),
            paths_view(files@),
        ),
{
    let name = match path_file_name(boundary_file) {
        Some(name) => name,
        None => return None,
    };
    if !text_is(&name, "mod.rs") {
        return parent_boundary_for_child(source_root, boundary_file, files);
    }
    let own_dir = match path_parent(boundary_file) {
        Some(d) => d,
        None => return None,
    };
    let container = match path_parent(&own_dir) {
        Some(c) => c,
        None => return None,
    };
    match boundary_for_directory(source_root, &container, files) {
        Some(b) => return Some(b),
        None => {},
    }
    let lib_rs = pushed(&container, "lib.rs");
    if is_file(files, &lib_rs) {
        return Some(crate_root_boundary(&container, "lib.rs"));
    }
    let main_rs = pushed(&container, "main.rs");
    if is_file(files, &main_rs) {
        return Some(crate_root_boundary(&container, "main.rs"));
    }
    None
}

/// Walking from a boundary to its parent always moves up the tree: the
/// parent's subtree root is a proper prefix of the boundary file's path and
/// its boundary file exists. A walk from boundary to parent boundary
/// therefore ends after at most as many steps as the path has components.
pub proof fn lemma_parent_of_boundary_moves_up(
    root: Seq<Seq<char>>,
    boundary: Seq<Seq<char>>,
    files: Seq<Seq<Seq<char>>>,
)
    ensures
        parent_of_boundary_spec(root, boundary, files) matches Some(p) ==> {
            &&& p.subtree_root.len() < boundary.len()
            &&& boundary.take(p.subtree_root.len() as int) == p.subtree_root
            &&& files.contains(p.boundary_file)
        },
        parent_boundary_for_child_spec(root, boundary, files) matches Some(p) ==> {
            &&& p.subtree_root.len() < boundary.len()
            &&& boundary.take(p.subtree_root.len() as int) == p.subtree_root
            &&& files.contains(p.boundary_file)
        },
{
    if let Some(dir) = parent(boundary) {
        assert(boundary.take(dir.len() as int) =~= dir);
        if let Some(container) = parent(dir) {
            assert(boundary.take(container.len() as int) =~= container);
        }
    }
}

/// Whether a directory directly under a package root holds target sources.
pub open spec fn is_target_source_dir(c: Seq<char>) -> bool {
    c == "src"@ || c == "examples"@ || c == "tests"@ || c == "benches"@
}

/// The directory whose files a crate root's analysis covers: the crate
/// root's own directory, provided the crate root lies below the package's
/// `src`, `examples`, `tests` or `benches` directory (a build script does
/// not). The canonical forms of both paths decide where the crate root lies.
pub open spec fn analysis_source_root_spec(
    crate_root: Seq<Seq<char>>,
    canonical_crate_root: Seq<Seq<char>>,
    canonical_package_root: Seq<Seq<char>>,
) -> Option<Seq<Seq<char>>> {
    match parent(crate_root) {
        None => None,
        Some(source_root) => match strip_prefix(canonical_crate_root, canonical_package_root) {
            Some(rel) => if rel.len() > 0 && is_target_source_dir(rel[0]) {
                Some(source_root)
            } else {
                None
            },
            None => None,
        },
    }
}

/// The analysis source root of a crate root file.
///
/// The application canonicalizes both paths, keeping a path as given where
/// that fails.
pub fn analysis_source_root_for(
    crate_root_file: &Vec<String>,
    canonical_crate_root: &Vec<String>,
    canonical_package_root: &Vec<String>,
) -> (r: Option<Vec<String>>)
    ensures
        match r {
            Some(d) => analysis_source_root_spec(
                path_view(crate_root_file@),
                path_view(canonical_crate_root@),
                path_view(canonical_package_root@),
            ) == Some(path_view(d@)),
            None => analysis_source_root_spec(
                path_view(crate_root_file@),
                path_view(canonical_crate_root@),
                path_view(canonical_package_root@),
            ) is None,
        },
{
    let source_root = match path_parent(crate_root_file) {
        Some(d) => d,
        None => return None,
    };
    let rel = match strip_path_prefix(canonical_crate_root, canonical_package_root) {
        Some(rel) => rel,
        None => return None,
    };
    if rel.len() == 0 {
        return None;
    }
    let first = &rel[0];
    assert(path_view(rel@)[0] == first@);
    if text_is(first, "src") || text_is(first, "examples") || text_is(first, "tests") || text_is(
        first,
        "benches",
    ) {
        Some(source_root)
    } else {
        None
    }
}

} // verus!
