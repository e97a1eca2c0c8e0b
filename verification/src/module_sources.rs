//! Which modules each source file holds, and the module contexts a file's
//! paths are resolved in.
//!
//! Modules are numbered densely by the compiler side, the crate root being
//! module `0`; the tree gives each module's parent and module path. Files
//! are named by their canonical paths.

use vstd::prelude::*;

use crate::facade_paths::same_segments;
use crate::facade_paths::strings_range;
use crate::ordered::TextOrder;
use crate::ordered::compare_text;
use crate::ordered::texts;
use crate::policy::ModuleLocation;

verus! {

/// The crate root module.
pub const CRATE_MODULE: u32 = 0;

/// The module tree: each module's parent module and module path.
pub struct ModuleTree {
    /// `parents[m]` is the module that contains module `m`; the crate root
    /// is its own parent.
    pub parents: Vec<u32>,
    /// `paths[m]` is the module path of module `m`; the crate root's is
    /// empty.
    pub paths: Vec<Vec<String>>,
}

impl ModuleTree {
    /// Every module has a parent and a path, the crate root's path is empty,
    /// and no two modules share a path.
    pub open spec fn wf(&self) -> bool {
        &&& self.parents@.len() == self.paths@.len()
        &&& self.parents@.len() > 0
        &&& self.paths@[0]@.len() == 0
        &&& self.parents@.len() <= u32::MAX
        &&& forall|m: int| 0 <= m < self.parents@.len() ==> (#[trigger] self.parents@[m]) < self.parents@.len()
        &&& forall|a: int, b: int|
            0 <= a < b < self.paths@.len() ==> texts((#[trigger] self.paths@[a])@) != texts(
                (#[trigger] self.paths@[b])@,
            )
    }

    /// The module path of `m`.
    pub open spec fn path_of(&self, m: u32) -> Seq<Seq<char>> {
        texts(self.paths@[m as int]@)
    }

    /// The module whose path is `p`, if there is one.
    pub open spec fn module_with_path(&self, p: Seq<Seq<char>>) -> Option<u32> {
        if exists|m: int| 0 <= m < self.paths@.len() && texts((#[trigger] self.paths@[m])@) == p {
            Some((choose|m: int| 0 <= m < self.paths@.len() && texts((#[trigger] self.paths@[m])@) == p) as u32)
        } else {
            None
        }
    }

    /// Where the module `parent` sits: at the crate root; as a top-level
    /// module, or a module directly inside one; or deeper.
    pub open spec fn location_of(&self, parent: u32) -> ModuleLocation {
        if parent == CRATE_MODULE {
            ModuleLocation::CrateRoot
        } else if self.parents@[parent as int] == CRATE_MODULE {
            ModuleLocation::TopLevelPrivateModule
        } else if self.parents@[self.parents@[parent as int] as int] == CRATE_MODULE {
            ModuleLocation::TopLevelPrivateModule
        } else {
            ModuleLocation::NestedModule
        }
    }

    /// Where the module holding an item sits in the module tree.
    pub fn resolve_module_location(&self, parent: u32) -> (r: ModuleLocation)
        requires
            self.wf(),
            parent < self.parents.len(),
        ensures
            r == self.location_of(parent),
    {
        if parent == CRATE_MODULE {
            return ModuleLocation::CrateRoot;
        }
        let grandparent = self.parents[parent as usize];
        if grandparent == CRATE_MODULE {
            return ModuleLocation::TopLevelPrivateModule;
        }
        let great_grandparent = self.parents[grandparent as usize];
        if great_grandparent == CRATE_MODULE {
            return ModuleLocation::TopLevelPrivateModule;
        }
        ModuleLocation::NestedModule
    }

    /// Whether walking up from `candidate`, at most `steps` parents, meets
    /// `ancestor` before the crate root ends the walk.
    pub open spec fn within(&self, candidate: u32, ancestor: u32, steps: nat) -> bool
        decreases steps,
    {
        if candidate == ancestor {
            true
        } else if candidate == CRATE_MODULE || steps == 0 {
            false
        } else {
            self.within(self.parents@[candidate as int], ancestor, (steps - 1) as nat)
        }
    }

    /// Whether `candidate` is `ancestor` or lies inside it. A chain of
    /// parents reaches the crate root within as many steps as there are
    /// modules.
    pub fn module_is_within(&self, candidate: u32, ancestor: u32) -> (r: bool)
        requires
            self.wf(),
            candidate < self.parents.len(),
        ensures
            r == self.within(candidate, ancestor, self.parents@.len() as nat),
    {
        let mut current = candidate;
        let mut steps: usize = self.parents.len();
        while current != ancestor && current != CRATE_MODULE && steps > 0
            invariant
                self.wf(),
                current < self.parents.len(),
                steps <= self.parents.len(),
                self.within(candidate, ancestor, self.parents@.len() as nat) == self.within(
                    current,
                    ancestor,
                    steps as nat,
                ),
            decreases steps,
        {
            current = self.parents[current as usize];
            steps = steps - 1;
        }
        current == ancestor
    }

    /// The module of the longest prefix of `p` that is a module path; the
    /// crate root when no other prefix is.
    pub open spec fn nearest_ancestor(&self, p: Seq<Seq<char>>) -> u32
        decreases p.len(),
    {
        match self.module_with_path(p) {
            Some(m) => m,
            None => if p.len() == 0 {
                CRATE_MODULE
            } else {
                self.nearest_ancestor(p.drop_last())
            },
        }
    }

    fn find_path(&self, p: &Vec<String>, len: usize) -> (r: Option<u32>)
        requires
            self.wf(),
            len <= p.len(),
        ensures
            r == self.module_with_path(texts(p@).take(len as int)),
    {
        let target = strings_range(p, 0, len);
        let mut m: usize = 0;
        while m < self.paths.len()
            invariant
                self.wf(),
                m <= self.paths.len(),
                texts(target@) == texts(p@).subrange(0, len as int),
                forall|k: int| 0 <= k < m ==> texts((#[trigger] self.paths@[k])@) != texts(target@),
            decreases self.paths.len() - m,
        {
            if same_segments(&self.paths[m], &target) {
                proof {
                    assert(texts(p@).take(len as int) =~= texts(target@));
                    let c = choose|k: int| 0 <= k < self.paths@.len() && texts((#[trigger] self.paths@[k])@) == texts(target@);
                    if c != m {
                        if c < m {
                            assert(texts(self.paths@[c]@) != texts(self.paths@[m as int]@));
                        } else {
                            assert(texts(self.paths@[m as int]@) != texts(self.paths@[c]@));
                        }
                    }
                }
                return Some(m as u32);
            }
            m = m + 1;
        }
        assert(texts(p@).take(len as int) =~= texts(target@));
        None
    }

    /// The module of the longest prefix of `path_segments` that is a module
    /// path.
    pub fn nearest_active_ancestor(&self, path_segments: &Vec<String>) -> (m: u32)
        requires
            self.wf(),
        ensures
            m == self.nearest_ancestor(texts(path_segments@)),
    {
        let mut len: usize = path_segments.len();
        proof {
            assert(texts(path_segments@).take(len as int) =~= texts(path_segments@));
        }
        loop
            invariant
                self.wf(),
                len <= path_segments.len(),
                self.nearest_ancestor(texts(path_segments@)) == self.nearest_ancestor(
                    texts(path_segments@).take(len as int),
                ),
            decreases len,
        {
            match self.find_path(path_segments, len) {
                Some(m) => {
                    return m;
                },
                None => {
                    if len == 0 {
                        return CRATE_MODULE;
                    }
                    proof {
                        assert(texts(path_segments@).take(len as int).drop_last() =~= texts(
                            path_segments@,
                        ).take(len - 1));
                    }
                    len = len - 1;
                },
            }
        }
    }
}

/// The index of the first `x` in `s`, or `-1`.
pub open spec fn first_index(s: Seq<Seq<char>>, x: Seq<char>) -> int
    decreases s.len(),
{
    if s.len() == 0 {
        -1
    } else {
        let k = first_index(s.drop_last(), x);
        if k >= 0 {
            k
        } else if s.last() == x {
            s.len() - 1
        } else {
            -1
        }
    }
}

proof fn lemma_first_index(s: Seq<Seq<char>>, x: Seq<char>, i: int)
    requires
        0 <= i <= s.len(),
        forall|j: int| 0 <= j < i ==> s[j] != x,
        i < s.len() ==> s[i] == x,
    ensures
        first_index(s, x) == (if i < s.len() { i } else { -1 }),
    decreases s.len(),
{
    if s.len() > 0 {
        let p = s.drop_last();
        if i < s.len() - 1 {
            lemma_first_index(p, x, i);
        } else {
            assert forall|j: int| 0 <= j < p.len() implies p[j] != x by {
                assert(p[j] == s[j]);
            }
            lemma_first_index(p, x, p.len() as int);
        }
    }
}

/// The position of the first string equal to `x`.
fn position_of(v: &Vec<String>, x: &str) -> (r: Option<usize>)
    ensures
        match r {
            Some(i) => i < v.len() && first_index(texts(v@), x@) == i,
            None => first_index(texts(v@), x@) == -1,
        },
{
    let mut i: usize = 0;
    while i < v.len()
        invariant
            i <= v.len(),
            forall|j: int| 0 <= j < i ==> (#[trigger] texts(v@)[j]) != x@,
        decreases v.len() - i,
    {
        if compare_text(v[i].as_str(), x) == TextOrder::Equal {
            proof {
                assert(texts(v@)[i as int] == x@);
                lemma_first_index(texts(v@), x@, i as int);
            }
            return Some(i);
        }
        assert(texts(v@)[i as int] != x@);
        i = i + 1;
    }
    proof {
        lemma_first_index(texts(v@), x@, v@.len() as int);
    }
    None
}

/// `s` with each module kept at its first occurrence only.
pub open spec fn first_occurrences(s: Seq<u32>) -> Seq<u32>
    decreases s.len(),
{
    if s.len() == 0 {
        Seq::empty()
    } else {
        let rest = first_occurrences(s.drop_last());
        if rest.contains(s.last()) {
            rest
        } else {
            rest.push(s.last())
        }
    }
}

fn contains_module(v: &Vec<u32>, m: u32) -> (r: bool)
    ensures
        r == v@.contains(m),
{
    let mut i: usize = 0;
    while i < v.len()
        invariant
            i <= v.len(),
            forall|j: int| 0 <= j < i ==> v@[j] != m,
        decreases v.len() - i,
    {
        if v[i] == m {
            assert(v@[i as int] == m);
            return true;
        }
        i = i + 1;
    }
    false
}

/// Which modules each source file holds and which files each module spans,
/// over a module tree.
pub struct ModuleSourceMap {
    tree: ModuleTree,
    files: Vec<String>,
    file_modules: Vec<Vec<u32>>,
    module_files: Vec<Vec<String>>,
    structural_files: Vec<String>,
    structural_parents: Vec<Vec<Vec<String>>>,
    crate_files: Vec<String>,
}

/// The texts of a list of module paths.
pub open spec fn path_texts(v: Seq<Vec<String>>) -> Seq<Seq<Seq<char>>> {
    v.map_values(|p: Vec<String>| texts(p@))
}

impl ModuleSourceMap {
    /// The files list and its module lists align, and every module of the
    /// tree has a file list.
    pub closed spec fn wf(&self) -> bool {
        &&& self.tree.wf()
        &&& self.files@.len() == self.file_modules@.len()
        &&& self.module_files@.len() == self.tree.parents@.len()
        &&& self.structural_files@.len() == self.structural_parents@.len()
        &&& forall|k: int, j: int|
            0 <= k < self.file_modules@.len() && 0 <= j < self.file_modules@[k]@.len()
                ==> (#[trigger] self.file_modules@[k]@[j]) < self.tree.parents@.len()
    }

    /// The module tree.
    pub closed spec fn tree_spec(&self) -> ModuleTree {
        self.tree
    }

    /// The modules that hold items of `file`, in the order they were found.
    pub closed spec fn modules_of(&self, file: Seq<char>) -> Seq<u32> {
        let k = first_index(texts(self.files@), file);
        if k >= 0 {
            self.file_modules@[k]@
        } else {
            Seq::empty()
        }
    }

    /// The files module `m` spans, in the order they were found.
    pub closed spec fn files_of(&self, m: u32) -> Seq<Seq<char>> {
        if m < self.module_files@.len() {
            texts(self.module_files@[m as int]@)
        } else {
            Seq::empty()
        }
    }

    /// The module paths the source tree's layout places `file` under.
    pub closed spec fn structural_parents_of(&self, file: Seq<char>) -> Seq<Seq<Seq<char>>> {
        let k = first_index(texts(self.structural_files@), file);
        if k >= 0 {
            path_texts(self.structural_parents@[k]@)
        } else {
            Seq::empty()
        }
    }

    /// Whether `file` is one of the crate's own source files.
    pub closed spec fn is_crate_file(&self, file: Seq<char>) -> bool {
        texts(self.crate_files@).contains(file)
    }

    /// A map over `tree` with no file placed yet.
    pub fn new(
        tree: ModuleTree,
        crate_files: Vec<String>,
        structural_files: Vec<String>,
        structural_parents: Vec<Vec<Vec<String>>>,
    ) -> (r: Self)
        requires
            tree.wf(),
            structural_files@.len() == structural_parents@.len(),
        ensures
            r.wf(),
            r.tree_spec() == tree,
            forall|f: Seq<char>| #[trigger] r.modules_of(f) == Seq::<u32>::empty(),
            forall|m: u32| #[trigger] r.files_of(m) == Seq::<Seq<char>>::empty(),
            forall|f: Seq<char>| #[trigger] r.is_crate_file(f) == texts(crate_files@).contains(f),
            forall|f: Seq<char>|
                #[trigger] r.structural_parents_of(f) == (if first_index(texts(structural_files@), f) >= 0 {
                    path_texts(structural_parents@[first_index(texts(structural_files@), f)]@)
                } else {
                    Seq::empty()
                }),
    {
        let n = tree.parents.len();
        let mut module_files: Vec<Vec<String>> = Vec::new();
        let mut i: usize = 0;
        while i < n
            invariant
                i <= n,
                module_files@.len() == i,
                forall|j: int| 0 <= j < i ==> (#[trigger] module_files@[j])@.len() == 0,
            decreases n - i,
        {
            module_files.push(Vec::new());
            i = i + 1;
        }
        let r = ModuleSourceMap {
            tree,
            files: Vec::new(),
            file_modules: Vec::new(),
            module_files,
            structural_files,
            structural_parents,
            crate_files,
        };
        proof {
            assert forall|f: Seq<char>| #[trigger] r.modules_of(f) == Seq::<u32>::empty() by {
                assert(texts(r.files@).len() == 0);
            }
            assert forall|m: u32| #[trigger] r.files_of(m) == Seq::<Seq<char>>::empty() by {
                if m < r.module_files@.len() {
                    assert(texts(r.module_files@[m as int]@) =~= Seq::<Seq<char>>::empty());
                }
            }
        }
        r
    }

    /// Records that `module` holds items of `source_file`, once.
    pub fn insert(&mut self, module: u32, source_file: String)
        requires
            old(self).wf(),
            module < old(self).tree_spec().parents@.len(),
        ensures
            final(self).wf(),
            final(self).tree_spec() == old(self).tree_spec(),
            forall|f: Seq<char>|
                #[trigger] final(self).modules_of(f) == (if f == source_file@ && !old(self).modules_of(f).contains(module) {
                    old(self).modules_of(f).push(module)
                } else {
                    old(self).modules_of(f)
                }),
            forall|m: u32|
                #[trigger] final(self).files_of(m) == (if m == module && !old(self).files_of(m).contains(source_file@) {
                    old(self).files_of(m).push(source_file@)
                } else {
                    old(self).files_of(m)
                }),
            forall|f: Seq<char>| #[trigger] final(self).is_crate_file(f) == old(self).is_crate_file(f),
            forall|f: Seq<char>| #[trigger] final(self).structural_parents_of(f) == old(self).structural_parents_of(f),
    {
        let ghost before = *self;
        // The file's module list.
        match position_of(&self.files, source_file.as_str()) {
            Some(k) => {
                let mut list = self.file_modules[k].clone();
                let ghost old_list = self.file_modules@[k as int]@;
                assert(list@ == old_list);
                if !contains_module(&list, module) {
                    list.push(module);
                }
                self.file_modules.set(k, list);
                proof {
                    assert forall|f: Seq<char>| #[trigger] self.modules_of(f) == (if f == source_file@
                        && !before.modules_of(f).contains(module) {
                        before.modules_of(f).push(module)
                    } else {
                        before.modules_of(f)
                    }) by {
                        let j = first_index(texts(self.files@), f);
                        assert(texts(self.files@) == texts(before.files@));
                        if j >= 0 && f != source_file@ {
                            lemma_first_index_found(texts(before.files@), f);
                            lemma_first_index_found(texts(before.files@), source_file@);
                            assert(j != k);
                        }
                    }
                }
            },
            None => {
                let mut list: Vec<u32> = Vec::new();
                list.push(module);
                self.files.push(source_file.clone());
                self.file_modules.push(list);
                proof {
                    let t = texts(self.files@);
                    assert(t =~= texts(before.files@).push(source_file@));
                    assert(t.drop_last() =~= texts(before.files@));
                    assert forall|f: Seq<char>| #[trigger] self.modules_of(f) == (if f == source_file@
                        && !before.modules_of(f).contains(module) {
                        before.modules_of(f).push(module)
                    } else {
                        before.modules_of(f)
                    }) by {
                        if f == source_file@ {
                            assert(first_index(t, f) == t.len() - 1);
                            assert(before.modules_of(f) =~= Seq::<u32>::empty());
                            assert(self.modules_of(f) =~= seq![module]);
                            assert(before.modules_of(f).push(module) =~= seq![module]);
                        } else {
                            let j = first_index(texts(before.files@), f);
                            assert(first_index(t, f) == j);
                            if j >= 0 {
                                lemma_first_index_found(texts(before.files@), f);
                            }
                        }
                    }
                }
            },
        }
        let ghost mid = *self;
        // The module's file list.
        let m = module as usize;
        let mut files = self.module_files[m].clone();
        let ghost old_files = texts(self.module_files@[m as int]@);
        match position_of(&files, source_file.as_str()) {
            Some(_) => {
                proof {
                    lemma_first_index_found(texts(files@), source_file@);
                }
            },
            None => {
                proof {
                    lemma_first_index_missing(texts(files@), source_file@);
                }
                files.push(source_file);
            },
        }
        self.module_files.set(m, files);
        proof {
            assert forall|mm: u32| #[trigger] self.files_of(mm) == (if mm == module && !before.files_of(mm).contains(source_file@) {
                before.files_of(mm).push(source_file@)
            } else {
                before.files_of(mm)
            }) by {
                if mm == module {
                    assert(texts(self.module_files@[m as int]@) =~= (if !old_files.contains(source_file@) { old_files.push(source_file@) } else { old_files }));
                }
            }
            assert forall|f: Seq<char>| #[trigger] self.modules_of(f) == mid.modules_of(f) by {}
        }
    }

    /// Every module a file holds is a module of the tree.
    pub proof fn lemma_modules_are_in_tree(&self, file: Seq<char>)
        requires
            self.wf(),
        ensures
            forall|j: int|
                0 <= j < self.modules_of(file).len() ==> (#[trigger] self.modules_of(file)[j])
                    < self.tree_spec().parents@.len(),
    {
        let k = first_index(texts(self.files@), file);
        if k >= 0 {
            lemma_first_index_found(texts(self.files@), file);
        }
    }

    /// A well-formed map is over a well-formed tree.
    pub proof fn lemma_tree_wf(&self)
        requires
            self.wf(),
        ensures
            self.tree_spec().wf(),
    {
    }

    proof fn lemma_direct_roots_from(&self, mods: Seq<u32>, file: Seq<char>, bound: nat)
        requires
            forall|j: int| 0 <= j < mods.len() ==> (#[trigger] mods[j]) < bound,
        ensures
            forall|j: int| 0 <= j < self.direct_roots(mods, file).len() ==> (#[trigger] self.direct_roots(mods, file)[j]) < bound,
        decreases mods.len(),
    {
        if mods.len() > 0 {
            let p = mods.drop_last();
            assert forall|j: int| 0 <= j < p.len() implies (#[trigger] p[j]) < bound by {
                assert(p[j] == mods[j]);
            }
            self.lemma_direct_roots_from(p, file, bound);
            let rest = self.direct_roots(p, file);
            let r = rest.push(mods.last());
            assert(mods[mods.len() - 1] < bound);
            assert forall|j: int| 0 <= j < r.len() implies (#[trigger] r[j]) < bound by {
                if j < rest.len() {
                    assert(r[j] == rest[j]);
                }
            }
        }
    }

    /// Every root module of a file is a module of the tree.
    pub proof fn lemma_root_modules_in_tree(&self, file: Seq<char>)
        requires
            self.wf(),
        ensures
            forall|j: int|
                0 <= j < self.root_modules_spec(file).len() ==> (#[trigger] self.root_modules_spec(file)[j])
                    < self.tree_spec().parents@.len(),
    {
        let n = self.tree.parents@.len();
        self.lemma_modules_are_in_tree(file);
        self.lemma_direct_roots_from(self.modules_of(file), file, n);
        let parents = self.structural_parents_of(file);
        let mapped = parents.map_values(|p: Seq<Seq<char>>| self.tree.nearest_ancestor(p));
        assert forall|j: int| 0 <= j < mapped.len() implies (#[trigger] mapped[j]) < n by {
            lemma_nearest_in_tree(self.tree, parents[j]);
        }
        lemma_first_occurrences_from(mapped, n);
    }

    /// The tree the map is over.
    pub fn tree(&self) -> (t: &ModuleTree)
        ensures
            *t == self.tree_spec(),
    {
        &self.tree
    }

    fn modules_list(&self, file: &str) -> (r: Vec<u32>)
        requires
            self.wf(),
        ensures
            r@ == self.modules_of(file@),
    {
        match position_of(&self.files, file) {
            Some(k) => self.file_modules[k].clone(),
            None => Vec::new(),
        }
    }

    /// Whether module `m` spans `file`.
    fn module_has_file(&self, m: u32, file: &str) -> (r: bool)
        requires
            self.wf(),
        ensures
            r == self.files_of(m).contains(file@),
    {
        if (m as usize) >= self.module_files.len() {
            return false;
        }
        match position_of(&self.module_files[m as usize], file) {
            Some(_) => {
                proof {
                    lemma_first_index_found(texts(self.module_files@[m as int]@), file@);
                }
                true
            },
            None => {
                proof {
                    lemma_first_index_missing(texts(self.module_files@[m as int]@), file@);
                }
                false
            },
        }
    }

    /// The files module `m` spans.
    pub fn source_files(&self, m: u32) -> (r: Vec<String>)
        requires
            self.wf(),
        ensures
            texts(r@) == self.files_of(m),
    {
        if (m as usize) >= self.module_files.len() {
            let r: Vec<String> = Vec::new();
            assert(texts(r@) =~= Seq::<Seq<char>>::empty());
            return r;
        }
        let list = &self.module_files[m as usize];
        let r = strings_range(list, 0, list.len());
        assert(texts(list@).subrange(0, list@.len() as int) =~= texts(list@));
        r
    }

    /// Whether one of the modules holding `file` has the module path
    /// `expected`.
    pub fn file_contains_module_path(&self, file: &str, expected: &Vec<String>) -> (r: bool)
        requires
            self.wf(),
        ensures
            r == exists|j: int|
                0 <= j < self.modules_of(file@).len() && self.tree_spec().path_of(
                    #[trigger] self.modules_of(file@)[j],
                ) == texts(expected@),
    {
        let mods = self.modules_list(file);
        proof {
            self.lemma_modules_are_in_tree(file@);
        }
        let mut i: usize = 0;
        while i < mods.len()
            invariant
                self.wf(),
                mods@ == self.modules_of(file@),
                i <= mods.len(),
                forall|j: int| 0 <= j < mods@.len() ==> (#[trigger] mods@[j]) < self.tree.parents@.len(),
                forall|j: int| 0 <= j < i ==> self.tree.path_of(#[trigger] mods@[j]) != texts(expected@),
            decreases mods.len() - i,
        {
            let m = mods[i];
            if same_segments(&self.tree.paths[m as usize], expected) {
                return true;
            }
            i = i + 1;
        }
        false
    }

    /// The modules of `mods` that are roots of `file`: the crate root, or a
    /// module whose parent does not span the same file.
    pub open spec fn direct_roots(&self, mods: Seq<u32>, file: Seq<char>) -> Seq<u32>
        decreases mods.len(),
    {
        if mods.len() == 0 {
            Seq::empty()
        } else {
            let rest = self.direct_roots(mods.drop_last(), file);
            let m = mods.last();
            if m == CRATE_MODULE || !self.files_of(self.tree_spec().parents@[m as int]).contains(file) {
                rest.push(m)
            } else {
                rest
            }
        }
    }

    /// The nearest existing module of each structural parent path, each once.
    pub open spec fn structural_roots(&self, parents: Seq<Seq<Seq<char>>>) -> Seq<u32> {
        first_occurrences(parents.map_values(|p: Seq<Seq<char>>| self.tree_spec().nearest_ancestor(p)))
    }

    /// The modules `file` is a root file of. When none of the modules
    /// holding it is a root but the file belongs to the crate, its
    /// structural parents stand in, and the crate root when it has none.
    pub open spec fn root_modules_spec(&self, file: Seq<char>) -> Seq<u32> {
        let direct = self.direct_roots(self.modules_of(file), file);
        if direct.len() > 0 || !self.is_crate_file(file) {
            direct
        } else {
            let structural = self.structural_roots(self.structural_parents_of(file));
            if structural.len() == 0 {
                seq![CRATE_MODULE]
            } else {
                structural
            }
        }
    }

    /// The modules `file` is a root file of.
    pub fn root_modules_for_file(&self, file: &str) -> (r: Vec<u32>)
        requires
            self.wf(),
        ensures
            r@ == self.root_modules_spec(file@),
    {
        let mods = self.modules_list(file);
        proof {
            self.lemma_modules_are_in_tree(file@);
        }
        let mut roots: Vec<u32> = Vec::new();
        let mut i: usize = 0;
        while i < mods.len()
            invariant
                self.wf(),
                mods@ == self.modules_of(file@),
                i <= mods.len(),
                forall|j: int| 0 <= j < mods@.len() ==> (#[trigger] mods@[j]) < self.tree.parents@.len(),
                roots@ == self.direct_roots(mods@.take(i as int), file@),
            decreases mods.len() - i,
        {
            let m = mods[i];
            proof {
                assert(mods@.take(i + 1).drop_last() =~= mods@.take(i as int));
                assert(mods@.take(i + 1).last() == m);
            }
            if m == CRATE_MODULE || !self.module_has_file(self.tree.parents[m as usize], file) {
                roots.push(m);
            }
            i = i + 1;
        }
        assert(mods@.take(i as int) =~= mods@);
        if roots.len() > 0 || !self.crate_file(file) {
            return roots;
        }
        let parents = self.structural_parent_list(file);
        let ghost mapped = path_texts(parents@).map_values(|p: Seq<Seq<char>>| self.tree.nearest_ancestor(p));
        let mut structural: Vec<u32> = Vec::new();
        let mut k: usize = 0;
        while k < parents.len()
            invariant
                self.wf(),
                k <= parents.len(),
                mapped == path_texts(parents@).map_values(|p: Seq<Seq<char>>| self.tree.nearest_ancestor(p)),
                structural@ == first_occurrences(mapped.take(k as int)),
            decreases parents.len() - k,
        {
            let m = self.tree.nearest_active_ancestor(&parents[k]);
            proof {
                assert(mapped.take(k + 1).drop_last() =~= mapped.take(k as int));
                assert(mapped.take(k + 1).last() == m);
            }
            if !contains_module(&structural, m) {
                structural.push(m);
            }
            k = k + 1;
        }
        assert(mapped.take(k as int) =~= mapped);
        if structural.len() == 0 {
            let mut only: Vec<u32> = Vec::new();
            only.push(CRATE_MODULE);
            assert(only@ =~= seq![CRATE_MODULE]);
            only
        } else {
            structural
        }
    }

    fn crate_file(&self, file: &str) -> (r: bool)
        ensures
            r == self.is_crate_file(file@),
    {
        match position_of(&self.crate_files, file) {
            Some(_) => {
                proof {
                    lemma_first_index_found(texts(self.crate_files@), file@);
                }
                true
            },
            None => {
                proof {
                    lemma_first_index_missing(texts(self.crate_files@), file@);
                }
                false
            },
        }
    }

    fn structural_parent_list(&self, file: &str) -> (r: Vec<Vec<String>>)
        requires
            self.wf(),
        ensures
            path_texts(r@) == self.structural_parents_of(file@),
    {
        match position_of(&self.structural_files, file) {
            Some(k) => {
                let list = &self.structural_parents[k];
                let mut out: Vec<Vec<String>> = Vec::new();
                let mut i: usize = 0;
                while i < list.len()
                    invariant
                        i <= list.len(),
                        path_texts(out@) =~= path_texts(list@).take(i as int),
                    decreases list.len() - i,
                {
                    let p = strings_range(&list[i], 0, list[i].len());
                    proof {
                        assert(texts(list@[i as int]@).subrange(0, list@[i as int]@.len() as int) =~= texts(list@[i as int]@));
                    }
                    let ghost before = out@;
                    let ghost pv = texts(p@);
                    out.push(p);
                    i = i + 1;
                    assert(path_texts(out@) =~= path_texts(before).push(pv));
                    assert(path_texts(out@) =~= path_texts(list@).take(i as int));
                }
                assert(path_texts(list@).take(i as int) =~= path_texts(list@));
                out
            },
            None => {
                let out: Vec<Vec<String>> = Vec::new();
                assert(path_texts(out@) =~= Seq::<Seq<Seq<char>>>::empty());
                out
            },
        }
    }
}

proof fn lemma_first_index_found(s: Seq<Seq<char>>, x: Seq<char>)
    requires
        first_index(s, x) >= 0,
    ensures
        s.contains(x),
        0 <= first_index(s, x) < s.len(),
        s[first_index(s, x)] == x,
    decreases s.len(),
{
    if s.len() > 0 {
        let p = s.drop_last();
        if first_index(p, x) >= 0 {
            lemma_first_index_found(p, x);
            assert(s[first_index(s, x)] == p[first_index(p, x)]);
        } else {
            assert(s[s.len() - 1] == x);
        }
    }
}

proof fn lemma_first_index_missing(s: Seq<Seq<char>>, x: Seq<char>)
    requires
        first_index(s, x) == -1,
    ensures
        !s.contains(x),
    decreases s.len(),
{
    if s.len() > 0 {
        let p = s.drop_last();
        lemma_first_index_missing(p, x);
        if s.contains(x) {
            let k = choose|k: int| 0 <= k < s.len() && s[k] == x;
            if k < p.len() {
                assert(p[k] == x);
            }
        }
    }
}

proof fn lemma_nearest_in_tree(tree: ModuleTree, p: Seq<Seq<char>>)
    requires
        tree.wf(),
    ensures
        tree.nearest_ancestor(p) < tree.parents@.len(),
    decreases p.len(),
{
    if tree.module_with_path(p) is None && p.len() > 0 {
        lemma_nearest_in_tree(tree, p.drop_last());
    }
}

proof fn lemma_first_occurrences_from(s: Seq<u32>, bound: nat)
    requires
        forall|j: int| 0 <= j < s.len() ==> (#[trigger] s[j]) < bound,
    ensures
        forall|j: int| 0 <= j < first_occurrences(s).len() ==> (#[trigger] first_occurrences(s)[j]) < bound,
    decreases s.len(),
{
    if s.len() > 0 {
        let p = s.drop_last();
        assert forall|j: int| 0 <= j < p.len() implies (#[trigger] p[j]) < bound by {
            assert(p[j] == s[j]);
        }
        lemma_first_occurrences_from(p, bound);
        let rest = first_occurrences(p);
        let r = rest.push(s.last());
        assert(s[s.len() - 1] < bound);
        assert forall|j: int| 0 <= j < r.len() implies (#[trigger] r[j]) < bound by {
            if j < rest.len() {
                assert(r[j] == rest[j]);
            }
        }
    }
}

} // verus!
