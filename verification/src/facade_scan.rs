//! Scanning the paths one source file writes for references to a parent
//! facade's exported names, and to one item of a child module.
//!
//! The paths themselves are read from the parsed file elsewhere; here each
//! is a list of segments with the inline module it was written in.

use vstd::prelude::*;
use crate::facade_paths::{
    ExportNameIndex, option_text_of, same_segments, ParentFacadeReferenceUsage, PathOrigin, UseRename, alias_resolution,
    ParentFacadeUsage, merge_parent_facade_usage, merge_usage_spec, usage_for_reference,
    usage_for_reference_spec, module_descendant, usage_rank, lemma_merge_parent_facade_usage_laws, module_path_is_descendant, normalized, normalized_name,
    export_match, matching_export_name_indexed, merge_reference_spec, merge_reference_usage,
    reference_rank, resolution_mentions_child_item, resolve_alias_expr_path,
    resolved_path_mentions_child_item,
};
use crate::ordered::{TextOrder, compare_text, texts};

verus! {

/// One path a source file writes, with where it starts and the inline
/// module (relative to the file's root module) it is written in.
pub struct ExtractedPath {
    pub segments: Vec<String>,
    pub origin: PathOrigin,
    pub module_suffix: Vec<String>,
}

/// The paths of one source file: those its `use` items import, those its
/// expressions, types and patterns write, and its module-level renames.
pub struct ExtractedPaths {
    pub use_paths: Vec<ExtractedPath>,
    pub expr_paths: Vec<ExtractedPath>,
    pub use_renames: Vec<UseRename>,
}

/// The exported name an expression path names, directly or through a
/// module rename, when it is written in the inline module `suffix`.
pub open spec fn expr_path_match(
    p: ExtractedPath,
    renames: Seq<UseRename>,
    cur: Seq<Seq<char>>,
    suffix: Seq<Seq<char>>,
    module: Seq<Seq<char>>,
    names: Set<Seq<char>>,
) -> Option<Seq<char>> {
    if texts(p.module_suffix@) != suffix {
        None
    } else {
        match export_match(texts(p.segments@), cur, module, names) {
            Some(n) => Some(n),
            None => match alias_resolution(texts(p.segments@), suffix, renames) {
                Some(resolved) => export_match(resolved, cur, module, names),
                None => None,
            },
        }
    }
}

/// The exported name a `use` path imports, when it is written in the
/// inline module `suffix`.
pub open spec fn use_path_match(
    p: ExtractedPath,
    cur: Seq<Seq<char>>,
    suffix: Seq<Seq<char>>,
    module: Seq<Seq<char>>,
    names: Set<Seq<char>>,
) -> Option<Seq<char>> {
    if texts(p.module_suffix@) != suffix {
        None
    } else {
        export_match(texts(p.segments@), cur, module, names)
    }
}

/// What one expression path contributes: the name it references, as a
/// direct path.
pub open spec fn expr_contribution(
    renames: Seq<UseRename>,
    cur: Seq<Seq<char>>,
    suffix: Seq<Seq<char>>,
    module: Seq<Seq<char>>,
    names: Set<Seq<char>>,
) -> spec_fn(ExtractedPath) -> Option<(Seq<char>, ParentFacadeReferenceUsage)> {
    |p: ExtractedPath|
        match expr_path_match(p, renames, cur, suffix, module, names) {
            Some(n) => Some((n, ParentFacadeReferenceUsage::DirectPath(p.origin))),
            None => None,
        }
}

/// What one `use` path contributes: the name it imports.
pub open spec fn use_contribution(
    cur: Seq<Seq<char>>,
    suffix: Seq<Seq<char>>,
    module: Seq<Seq<char>>,
    names: Set<Seq<char>>,
) -> spec_fn(ExtractedPath) -> Option<(Seq<char>, ParentFacadeReferenceUsage)> {
    |p: ExtractedPath|
        match use_path_match(p, cur, suffix, module, names) {
            Some(n) => Some((n, ParentFacadeReferenceUsage::Import(p.origin))),
            None => None,
        }
}

/// Every reference the file's paths make, in order: expression paths as
/// direct paths, then `use` paths as imports.
pub open spec fn contributions(
    e: ExtractedPaths,
    cur: Seq<Seq<char>>,
    suffix: Seq<Seq<char>>,
    module: Seq<Seq<char>>,
    names: Set<Seq<char>>,
) -> Seq<(Seq<char>, ParentFacadeReferenceUsage)> {
    e.expr_paths@.filter_map(expr_contribution(e.use_renames@, cur, suffix, module, names))
        + e.use_paths@.filter_map(use_contribution(cur, suffix, module, names))
}

/// The strongest reference to `n` among `c`.
pub open spec fn merged_for(
    c: Seq<(Seq<char>, ParentFacadeReferenceUsage)>,
    n: Seq<char>,
) -> ParentFacadeReferenceUsage
    decreases c.len(),
{
    if c.len() == 0 {
        ParentFacadeReferenceUsage::Unreferenced
    } else {
        merge_reference_spec(
            merged_for(c.drop_last(), n),
            if c.last().0 == n {
                c.last().1
            } else {
                ParentFacadeReferenceUsage::Unreferenced
            },
        )
    }
}

/// Each referenced name with the strongest reference to it.
pub open spec fn usage_map(c: Seq<(Seq<char>, ParentFacadeReferenceUsage)>) -> Map<
    Seq<char>,
    ParentFacadeReferenceUsage,
> {
    Map::new(
        |n: Seq<char>| exists|i: int| 0 <= i < c.len() && (#[trigger] c[i]).0 == n,
        |n: Seq<char>| merged_for(c, n),
    )
}

proof fn lemma_merged_for_absent(c: Seq<(Seq<char>, ParentFacadeReferenceUsage)>, n: Seq<char>)
    requires
        forall|i: int| 0 <= i < c.len() ==> (#[trigger] c[i]).0 != n,
    ensures
        merged_for(c, n) == ParentFacadeReferenceUsage::Unreferenced,
    decreases c.len(),
{
    if c.len() > 0 {
        let p = c.drop_last();
        assert forall|i: int| 0 <= i < p.len() implies (#[trigger] p[i]).0 != n by {
            assert(p[i] == c[i]);
        }
        lemma_merged_for_absent(p, n);
    }
}

/// Adding one reference updates only its own name.
proof fn lemma_usage_map_push(
    c: Seq<(Seq<char>, ParentFacadeReferenceUsage)>,
    e: (Seq<char>, ParentFacadeReferenceUsage),
)
    ensures
        usage_map(c.push(e)) == usage_map(c).insert(
            e.0,
            merge_reference_spec(
                if usage_map(c).dom().contains(e.0) {
                    usage_map(c)[e.0]
                } else {
                    ParentFacadeReferenceUsage::Unreferenced
                },
                e.1,
            ),
        ),
{
    let q = c.push(e);
    let m = usage_map(c);
    assert(q.drop_last() =~= c);
    assert forall|n: Seq<char>| #[trigger] usage_map(q).dom().contains(n) <==> m.insert(
        e.0,
        ParentFacadeReferenceUsage::Unreferenced,
    ).dom().contains(n) by {
        if usage_map(q).dom().contains(n) {
            let i = choose|i: int| 0 <= i < q.len() && (#[trigger] q[i]).0 == n;
            if i < c.len() {
                assert(c[i] == q[i]);
            }
        }
        if m.dom().contains(n) {
            let i = choose|i: int| 0 <= i < c.len() && (#[trigger] c[i]).0 == n;
            assert(q[i] == c[i]);
        }
        if n == e.0 {
            assert(q[c.len() as int] == e);
        }
    }
    assert forall|n: Seq<char>| #[trigger] usage_map(q).dom().contains(n) implies usage_map(q)[n]
        == m.insert(
        e.0,
        merge_reference_spec(
            if m.dom().contains(e.0) {
                m[e.0]
            } else {
                ParentFacadeReferenceUsage::Unreferenced
            },
            e.1,
        ),
    )[n] by {
        if n == e.0 {
            if !m.dom().contains(e.0) {
                assert forall|i: int| 0 <= i < c.len() implies (#[trigger] c[i]).0 != n by {
                    if c[i].0 == n {
                        assert(m.dom().contains(n));
                    }
                }
                lemma_merged_for_absent(c, n);
            }
        } else {
            let x = merged_for(c, n);
            assert(reference_rank(ParentFacadeReferenceUsage::Unreferenced) == 0);
            assert(reference_rank(x) >= 0);
        }
    }
    assert(usage_map(q) =~= m.insert(
        e.0,
        merge_reference_spec(
            if m.dom().contains(e.0) {
                m[e.0]
            } else {
                ParentFacadeReferenceUsage::Unreferenced
            },
            e.1,
        ),
    ));
}

/// Each referenced exported name with the strongest reference to it.
pub struct ReferenceUsageByName {
    names: Vec<String>,
    usages: Vec<ParentFacadeReferenceUsage>,
}

spec fn name_index(names: Seq<Seq<char>>, n: Seq<char>) -> int {
    choose|i: int| 0 <= i < names.len() && names[i] == n
}

impl View for ReferenceUsageByName {
    type V = Map<Seq<char>, ParentFacadeReferenceUsage>;

    closed spec fn view(&self) -> Map<Seq<char>, ParentFacadeReferenceUsage> {
        Map::new(
            |n: Seq<char>| texts(self.names@).contains(n),
            |n: Seq<char>| self.usages@[name_index(texts(self.names@), n)],
        )
    }
}

impl ReferenceUsageByName {
    /// Names are distinct and each has its usage.
    pub closed spec fn wf(&self) -> bool {
        &&& self.names.len() == self.usages.len()
        &&& forall|i: int, j: int|
            0 <= i < j < self.names.len() ==> (#[trigger] self.names@[i])@ != (
            #[trigger] self.names@[j])@
    }

    proof fn lemma_view_at(&self, i: int)
        requires
            self.wf(),
            0 <= i < self.names.len(),
        ensures
            self@.dom().contains(self.names@[i]@),
            self@[self.names@[i]@] == self.usages@[i],
    {
        let ns = texts(self.names@);
        assert(ns[i] == self.names@[i]@);
        assert(ns.contains(ns[i]));
        let j = name_index(ns, ns[i]);
        if j != i {
            if j < i {
                assert(self.names@[j]@ != self.names@[i]@);
            } else {
                assert(self.names@[i]@ != self.names@[j]@);
            }
        }
    }

    /// No reference yet.
    pub fn new() -> (r: Self)
        ensures
            r.wf(),
            r@ == Map::<Seq<char>, ParentFacadeReferenceUsage>::empty(),
    {
        let r = ReferenceUsageByName { names: Vec::new(), usages: Vec::new() };
        proof {
            assert(r@ =~= Map::<Seq<char>, ParentFacadeReferenceUsage>::empty());
        }
        r
    }

    /// The names referenced, each once.
    pub fn len(&self) -> (n: usize)
        requires
            self.wf(),
        ensures
            n == self@.dom().len(),
    {
        proof {
            assert(texts(self.names@).to_set() =~= self@.dom());
            assert forall|i: int, j: int|
                0 <= i < j < texts(self.names@).len() implies texts(self.names@)[i] != texts(
                self.names@,
            )[j] by {
                assert(texts(self.names@)[i] == self.names@[i]@);
                assert(texts(self.names@)[j] == self.names@[j]@);
            }
            assert(texts(self.names@).no_duplicates());
            texts(self.names@).unique_seq_to_set();
        }
        self.names.len()
    }

    /// The strongest reference to `name`, or none.
    pub fn get(&self, name: &str) -> (r: ParentFacadeReferenceUsage)
        requires
            self.wf(),
        ensures
            r == (if self@.dom().contains(name@) {
                self@[name@]
            } else {
                ParentFacadeReferenceUsage::Unreferenced
            }),
    {
        let mut i: usize = 0;
        while i < self.names.len()
            invariant
                i <= self.names.len(),
                self.wf(),
                forall|j: int| 0 <= j < i ==> (#[trigger] self.names@[j])@ != name@,
            decreases self.names.len() - i,
        {
            if compare_text(self.names[i].as_str(), name) == TextOrder::Equal {
                proof {
                    self.lemma_view_at(i as int);
                }
                return self.usages[i];
            }
            i = i + 1;
        }
        proof {
            if self@.dom().contains(name@) {
                let j = choose|j: int|
                    0 <= j < texts(self.names@).len() && texts(self.names@)[j] == name@;
                assert(self.names@[j]@ == name@);
            }
        }
        ParentFacadeReferenceUsage::Unreferenced
    }

    /// Records one more reference to `name`, keeping the stronger.
    pub fn merge_for_name(&mut self, name: &str, next: ParentFacadeReferenceUsage)
        requires
            old(self).wf(),
        ensures
            final(self).wf(),
            final(self)@ == old(self)@.insert(
                name@,
                merge_reference_spec(
                    if old(self)@.dom().contains(name@) {
                        old(self)@[name@]
                    } else {
                        ParentFacadeReferenceUsage::Unreferenced
                    },
                    next,
                ),
            ),
    {
        let ghost before = *self;
        let mut i: usize = 0;
        while i < self.names.len()
            invariant
                i <= self.names.len(),
                *self == before,
                before == *old(self),
                self.wf(),
                forall|j: int| 0 <= j < i ==> (#[trigger] self.names@[j])@ != name@,
            decreases self.names.len() - i,
        {
            if compare_text(self.names[i].as_str(), name) == TextOrder::Equal {
                let merged = merge_reference_usage(self.usages[i], next);
                proof {
                    before.lemma_view_at(i as int);
                }
                self.usages.set(i, merged);
                proof {
                    assert forall|a: int, b: int|
                        0 <= a < b < self.names.len() implies (#[trigger] self.names@[a])@ != (
                        #[trigger] self.names@[b])@ by {
                        assert(self.names@[a] == before.names@[a]);
                    }
                    assert forall|n: Seq<char>| #[trigger] self@.dom().contains(n) implies self@[n]
                        == before@.insert(name@, merged)[n] by {
                        let k = name_index(texts(self.names@), n);
                        assert(0 <= k < self.names.len() && texts(self.names@)[k] == n);
                        assert(self.names@[k]@ == n);
                        self.lemma_view_at(k);
                        if k != i {
                            before.lemma_view_at(k);
                        }
                    }
                    assert(self@ =~= before@.insert(name@, merged));
                    assert(before.names@[i as int]@ == name@);
                    assert(before@.dom().contains(name@));
                    assert(merged == merge_reference_spec(before@[name@], next));
                }
                return;
            }
            i = i + 1;
        }
        proof {
            if before@.dom().contains(name@) {
                let j = choose|j: int|
                    0 <= j < texts(before.names@).len() && texts(before.names@)[j] == name@;
                assert(before.names@[j]@ == name@);
            }
        }
        let merged = merge_reference_usage(ParentFacadeReferenceUsage::Unreferenced, next);
        let owned = name.to_string();
        self.names.push(owned);
        self.usages.push(merged);
        proof {
            assert forall|a: int, b: int|
                0 <= a < b < self.names.len() implies (#[trigger] self.names@[a])@ != (
                #[trigger] self.names@[b])@ by {
                if b < before.names.len() {
                    assert(self.names@[a] == before.names@[a]);
                    assert(self.names@[b] == before.names@[b]);
                } else {
                    assert(self.names@[a] == before.names@[a]);
                }
            }
            let ns = texts(self.names@);
            assert(ns =~= texts(before.names@).push(name@));
            assert forall|n: Seq<char>| #[trigger] self@.dom().contains(n) <==> before@.insert(
                name@,
                merged,
            ).dom().contains(n) by {
                if ns.contains(n) {
                    let k = choose|k: int| 0 <= k < ns.len() && ns[k] == n;
                    if k < before.names.len() {
                        assert(texts(before.names@)[k] == n);
                    }
                }
                if texts(before.names@).contains(n) {
                    let k = choose|k: int|
                        0 <= k < texts(before.names@).len() && texts(before.names@)[k] == n;
                    assert(ns[k] == n);
                }
                if n == name@ {
                    assert(ns[before.names.len() as int] == n);
                }
            }
            assert forall|n: Seq<char>| #[trigger] self@.dom().contains(n) implies self@[n]
                == before@.insert(name@, merged)[n] by {
                let k = name_index(ns, n);
                assert(0 <= k < self.names.len() && ns[k] == n);
                assert(self.names@[k]@ == n);
                self.lemma_view_at(k);
                if k < before.names.len() {
                    assert(self.names@[k] == before.names@[k]);
                    assert(self.usages@[k] == before.usages@[k]);
                    before.lemma_view_at(k);
                }
            }
            assert(self@ =~= before@.insert(name@, merged));
        }
    }
}

fn expr_reference(
    p: &ExtractedPath,
    renames: &Vec<UseRename>,
    current_module_path: &Vec<String>,
    module_suffix: &Vec<String>,
    facade_module: &Vec<String>,
    names: &ExportNameIndex,
) -> (r: Option<String>)
    requires
        facade_module.len() < usize::MAX,
    ensures
        option_text_of(r) == expr_path_match(
            *p,
            renames@,
            texts(current_module_path@),
            texts(module_suffix@),
            texts(facade_module@),
            names@,
        ),
{
    if !same_segments(&p.module_suffix, module_suffix) {
        return None;
    }
    match matching_export_name_indexed(&p.segments, current_module_path, facade_module, names) {
        Some(n) => Some(n),
        None => match resolve_alias_expr_path(&p.segments, module_suffix, renames) {
            Some(resolved) => matching_export_name_indexed(
                &resolved,
                current_module_path,
                facade_module,
                names,
            ),
            None => None,
        },
    }
}

fn use_reference(
    p: &ExtractedPath,
    current_module_path: &Vec<String>,
    module_suffix: &Vec<String>,
    facade_module: &Vec<String>,
    names: &ExportNameIndex,
) -> (r: Option<String>)
    requires
        facade_module.len() < usize::MAX,
    ensures
        option_text_of(r) == use_path_match(
            *p,
            texts(current_module_path@),
            texts(module_suffix@),
            texts(facade_module@),
            names@,
        ),
{
    if !same_segments(&p.module_suffix, module_suffix) {
        return None;
    }
    matching_export_name_indexed(&p.segments, current_module_path, facade_module, names)
}

/// The exported names of a facade that the paths of one file, written in
/// the inline module `module_suffix` of module `current_module_path`,
/// reference inside `facade_module`, each with its strongest reference.
pub fn source_references_parent_exports(
    extracted: &ExtractedPaths,
    current_module_path: &Vec<String>,
    module_suffix: &Vec<String>,
    facade_module: &Vec<String>,
    exported_names: &ExportNameIndex,
) -> (r: ReferenceUsageByName)
    requires
        facade_module.len() < usize::MAX,
    ensures
        r.wf(),
        r@ == usage_map(
            contributions(
                *extracted,
                texts(current_module_path@),
                texts(module_suffix@),
                texts(facade_module@),
                exported_names@,
            ),
        ),
{
    let ghost cur = texts(current_module_path@);
    let ghost suffix = texts(module_suffix@);
    let ghost module = texts(facade_module@);
    let ghost names = exported_names@;
    let ghost fe = expr_contribution(extracted.use_renames@, cur, suffix, module, names);
    let ghost fu = use_contribution(cur, suffix, module, names);
    let mut usage = ReferenceUsageByName::new();
    let mut i: usize = 0;
    proof {
        assert(extracted.expr_paths@.take(0).filter_map(fe) =~= Seq::<
            (Seq<char>, ParentFacadeReferenceUsage),
        >::empty());
        assert(usage_map(Seq::<(Seq<char>, ParentFacadeReferenceUsage)>::empty()) =~= Map::<
            Seq<char>,
            ParentFacadeReferenceUsage,
        >::empty());
    }
    while i < extracted.expr_paths.len()
        invariant
            i <= extracted.expr_paths.len(),
            facade_module.len() < usize::MAX,
            fe == expr_contribution(extracted.use_renames@, cur, suffix, module, names),
            cur == texts(current_module_path@),
            suffix == texts(module_suffix@),
            module == texts(facade_module@),
            names == exported_names@,
            usage.wf(),
            usage@ == usage_map(extracted.expr_paths@.take(i as int).filter_map(fe)),
        decreases extracted.expr_paths.len() - i,
    {
        let p = &extracted.expr_paths[i];
        let found = expr_reference(
            p,
            &extracted.use_renames,
            current_module_path,
            module_suffix,
            facade_module,
            exported_names,
        );
        let ghost before = extracted.expr_paths@.take(i as int).filter_map(fe);
        proof {
            assert(extracted.expr_paths@.take(i + 1).drop_last() =~= extracted.expr_paths@.take(
                i as int,
            ));
            assert(extracted.expr_paths@.take(i + 1).last() == *p);
        }
        match found {
            Some(name) => {
                usage.merge_for_name(name.as_str(), ParentFacadeReferenceUsage::DirectPath(p.origin));
                proof {
                    let e = (name@, ParentFacadeReferenceUsage::DirectPath(p.origin));
                    assert(fe(*p) == Some(e));
                    assert(extracted.expr_paths@.take(i + 1).filter_map(fe) =~= before + seq![e]);
                    assert(before + seq![e] =~= before.push(e));
                    lemma_usage_map_push(before, e);
                }
            },
            None => {
                proof {
                    assert(fe(*p) is None);
                    assert(extracted.expr_paths@.take(i + 1).filter_map(fe) =~= before);
                }
            },
        }
        i = i + 1;
    }
    let ghost expr_part = extracted.expr_paths@.filter_map(fe);
    proof {
        assert(extracted.expr_paths@.take(i as int) =~= extracted.expr_paths@);
        assert(expr_part + extracted.use_paths@.take(0).filter_map(fu) =~= expr_part);
    }
    let mut j: usize = 0;
    while j < extracted.use_paths.len()
        invariant
            j <= extracted.use_paths.len(),
            facade_module.len() < usize::MAX,
            fu == use_contribution(cur, suffix, module, names),
            cur == texts(current_module_path@),
            suffix == texts(module_suffix@),
            module == texts(facade_module@),
            names == exported_names@,
            usage.wf(),
            usage@ == usage_map(expr_part + extracted.use_paths@.take(j as int).filter_map(fu)),
        decreases extracted.use_paths.len() - j,
    {
        let p = &extracted.use_paths[j];
        let found = use_reference(p, current_module_path, module_suffix, facade_module, exported_names);
        let ghost before = expr_part + extracted.use_paths@.take(j as int).filter_map(fu);
        proof {
            assert(extracted.use_paths@.take(j + 1).drop_last() =~= extracted.use_paths@.take(
                j as int,
            ));
            assert(extracted.use_paths@.take(j + 1).last() == *p);
        }
        match found {
            Some(name) => {
                usage.merge_for_name(name.as_str(), ParentFacadeReferenceUsage::Import(p.origin));
                proof {
                    let e = (name@, ParentFacadeReferenceUsage::Import(p.origin));
                    assert(fu(*p) == Some(e));
                    assert(extracted.use_paths@.take(j + 1).filter_map(fu) =~= extracted.use_paths@.take(
                        j as int,
                    ).filter_map(fu) + seq![e]);
                    assert(expr_part + extracted.use_paths@.take(j + 1).filter_map(fu) =~= before.push(
                        e,
                    ));
                    lemma_usage_map_push(before, e);
                }
            },
            None => {
                proof {
                    assert(fu(*p) is None);
                    assert(extracted.use_paths@.take(j + 1).filter_map(fu) =~= extracted.use_paths@.take(
                        j as int,
                    ).filter_map(fu));
                }
            },
        }
        j = j + 1;
    }
    proof {
        assert(extracted.use_paths@.take(j as int) =~= extracted.use_paths@);
    }
    usage
}

/// Some path of the file, written in the inline module `suffix` of module
/// `cur`, names `item` in the child module or globs it; an expression path
/// may do so through a module rename.
pub open spec fn mentions_child_item_in(
    e: ExtractedPaths,
    cur: Seq<Seq<char>>,
    suffix: Seq<Seq<char>>,
    child: Seq<Seq<char>>,
    item: Seq<char>,
) -> bool {
    ||| exists|k: int|
        0 <= k < e.use_paths@.len() && texts((#[trigger] e.use_paths@[k]).module_suffix@) == suffix
            && resolution_mentions_child_item(texts(e.use_paths@[k].segments@), cur, child, item)
    ||| exists|k: int|
        0 <= k < e.expr_paths@.len() && texts((#[trigger] e.expr_paths@[k]).module_suffix@)
            == suffix && (resolution_mentions_child_item(
            texts(e.expr_paths@[k].segments@),
            cur,
            child,
            item,
        ) || (alias_resolution(texts(e.expr_paths@[k].segments@), suffix, e.use_renames@) matches Some(
            resolved,
        ) && resolution_mentions_child_item(resolved, cur, child, item)))
}

/// Whether any path of the file names the item in the child module.
pub fn extracted_paths_mention_child_item(
    extracted: &ExtractedPaths,
    current_module_path: &Vec<String>,
    module_suffix: &Vec<String>,
    child_module: &Vec<String>,
    item_name: &str,
) -> (r: bool)
    ensures
        r == mentions_child_item_in(
            *extracted,
            texts(current_module_path@),
            texts(module_suffix@),
            texts(child_module@),
            item_name@,
        ),
{
    let ghost cur = texts(current_module_path@);
    let ghost suffix = texts(module_suffix@);
    let ghost child = texts(child_module@);
    let mut k: usize = 0;
    while k < extracted.use_paths.len()
        invariant
            k <= extracted.use_paths.len(),
            cur == texts(current_module_path@),
            suffix == texts(module_suffix@),
            child == texts(child_module@),
            forall|a: int|
                0 <= a < k ==> !(texts((#[trigger] extracted.use_paths@[a]).module_suffix@) == suffix
                    && resolution_mentions_child_item(
                    texts(extracted.use_paths@[a].segments@),
                    cur,
                    child,
                    item_name@,
                )),
        decreases extracted.use_paths.len() - k,
    {
        let p = &extracted.use_paths[k];
        if same_segments(&p.module_suffix, module_suffix) && resolved_path_mentions_child_item(
            &p.segments,
            current_module_path,
            child_module,
            item_name,
        ) {
            return true;
        }
        k = k + 1;
    }
    let mut k: usize = 0;
    while k < extracted.expr_paths.len()
        invariant
            k <= extracted.expr_paths.len(),
            cur == texts(current_module_path@),
            suffix == texts(module_suffix@),
            child == texts(child_module@),
            forall|a: int|
                0 <= a < extracted.use_paths@.len() ==> !(texts(
                    (#[trigger] extracted.use_paths@[a]).module_suffix@,
                ) == suffix && resolution_mentions_child_item(
                    texts(extracted.use_paths@[a].segments@),
                    cur,
                    child,
                    item_name@,
                )),
            forall|a: int|
                0 <= a < k ==> !(texts((#[trigger] extracted.expr_paths@[a]).module_suffix@) == suffix
                    && (resolution_mentions_child_item(
                    texts(extracted.expr_paths@[a].segments@),
                    cur,
                    child,
                    item_name@,
                ) || (alias_resolution(
                    texts(extracted.expr_paths@[a].segments@),
                    suffix,
                    extracted.use_renames@,
                ) matches Some(resolved) && resolution_mentions_child_item(
                    resolved,
                    cur,
                    child,
                    item_name@,
                )))),
        decreases extracted.expr_paths.len() - k,
    {
        let p = &extracted.expr_paths[k];
        if same_segments(&p.module_suffix, module_suffix) {
            if resolved_path_mentions_child_item(
                &p.segments,
                current_module_path,
                child_module,
                item_name,
            ) {
                return true;
            }
            match resolve_alias_expr_path(&p.segments, module_suffix, &extracted.use_renames) {
                Some(resolved) => {
                    if resolved_path_mentions_child_item(
                        &resolved,
                        current_module_path,
                        child_module,
                        item_name,
                    ) {
                        return true;
                    }
                },
                None => {},
            }
        }
        k = k + 1;
    }
    false
}

// ---------------------------------------------------------------------
// How each exported name is used across the crate.

/// Each exported name of a facade with the farthest-reaching use of it.
pub struct FacadeUsageByName {
    names: Vec<String>,
    usages: Vec<ParentFacadeUsage>,
}

impl View for FacadeUsageByName {
    type V = Map<Seq<char>, ParentFacadeUsage>;

    closed spec fn view(&self) -> Map<Seq<char>, ParentFacadeUsage> {
        Map::new(
            |n: Seq<char>| texts(self.names@).contains(n),
            |n: Seq<char>| self.usages@[name_index(texts(self.names@), n)],
        )
    }
}

/// The use recorded for `n` in `m`, or none.
pub open spec fn usage_or_unused(m: Map<Seq<char>, ParentFacadeUsage>, n: Seq<char>) -> ParentFacadeUsage {
    if m.dom().contains(n) {
        m[n]
    } else {
        ParentFacadeUsage::Unused
    }
}

/// `m` after recording one module's references `refs`, made from inside
/// the facade's subtree or not.
pub open spec fn record_references_spec(
    m: Map<Seq<char>, ParentFacadeUsage>,
    refs: Map<Seq<char>, ParentFacadeReferenceUsage>,
    inside_subtree: bool,
) -> Map<Seq<char>, ParentFacadeUsage> {
    Map::new(
        |n: Seq<char>| m.dom().contains(n) || refs.dom().contains(n),
        |n: Seq<char>|
            if refs.dom().contains(n) {
                merge_usage_spec(usage_or_unused(m, n), usage_for_reference_spec(refs[n], inside_subtree))
            } else {
                m[n]
            },
    )
}

impl FacadeUsageByName {
    /// Names are distinct and each has its use.
    pub closed spec fn wf(&self) -> bool {
        &&& self.names.len() == self.usages.len()
        &&& forall|i: int, j: int|
            0 <= i < j < self.names.len() ==> (#[trigger] self.names@[i])@ != (
            #[trigger] self.names@[j])@
    }

    proof fn lemma_view_at(&self, i: int)
        requires
            self.wf(),
            0 <= i < self.names.len(),
        ensures
            self@.dom().contains(self.names@[i]@),
            self@[self.names@[i]@] == self.usages@[i],
    {
        let ns = texts(self.names@);
        assert(ns[i] == self.names@[i]@);
        assert(ns.contains(ns[i]));
        let j = name_index(ns, ns[i]);
        if j != i {
            if j < i {
                assert(self.names@[j]@ != self.names@[i]@);
            } else {
                assert(self.names@[i]@ != self.names@[j]@);
            }
        }
    }

    /// No name yet.
    pub fn new() -> (r: Self)
        ensures
            r.wf(),
            r@ == Map::<Seq<char>, ParentFacadeUsage>::empty(),
    {
        let r = FacadeUsageByName { names: Vec::new(), usages: Vec::new() };
        proof {
            assert(r@ =~= Map::<Seq<char>, ParentFacadeUsage>::empty());
        }
        r
    }

    /// The use recorded for `name`, if the name is one of the facade's.
    pub fn get(&self, name: &str) -> (r: Option<ParentFacadeUsage>)
        requires
            self.wf(),
        ensures
            r == (if self@.dom().contains(name@) {
                Some(self@[name@])
            } else {
                None
            }),
    {
        let mut i: usize = 0;
        while i < self.names.len()
            invariant
                i <= self.names.len(),
                self.wf(),
                forall|j: int| 0 <= j < i ==> (#[trigger] self.names@[j])@ != name@,
            decreases self.names.len() - i,
        {
            if compare_text(self.names[i].as_str(), name) == TextOrder::Equal {
                proof {
                    self.lemma_view_at(i as int);
                }
                return Some(self.usages[i]);
            }
            i = i + 1;
        }
        proof {
            if self@.dom().contains(name@) {
                let j = choose|j: int|
                    0 <= j < texts(self.names@).len() && texts(self.names@)[j] == name@;
                assert(self.names@[j]@ == name@);
            }
        }
        None
    }

    /// Records one more use of `name`, keeping the farther-reaching one; a
    /// name not yet present starts unused.
    pub fn merge_for_name(&mut self, name: &str, next: ParentFacadeUsage)
        requires
            old(self).wf(),
        ensures
            final(self).wf(),
            final(self)@ == old(self)@.insert(
                name@,
                merge_usage_spec(usage_or_unused(old(self)@, name@), next),
            ),
    {
        let ghost before = *self;
        let mut i: usize = 0;
        while i < self.names.len()
            invariant
                i <= self.names.len(),
                *self == before,
                before == *old(self),
                self.wf(),
                forall|j: int| 0 <= j < i ==> (#[trigger] self.names@[j])@ != name@,
            decreases self.names.len() - i,
        {
            if compare_text(self.names[i].as_str(), name) == TextOrder::Equal {
                let merged = merge_parent_facade_usage(self.usages[i], next);
                proof {
                    before.lemma_view_at(i as int);
                }
                self.usages.set(i, merged);
                proof {
                    assert forall|a: int, b: int|
                        0 <= a < b < self.names.len() implies (#[trigger] self.names@[a])@ != (
                        #[trigger] self.names@[b])@ by {
                        assert(self.names@[a] == before.names@[a]);
                    }
                    assert forall|n: Seq<char>| #[trigger] self@.dom().contains(n) implies self@[n]
                        == before@.insert(name@, merged)[n] by {
                        let k = name_index(texts(self.names@), n);
                        assert(0 <= k < self.names.len() && texts(self.names@)[k] == n);
                        assert(self.names@[k]@ == n);
                        self.lemma_view_at(k);
                        if k != i {
                            before.lemma_view_at(k);
                        }
                    }
                    assert(self@ =~= before@.insert(name@, merged));
                    assert(before.names@[i as int]@ == name@);
                    assert(before@.dom().contains(name@));
                }
                return;
            }
            i = i + 1;
        }
        let merged = merge_parent_facade_usage(ParentFacadeUsage::Unused, next);
        proof {
            if before@.dom().contains(name@) {
                let j = choose|j: int|
                    0 <= j < texts(before.names@).len() && texts(before.names@)[j] == name@;
                assert(before.names@[j]@ == name@);
            }
        }
        self.names.push(name.to_owned());
        self.usages.push(merged);
        proof {
            assert forall|a: int, b: int|
                0 <= a < b < self.names.len() implies (#[trigger] self.names@[a])@ != (
                #[trigger] self.names@[b])@ by {
                if b < before.names.len() {
                    assert(self.names@[a] == before.names@[a]);
                    assert(self.names@[b] == before.names@[b]);
                } else {
                    assert(self.names@[a] == before.names@[a]);
                }
            }
            let ns = texts(self.names@);
            assert(ns =~= texts(before.names@).push(name@));
            assert forall|n: Seq<char>| #[trigger] self@.dom().contains(n) <==> before@.insert(
                name@,
                merged,
            ).dom().contains(n) by {
                if ns.contains(n) {
                    let k = choose|k: int| 0 <= k < ns.len() && ns[k] == n;
                    if k < before.names.len() {
                        assert(texts(before.names@)[k] == n);
                    }
                }
                if texts(before.names@).contains(n) {
                    let k = choose|k: int|
                        0 <= k < texts(before.names@).len() && texts(before.names@)[k] == n;
                    assert(ns[k] == n);
                }
                if n == name@ {
                    assert(ns[before.names.len() as int] == n);
                }
            }
            assert forall|n: Seq<char>| #[trigger] self@.dom().contains(n) implies self@[n]
                == before@.insert(name@, merged)[n] by {
                let k = name_index(texts(self.names@), n);
                assert(0 <= k < self.names.len() && texts(self.names@)[k] == n);
                assert(self.names@[k]@ == n);
                self.lemma_view_at(k);
                if k < before.names.len() {
                    assert(self.names@[k] == before.names@[k]);
                    before.lemma_view_at(k);
                }
            }
            assert(self@ =~= before@.insert(name@, merged));
        }
    }

    /// Every exported name, each unused so far, keyed without any `r#`.
    pub fn for_exports(explicit: &Vec<String>) -> (r: Self)
        ensures
            r.wf(),
            r@ == Map::new(
                |n: Seq<char>| exists|i: int| 0 <= i < explicit@.len() && n == normalized(#[trigger] explicit@[i]@),
                |n: Seq<char>| ParentFacadeUsage::Unused,
            ),
    {
        let mut r = FacadeUsageByName::new();
        let mut i: usize = 0;
        while i < explicit.len()
            invariant
                i <= explicit.len(),
                r.wf(),
                r@ == Map::new(
                    |n: Seq<char>| exists|j: int| 0 <= j < i && n == normalized(#[trigger] explicit@[j]@),
                    |n: Seq<char>| ParentFacadeUsage::Unused,
                ),
            decreases explicit.len() - i,
        {
            let ghost before = r@;
            let name = normalized_name(explicit[i].as_str());
            r.merge_for_name(name.as_str(), ParentFacadeUsage::Unused);
            i = i + 1;
            proof {
                let target = Map::new(
                    |n: Seq<char>| exists|j: int| 0 <= j < i && n == normalized(#[trigger] explicit@[j]@),
                    |n: Seq<char>| ParentFacadeUsage::Unused,
                );
                assert forall|n: Seq<char>| #[trigger] r@.dom().contains(n) <==> target.dom().contains(n) by {
                    if n == name@ {
                        assert(n == normalized(explicit@[i - 1]@));
                    }
                    if target.dom().contains(n) {
                        let j = choose|j: int| 0 <= j < i && n == normalized(#[trigger] explicit@[j]@);
                        if j < i - 1 {
                            assert(before.dom().contains(n));
                        }
                    }
                }
                assert(r@ =~= target);
            }
        }
        r
    }

    /// Records the references one module makes: each referenced name takes
    /// the farther-reaching of its use so far and this one.
    pub fn record_references(&mut self, refs: &ReferenceUsageByName, inside_subtree: bool)
        requires
            old(self).wf(),
            refs.wf(),
        ensures
            final(self).wf(),
            final(self)@ == record_references_spec(old(self)@, refs@, inside_subtree),
    {
        let ghost start = self@;
        let mut i: usize = 0;
        while i < refs.names.len()
            invariant
                i <= refs.names.len(),
                refs.wf(),
                self.wf(),
                start == old(self)@,
                self@ == Map::new(
                    |n: Seq<char>| start.dom().contains(n) || exists|j: int| 0 <= j < i && (#[trigger] refs.names@[j])@ == n,
                    |n: Seq<char>|
                        if exists|j: int| 0 <= j < i && (#[trigger] refs.names@[j])@ == n {
                            merge_usage_spec(usage_or_unused(start, n), usage_for_reference_spec(refs@[n], inside_subtree))
                        } else {
                            start[n]
                        },
                ),
            decreases refs.names.len() - i,
        {
            let ghost before = self@;
            let u = usage_for_reference(refs.usages[i], inside_subtree);
            proof {
                refs.lemma_view_at(i as int);
            }
            self.merge_for_name(refs.names[i].as_str(), u);
            i = i + 1;
            proof {
                let k = (i - 1) as int;
                let nk = refs.names@[k]@;
                assert(!(exists|j: int| 0 <= j < k && (#[trigger] refs.names@[j])@ == nk)) by {
                    if exists|j: int| 0 <= j < k && (#[trigger] refs.names@[j])@ == nk {
                        let j = choose|j: int| 0 <= j < k && (#[trigger] refs.names@[j])@ == nk;
                        assert(refs.names@[j]@ != refs.names@[k]@);
                    }
                }
                assert(usage_or_unused(before, nk) == usage_or_unused(start, nk));
                let target = Map::new(
                    |n: Seq<char>| start.dom().contains(n) || exists|j: int| 0 <= j < i && (#[trigger] refs.names@[j])@ == n,
                    |n: Seq<char>|
                        if exists|j: int| 0 <= j < i && (#[trigger] refs.names@[j])@ == n {
                            merge_usage_spec(usage_or_unused(start, n), usage_for_reference_spec(refs@[n], inside_subtree))
                        } else {
                            start[n]
                        },
                );
                assert forall|n: Seq<char>| #[trigger] self@.dom().contains(n) <==> target.dom().contains(n) by {
                    if n == nk {
                        assert(refs.names@[k]@ == n);
                    }
                    if exists|j: int| 0 <= j < i && (#[trigger] refs.names@[j])@ == n {
                        let j = choose|j: int| 0 <= j < i && (#[trigger] refs.names@[j])@ == n;
                        if j < k {
                            assert(before.dom().contains(n));
                        }
                    }
                }
                assert forall|n: Seq<char>| #[trigger] self@.dom().contains(n) implies self@[n] == target[n] by {
                    if n == nk {
                        assert(refs.names@[k]@ == n);
                    } else {
                        if exists|j: int| 0 <= j < i && (#[trigger] refs.names@[j])@ == n {
                            let j = choose|j: int| 0 <= j < i && (#[trigger] refs.names@[j])@ == n;
                            assert(j < k);
                        }
                    }
                }
                assert(self@ =~= target);
            }
        }
        proof {
            let target = record_references_spec(start, refs@, inside_subtree);
            assert forall|n: Seq<char>| refs@.dom().contains(n) <==> exists|j: int| 0 <= j < refs.names.len() && (#[trigger] refs.names@[j])@ == n by {
                if refs@.dom().contains(n) {
                    let j = choose|j: int|
                        0 <= j < texts(refs.names@).len() && texts(refs.names@)[j] == n;
                    assert(refs.names@[j]@ == n);
                }
                if exists|j: int| 0 <= j < refs.names.len() && (#[trigger] refs.names@[j])@ == n {
                    let j = choose|j: int| 0 <= j < refs.names.len() && (#[trigger] refs.names@[j])@ == n;
                    refs.lemma_view_at(j);
                }
            }
            assert(self@ =~= target);
        }
    }
}

/// Records how one module context of a source file uses the facade's
/// exports: the module the facade itself is declared in is skipped, and
/// every other module's references count as uses from inside the facade's
/// subtree exactly when the module lies in it.
pub fn record_module_context_usage(
    usage: &mut FacadeUsageByName,
    extracted: &ExtractedPaths,
    context_path: &Vec<String>,
    context_suffix: &Vec<String>,
    in_boundary_file: bool,
    facade_module: &Vec<String>,
    exported_names: &ExportNameIndex,
)
    requires
        old(usage).wf(),
        facade_module.len() < usize::MAX,
    ensures
        final(usage).wf(),
        final(usage)@ == (if in_boundary_file && texts(context_path@) == texts(facade_module@) {
            old(usage)@
        } else {
            record_references_spec(
                old(usage)@,
                usage_map(
                    contributions(
                        *extracted,
                        texts(context_path@),
                        texts(context_suffix@),
                        texts(facade_module@),
                        exported_names@,
                    ),
                ),
                module_descendant(texts(context_path@), texts(facade_module@)),
            )
        }),
{
    if in_boundary_file && same_segments(context_path, facade_module) {
        return;
    }
    let refs = source_references_parent_exports(
        extracted,
        context_path,
        context_suffix,
        facade_module,
        exported_names,
    );
    let inside_subtree = module_path_is_descendant(context_path, facade_module);
    usage.record_references(&refs, inside_subtree);
}

/// The use of the facade's export that names `item_name`; when the facade
/// exports one name only, that name's use stands for it; unused otherwise.
pub fn usage_for_item(
    usage: &FacadeUsageByName,
    item_name: &str,
    export_names: &Vec<String>,
) -> (r: ParentFacadeUsage)
    requires
        usage.wf(),
    ensures
        r == (if usage@.dom().contains(normalized(item_name@)) {
            usage@[normalized(item_name@)]
        } else if export_names@.len() == 1 && usage@.dom().contains(normalized(export_names@[0]@)) {
            usage@[normalized(export_names@[0]@)]
        } else {
            ParentFacadeUsage::Unused
        }),
{
    let item = normalized_name(item_name);
    match usage.get(item.as_str()) {
        Some(u) => u,
        None => if export_names.len() == 1 {
            let only = normalized_name(export_names[0].as_str());
            match usage.get(only.as_str()) {
                Some(u) => u,
                None => ParentFacadeUsage::Unused,
            }
        } else {
            ParentFacadeUsage::Unused
        },
    }
}

proof fn lemma_usage_after_record(
    m: Map<Seq<char>, ParentFacadeUsage>,
    refs: Map<Seq<char>, ParentFacadeReferenceUsage>,
    inside: bool,
    n: Seq<char>,
)
    ensures
        usage_or_unused(record_references_spec(m, refs, inside), n) == (if refs.dom().contains(n) {
            merge_usage_spec(usage_or_unused(m, n), usage_for_reference_spec(refs[n], inside))
        } else {
            usage_or_unused(m, n)
        }),
{
}

/// The order in which module contexts are recorded does not matter, and
/// recording never makes a name's use reach less far: the scan's result
/// depends only on which references it saw.
pub proof fn lemma_record_references_is_order_blind(
    m: Map<Seq<char>, ParentFacadeUsage>,
    a: Map<Seq<char>, ParentFacadeReferenceUsage>,
    inside_a: bool,
    b: Map<Seq<char>, ParentFacadeReferenceUsage>,
    inside_b: bool,
    n: Seq<char>,
)
    ensures
        record_references_spec(record_references_spec(m, a, inside_a), b, inside_b)
            == record_references_spec(record_references_spec(m, b, inside_b), a, inside_a),
        usage_rank(usage_or_unused(record_references_spec(m, a, inside_a), n)) >= usage_rank(
            usage_or_unused(m, n),
        ),
{
    let ab = record_references_spec(record_references_spec(m, a, inside_a), b, inside_b);
    let ba = record_references_spec(record_references_spec(m, b, inside_b), a, inside_a);
    assert forall|k: Seq<char>| #[trigger] ab.dom().contains(k) implies ab[k] == ba[k] by {
        lemma_usage_after_record(m, a, inside_a, k);
        lemma_usage_after_record(m, b, inside_b, k);
        let u = usage_or_unused(m, k);
        if a.dom().contains(k) && b.dom().contains(k) {
            let x = usage_for_reference_spec(a[k], inside_a);
            let y = usage_for_reference_spec(b[k], inside_b);
            lemma_merge_parent_facade_usage_laws(u, x, y);
            lemma_merge_parent_facade_usage_laws(u, y, x);
            lemma_merge_parent_facade_usage_laws(x, y, u);
        }
    }
    assert(ab =~= ba);
}

// ---------------------------------------------------------------------
// Which inline module a byte offset of a file lies in.

/// An inline module of a file: its module path and the bytes it spans.
pub struct ModuleRange {
    pub path: Vec<String>,
    pub start: usize,
    pub end: usize,
}

/// A file's root module path and its inline modules.
pub struct LiteralModuleContext {
    pub root_path: Vec<String>,
    pub inline_ranges: Vec<ModuleRange>,
}

/// Whether the range spans `offset`.
pub open spec fn covers(r: ModuleRange, offset: usize) -> bool {
    r.start <= offset < r.end
}

/// How many bytes the range spans.
pub open spec fn width(r: ModuleRange) -> int {
    if r.end >= r.start {
        r.end - r.start
    } else {
        0
    }
}

/// Whether `a` is more inner than `b`: narrower, or as wide and deeper.
pub open spec fn more_inner(a: ModuleRange, b: ModuleRange) -> bool {
    width(a) < width(b) || (width(a) == width(b) && a.path@.len() > b.path@.len())
}

/// Range `k` is the first of the innermost ranges spanning `offset`.
pub open spec fn is_innermost(ranges: Seq<ModuleRange>, offset: usize, k: int) -> bool {
    &&& 0 <= k < ranges.len()
    &&& covers(ranges[k], offset)
    &&& forall|j: int| 0 <= j < ranges.len() && covers(#[trigger] ranges[j], offset) ==> !more_inner(
        ranges[j],
        ranges[k],
    )
    &&& forall|j: int| 0 <= j < k && covers(#[trigger] ranges[j], offset) ==> more_inner(
        ranges[k],
        ranges[j],
    )
}

impl LiteralModuleContext {
    /// The module path at a byte offset: that of the innermost inline module
    /// spanning it (the first, among equals), else the root path.
    pub fn path_at(&self, offset: usize) -> (r: &Vec<String>)
        ensures
            (forall|j: int| 0 <= j < self.inline_ranges@.len() ==> !covers(#[trigger] self.inline_ranges@[j], offset))
                ==> r@ == self.root_path@,
            (exists|j: int| 0 <= j < self.inline_ranges@.len() && covers(#[trigger] self.inline_ranges@[j], offset))
                ==> exists|k: int| is_innermost(self.inline_ranges@, offset, k) && r@ == self.inline_ranges@[k].path@,
    {
        let ranges = &self.inline_ranges;
        let mut best: Option<usize> = None;
        let mut i: usize = 0;
        while i < ranges.len()
            invariant
                i <= ranges.len(),
                ranges == &self.inline_ranges,
                match best {
                    None => forall|j: int| 0 <= j < i ==> !covers(#[trigger] ranges@[j], offset),
                    Some(b) => {
                        &&& b < i
                        &&& covers(ranges@[b as int], offset)
                        &&& forall|j: int| 0 <= j < i && covers(#[trigger] ranges@[j], offset) ==> !more_inner(
                            ranges@[j],
                            ranges@[b as int],
                        )
                        &&& forall|j: int| 0 <= j < b && covers(#[trigger] ranges@[j], offset) ==> more_inner(
                            ranges@[b as int],
                            ranges@[j],
                        )
                    },
                },
            decreases ranges.len() - i,
        {
            let r = &ranges[i];
            if r.start <= offset && offset < r.end {
                let w = r.end - r.start;
                let replace = match best {
                    None => true,
                    Some(b) => {
                        let cur = &ranges[b];
                        let cw = if cur.end >= cur.start { cur.end - cur.start } else { 0 };
                        w < cw || (w == cw && r.path.len() > cur.path.len())
                    },
                };
                if replace {
                    best = Some(i);
                }
            }
            i = i + 1;
        }
        match best {
            Some(b) => {
                proof {
                    assert(is_innermost(ranges@, offset, b as int));
                }
                &ranges[b].path
            },
            None => &self.root_path,
        }
    }
}

// ---------------------------------------------------------------------
// The module contexts of one file, and what they reference.

/// The inline-module suffixes a file's paths are written in, each once, in
/// the order they first occur (`use` paths first, then expression paths).
pub open spec fn module_suffixes_of(e: ExtractedPaths) -> Seq<Seq<Seq<char>>> {
    distinct_in_order(
        e.use_paths@.map_values(|p: ExtractedPath| texts(p.module_suffix@)) + e.expr_paths@.map_values(
            |p: ExtractedPath| texts(p.module_suffix@),
        ),
    )
}

/// `s` with each element kept at its first occurrence only.
pub open spec fn distinct_in_order(s: Seq<Seq<Seq<char>>>) -> Seq<Seq<Seq<char>>>
    decreases s.len(),
{
    if s.len() == 0 {
        Seq::empty()
    } else {
        let rest = distinct_in_order(s.drop_last());
        if rest.contains(s.last()) {
            rest
        } else {
            rest.push(s.last())
        }
    }
}

fn push_new_suffix(
    suffixes: &mut Vec<Vec<String>>,
    suffix: &Vec<String>,
    Ghost(seen): Ghost<Seq<Seq<Seq<char>>>>,
)
    requires
        old(suffixes)@.map_values(|v: Vec<String>| texts(v@)) == distinct_in_order(seen),
    ensures
        final(suffixes)@.map_values(|v: Vec<String>| texts(v@)) == distinct_in_order(
            seen.push(texts(suffix@)),
        ),
{
    let ghost before = suffixes@.map_values(|v: Vec<String>| texts(v@));
    let mut i: usize = 0;
    while i < suffixes.len()
        invariant
            i <= suffixes.len(),
            before == suffixes@.map_values(|v: Vec<String>| texts(v@)),
            before == distinct_in_order(seen),
            forall|j: int| 0 <= j < i ==> texts(suffixes@[j]@) != texts(suffix@),
        decreases suffixes.len() - i,
    {
        if same_segments(&suffixes[i], suffix) {
            proof {
                assert(0 <= i < before.len());
                assert(before[i as int] == texts(suffix@));
                assert(distinct_in_order(seen).contains(texts(suffix@)));
                assert(seen.push(texts(suffix@)).drop_last() =~= seen);
            }
            return;
        }
        i = i + 1;
    }
    proof {
        assert(seen.push(texts(suffix@)).drop_last() =~= seen);
        if distinct_in_order(seen).contains(texts(suffix@)) {
            let k = choose|k: int| 0 <= k < before.len() && before[k] == texts(suffix@);
            assert(texts(suffixes@[k]@) == texts(suffix@));
        }
    }
    let copy = crate::facade_paths::strings_range(suffix, 0, suffix.len());
    proof {
        assert(texts(suffix@).subrange(0, suffix@.len() as int) =~= texts(suffix@));
    }
    suffixes.push(copy);
    proof {
        assert(suffixes@.map_values(|v: Vec<String>| texts(v@)) =~= before.push(texts(suffix@)));
    }
}

/// The inline-module suffixes a file's paths are written in.
pub fn lexical_module_suffixes(extracted: &ExtractedPaths) -> (r: Vec<Vec<String>>)
    ensures
        r@.map_values(|v: Vec<String>| texts(v@)) == module_suffixes_of(*extracted),
{
    let ghost uses = extracted.use_paths@.map_values(|p: ExtractedPath| texts(p.module_suffix@));
    let ghost exprs = extracted.expr_paths@.map_values(|p: ExtractedPath| texts(p.module_suffix@));
    let mut suffixes: Vec<Vec<String>> = Vec::new();
    proof {
        assert(suffixes@.map_values(|v: Vec<String>| texts(v@)) =~= distinct_in_order(uses.take(0)));
    }
    let mut i: usize = 0;
    while i < extracted.use_paths.len()
        invariant
            i <= extracted.use_paths.len(),
            uses == extracted.use_paths@.map_values(|p: ExtractedPath| texts(p.module_suffix@)),
            suffixes@.map_values(|v: Vec<String>| texts(v@)) == distinct_in_order(uses.take(i as int)),
        decreases extracted.use_paths.len() - i,
    {
        push_new_suffix(&mut suffixes, &extracted.use_paths[i].module_suffix, Ghost(uses.take(i as int)));
        proof {
            assert(uses.take(i as int).push(texts(extracted.use_paths@[i as int].module_suffix@)) =~= uses.take(i + 1));
        }
        i = i + 1;
    }
    assert(uses.take(i as int) =~= uses);
    let mut j: usize = 0;
    while j < extracted.expr_paths.len()
        invariant
            j <= extracted.expr_paths.len(),
            uses == extracted.use_paths@.map_values(|p: ExtractedPath| texts(p.module_suffix@)),
            exprs == extracted.expr_paths@.map_values(|p: ExtractedPath| texts(p.module_suffix@)),
            suffixes@.map_values(|v: Vec<String>| texts(v@)) == distinct_in_order(uses + exprs.take(j as int)),
        decreases extracted.expr_paths.len() - j,
    {
        push_new_suffix(
            &mut suffixes,
            &extracted.expr_paths[j].module_suffix,
            Ghost(uses + exprs.take(j as int)),
        );
        proof {
            assert((uses + exprs.take(j as int)).push(texts(extracted.expr_paths@[j as int].module_suffix@))
                =~= uses + exprs.take(j + 1));
        }
        j = j + 1;
    }
    assert(exprs.take(j as int) =~= exprs);
    suffixes
}

/// Whether one module context of a file, lying outside `module`, writes a
/// path to one of `item_names` inside `module`.
pub fn context_references_module_from_outside(
    extracted: &ExtractedPaths,
    context_path: &Vec<String>,
    context_suffix: &Vec<String>,
    module: &Vec<String>,
    item_names: &ExportNameIndex,
) -> (r: bool)
    requires
        module.len() < usize::MAX,
    ensures
        r == (!module_descendant(texts(context_path@), texts(module@)) && exists|n: Seq<char>|
            usage_map(
                contributions(
                    *extracted,
                    texts(context_path@),
                    texts(context_suffix@),
                    texts(module@),
                    item_names@,
                ),
            ).dom().contains(n)),
{
    if module_path_is_descendant(context_path, module) {
        return false;
    }
    let refs = source_references_parent_exports(extracted, context_path, context_suffix, module, item_names);
    let count = refs.len();
    proof {
        let m = usage_map(
            contributions(
                *extracted,
                texts(context_path@),
                texts(context_suffix@),
                texts(module@),
                item_names@,
            ),
        );
        if count > 0 {
            assert(m.dom().len() > 0);
            assert(m.dom().finite()) by {
                assert(refs@.dom() =~= texts(refs.names@).to_set());
            }
            let n = m.dom().choose();
            assert(m.dom().contains(n));
        } else {
            if exists|n: Seq<char>| m.dom().contains(n) {
                let n = choose|n: Seq<char>| m.dom().contains(n);
                assert(refs@.dom() =~= texts(refs.names@).to_set());
                vstd::set_lib::lemma_set_empty_equivalency_len(m.dom());
            }
        }
    }
    count > 0
}

/// Whether one module context of a file, lying outside the child module,
/// writes a path to the child's item.
pub fn context_mentions_child_item_from_outside(
    extracted: &ExtractedPaths,
    context_path: &Vec<String>,
    context_suffix: &Vec<String>,
    child_module: &Vec<String>,
    item_name: &str,
) -> (r: bool)
    ensures
        r == (!module_descendant(texts(context_path@), texts(child_module@)) && mentions_child_item_in(
            *extracted,
            texts(context_path@),
            texts(context_suffix@),
            texts(child_module@),
            item_name@,
        )),
{
    !module_path_is_descendant(context_path, child_module) && extracted_paths_mention_child_item(
        extracted,
        context_path,
        context_suffix,
        child_module,
        item_name,
    )
}

} // verus!
