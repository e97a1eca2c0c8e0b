//! Scanning a crate's source files for uses of a facade's exports and of a
//! child module's items, one module context at a time.
//!
//! A source file's paths are resolved in each module context it holds: each
//! module the file is a root file of, extended by each inline-module suffix
//! its paths are written in, where the file holds a module of that path.

use vstd::prelude::*;

use crate::facade_paths::ExportNameIndex;
use crate::facade_paths::module_descendant;
use crate::facade_scan::ExtractedPaths;
use crate::facade_scan::FacadeUsageByName;
use crate::facade_scan::context_mentions_child_item_from_outside;
use crate::facade_scan::context_references_module_from_outside;
use crate::facade_scan::contributions;
use crate::facade_scan::lexical_module_suffixes;
use crate::facade_scan::mentions_child_item_in;
use crate::facade_scan::module_suffixes_of;
use crate::facade_scan::record_module_context_usage;
use crate::facade_scan::record_references_spec;
use crate::facade_scan::usage_map;
use crate::facade_paths::ParentFacadeUsage;
use crate::facade_paths::normalized;
use crate::facade_paths::strings_range;
use crate::module_sources::ModuleSourceMap;
use crate::ordered::texts;

verus! {

/// One module context of a file: the module path its paths resolve in, and
/// the inline-module suffix they are written under.
pub struct ModuleContext {
    pub path: Vec<String>,
    pub suffix: Vec<String>,
}

/// A context as a pair of module path and suffix.
pub open spec fn context_view(c: ModuleContext) -> (Seq<Seq<char>>, Seq<Seq<char>>) {
    (texts(c.path@), texts(c.suffix@))
}

/// The contexts of a list.
pub open spec fn context_views(v: Seq<ModuleContext>) -> Seq<(Seq<Seq<char>>, Seq<Seq<char>>)> {
    v.map_values(|c: ModuleContext| context_view(c))
}

/// Whether a module holding `file` has the path `p`.
pub open spec fn holds_module_path(map: ModuleSourceMap, file: Seq<char>, p: Seq<Seq<char>>) -> bool {
    exists|j: int|
        0 <= j < map.modules_of(file).len() && map.tree_spec().path_of(#[trigger] map.modules_of(file)[j])
            == p
}

/// `acc` with the context `(p, suffix)` added, if the file holds a module
/// of path `p` and no context of that path is listed yet.
pub open spec fn add_context(
    map: ModuleSourceMap,
    file: Seq<char>,
    acc: Seq<(Seq<Seq<char>>, Seq<Seq<char>>)>,
    p: Seq<Seq<char>>,
    suffix: Seq<Seq<char>>,
) -> Seq<(Seq<Seq<char>>, Seq<Seq<char>>)> {
    if holds_module_path(map, file, p) && !(exists|k: int| 0 <= k < acc.len() && (#[trigger] acc[k]).0 == p) {
        acc.push((p, suffix))
    } else {
        acc
    }
}

/// `acc` with the contexts of one root module path added, suffix by suffix.
pub open spec fn add_root_contexts(
    map: ModuleSourceMap,
    file: Seq<char>,
    acc: Seq<(Seq<Seq<char>>, Seq<Seq<char>>)>,
    root: Seq<Seq<char>>,
    suffixes: Seq<Seq<Seq<char>>>,
) -> Seq<(Seq<Seq<char>>, Seq<Seq<char>>)>
    decreases suffixes.len(),
{
    if suffixes.len() == 0 {
        acc
    } else {
        add_context(
            map,
            file,
            add_root_contexts(map, file, acc, root, suffixes.drop_last()),
            root + suffixes.last(),
            suffixes.last(),
        )
    }
}

/// The contexts of the root modules `roots`, root by root.
pub open spec fn add_roots_contexts(
    map: ModuleSourceMap,
    file: Seq<char>,
    roots: Seq<u32>,
    suffixes: Seq<Seq<Seq<char>>>,
) -> Seq<(Seq<Seq<char>>, Seq<Seq<char>>)>
    decreases roots.len(),
{
    if roots.len() == 0 {
        Seq::empty()
    } else {
        add_root_contexts(
            map,
            file,
            add_roots_contexts(map, file, roots.drop_last(), suffixes),
            map.tree_spec().path_of(roots.last()),
            suffixes,
        )
    }
}

/// The module contexts of `file` whose paths are `extracted`.
pub open spec fn module_contexts_spec(
    map: ModuleSourceMap,
    file: Seq<char>,
    extracted: ExtractedPaths,
) -> Seq<(Seq<Seq<char>>, Seq<Seq<char>>)> {
    add_roots_contexts(map, file, map.root_modules_spec(file), module_suffixes_of(extracted))
}

fn concat_paths(a: &Vec<String>, b: &Vec<String>) -> (r: Vec<String>)
    ensures
        texts(r@) == texts(a@) + texts(b@),
{
    let mut r = strings_range(a, 0, a.len());
    let ghost start = texts(r@);
    assert(texts(a@).subrange(0, a@.len() as int) =~= texts(a@));
    let mut i: usize = 0;
    while i < b.len()
        invariant
            i <= b.len(),
            texts(r@) == texts(a@) + texts(b@).take(i as int),
        decreases b.len() - i,
    {
        let ghost before = r@;
        let piece = b[i].clone();
        r.push(piece);
        i = i + 1;
        assert(texts(r@) =~= texts(before).push(b@[i - 1]@));
        assert(texts(r@) =~= texts(a@) + texts(b@).take(i as int));
    }
    assert(texts(b@).take(i as int) =~= texts(b@));
    r
}

fn has_context_path(contexts: &Vec<ModuleContext>, p: &Vec<String>) -> (r: bool)
    ensures
        r == exists|k: int| 0 <= k < contexts@.len() && (#[trigger] context_views(contexts@)[k]).0 == texts(p@),
{
    let mut k: usize = 0;
    while k < contexts.len()
        invariant
            k <= contexts.len(),
            forall|j: int| 0 <= j < k ==> (#[trigger] context_views(contexts@)[j]).0 != texts(p@),
        decreases contexts.len() - k,
    {
        if crate::facade_paths::same_segments(&contexts[k].path, p) {
            assert(context_views(contexts@)[k as int].0 == texts(p@));
            return true;
        }
        assert(context_views(contexts@)[k as int].0 != texts(p@));
        k = k + 1;
    }
    false
}

/// The module contexts of a source file, each module path once: for each
/// root module of the file and each inline-module suffix its paths use, the
/// root's path extended by the suffix, where the file holds a module of
/// that path.
pub fn active_module_contexts(
    map: &ModuleSourceMap,
    file: &str,
    extracted: &ExtractedPaths,
) -> (r: Vec<ModuleContext>)
    requires
        map.wf(),
    ensures
        context_views(r@) == module_contexts_spec(*map, file@, *extracted),
{
    let roots = map.root_modules_for_file(file);
    let suffixes = lexical_module_suffixes(extracted);
    let ghost sv = suffixes@.map_values(|v: Vec<String>| texts(v@));
    let mut contexts: Vec<ModuleContext> = Vec::new();
    let mut i: usize = 0;
    proof {
        assert(roots@.take(0) =~= Seq::<u32>::empty());
        assert(context_views(contexts@) =~= Seq::<(Seq<Seq<char>>, Seq<Seq<char>>)>::empty());
    }
    while i < roots.len()
        invariant
            map.wf(),
            i <= roots.len(),
            roots@ == map.root_modules_spec(file@),
            sv == suffixes@.map_values(|v: Vec<String>| texts(v@)),
            sv == module_suffixes_of(*extracted),
            context_views(contexts@) == add_roots_contexts(*map, file@, roots@.take(i as int), sv),
        decreases roots.len() - i,
    {
        let root = roots[i];
        let tree = map.tree();
        proof {
            map.lemma_tree_wf();
            map.lemma_root_modules_in_tree(file@);
            assert(roots@[i as int] < tree.parents@.len());
        }
        let root_path: &Vec<String> = &tree.paths[root as usize];
        proof {
            assert(roots@.take(i + 1).drop_last() =~= roots@.take(i as int));
            assert(roots@.take(i + 1).last() == root);
        }
        let ghost base = context_views(contexts@);
        let ghost rp = texts(root_path@);
        let mut j: usize = 0;
        proof {
            assert(sv.take(0) =~= Seq::<Seq<Seq<char>>>::empty());
        }
        while j < suffixes.len()
            invariant
                map.wf(),
                j <= suffixes.len(),
                sv == suffixes@.map_values(|v: Vec<String>| texts(v@)),
                rp == texts(root_path@),
                context_views(contexts@) == add_root_contexts(*map, file@, base, rp, sv.take(j as int)),
            decreases suffixes.len() - j,
        {
            let current = concat_paths(root_path, &suffixes[j]);
            proof {
                assert(sv.take(j + 1).drop_last() =~= sv.take(j as int));
                assert(sv.take(j + 1).last() == texts(suffixes@[j as int]@));
            }
            if map.file_contains_module_path(file, &current) && !has_context_path(&contexts, &current) {
                let ghost before = contexts@;
                let suffix = strings_range(&suffixes[j], 0, suffixes[j].len());
                proof {
                    assert(texts(suffixes@[j as int]@).subrange(0, suffixes@[j as int]@.len() as int) =~= texts(suffixes@[j as int]@));
                }
                contexts.push(ModuleContext { path: current, suffix });
                proof {
                    assert(context_views(contexts@) =~= context_views(before).push(
                        (rp + texts(suffixes@[j as int]@), texts(suffixes@[j as int]@)),
                    ));
                }
            }
            j = j + 1;
        }
        proof {
            assert(sv.take(j as int) =~= sv);
        }
        i = i + 1;
    }
    assert(roots@.take(i as int) =~= roots@);
    contexts
}

/// A parsed source file of the crate: its canonical path and its paths.
pub struct SourceFile {
    pub path: String,
    pub extracted: ExtractedPaths,
}

/// The exported names as an index would hold them: without any `r#`.
pub open spec fn normalized_names(names: Seq<String>) -> Set<Seq<char>> {
    texts(names).map_values(|n: Seq<char>| normalized(n)).to_set()
}

/// Whether context `c` of a file with paths `e` lies outside `module` and
/// writes a path to one of `names` inside it.
pub open spec fn context_refers_from_outside(
    e: ExtractedPaths,
    c: (Seq<Seq<char>>, Seq<Seq<char>>),
    module: Seq<Seq<char>>,
    names: Set<Seq<char>>,
) -> bool {
    !module_descendant(c.0, module) && exists|n: Seq<char>|
        usage_map(contributions(e, c.0, c.1, module, names)).dom().contains(n)
}

/// Whether some module context of some file lies outside `module` and
/// writes a path to one of `names` inside it.
pub open spec fn referenced_from_outside(
    map: ModuleSourceMap,
    files: Seq<SourceFile>,
    module: Seq<Seq<char>>,
    names: Set<Seq<char>>,
) -> bool {
    exists|i: int, k: int|
        0 <= i < files.len() && 0 <= k < module_contexts_spec(map, files[i].path@, files[i].extracted).len()
            && context_refers_from_outside(
            files[i].extracted,
            #[trigger] module_contexts_spec(map, files[i].path@, files[i].extracted)[k],
            module,
            names,
        )
}

/// Whether any source file names one of `item_names` inside `module` from
/// a module context outside it.
pub fn path_exists_outside_module(
    map: &ModuleSourceMap,
    files: &Vec<SourceFile>,
    module: &Vec<String>,
    item_names: &Vec<String>,
) -> (r: bool)
    requires
        map.wf(),
        module.len() < usize::MAX,
    ensures
        r == referenced_from_outside(*map, files@, texts(module@), normalized_names(item_names@)),
{
    let names = ExportNameIndex::new(item_names);
    let ghost nv = normalized_names(item_names@);
    assert(names@ == nv);
    let mut i: usize = 0;
    while i < files.len()
        invariant
            map.wf(),
            module.len() < usize::MAX,
            i <= files.len(),
            names@ == nv,
            nv == normalized_names(item_names@),
            forall|a: int, k: int|
                0 <= a < i && 0 <= k < module_contexts_spec(*map, files@[a].path@, files@[a].extracted).len()
                    ==> !context_refers_from_outside(
                    files@[a].extracted,
                    #[trigger] module_contexts_spec(*map, files@[a].path@, files@[a].extracted)[k],
                    texts(module@),
                    nv,
                ),
        decreases files.len() - i,
    {
        let file = &files[i];
        let contexts = active_module_contexts(map, file.path.as_str(), &file.extracted);
        let mut k: usize = 0;
        while k < contexts.len()
            invariant
                map.wf(),
                module.len() < usize::MAX,
                k <= contexts.len(),
                i < files.len(),
                *file == files@[i as int],
                names@ == nv,
            nv == normalized_names(item_names@),
                nv == normalized_names(item_names@),
                context_views(contexts@) == module_contexts_spec(*map, file.path@, file.extracted),
                forall|b: int| 0 <= b < k ==> !context_refers_from_outside(
                    file.extracted,
                    #[trigger] context_views(contexts@)[b],
                    texts(module@),
                    nv,
                ),
            decreases contexts.len() - k,
        {
            let c = &contexts[k];
            assert(context_views(contexts@)[k as int] == (texts(c.path@), texts(c.suffix@)));
            if context_references_module_from_outside(&file.extracted, &c.path, &c.suffix, module, &names) {
                proof {
                    let cc = module_contexts_spec(*map, files@[i as int].path@, files@[i as int].extracted)[k as int];
                    assert(cc == (texts(c.path@), texts(c.suffix@)));
                    let um = usage_map(contributions(file.extracted, texts(c.path@), texts(c.suffix@), texts(module@), nv));
                    let n = choose|n: Seq<char>| um.dom().contains(n);
                    assert(um.dom().contains(n));
                    assert(!module_descendant(cc.0, texts(module@)));
                    assert(usage_map(contributions(file.extracted, cc.0, cc.1, texts(module@), nv)).dom().contains(n));
                    assert(context_refers_from_outside(file.extracted, cc, texts(module@), nv));
                    assert(0 <= k < module_contexts_spec(*map, files@[i as int].path@, files@[i as int].extracted).len());
                    assert(referenced_from_outside(*map, files@, texts(module@), nv));
                }
                return true;
            }
            k = k + 1;
        }
        i = i + 1;
    }
    false
}

/// Whether some module context of some file lies outside `child` and
/// writes a path to `item` inside it.
pub open spec fn child_item_mentioned_from_outside(
    map: ModuleSourceMap,
    files: Seq<SourceFile>,
    child: Seq<Seq<char>>,
    item: Seq<char>,
) -> bool {
    exists|i: int, k: int|
        0 <= i < files.len() && 0 <= k < module_contexts_spec(map, files[i].path@, files[i].extracted).len()
            && {
            let c = #[trigger] module_contexts_spec(map, files[i].path@, files[i].extracted)[k];
            !module_descendant(c.0, child) && mentions_child_item_in(files[i].extracted, c.0, c.1, child, item)
        }
}

/// Whether any source file names `item_name` of the child module from a
/// module context outside it.
pub fn path_exists_outside_child_module(
    map: &ModuleSourceMap,
    files: &Vec<SourceFile>,
    child_module: &Vec<String>,
    item_name: &str,
) -> (r: bool)
    requires
        map.wf(),
    ensures
        r == child_item_mentioned_from_outside(*map, files@, texts(child_module@), item_name@),
{
    let mut i: usize = 0;
    while i < files.len()
        invariant
            map.wf(),
            i <= files.len(),
            forall|a: int, k: int|
                0 <= a < i && 0 <= k < module_contexts_spec(*map, files@[a].path@, files@[a].extracted).len()
                    ==> {
                    let c = #[trigger] module_contexts_spec(*map, files@[a].path@, files@[a].extracted)[k];
                    !(!module_descendant(c.0, texts(child_module@)) && mentions_child_item_in(
                        files@[a].extracted,
                        c.0,
                        c.1,
                        texts(child_module@),
                        item_name@,
                    ))
                },
        decreases files.len() - i,
    {
        let file = &files[i];
        let contexts = active_module_contexts(map, file.path.as_str(), &file.extracted);
        let mut k: usize = 0;
        while k < contexts.len()
            invariant
                map.wf(),
                k <= contexts.len(),
                i < files.len(),
                *file == files@[i as int],
                context_views(contexts@) == module_contexts_spec(*map, file.path@, file.extracted),
                forall|b: int| 0 <= b < k ==> {
                    let c = #[trigger] context_views(contexts@)[b];
                    !(!module_descendant(c.0, texts(child_module@)) && mentions_child_item_in(
                        file.extracted,
                        c.0,
                        c.1,
                        texts(child_module@),
                        item_name@,
                    ))
                },
            decreases contexts.len() - k,
        {
            let c = &contexts[k];
            assert(context_views(contexts@)[k as int] == (texts(c.path@), texts(c.suffix@)));
            if context_mentions_child_item_from_outside(&file.extracted, &c.path, &c.suffix, child_module, item_name) {
                proof {
                    let cc = module_contexts_spec(*map, files@[i as int].path@, files@[i as int].extracted)[k as int];
                    assert(cc == context_views(contexts@)[k as int]);
                }
                return true;
            }
            k = k + 1;
        }
        i = i + 1;
    }
    false
}

/// The uses recorded after scanning the contexts `ctxs` of one file with
/// paths `e`; the facade's own module is skipped in the facade's file.
pub open spec fn scan_contexts(
    m: Map<Seq<char>, ParentFacadeUsage>,
    ctxs: Seq<(Seq<Seq<char>>, Seq<Seq<char>>)>,
    e: ExtractedPaths,
    in_boundary_file: bool,
    module: Seq<Seq<char>>,
    names: Set<Seq<char>>,
) -> Map<Seq<char>, ParentFacadeUsage>
    decreases ctxs.len(),
{
    if ctxs.len() == 0 {
        m
    } else {
        let prev = scan_contexts(m, ctxs.drop_last(), e, in_boundary_file, module, names);
        let c = ctxs.last();
        if in_boundary_file && c.0 == module {
            prev
        } else {
            record_references_spec(
                prev,
                usage_map(contributions(e, c.0, c.1, module, names)),
                module_descendant(c.0, module),
            )
        }
    }
}

/// The uses recorded after scanning every file, in order.
pub open spec fn scan_files(
    start: Map<Seq<char>, ParentFacadeUsage>,
    map: ModuleSourceMap,
    files: Seq<SourceFile>,
    boundary_file: Seq<char>,
    module: Seq<Seq<char>>,
    names: Set<Seq<char>>,
) -> Map<Seq<char>, ParentFacadeUsage>
    decreases files.len(),
{
    if files.len() == 0 {
        start
    } else {
        let f = files.last();
        scan_contexts(
            scan_files(start, map, files.drop_last(), boundary_file, module, names),
            module_contexts_spec(map, f.path@, f.extracted),
            f.extracted,
            f.path@ == boundary_file,
            module,
            names,
        )
    }
}

/// Every exported name, unused.
pub open spec fn unused_exports(explicit: Seq<String>) -> Map<Seq<char>, ParentFacadeUsage> {
    Map::new(
        |n: Seq<char>| exists|i: int| 0 <= i < explicit.len() && n == normalized(#[trigger] explicit[i]@),
        |n: Seq<char>| ParentFacadeUsage::Unused,
    )
}

/// How each export of the facade declared in `boundary_file` as module
/// `facade_module` is used by the paths of the crate's source files: every
/// export starts unused, and each module context of each file (but the
/// facade's own module in its own file) records the references it makes.
pub fn scan_facade_usage(
    map: &ModuleSourceMap,
    files: &Vec<SourceFile>,
    boundary_file: &str,
    facade_module: &Vec<String>,
    explicit: &Vec<String>,
) -> (r: FacadeUsageByName)
    requires
        map.wf(),
        facade_module.len() < usize::MAX,
    ensures
        r.wf(),
        r@ == scan_files(
            unused_exports(explicit@),
            *map,
            files@,
            boundary_file@,
            texts(facade_module@),
            normalized_names(explicit@),
        ),
{
    let names = ExportNameIndex::new(explicit);
    let ghost nv = normalized_names(explicit@);
    assert(names@ == nv);
    let mut usage = FacadeUsageByName::for_exports(explicit);
    let boundary = boundary_file.to_owned();
    let mut i: usize = 0;
    proof {
        assert(files@.take(0) =~= Seq::<SourceFile>::empty());
    }
    while i < files.len()
        invariant
            map.wf(),
            facade_module.len() < usize::MAX,
            i <= files.len(),
            names@ == nv,
            nv == normalized_names(explicit@),
            boundary@ == boundary_file@,
            usage.wf(),
            usage@ == scan_files(unused_exports(explicit@), *map, files@.take(i as int), boundary_file@, texts(facade_module@), nv),
        decreases files.len() - i,
    {
        let file = &files[i];
        let in_boundary_file = file.path == boundary;
        let contexts = active_module_contexts(map, file.path.as_str(), &file.extracted);
        let ghost start = usage@;
        let ghost cv = context_views(contexts@);
        let mut k: usize = 0;
        proof {
            assert(cv.take(0) =~= Seq::<(Seq<Seq<char>>, Seq<Seq<char>>)>::empty());
        }
        while k < contexts.len()
            invariant
                map.wf(),
                facade_module.len() < usize::MAX,
                k <= contexts.len(),
                names@ == nv,
            nv == normalized_names(explicit@),
                nv == normalized_names(explicit@),
                usage.wf(),
                cv == context_views(contexts@),
                usage@ == scan_contexts(start, cv.take(k as int), file.extracted, in_boundary_file, texts(facade_module@), nv),
            decreases contexts.len() - k,
        {
            let c = &contexts[k];
            proof {
                assert(cv.take(k + 1).drop_last() =~= cv.take(k as int));
                assert(cv.take(k + 1).last() == (texts(c.path@), texts(c.suffix@)));
            }
            record_module_context_usage(
                &mut usage,
                &file.extracted,
                &c.path,
                &c.suffix,
                in_boundary_file,
                facade_module,
                &names,
            );
            k = k + 1;
        }
        proof {
            assert(cv.take(k as int) =~= cv);
            assert(files@.take(i + 1).drop_last() =~= files@.take(i as int));
            assert(files@.take(i + 1).last() == files@[i as int]);
        }
        i = i + 1;
    }
    assert(files@.take(i as int) =~= files@);
    usage
}

} // verus!
