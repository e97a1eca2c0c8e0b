use cargo_mend::facade_paths::ExportNameIndex;
use cargo_mend::facade_paths::ParentFacadeUsage;
use cargo_mend::facade_paths::PathOrigin;
use cargo_mend::facade_scan::ExtractedPath;
use cargo_mend::facade_scan::ExtractedPaths;
use cargo_mend::facade_usage::ModuleContext;
use cargo_mend::facade_usage::SourceFile;
use cargo_mend::facade_usage::active_module_contexts;
use cargo_mend::facade_usage::path_exists_outside_child_module;
use cargo_mend::facade_usage::path_exists_outside_module;
use cargo_mend::facade_usage::scan_facade_usage;
use cargo_mend::module_sources::ModuleSourceMap;
use cargo_mend::module_sources::ModuleTree;
use cargo_mend::policy::ModuleLocation;

fn strings(segments: &[&str]) -> Vec<String> {
    segments.iter().map(|s| s.to_string()).collect()
}

fn path(segments: &[&str], origin: PathOrigin, suffix: &[&str]) -> ExtractedPath {
    ExtractedPath { segments: strings(segments), origin, module_suffix: strings(suffix) }
}

/// crate (0), `a` (1), `a::b` (2), and `c` (3), an inline module of lib.rs.
fn tree() -> ModuleTree {
    ModuleTree {
        parents: vec![0, 0, 1, 0],
        paths:   vec![Vec::new(), strings(&["a"]), strings(&["a", "b"]), strings(&["c"])],
    }
}

fn map() -> ModuleSourceMap {
    let mut map = ModuleSourceMap::new(
        tree(),
        strings(&["/p/src/lib.rs", "/p/src/a.rs", "/p/src/a/b.rs", "/p/src/orphan.rs", "/p/src/lonely.rs"]),
        strings(&["/p/src/orphan.rs"]),
        vec![vec![strings(&["a", "b", "x"]), strings(&["a", "y"])]],
    );
    map.insert(0, String::from("/p/src/lib.rs"));
    map.insert(3, String::from("/p/src/lib.rs"));
    map.insert(1, String::from("/p/src/a.rs"));
    map.insert(1, String::from("/p/src/a.rs"));
    map.insert(2, String::from("/p/src/a/b.rs"));
    map
}

#[test]
fn files_map_to_the_modules_they_are_roots_of() {
    let map = map();
    assert_eq!(map.root_modules_for_file("/p/src/lib.rs"), vec![0]);
    assert_eq!(map.root_modules_for_file("/p/src/a.rs"), vec![1]);
    assert_eq!(map.root_modules_for_file("/p/src/a/b.rs"), vec![2]);
    // A crate file no module holds falls back to its structural parents.
    assert_eq!(map.root_modules_for_file("/p/src/orphan.rs"), vec![2, 1]);
    // With no structural parents either, the crate root.
    assert_eq!(map.root_modules_for_file("/p/src/lonely.rs"), vec![0]);
    // A file outside the crate has no root module.
    assert!(map.root_modules_for_file("/elsewhere/x.rs").is_empty());
}

#[test]
fn module_lookups_follow_the_tree() {
    let map = map();
    assert_eq!(map.tree().nearest_active_ancestor(&strings(&["a", "zz"])), 1);
    assert_eq!(map.tree().nearest_active_ancestor(&strings(&["q", "r"])), 0);
    assert_eq!(map.tree().nearest_active_ancestor(&strings(&["a", "b"])), 2);
    assert!(map.file_contains_module_path("/p/src/a/b.rs", &strings(&["a", "b"])));
    assert!(!map.file_contains_module_path("/p/src/a/b.rs", &strings(&["a"])));
    assert_eq!(map.source_files(1), strings(&["/p/src/a.rs"]));
    assert_eq!(map.source_files(0), strings(&["/p/src/lib.rs"]));
    assert!(map.source_files(9).is_empty());
}

#[test]
fn a_file_has_one_context_per_held_module_path() {
    let map = map();
    let extracted = ExtractedPaths {
        use_paths: vec![path(&["crate", "a", "Thing"], PathOrigin::Crate, &["c"])],
        expr_paths: vec![path(&["Thing"], PathOrigin::Relative, &[]), path(&["x"], PathOrigin::Relative, &["nope"])],
        use_renames: Vec::new(),
    };
    let contexts = active_module_contexts(&map, "/p/src/lib.rs", &extracted);
    let pairs: Vec<(Vec<String>, Vec<String>)> =
        contexts.into_iter().map(|ModuleContext { path, suffix }| (path, suffix)).collect();
    assert_eq!(pairs, vec![(strings(&["c"]), strings(&["c"])), (Vec::new(), Vec::new())]);
}

#[test]
fn scans_find_uses_inside_and_outside_a_module() {
    let map = map();
    let files = vec![
        SourceFile {
            path:      String::from("/p/src/lib.rs"),
            extracted: ExtractedPaths {
                use_paths:   vec![path(&["crate", "a", "Thing"], PathOrigin::Crate, &[])],
                expr_paths:  Vec::new(),
                use_renames: Vec::new(),
            },
        },
        SourceFile {
            path:      String::from("/p/src/a/b.rs"),
            extracted: ExtractedPaths {
                use_paths:   Vec::new(),
                expr_paths:  vec![path(&["super", "Other"], PathOrigin::Relative, &[])],
                use_renames: Vec::new(),
            },
        },
    ];
    let facade = strings(&["a"]);
    let exports = strings(&["Thing", "Other", "Unused"]);

    let usage = scan_facade_usage(&map, &files, "/p/src/a.rs", &facade, &exports);
    assert_eq!(usage.get("Thing"), Some(ParentFacadeUsage::UsedOutsideSubtree));
    assert_eq!(usage.get("Other"), Some(ParentFacadeUsage::UsedInsideSubtreeByRelativePath));
    assert_eq!(usage.get("Unused"), Some(ParentFacadeUsage::Unused));

    assert!(path_exists_outside_module(&map, &files, &facade, &strings(&["Thing"])));
    assert!(!path_exists_outside_module(&map, &files, &facade, &strings(&["Other"])));
    assert!(path_exists_outside_child_module(&map, &files, &facade, "Thing"));
    assert!(!path_exists_outside_child_module(&map, &files, &facade, "Other"));
    let _ = ExportNameIndex::new(&exports);
}

#[test]
fn module_location_counts_the_levels_above_the_parent() {
    // crate (0), a (1), a::b (2), a::b::c (3), a::b::c::d (4)
    let deep = ModuleTree {
        parents: vec![0, 0, 1, 2, 3],
        paths:   vec![Vec::new(), strings(&["a"]), strings(&["a", "b"]), strings(&["a", "b", "c"]), strings(&["a", "b", "c", "d"])],
    };
    assert_eq!(deep.resolve_module_location(0), ModuleLocation::CrateRoot);
    assert_eq!(deep.resolve_module_location(1), ModuleLocation::TopLevelPrivateModule);
    assert_eq!(deep.resolve_module_location(2), ModuleLocation::TopLevelPrivateModule);
    assert_eq!(deep.resolve_module_location(3), ModuleLocation::NestedModule);
    assert_eq!(deep.resolve_module_location(4), ModuleLocation::NestedModule);
}

#[test]
fn module_is_within_walks_up_to_the_crate_root() {
    let t = tree();
    assert!(t.module_is_within(2, 1));
    assert!(t.module_is_within(2, 2));
    assert!(t.module_is_within(2, 0));
    assert!(!t.module_is_within(1, 2));
    assert!(!t.module_is_within(3, 1));
    assert!(t.module_is_within(0, 0));
    assert!(!t.module_is_within(0, 1));
}
