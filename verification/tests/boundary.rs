use cargo_mend::boundary::analysis_source_root_for;
use cargo_mend::boundary::module_path_from_boundary_file;
use cargo_mend::boundary::module_path_from_dir;
use cargo_mend::boundary::module_path_from_source_file;
use cargo_mend::boundary::parent_boundary_for_child;
use cargo_mend::boundary::parent_of_boundary;
use cargo_mend::boundary::ParentBoundary;

/// The components of a `/`-separated path, as `Path::components` yields
/// them for an absolute or relative unix path.
fn path(text: &str) -> Vec<String> {
    let mut out = Vec::new();
    if text.starts_with('/') {
        out.push("/".to_string());
    }
    out.extend(text.split('/').filter(|c| !c.is_empty()).map(|c| c.to_string()));
    out
}

fn segments(items: &[&str]) -> Vec<String> {
    items.iter().map(|s| s.to_string()).collect()
}

fn assert_analysis_source_roots() {
    let package_root = path("/tmp/example-crate");
    let root_for = |file: &str| {
        let crate_root = path(file);
        analysis_source_root_for(&crate_root, &crate_root, &package_root)
    };

    assert_eq!(root_for("/tmp/example-crate/src/lib.rs"), Some(path("/tmp/example-crate/src")));
    assert_eq!(root_for("/tmp/example-crate/src/bin/demo.rs"), Some(path("/tmp/example-crate/src/bin")));
    assert_eq!(root_for("/tmp/example-crate/examples/demo.rs"), Some(path("/tmp/example-crate/examples")));
    assert_eq!(root_for("/tmp/example-crate/build.rs"), None);
}

#[test]
fn compiler_analysis_source_root_ignores_build_scripts() {
    assert_analysis_source_roots();
}

#[test]
fn source_cache_analysis_source_root_ignores_build_scripts() {
    assert_analysis_source_roots();
}

#[test]
fn compiler_module_path_from_source_file_treats_main_rs_as_crate_root() {
    let source_dir = path("/tmp/mend-main-root-test/src");
    let main_rs = path("/tmp/mend-main-root-test/src/main.rs");
    assert_eq!(module_path_from_source_file(&source_dir, &main_rs), Some(Vec::new()));
}

#[test]
fn source_cache_module_path_from_source_file_treats_main_rs_as_crate_root() {
    let source_dir = path("/tmp/mend-main-root-test/src");
    let main_rs = path("/tmp/mend-main-root-test/src/main.rs");
    assert_eq!(module_path_from_source_file(&source_dir, &main_rs), Some(Vec::new()));
}

#[test]
fn module_paths_follow_files_and_directories() {
    let root = path("/p/src");
    assert_eq!(module_path_from_boundary_file(&root, &path("/p/src/lib.rs")), Some(Vec::new()));
    assert_eq!(module_path_from_boundary_file(&root, &path("/p/src/a/b.rs")), Some(segments(&["a", "b"])));
    assert_eq!(module_path_from_boundary_file(&root, &path("/p/src/a/lib.rs")), Some(segments(&["a", "lib"])));
    assert_eq!(module_path_from_boundary_file(&root, &path("/p/src/a/b.txt")), None);
    assert_eq!(module_path_from_boundary_file(&root, &path("/q/src/a.rs")), None);
    assert_eq!(module_path_from_boundary_file(&root, &root), None);
    assert_eq!(module_path_from_dir(&root, &path("/p/src/a/b")), Some(segments(&["a", "b"])));
    assert_eq!(module_path_from_dir(&root, &root), None);
    assert_eq!(module_path_from_source_file(&root, &path("/p/src/a/mod.rs")), Some(segments(&["a"])));
    assert_eq!(module_path_from_source_file(&root, &path("/p/src/mod.rs")), None);
}

#[test]
fn parent_boundary_prefers_mod_rs_then_the_named_file() {
    let root = path("/p/src");
    let files = vec![path("/p/src/lib.rs"), path("/p/src/a/mod.rs"), path("/p/src/a.rs"), path("/p/src/b.rs")];

    assert_eq!(
        parent_boundary_for_child(&root, &path("/p/src/a/x.rs"), &files),
        Some(ParentBoundary {
            boundary_file: path("/p/src/a/mod.rs"),
            subtree_root: path("/p/src/a"),
            module_segments: segments(&["a"]),
        })
    );
    assert_eq!(
        parent_boundary_for_child(&root, &path("/p/src/b/y.rs"), &files),
        Some(ParentBoundary {
            boundary_file: path("/p/src/b.rs"),
            subtree_root: path("/p/src/b"),
            module_segments: segments(&["b"]),
        })
    );
    assert_eq!(parent_boundary_for_child(&root, &path("/p/src/c/z.rs"), &files), None);
}

#[test]
fn parent_of_a_mod_rs_is_found_one_directory_up() {
    let root = path("/p/src");
    let files = vec![path("/p/src/lib.rs"), path("/p/src/a/mod.rs"), path("/p/src/a/b/mod.rs")];

    assert_eq!(
        parent_of_boundary(&root, &path("/p/src/a/b/mod.rs"), &files),
        Some(ParentBoundary {
            boundary_file: path("/p/src/a/mod.rs"),
            subtree_root: path("/p/src/a"),
            module_segments: segments(&["a"]),
        })
    );
    assert_eq!(
        parent_of_boundary(&root, &path("/p/src/a/mod.rs"), &files),
        Some(ParentBoundary {
            boundary_file: path("/p/src/lib.rs"),
            subtree_root: path("/p/src"),
            module_segments: Vec::new(),
        })
    );
    // A named boundary file is treated as a child of its directory.
    assert_eq!(
        parent_of_boundary(&root, &path("/p/src/a/c.rs"), &files),
        Some(ParentBoundary {
            boundary_file: path("/p/src/a/mod.rs"),
            subtree_root: path("/p/src/a"),
            module_segments: segments(&["a"]),
        })
    );
}

#[test]
fn named_boundary_file_replaces_a_directory_extension() {
    let root = path("/p/src");
    let files = vec![path("/p/src/v1.rs")];
    assert_eq!(
        parent_boundary_for_child(&root, &path("/p/src/v1.x/m.rs"), &files),
        Some(ParentBoundary {
            boundary_file: path("/p/src/v1.rs"),
            subtree_root: path("/p/src/v1.x"),
            module_segments: segments(&["v1"]),
        })
    );
}
