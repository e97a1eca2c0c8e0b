use cargo_mend::facade_exports::ParentFacadeExportStatus;
use cargo_mend::facade_exports::ParentFacadeFixSupport;
use cargo_mend::facade_exports::ParentFacadeReach;
use cargo_mend::facade_exports::ParentFacadeSpelling;
use cargo_mend::facade_paths::ExportNameIndex;
use cargo_mend::facade_paths::ParentFacadeReferenceUsage;
use cargo_mend::facade_paths::ParentFacadeUsage;
use cargo_mend::facade_paths::PathOrigin;
use cargo_mend::facade_paths::UseRename;
use cargo_mend::facade_scan::ExtractedPath;
use cargo_mend::facade_scan::ExtractedPaths;
use cargo_mend::facade_scan::FacadeUsageByName;
use cargo_mend::facade_scan::LiteralModuleContext;
use cargo_mend::facade_scan::ModuleRange;
use cargo_mend::facade_scan::context_mentions_child_item_from_outside;
use cargo_mend::facade_scan::context_references_module_from_outside;
use cargo_mend::facade_scan::extracted_paths_mention_child_item;
use cargo_mend::facade_scan::lexical_module_suffixes;
use cargo_mend::facade_scan::record_module_context_usage;
use cargo_mend::facade_scan::source_references_parent_exports;
use cargo_mend::facade_scan::usage_for_item;

fn strings(segments: &[&str]) -> Vec<String> {
    segments.iter().map(|s| s.to_string()).collect()
}

fn path(segments: &[&str], origin: PathOrigin, suffix: &[&str]) -> ExtractedPath {
    ExtractedPath {
        segments: strings(segments),
        origin,
        module_suffix: strings(suffix),
    }
}

#[test]
fn references_keep_the_strongest_use_of_each_export() {
    let extracted = ExtractedPaths {
        use_paths: vec![
            path(&["crate", "a", "Thing"], PathOrigin::Crate, &[]),
            path(&["super", "Other"], PathOrigin::Relative, &[]),
        ],
        expr_paths: vec![
            path(&["crate", "a", "Thing"], PathOrigin::Crate, &[]),
            path(&["crate", "a", "Thing"], PathOrigin::Crate, &["inner"]),
            path(&["alias", "Other"], PathOrigin::Relative, &[]),
        ],
        use_renames: vec![UseRename {
            alias:         "alias".to_string(),
            original_path: strings(&["crate", "a"]),
            module_suffix: Vec::new(),
        }],
    };
    let names = ExportNameIndex::new(&strings(&["Thing", "Other", "Unused"]));

    let usage = source_references_parent_exports(&extracted, &strings(&["a", "b"]), &Vec::new(), &strings(&["a"]), &names);

    assert_eq!(usage.len(), 2);
    assert_eq!(usage.get("Thing"), ParentFacadeReferenceUsage::DirectPath(PathOrigin::Crate));
    assert_eq!(usage.get("Other"), ParentFacadeReferenceUsage::DirectPath(PathOrigin::Relative));
    assert_eq!(usage.get("Unused"), ParentFacadeReferenceUsage::Unreferenced);
}

#[test]
fn child_item_is_found_through_use_expression_and_alias_paths() {
    let child = strings(&["a", "child"]);
    let through_alias = ExtractedPaths {
        use_paths: Vec::new(),
        expr_paths: vec![path(&["c", "Item"], PathOrigin::Relative, &[])],
        use_renames: vec![UseRename {
            alias:         "c".to_string(),
            original_path: strings(&["crate", "a", "child"]),
            module_suffix: Vec::new(),
        }],
    };
    assert!(extracted_paths_mention_child_item(&through_alias, &strings(&["z"]), &Vec::new(), &child, "Item"));
    assert!(!extracted_paths_mention_child_item(&through_alias, &strings(&["z"]), &Vec::new(), &child, "Other"));

    let elsewhere = ExtractedPaths {
        use_paths: vec![path(&["crate", "a", "child", "Item"], PathOrigin::Crate, &["inner"])],
        expr_paths: Vec::new(),
        use_renames: Vec::new(),
    };
    assert!(!extracted_paths_mention_child_item(&elsewhere, &strings(&["z"]), &Vec::new(), &child, "Item"));
    assert!(extracted_paths_mention_child_item(&elsewhere, &strings(&["z"]), &strings(&["inner"]), &child, "Item"));
}

#[test]
fn facade_usage_starts_unused_and_keeps_the_farthest_use() {

    let mut usage = FacadeUsageByName::for_exports(&strings(&["Thing", "r#type", "Thing"]));
    assert_eq!(usage.get("Thing"), Some(ParentFacadeUsage::Unused));
    assert_eq!(usage.get("type"), Some(ParentFacadeUsage::Unused));
    assert_eq!(usage.get("r#type"), None);
    usage.merge_for_name("Thing", ParentFacadeUsage::UsedInsideSubtreeByCrateImport);
    usage.merge_for_name("Thing", ParentFacadeUsage::UsedOutsideSubtree);
    usage.merge_for_name("Thing", ParentFacadeUsage::UsedInsideSubtreeByRelativePath);
    assert_eq!(usage.get("Thing"), Some(ParentFacadeUsage::UsedOutsideSubtree));
    usage.merge_for_name("Other", ParentFacadeUsage::UsedInsideSubtreeByCratePath);
    assert_eq!(usage.get("Other"), Some(ParentFacadeUsage::UsedInsideSubtreeByCratePath));
}

#[test]
fn module_contexts_record_uses_inside_and_outside_the_subtree() {

    let exports = strings(&["Thing", "Other"]);
    let names = ExportNameIndex::new(&exports);
    let extracted = ExtractedPaths {
        use_paths: vec![path(&["crate", "a", "Thing"], PathOrigin::Crate, &[])],
        expr_paths: vec![path(&["super", "Other"], PathOrigin::Relative, &[])],
        use_renames: Vec::new(),
    };
    let facade = strings(&["a"]);

    let mut usage = FacadeUsageByName::for_exports(&exports);
    // The facade's own module is skipped in its own file.
    record_module_context_usage(&mut usage, &extracted, &facade, &Vec::new(), true, &facade, &names);
    assert_eq!(usage.get("Thing"), Some(ParentFacadeUsage::Unused));

    // A child module inside the subtree.
    record_module_context_usage(&mut usage, &extracted, &strings(&["a", "b"]), &Vec::new(), false, &facade, &names);
    assert_eq!(usage.get("Thing"), Some(ParentFacadeUsage::UsedInsideSubtreeByCrateImport));
    assert_eq!(usage.get("Other"), Some(ParentFacadeUsage::UsedInsideSubtreeByRelativePath));

    // A module outside the subtree reaching the same export.
    let outside = ExtractedPaths {
        use_paths: Vec::new(),
        expr_paths: vec![path(&["crate", "a", "Thing"], PathOrigin::Crate, &[])],
        use_renames: Vec::new(),
    };
    record_module_context_usage(&mut usage, &outside, &strings(&["z"]), &Vec::new(), false, &facade, &names);
    assert_eq!(usage.get("Thing"), Some(ParentFacadeUsage::UsedOutsideSubtree));
    assert_eq!(usage.get("Other"), Some(ParentFacadeUsage::UsedInsideSubtreeByRelativePath));

    assert_eq!(usage_for_item(&usage, "Thing", &exports), ParentFacadeUsage::UsedOutsideSubtree);
    assert_eq!(usage_for_item(&usage, "Renamed", &strings(&["Other"])), ParentFacadeUsage::UsedInsideSubtreeByRelativePath);
    assert_eq!(usage_for_item(&usage, "Renamed", &exports), ParentFacadeUsage::Unused);
}

#[test]
fn offsets_take_the_innermost_inline_module() {

    let context = LiteralModuleContext {
        root_path: strings(&["root"]),
        inline_ranges: vec![
            ModuleRange { path: strings(&["root", "outer"]), start: 10, end: 100 },
            ModuleRange { path: strings(&["root", "outer", "inner"]), start: 20, end: 40 },
            ModuleRange { path: strings(&["root", "same"]), start: 20, end: 40 },
        ],
    };
    assert_eq!(context.path_at(5), &strings(&["root"]));
    assert_eq!(context.path_at(50), &strings(&["root", "outer"]));
    assert_eq!(context.path_at(25), &strings(&["root", "outer", "inner"]));
    assert_eq!(context.path_at(100), &strings(&["root"]));
}

#[test]
fn facade_use_syntax_follows_an_agreed_spelling() {

    let status = |spelling, spelling_conflict| ParentFacadeExportStatus {
        usage: ParentFacadeUsage::Unused,
        fix_support: ParentFacadeFixSupport::Supported,
        parent_facade_reach: ParentFacadeReach { reaches_parent: true, spelling, spelling_conflict },
        parent_path: String::from("/p/src/a.rs"),
        parent_rel_path: String::from("a.rs"),
        parent_line: 3,
        boundary_def_path: String::from("a"),
    };
    assert_eq!(status(ParentFacadeSpelling::Public, false).use_syntax(), Some("pub use"));
    assert_eq!(status(ParentFacadeSpelling::Crate, false).use_syntax(), Some("pub(crate) use"));
    assert_eq!(status(ParentFacadeSpelling::Super, false).use_syntax(), Some("pub(super) use"));
    assert_eq!(status(ParentFacadeSpelling::Other, false).use_syntax(), None);
    assert_eq!(status(ParentFacadeSpelling::Public, true).use_syntax(), None);
}

#[test]
fn module_suffixes_are_listed_once_in_first_occurrence_order() {
    let extracted = ExtractedPaths {
        use_paths: vec![
            path(&["crate", "a"], PathOrigin::Crate, &["inner"]),
            path(&["crate", "b"], PathOrigin::Crate, &[]),
        ],
        expr_paths: vec![
            path(&["x"], PathOrigin::Relative, &[]),
            path(&["y"], PathOrigin::Relative, &["other"]),
            path(&["z"], PathOrigin::Relative, &["inner"]),
        ],
        use_renames: Vec::new(),
    };
    assert_eq!(
        lexical_module_suffixes(&extracted),
        vec![strings(&["inner"]), Vec::new(), strings(&["other"])]
    );
}

#[test]
fn only_contexts_outside_the_module_count_as_outside_references() {
    let names = ExportNameIndex::new(&strings(&["Thing"]));
    let extracted = ExtractedPaths {
        use_paths: vec![path(&["crate", "a", "Thing"], PathOrigin::Crate, &[])],
        expr_paths: Vec::new(),
        use_renames: Vec::new(),
    };
    let module = strings(&["a"]);
    assert!(context_references_module_from_outside(&extracted, &strings(&["z"]), &Vec::new(), &module, &names));
    assert!(!context_references_module_from_outside(&extracted, &strings(&["a", "b"]), &Vec::new(), &module, &names));
    assert!(!context_references_module_from_outside(&extracted, &strings(&["z"]), &strings(&["inner"]), &module, &names));

    let child = strings(&["a", "child"]);
    let mentions = ExtractedPaths {
        use_paths: vec![path(&["crate", "a", "child", "Item"], PathOrigin::Crate, &[])],
        expr_paths: Vec::new(),
        use_renames: Vec::new(),
    };
    assert!(context_mentions_child_item_from_outside(&mentions, &strings(&["z"]), &Vec::new(), &child, "Item"));
    assert!(!context_mentions_child_item_from_outside(&mentions, &strings(&["a", "child", "x"]), &Vec::new(), &child, "Item"));
}
