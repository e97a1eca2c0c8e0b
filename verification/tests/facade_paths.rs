use cargo_mend::facade_paths::ExportNameIndex;
use cargo_mend::facade_paths::ParentFacadeReferenceUsage;
use cargo_mend::facade_paths::ParentFacadeUsage;
use cargo_mend::facade_paths::PathAnchor;
use cargo_mend::facade_paths::PathOrigin;
use cargo_mend::facade_paths::UseRename;
use cargo_mend::facade_paths::matching_export_name_indexed;
use cargo_mend::facade_paths::merge_parent_facade_usage;
use cargo_mend::facade_paths::merge_reference_usage;
use cargo_mend::facade_paths::module_path_is_descendant;
use cargo_mend::facade_paths::normalized_name;
use cargo_mend::facade_paths::path_anchor;
use cargo_mend::facade_paths::path_mentions_child_item;
use cargo_mend::facade_paths::path_origin;
use cargo_mend::facade_paths::resolve_alias_expr_path;
use cargo_mend::facade_paths::resolve_module_relative_paths;
use cargo_mend::facade_paths::resolved_path_mentions_child_item;
use cargo_mend::facade_paths::resolved_path_of_len;
use cargo_mend::facade_paths::usage_for_reference;

fn strings(segments: &[&str]) -> Vec<String> {
    segments.iter().map(|s| s.to_string()).collect()
}

#[test]
fn parsed_path_matches_raw_module_segments() {
    let source_segments = strings(&["crate", "a", "r#type", "r#inner", "Thing"]);
    let compiler_segments = strings(&["a", "type", "inner"]);
    let exported_names = strings(&["Thing"]);

    assert_eq!(
        matching_export_name_indexed(
            &source_segments,
            &Vec::new(),
            &compiler_segments,
            &ExportNameIndex::new(&exported_names),
        ),
        Some("Thing".to_string())
    );
}

#[test]
fn raw_identifier_export_matches_a_plainly_spelled_final_segment() {
    let source_segments = strings(&["crate", "a", "Thing"]);
    let compiler_segments = strings(&["a"]);
    let exported_names = strings(&["r#Thing"]);

    assert_eq!(
        matching_export_name_indexed(
            &source_segments,
            &Vec::new(),
            &compiler_segments,
            &ExportNameIndex::new(&exported_names),
        ),
        Some("Thing".to_string())
    );
}

#[test]
fn super_relative_path_resolves_against_the_current_module() {
    let source_segments = strings(&["super", "Thing"]);
    let current_module_path = strings(&["a", "b"]);
    let compiler_segments = strings(&["a"]);
    let exported_names = strings(&["Thing"]);

    assert_eq!(
        matching_export_name_indexed(
            &source_segments,
            &current_module_path,
            &compiler_segments,
            &ExportNameIndex::new(&exported_names),
        ),
        Some("Thing".to_string())
    );
}

#[test]
fn path_whose_final_segment_is_not_exported_does_not_match() {
    let source_segments = strings(&["crate", "a", "Other"]);
    let compiler_segments = strings(&["a"]);
    let exported_names = strings(&["Thing"]);

    assert_eq!(
        matching_export_name_indexed(
            &source_segments,
            &Vec::new(),
            &compiler_segments,
            &ExportNameIndex::new(&exported_names),
        ),
        None
    );
}

#[test]
fn anchors_and_origins_follow_path_keywords() {
    assert_eq!(path_anchor("crate"), PathAnchor::Crate);
    assert_eq!(path_anchor("self"), PathAnchor::SelfMod);
    assert_eq!(path_anchor("super"), PathAnchor::Super);
    assert_eq!(path_anchor("Self"), PathAnchor::SelfType);
    assert_eq!(path_anchor("thing"), PathAnchor::Name);
    assert_eq!(path_origin(&strings(&["crate", "a"])), PathOrigin::Crate);
    assert_eq!(path_origin(&strings(&["a"])), PathOrigin::Relative);
    assert_eq!(path_origin(&Vec::new()), PathOrigin::Relative);
    assert_eq!(normalized_name("r#type"), "type");
    assert_eq!(normalized_name("type"), "type");
}

#[test]
fn relative_paths_resolve_against_every_anchor() {
    let current = strings(&["a", "b"]);
    assert_eq!(
        resolve_module_relative_paths(&strings(&["crate", "x", "Y"]), &current),
        vec![strings(&["x", "Y"])]
    );
    assert_eq!(
        resolve_module_relative_paths(&strings(&["self", "Y"]), &current),
        vec![strings(&["a", "b", "Y"])]
    );
    assert_eq!(
        resolve_module_relative_paths(&strings(&["super", "super", "self", "Y"]), &current),
        vec![strings(&["Y"])]
    );
    assert!(resolve_module_relative_paths(&strings(&["super", "super", "super", "Y"]), &current).is_empty());
    assert_eq!(
        resolve_module_relative_paths(&strings(&["x", "Y"]), &current),
        vec![strings(&["x", "Y"]), strings(&["a", "x", "Y"]), strings(&["a", "b", "x", "Y"])]
    );
    assert!(resolve_module_relative_paths(&Vec::new(), &current).is_empty());
}

#[test]
fn resolution_of_a_given_length_is_the_one_with_that_length() {
    let current = strings(&["a", "b"]);
    let raw = strings(&["x", "Y"]);
    assert_eq!(resolved_path_of_len(&raw, &current, 3), Some(strings(&["a", "x", "Y"])));
    assert_eq!(resolved_path_of_len(&raw, &current, 5), None);
    assert_eq!(resolved_path_of_len(&strings(&["super", "Y"]), &current, 2), Some(strings(&["a", "Y"])));
    assert_eq!(resolved_path_of_len(&strings(&["super", "Y"]), &current, 3), None);
}

#[test]
fn usage_merges_keep_the_strongest() {
    assert_eq!(
        merge_reference_usage(
            ParentFacadeReferenceUsage::Import(PathOrigin::Crate),
            ParentFacadeReferenceUsage::DirectPath(PathOrigin::Crate)
        ),
        ParentFacadeReferenceUsage::DirectPath(PathOrigin::Crate)
    );
    assert_eq!(
        merge_reference_usage(
            ParentFacadeReferenceUsage::Import(PathOrigin::Relative),
            ParentFacadeReferenceUsage::DirectPath(PathOrigin::Crate)
        ),
        ParentFacadeReferenceUsage::Import(PathOrigin::Relative)
    );
    assert_eq!(
        merge_parent_facade_usage(
            ParentFacadeUsage::UsedInsideSubtreeByCratePath,
            ParentFacadeUsage::UsedOutsideSubtree
        ),
        ParentFacadeUsage::UsedOutsideSubtree
    );
    assert_eq!(
        merge_parent_facade_usage(ParentFacadeUsage::Unused, ParentFacadeUsage::Unused),
        ParentFacadeUsage::Unused
    );
    assert_eq!(
        usage_for_reference(ParentFacadeReferenceUsage::Import(PathOrigin::Relative), true),
        ParentFacadeUsage::UsedInsideSubtreeByRelativeImport
    );
    assert_eq!(
        usage_for_reference(ParentFacadeReferenceUsage::DirectPath(PathOrigin::Crate), false),
        ParentFacadeUsage::UsedOutsideSubtree
    );
    assert_eq!(
        usage_for_reference(ParentFacadeReferenceUsage::Unreferenced, false),
        ParentFacadeUsage::Unused
    );
}

#[test]
fn child_item_mentions_and_module_nesting() {
    let child = strings(&["a", "child"]);
    assert!(path_mentions_child_item(&strings(&["a", "child", "Item"]), &child, "Item"));
    assert!(path_mentions_child_item(&strings(&["a", "child", "*"]), &child, "Item"));
    assert!(!path_mentions_child_item(&strings(&["a", "child"]), &child, "Item"));
    assert!(!path_mentions_child_item(&strings(&["a", "other", "Item"]), &child, "Item"));
    assert!(resolved_path_mentions_child_item(&strings(&["super", "child", "Item"]), &strings(&["a", "b"]), &child, "Item"));
    assert!(module_path_is_descendant(&strings(&["a", "child", "x"]), &child));
    assert!(module_path_is_descendant(&child, &child));
    assert!(!module_path_is_descendant(&strings(&["a"]), &child));
}

#[test]
fn aliases_resolve_through_the_first_matching_rename() {
    let renames = vec![
        UseRename {
            alias: "test_utils".to_string(),
            original_path: strings(&["crate", "other"]),
            module_suffix: strings(&["inner"]),
        },
        UseRename {
            alias: "test_utils".to_string(),
            original_path: strings(&["crate", "test_support"]),
            module_suffix: Vec::new(),
        },
    ];
    assert_eq!(
        resolve_alias_expr_path(&strings(&["test_utils", "assert_test_case"]), &Vec::new(), &renames),
        Some(strings(&["crate", "test_support", "assert_test_case"]))
    );
    assert_eq!(
        resolve_alias_expr_path(&strings(&["elsewhere", "x"]), &Vec::new(), &renames),
        None
    );
}
