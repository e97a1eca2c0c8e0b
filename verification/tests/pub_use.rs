use cargo_mend::facade_exports::ParentFacadeFixSupport;
use cargo_mend::facade_exports::ParentFacadeSpelling;
use cargo_mend::pub_use::LocatedUseItem;
use cargo_mend::pub_use::UseItem;
use cargo_mend::pub_use::UseTree;
use cargo_mend::pub_use::exported_names_from_parent_boundary;
use cargo_mend::pub_use::extract_use_renames;
use cargo_mend::pub_use::facade_use_prefix;
use cargo_mend::pub_use::flatten_use_tree;
use cargo_mend::pub_use::item_use_start_offset;
use cargo_mend::pub_use::parent_facade_fix_support;
use cargo_mend::pub_use::pub_use_is_fix_supported;
use cargo_mend::pub_use::root_module_exports_item;

fn name(ident: &str) -> UseTree { UseTree::Name { ident: ident.to_string() } }

fn rename(ident: &str, to: &str) -> UseTree {
    UseTree::Rename { ident: ident.to_string(), rename: to.to_string() }
}

fn path(ident: &str, tree: UseTree) -> UseTree {
    UseTree::Path { ident: ident.to_string(), tree: Box::new(tree) }
}

fn group(items: Vec<UseTree>) -> UseTree { UseTree::Group { items } }

fn item(visibility: ParentFacadeSpelling, tree: UseTree) -> UseItem { UseItem { visibility, tree } }

/// `pub use report_writer::{ReportDefinition, ReportWriter};`
fn grouped_report_writer() -> Vec<UseItem> {
    vec![item(
        ParentFacadeSpelling::Public,
        path("report_writer", group(vec![name("ReportDefinition"), name("ReportWriter")])),
    )]
}

/// `pub use child::{\n    Thing,\n    Other,\n};`
fn multiline_grouped_child() -> Vec<UseItem> {
    vec![item(ParentFacadeSpelling::Public, path("child", group(vec![name("Thing"), name("Other")])))]
}

/// `pub use child::{Thing as RenamedThing, Other};`
fn grouped_child_with_rename() -> Vec<UseItem> {
    vec![item(
        ParentFacadeSpelling::Public,
        path("child", group(vec![rename("Thing", "RenamedThing"), name("Other")])),
    )]
}

fn check_grouped_parent_pub_use_is_fix_supported() {
    let exports =
        exported_names_from_parent_boundary(&grouped_report_writer(), "report_writer", "ReportDefinition");
    assert_eq!(exports.explicit, vec!["ReportDefinition".to_string()]);
    assert_eq!(exports.fix_support, ParentFacadeFixSupport::Supported);
}

fn check_multiline_grouped_parent_pub_use_is_fix_supported() {
    let exports = exported_names_from_parent_boundary(&multiline_grouped_child(), "child", "Thing");
    assert_eq!(exports.explicit, vec!["Thing".to_string()]);
    assert_eq!(exports.fix_support, ParentFacadeFixSupport::Supported);
}

fn check_grouped_parent_pub_use_with_rename_is_manual_only() {
    let items = grouped_child_with_rename();
    let exports = exported_names_from_parent_boundary(&items, "child", "Thing");
    assert_eq!(exports.explicit, vec!["RenamedThing".to_string()]);
    assert_eq!(exports.fix_support, ParentFacadeFixSupport::Unsupported);

    let exports = exported_names_from_parent_boundary(&items, "child", "Other");
    assert_eq!(exports.explicit, vec!["Other".to_string()]);
    assert_eq!(exports.fix_support, ParentFacadeFixSupport::Supported);
}

#[test]
fn exports_grouped_parent_pub_use_is_fix_supported() { check_grouped_parent_pub_use_is_fix_supported(); }

#[test]
fn facade_grouped_parent_pub_use_is_fix_supported() { check_grouped_parent_pub_use_is_fix_supported(); }

#[test]
fn compiler_grouped_parent_pub_use_is_fix_supported() { check_grouped_parent_pub_use_is_fix_supported(); }

#[test]
fn exports_multiline_grouped_parent_pub_use_is_fix_supported() {
    check_multiline_grouped_parent_pub_use_is_fix_supported();
}

#[test]
fn facade_multiline_grouped_parent_pub_use_is_fix_supported() {
    check_multiline_grouped_parent_pub_use_is_fix_supported();
}

#[test]
fn compiler_multiline_grouped_parent_pub_use_is_fix_supported() {
    check_multiline_grouped_parent_pub_use_is_fix_supported();
}

#[test]
fn exports_grouped_parent_pub_use_with_rename_is_manual_only() {
    check_grouped_parent_pub_use_with_rename_is_manual_only();
}

#[test]
fn facade_grouped_parent_pub_use_with_rename_is_manual_only() {
    check_grouped_parent_pub_use_with_rename_is_manual_only();
}

#[test]
fn compiler_grouped_parent_pub_use_with_rename_is_manual_only() {
    check_grouped_parent_pub_use_with_rename_is_manual_only();
}

#[test]
fn mixed_pub_uses_keep_matching_export_names_separate() {
    // pub(crate) use first_child::Alpha;
    // pub use second_child::Beta;
    let items = vec![
        item(ParentFacadeSpelling::Crate, path("first_child", name("Alpha"))),
        item(ParentFacadeSpelling::Public, path("second_child", name("Beta"))),
    ];

    let exports = exported_names_from_parent_boundary(&items, "first_child", "Alpha");
    assert_eq!(exports.explicit, vec!["Alpha".to_string()]);

    let exports = exported_names_from_parent_boundary(&items, "second_child", "Beta");
    assert_eq!(exports.explicit, vec!["Beta".to_string()]);
}

#[test]
fn duplicate_re_exports_keep_all_export_names() {
    // pub(crate) use child::Thing;
    // pub use child::Thing;
    let items = vec![
        item(ParentFacadeSpelling::Crate, path("child", name("Thing"))),
        item(ParentFacadeSpelling::Public, path("child", name("Thing"))),
    ];
    let exports = exported_names_from_parent_boundary(&items, "child", "Thing");
    assert_eq!(exports.explicit, vec!["Thing".to_string()]);
}

#[test]
fn flattening_spells_renames_globs_and_groups() {
    // self::child::{Thing as Renamed, nested::*, Other}
    let tree = path(
        "self",
        path(
            "child",
            group(vec![rename("Thing", "Renamed"), path("nested", UseTree::Glob), name("Other")]),
        ),
    );
    let mut out = Vec::new();
    flatten_use_tree(Vec::new(), &tree, &mut out);
    let spelled: Vec<String> = out.iter().map(|p| p.join("::")).collect();
    assert_eq!(
        spelled,
        vec![
            "self::child::Thing::Renamed".to_string(),
            "self::child::nested::*".to_string(),
            "self::child::Other".to_string(),
        ]
    );
}

#[test]
fn leading_self_is_ignored_and_nesting_blocks_the_fix() {
    let direct = path("self", path("child", name("Thing")));
    assert!(pub_use_is_fix_supported(&direct, "child", "Thing"));
    let nested = path("child", path("inner", name("Thing")));
    assert!(!pub_use_is_fix_supported(&nested, "child", "Thing"));
    let glob = path("child", UseTree::Glob);
    assert!(!pub_use_is_fix_supported(&glob, "child", "Thing"));

    // A nested path still re-exports the item, under its own name.
    let items = vec![item(ParentFacadeSpelling::Public, nested)];
    let exports = exported_names_from_parent_boundary(&items, "child", "Thing");
    assert_eq!(exports.explicit, vec!["Thing".to_string()]);
    assert_eq!(exports.fix_support, ParentFacadeFixSupport::Unsupported);
}

#[test]
fn private_use_is_never_fix_supported() {
    let items = vec![item(ParentFacadeSpelling::Other, path("child", name("Thing")))];
    let exports = exported_names_from_parent_boundary(&items, "child", "Thing");
    assert_eq!(exports.explicit, vec!["Thing".to_string()]);
    assert_eq!(exports.fix_support, ParentFacadeFixSupport::Unsupported);
    assert_eq!(facade_use_prefix(ParentFacadeSpelling::Other), None);
    assert_eq!(facade_use_prefix(ParentFacadeSpelling::Super), Some("pub(super) use"));
}

#[test]
fn export_names_come_out_sorted() {
    let items = vec![item(
        ParentFacadeSpelling::Public,
        path("child", group(vec![rename("Thing", "Zeta"), rename("Thing", "Alpha"), name("Thing")])),
    )];
    let exports = exported_names_from_parent_boundary(&items, "child", "Thing");
    assert_eq!(
        exports.explicit,
        vec!["Alpha".to_string(), "Thing".to_string(), "Zeta".to_string()]
    );
    assert_eq!(exports.fix_support, ParentFacadeFixSupport::Supported);
}

#[test]
fn start_offset_counts_bytes_of_earlier_lines() {
    let source = "// é\npub use child::Thing;\n";
    // Line 2 starts after "// é\n": 3 + 2 + 1 bytes.
    assert_eq!(item_use_start_offset(source, 2, 0), Some(6));
    assert_eq!(item_use_start_offset(source, 2, 4), Some(10));
    assert_eq!(item_use_start_offset(source, 1, 0), Some(0));
    assert_eq!(item_use_start_offset(source, 2, 100), None);
    // Lines past the end count the whole source.
    assert_eq!(item_use_start_offset(source, 9, 0), Some(source.len()));
}

#[test]
fn fix_support_is_read_from_the_item_at_the_offset() {
    let uses = vec![
        LocatedUseItem {
            start_offset: Some(0),
            item: item(ParentFacadeSpelling::Public, path("child", rename("Thing", "Other"))),
        },
        LocatedUseItem {
            start_offset: Some(30),
            item: item(ParentFacadeSpelling::Public, path("child", name("Thing"))),
        },
    ];
    assert_eq!(
        parent_facade_fix_support(true, Some("child"), Some(&uses), 30, "Thing"),
        ParentFacadeFixSupport::Supported
    );
    assert_eq!(
        parent_facade_fix_support(true, Some("child"), Some(&uses), 0, "Thing"),
        ParentFacadeFixSupport::Unsupported
    );
    assert_eq!(
        parent_facade_fix_support(false, Some("child"), Some(&uses), 30, "Thing"),
        ParentFacadeFixSupport::Unsupported
    );
    assert_eq!(
        parent_facade_fix_support(true, None, Some(&uses), 30, "Thing"),
        ParentFacadeFixSupport::Unsupported
    );
    assert_eq!(
        parent_facade_fix_support(true, Some("child"), None, 30, "Thing"),
        ParentFacadeFixSupport::Unsupported
    );
    assert_eq!(
        parent_facade_fix_support(true, Some("child"), Some(&uses), 12, "Thing"),
        ParentFacadeFixSupport::Unsupported
    );
}

#[test]
fn the_root_module_exports_what_its_use_items_name() {
    // lib.rs: pub use report_writer::{ReportDefinition, ReportWriter};
    let root = grouped_report_writer();
    assert!(root_module_exports_item(Some("report_writer"), Some(&root), "ReportWriter"));
    assert!(!root_module_exports_item(Some("report_writer"), Some(&root), "Missing"));
    assert!(!root_module_exports_item(Some("other"), Some(&root), "ReportWriter"));
    assert!(!root_module_exports_item(None, Some(&root), "ReportWriter"));
    assert!(!root_module_exports_item(Some("report_writer"), None, "ReportWriter"));
}

#[test]
fn renames_stand_for_their_full_paths() {
    // use self::child::{Thing as Alias, nested::{Other as Second, Plain}, *};
    let tree = path(
        "self",
        path(
            "child",
            group(vec![
                rename("Thing", "Alias"),
                path("nested", group(vec![rename("Other", "Second"), name("Plain")])),
                UseTree::Glob,
            ]),
        ),
    );
    let mut out = Vec::new();
    extract_use_renames(Vec::new(), &tree, &vec!["inner".to_string()], &mut out);
    let found: Vec<(String, String, Vec<String>)> =
        out.iter().map(|r| (r.alias.clone(), r.original_path.join("::"), r.module_suffix.clone())).collect();
    assert_eq!(
        found,
        vec![
            ("Alias".to_string(), "self::child::Thing".to_string(), vec!["inner".to_string()]),
            ("Second".to_string(), "self::child::nested::Other".to_string(), vec!["inner".to_string()]),
        ]
    );
}
