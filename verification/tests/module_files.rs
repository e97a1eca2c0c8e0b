use cargo_mend::feature_gates::MetaItem;
use cargo_mend::module_files::collect_conditional_paths;
use cargo_mend::module_files::conditional_path_attributes;
use cargo_mend::module_files::direct_path_attribute;
use cargo_mend::module_files::external_module_files;
use cargo_mend::module_files::path_from_meta;

fn path_attr(value: &str) -> MetaItem {
    MetaItem::NameValue { ident: Some("path".to_string()), value: Some(value.to_string()) }
}

fn word(ident: &str) -> MetaItem { MetaItem::Path { ident: Some(ident.to_string()) } }

fn list(ident: &str, nested: Vec<MetaItem>) -> MetaItem {
    MetaItem::List { ident: Some(ident.to_string()), nested: Some(nested) }
}

#[test]
fn a_module_without_path_attributes_lives_next_to_its_parent() {
    let files = external_module_files("child", &Vec::new(), "/ws/src/parent");
    assert_eq!(files, vec!["/ws/src/parent/child.rs".to_string(), "/ws/src/parent/child/mod.rs".to_string()]);
}

#[test]
fn path_attributes_replace_the_default_files() {
    let attributes = vec![word("doc"), path_attr("other/place.rs")];
    let files = external_module_files("child", &attributes, "/ws/src");
    assert_eq!(files, vec!["/ws/src/other/place.rs".to_string()]);
}

#[test]
fn cfg_attr_paths_are_added_once() {
    // #[cfg(feature = "hidden")] #[cfg_attr(unix, path = "unix.rs")]
    // #[cfg_attr(windows, cfg_attr(test, path = "child.rs"), path = "win.rs")]
    let attributes = vec![
        list("cfg", vec![MetaItem::NameValue { ident: Some("feature".to_string()), value: Some("hidden".to_string()) }]),
        list("cfg_attr", vec![word("unix"), path_attr("unix.rs")]),
        list("cfg_attr", vec![word("windows"), list("cfg_attr", vec![word("test"), path_attr("child.rs")]), path_attr("win.rs")]),
    ];
    let files = external_module_files("child", &attributes, "/ws/src");
    assert_eq!(
        files,
        vec![
            "/ws/src/child.rs".to_string(),
            "/ws/src/child/mod.rs".to_string(),
            "/ws/src/unix.rs".to_string(),
            "/ws/src/win.rs".to_string(),
        ]
    );
}

#[test]
fn path_attribute_helpers_read_only_string_values() {
    assert_eq!(path_from_meta(&path_attr("a.rs")).as_deref(), Some("a.rs"));
    assert_eq!(path_from_meta(&word("path")), None);
    assert_eq!(direct_path_attribute(&path_attr("a.rs")).as_deref(), Some("a.rs"));
    let not_path = MetaItem::NameValue { ident: Some("doc".to_string()), value: Some("text".to_string()) };
    assert_eq!(direct_path_attribute(&not_path), None);
    // A top-level `path` is not a conditional one.
    assert!(conditional_path_attributes(&path_attr("a.rs")).is_empty());
    let unreadable = MetaItem::List { ident: Some("cfg_attr".to_string()), nested: None };
    assert!(conditional_path_attributes(&unreadable).is_empty());
    let mut paths = vec!["kept".to_string()];
    collect_conditional_paths(&list("cfg_attr", vec![word("test"), path_attr("t.rs")]), &mut paths);
    assert_eq!(paths, vec!["kept".to_string(), "t.rs".to_string()]);
}

