use cargo_mend::policy::CrateKind;
use cargo_mend::policy::ModuleLocation;
use cargo_mend::policy::allow_pub_crate_by_policy;
use cargo_mend::policy::forbidden_pub_crate_help;
use cargo_mend::policy::suspicious_pub_note;

#[test]
fn allow_pub_crate_allows_library_crate_root_items() {
    assert!(allow_pub_crate_by_policy(
        CrateKind::Library,
        ModuleLocation::CrateRoot,
        true
    ));
}

#[test]
fn allow_pub_crate_allows_top_level_private_library_modules() {
    assert!(allow_pub_crate_by_policy(
        CrateKind::Library,
        ModuleLocation::TopLevelPrivateModule,
        false
    ));
}

#[test]
fn allow_pub_crate_rejects_nested_modules() {
    assert!(!allow_pub_crate_by_policy(
        CrateKind::Library,
        ModuleLocation::NestedModule,
        false
    ));
}

#[test]
fn allow_pub_crate_rejects_binary_crate_root_items() {
    assert!(!allow_pub_crate_by_policy(
        CrateKind::Binary,
        ModuleLocation::CrateRoot,
        true
    ));
}

#[test]
fn allow_pub_crate_allows_top_level_private_binary_modules() {
    assert!(allow_pub_crate_by_policy(
        CrateKind::Binary,
        ModuleLocation::TopLevelPrivateModule,
        false
    ));
}

#[test]
fn allow_pub_crate_rejects_binary_nested_modules() {
    assert!(!allow_pub_crate_by_policy(
        CrateKind::Binary,
        ModuleLocation::NestedModule,
        false
    ));
}

#[test]
fn allow_pub_crate_rejects_top_level_module_of_public_parent() {
    assert!(!allow_pub_crate_by_policy(
        CrateKind::Library,
        ModuleLocation::TopLevelPrivateModule,
        true
    ));
}

#[test]
fn forbidden_pub_crate_help_handles_crate_root_items() {
    assert_eq!(
        forbidden_pub_crate_help(ModuleLocation::CrateRoot),
        "consider using just `pub` or removing `pub(crate)` entirely"
    );
}

#[test]
fn forbidden_pub_crate_help_handles_top_level_private_modules() {
    assert_eq!(
        forbidden_pub_crate_help(ModuleLocation::TopLevelPrivateModule),
        "consider using just `pub` or removing `pub(crate)` entirely"
    );
}

#[test]
fn forbidden_pub_crate_help_handles_nested_private_modules() {
    assert_eq!(
        forbidden_pub_crate_help(ModuleLocation::NestedModule),
        "consider using `pub(super)` or removing `pub(crate)` entirely"
    );
}

#[test]
fn suspicious_pub_note_uses_public_api_wording_for_libraries() {
    assert_eq!(
        suspicious_pub_note(CrateKind::Library, "struct"),
        "struct is not reachable from the crate's public API"
    );
}

#[test]
fn suspicious_pub_note_uses_subtree_wording_for_binaries() {
    assert_eq!(
        suspicious_pub_note(CrateKind::Binary, "function"),
        "function is not used outside its parent module subtree"
    );
}
