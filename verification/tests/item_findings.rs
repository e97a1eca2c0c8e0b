use cargo_mend::facade_exports::ParentFacadeExportStatus;
use cargo_mend::facade_exports::ParentFacadeFixSupport;
use cargo_mend::facade_exports::ParentFacadeReach;
use cargo_mend::facade_exports::ParentFacadeSpelling;
use cargo_mend::facade_paths::ParentFacadeUsage;
use cargo_mend::findings::DiagnosticCode;
use cargo_mend::findings::FixSupport;
use cargo_mend::findings::Severity;
use cargo_mend::item_findings::AllowanceReason;
use cargo_mend::item_findings::FindingPlace;
use cargo_mend::item_findings::SuspiciousPubAssessment;
use cargo_mend::item_findings::SuspiciousPubFacts;
use cargo_mend::item_findings::assess_parent_facade_usage;
use cargo_mend::item_findings::basic_suspicious_pub_allowance;
use cargo_mend::item_findings::classify_suspicious_pub;
use cargo_mend::item_findings::maybe_record_narrow_to_pub_crate;
use cargo_mend::item_findings::maybe_record_suspicious_pub;
use cargo_mend::item_findings::record_visibility_findings;
use cargo_mend::policy::CrateKind;
use cargo_mend::policy::ModuleLocation;

fn path(parts: &[&str]) -> Vec<String> { parts.iter().map(|part| part.to_string()).collect() }

fn status(usage: ParentFacadeUsage, spelling: ParentFacadeSpelling, fix: ParentFacadeFixSupport) -> ParentFacadeExportStatus {
    ParentFacadeExportStatus {
        usage,
        fix_support: fix,
        parent_facade_reach: ParentFacadeReach { reaches_parent: true, spelling, spelling_conflict: false },
        parent_path: "/ws/src/parent/mod.rs".to_string(),
        parent_rel_path: "src/parent/mod.rs".to_string(),
        parent_line: 7,
        boundary_def_path: "parent".to_string(),
    }
}

fn facts(parent_facade_export: Option<ParentFacadeExportStatus>) -> SuspiciousPubFacts {
    SuspiciousPubFacts {
        config_rel_path: Some("src/parent/child.rs".to_string()),
        item_name: Some("Thing".to_string()),
        parent_is_public: false,
        reachable_public: false,
        parent_facade_export,
        exposed_by_signature: false,
        module_location: ModuleLocation::NestedModule,
    }
}

#[test]
fn forbidden_pub_crate_is_reported_outside_the_allowed_places() {
    let src = path(&["/", "ws", "src"]);
    let root = path(&["/", "ws", "src", "lib.rs"]);
    let file = path(&["/", "ws", "src", "a", "b.rs"]);
    let r = record_visibility_findings(&src, &root, &file, "pub(crate)", ModuleLocation::NestedModule, false, false, Some("f"), None, &Vec::new());
    assert_eq!(r.crate_kind, CrateKind::Library);
    assert_eq!(r.findings.len(), 1);
    assert_eq!(r.findings[0].diagnostic_code, DiagnosticCode::ForbiddenPubCrate);
    assert_eq!(r.findings[0].severity, Severity::Error);
    assert_eq!(r.findings[0].message, "use of `pub(crate)` is forbidden by policy");
    assert_eq!(
        r.findings[0].suggestion.as_deref(),
        Some("consider using `pub(super)` or removing `pub(crate)` entirely")
    );
    assert!(!r.check_narrow_to_pub_crate);
    assert!(!r.check_suspicious_pub);

    let allowed = record_visibility_findings(&src, &root, &root, "pub(crate)", ModuleLocation::CrateRoot, false, false, None, None, &Vec::new());
    assert!(allowed.findings.is_empty());
    let binary_root = path(&["/", "ws", "src", "main.rs"]);
    let binary = record_visibility_findings(&src, &binary_root, &binary_root, "pub(crate)", ModuleLocation::CrateRoot, false, false, None, None, &Vec::new());
    assert_eq!(binary.crate_kind, CrateKind::Binary);
    assert_eq!(binary.findings.len(), 1);
}

#[test]
fn pub_in_crate_and_pub_mod_are_reported_unless_allowlisted() {
    let src = path(&["/", "ws", "src"]);
    let root = path(&["/", "ws", "src", "lib.rs"]);
    let file = path(&["/", "ws", "src", "a", "mod.rs"]);
    let r = record_visibility_findings(&src, &root, &file, "pub(in crate::a)", ModuleLocation::NestedModule, false, true, Some("inner"), Some("src/a/mod.rs"), &Vec::new());
    let codes: Vec<DiagnosticCode> = r.findings.iter().map(|f| f.diagnostic_code).collect();
    assert_eq!(codes, vec![DiagnosticCode::ForbiddenPubInCrate, DiagnosticCode::ReviewPubMod]);
    assert_eq!(r.findings[1].item.as_deref(), Some("inner"));

    let allow = vec!["src/a/mod.rs".to_string()];
    let r = record_visibility_findings(&src, &root, &file, "pub", ModuleLocation::NestedModule, false, true, Some("inner"), Some("src/a/mod.rs"), &allow);
    assert!(r.findings.is_empty());
    // `mod.rs` opens a boundary, so the suspicious check does not apply.
    assert!(!r.check_suspicious_pub);
}

#[test]
fn plain_pub_items_go_on_to_the_reexport_checks() {
    let src = path(&["/", "ws", "src"]);
    let root = path(&["/", "ws", "src", "lib.rs"]);
    let top = path(&["/", "ws", "src", "a.rs"]);
    let r = record_visibility_findings(&src, &root, &top, "pub", ModuleLocation::TopLevelPrivateModule, false, false, Some("f"), None, &Vec::new());
    assert!(r.findings.is_empty());
    assert!(r.check_narrow_to_pub_crate);
    assert!(!r.check_suspicious_pub);
    let nested = path(&["/", "ws", "src", "a", "b.rs"]);
    let r = record_visibility_findings(&src, &root, &nested, "pub", ModuleLocation::NestedModule, false, false, Some("f"), None, &Vec::new());
    assert!(!r.check_narrow_to_pub_crate);
    assert!(r.check_suspicious_pub);
}

#[test]
fn narrow_to_pub_crate_needs_a_name_a_kind_and_no_reexport() {
    let finding = maybe_record_narrow_to_pub_crate(Some("helper"), Some("function"), false, false).unwrap();
    assert_eq!(finding.diagnostic_code, DiagnosticCode::NarrowToPubCrate);
    assert_eq!(finding.item.as_deref(), Some("function helper"));
    assert_eq!(finding.message, "item is not re-exported by the crate root \u{2014} use `pub(crate)`");
    assert_eq!(finding.suggestion.as_deref(), Some("consider using: `pub(crate)`"));
    assert_eq!(finding.fix_support, FixSupport::NarrowToPubCrate);
    assert!(maybe_record_narrow_to_pub_crate(Some("helper"), Some("function"), true, false).is_none());
    assert!(maybe_record_narrow_to_pub_crate(Some("helper"), Some("function"), false, true).is_none());
    assert!(maybe_record_narrow_to_pub_crate(None, Some("function"), false, false).is_none());
}

#[test]
fn basic_allowances_come_in_order() {
    let allow = vec!["src/parent/child.rs::Thing".to_string()];
    assert_eq!(
        basic_suspicious_pub_allowance(&allow, Some("src/parent/child.rs"), Some("Thing"), true, true),
        Some(AllowanceReason::Allowlist)
    );
    assert_eq!(
        basic_suspicious_pub_allowance(&allow, Some("src/parent/child.rs"), Some("Other"), true, true),
        Some(AllowanceReason::ParentIsPublic)
    );
    assert_eq!(
        basic_suspicious_pub_allowance(&allow, None, Some("Thing"), false, true),
        Some(AllowanceReason::ReachablePublicApi)
    );
    assert_eq!(basic_suspicious_pub_allowance(&allow, None, None, false, false), None);
}

#[test]
fn parent_facade_usage_settles_the_verdict() {
    let used_outside = status(ParentFacadeUsage::UsedOutsideSubtree, ParentFacadeSpelling::Public, ParentFacadeFixSupport::Supported);
    assert!(matches!(
        assess_parent_facade_usage(Some(&used_outside)),
        Some(SuspiciousPubAssessment::Allowed(AllowanceReason::ParentFacadeUsedOutsideParent))
    ));
    let super_facade = status(ParentFacadeUsage::UsedInsideSubtreeByCratePath, ParentFacadeSpelling::Super, ParentFacadeFixSupport::Supported);
    assert!(matches!(
        assess_parent_facade_usage(Some(&super_facade)),
        Some(SuspiciousPubAssessment::Allowed(AllowanceReason::InternalParentFacadeBoundary))
    ));
    let internal = status(ParentFacadeUsage::UsedInsideSubtreeByRelativePath, ParentFacadeSpelling::Public, ParentFacadeFixSupport::Supported);
    match assess_parent_facade_usage(Some(&internal)) {
        Some(SuspiciousPubAssessment::ReviewInternalParentFacade { related }) => assert_eq!(
            related.as_deref(),
            Some("parent module uses this item as an internal facade at src/parent/mod.rs:7")
        ),
        other => panic!("unexpected assessment {other:?}"),
    }
    let unused = status(ParentFacadeUsage::Unused, ParentFacadeSpelling::Super, ParentFacadeFixSupport::Supported);
    assert!(assess_parent_facade_usage(Some(&unused)).is_none());
    assert!(assess_parent_facade_usage(None).is_none());
}

#[test]
fn a_stale_parent_pub_use_makes_the_warning_fixable() {
    let stale = status(ParentFacadeUsage::Unused, ParentFacadeSpelling::Public, ParentFacadeFixSupport::Supported);
    match classify_suspicious_pub(facts(Some(stale)), &Vec::new()) {
        SuspiciousPubAssessment::Warn { fix_support, related, stale_parent_pub_use } => {
            assert_eq!(fix_support, FixSupport::PubUse);
            assert_eq!(
                related.as_deref(),
                Some("parent module also has an `unused import` warning for this `pub use` at src/parent/mod.rs:7")
            );
            assert_eq!(stale_parent_pub_use.map(|s| s.parent_line), Some(7));
        },
        other => panic!("unexpected assessment {other:?}"),
    }
    let crate_path = status(ParentFacadeUsage::UsedInsideSubtreeByCrateImport, ParentFacadeSpelling::Public, ParentFacadeFixSupport::Unsupported);
    match classify_suspicious_pub(facts(Some(crate_path)), &Vec::new()) {
        SuspiciousPubAssessment::Warn { fix_support, related, .. } => {
            assert_eq!(fix_support, FixSupport::NeedsManualPubUseCleanup);
            assert_eq!(
                related.as_deref(),
                Some("parent `pub use` at src/parent/mod.rs:7 is only used through crate-relative paths inside its own subtree")
            );
        },
        other => panic!("unexpected assessment {other:?}"),
    }
}

#[test]
fn top_level_private_modules_allow_items_without_a_stale_facade() {
    let mut top = facts(None);
    top.module_location = ModuleLocation::TopLevelPrivateModule;
    assert!(matches!(
        classify_suspicious_pub(top, &Vec::new()),
        SuspiciousPubAssessment::Allowed(AllowanceReason::TopLevelPrivateModulePolicy)
    ));
    let mut exposed = facts(None);
    exposed.exposed_by_signature = true;
    assert!(matches!(
        classify_suspicious_pub(exposed, &Vec::new()),
        SuspiciousPubAssessment::Allowed(AllowanceReason::ExposedByOtherCrateVisibleSignature)
    ));
    match classify_suspicious_pub(facts(None), &Vec::new()) {
        SuspiciousPubAssessment::Warn { fix_support, related, stale_parent_pub_use } => {
            assert_eq!(fix_support, FixSupport::NoFix);
            assert!(related.is_none());
            assert!(stale_parent_pub_use.is_none());
        },
        other => panic!("unexpected assessment {other:?}"),
    }
}

#[test]
fn a_fixable_warning_records_the_fix_fact() {
    let stale = status(ParentFacadeUsage::Unused, ParentFacadeSpelling::Public, ParentFacadeFixSupport::Supported);
    let outcome = maybe_record_suspicious_pub(
        Some("struct"),
        CrateKind::Library,
        facts(Some(stale)),
        &Vec::new(),
        "/ws/src/parent/child.rs",
        12,
        Some("child"),
    );
    let finding = outcome.finding.unwrap();
    assert!(matches!(finding.place, FindingPlace::Item));
    assert_eq!(finding.params.diagnostic_code, DiagnosticCode::SuspiciousPub);
    assert_eq!(finding.params.item.as_deref(), Some("struct Thing"));
    assert_eq!(finding.params.message, "struct is not reachable from the crate's public API");
    let fact = outcome.fix_fact.unwrap();
    assert_eq!(fact.child_path, "/ws/src/parent/child.rs");
    assert_eq!(fact.child_line, 12);
    assert_eq!(fact.child_item_name, "Thing");
    assert_eq!(fact.parent_path, "/ws/src/parent/mod.rs");
    assert_eq!(fact.parent_line, 7);
    assert_eq!(fact.child_module, "child");

    let stale = status(ParentFacadeUsage::Unused, ParentFacadeSpelling::Public, ParentFacadeFixSupport::Supported);
    let in_mod_rs = maybe_record_suspicious_pub(Some("struct"), CrateKind::Library, facts(Some(stale)), &Vec::new(), "/ws/src/parent/child/mod.rs", 12, Some("mod"));
    assert!(in_mod_rs.finding.is_some());
    assert!(in_mod_rs.fix_fact.is_none());
}

#[test]
fn an_internal_facade_is_reported_at_the_parent_line() {
    let internal = status(ParentFacadeUsage::UsedInsideSubtreeByRelativeImport, ParentFacadeSpelling::Public, ParentFacadeFixSupport::Supported);
    let outcome = maybe_record_suspicious_pub(Some("fn"), CrateKind::Binary, facts(Some(internal)), &Vec::new(), "/ws/src/parent/child.rs", 3, Some("child"));
    let finding = outcome.finding.unwrap();
    match finding.place {
        FindingPlace::Line { path, line } => {
            assert_eq!(path, "/ws/src/parent/mod.rs");
            assert_eq!(line, 7);
        },
        FindingPlace::Item => panic!("expected the parent line"),
    }
    assert_eq!(finding.params.diagnostic_code, DiagnosticCode::InternalParentPubUseFacade);
    assert_eq!(finding.params.item.as_deref(), Some("pub use Thing"));
    assert_eq!(finding.params.fix_support, FixSupport::InternalParentFacade);
    assert!(outcome.fix_fact.is_none());

    let none = maybe_record_suspicious_pub(None, CrateKind::Binary, facts(None), &Vec::new(), "x.rs", 1, None);
    assert!(none.finding.is_none());
}
