use cargo_mend::caller_aware::apply_caller_aware_suppression;
use cargo_mend::caller_aware::collect_callers;
use cargo_mend::cargo_output::CompilerWarningFacts;
use cargo_mend::constants::FINDINGS_SCHEMA_VERSION;
use cargo_mend::findings::AllFeaturesCoverage;
use cargo_mend::findings::DiagnosticCode;
use cargo_mend::findings::ExactBoundarySpelling;
use cargo_mend::findings::FixSupport;
use cargo_mend::findings::Severity;
use cargo_mend::findings::StoredFinding;
use cargo_mend::findings::StoredReport;
use cargo_mend::findings::UseSite;
use cargo_mend::findings::UseSiteReference;

const CONFIG_FINGERPRINT: &str = "config-fingerprint";

fn stored_finding(diagnostic_code: DiagnosticCode, path: &str, item: &str, line: usize) -> StoredFinding {
    StoredFinding {
        severity: Severity::Warning,
        diagnostic_code,
        path: path.to_string(),
        line,
        column: 1,
        highlight_len: 3,
        source_line: "pub fn item() {}".to_string(),
        item: Some(item.to_string()),
        message: format!("{item} should change visibility"),
        suggestion: Some("use narrower visibility".to_string()),
        fix_support: FixSupport::NoFix,
        related: None,
        visibility_annotation: None,
        item_def_path: None,
        narrower_scope_def_path: None,
        exact_boundary_spelling: ExactBoundarySpelling::CratePath,
    }
}

fn narrowing_finding(
    diagnostic_code: DiagnosticCode,
    item_path: &str,
    narrower_scope: &str,
) -> StoredFinding {
    StoredFinding {
        item_def_path: Some(item_path.to_string()),
        narrower_scope_def_path: Some(narrower_scope.to_string()),
        ..stored_finding(diagnostic_code, "/package/src/lib.rs", "item", 1)
    }
}

fn report_for_test() -> StoredReport {
    StoredReport {
        version:                FINDINGS_SCHEMA_VERSION,
        analysis_fingerprint:   "analysis".to_string(),
        scope_fingerprint:      "scope".to_string(),
        package_root:           "/package".to_string(),
        crate_root_file:        "/package/src/lib.rs".to_string(),
        config_fingerprint:     CONFIG_FINGERPRINT.to_string(),
        source_files:           Vec::new(),
        findings:               Vec::new(),
        visibility_constraints: Vec::new(),
        pub_use_fix_facts:      Vec::new(),
        all_features_coverage:  AllFeaturesCoverage::default(),
        compiler_warning_facts: CompilerWarningFacts::Absent,
        use_sites:              Vec::new(),
    }
}

#[test]
fn caller_aware_suppression_drops_narrowing_outside_scope() {
    let item_path = "crate::module::item";
    let narrower_scope = "crate::module";
    let mut reports = vec![StoredReport {
        findings: vec![narrowing_finding(
            DiagnosticCode::SuspiciousPub,
            item_path,
            narrower_scope,
        )],
        use_sites: vec![UseSite {
            target_def_path:        item_path.to_string(),
            caller_module_def_path: "crate::other".to_string(),
            reference:              UseSiteReference::Named,
        }],
        ..report_for_test()
    }];

    apply_caller_aware_suppression(&mut reports);

    assert!(reports[0].findings.is_empty());
}

#[test]
fn private_import_keeps_the_warning_but_blocks_its_rewrite() {
    let item_path = "crate::module::item";
    let mut finding = narrowing_finding(DiagnosticCode::UnusedPub, item_path, "crate::module");
    finding.fix_support = FixSupport::UnusedPub;
    let mut reports = vec![StoredReport {
        findings: vec![finding],
        use_sites: vec![UseSite {
            target_def_path:        item_path.to_string(),
            caller_module_def_path: "crate::other".to_string(),
            reference:              UseSiteReference::PrivateImport,
        }],
        ..report_for_test()
    }];

    apply_caller_aware_suppression(&mut reports);

    assert_eq!(reports[0].findings.len(), 1);
    assert_eq!(
        reports[0].findings[0].fix_support,
        FixSupport::BlockedByPrivateImport
    );
}

#[test]
fn restricted_import_suppresses_a_direct_narrowing_but_keeps_facade_cleanup() {
    let item_path = "crate::module::item";
    let direct = narrowing_finding(DiagnosticCode::UnusedPub, item_path, "crate::module");
    let mut cleanup =
        narrowing_finding(DiagnosticCode::SuspiciousPub, item_path, "crate::module");
    cleanup.fix_support = FixSupport::PubUse;
    let mut reports = vec![StoredReport {
        findings: vec![direct, cleanup],
        use_sites: vec![UseSite {
            target_def_path:        item_path.to_string(),
            caller_module_def_path: "crate".to_string(),
            reference:              UseSiteReference::RestrictedImport,
        }],
        ..report_for_test()
    }];

    apply_caller_aware_suppression(&mut reports);

    assert_eq!(reports[0].findings.len(), 1);
    assert_eq!(reports[0].findings[0].fix_support, FixSupport::PubUse);
}

#[test]
fn callers_inside_the_scope_keep_the_narrowing_and_are_gathered_per_package() {
    let item_path = "crate::module::item";
    let mut reports = vec![
        StoredReport {
            findings: vec![narrowing_finding(DiagnosticCode::UnusedPub, item_path, "crate::module")],
            use_sites: vec![UseSite {
                target_def_path:        item_path.to_string(),
                caller_module_def_path: "crate::module::inner".to_string(),
                reference:              UseSiteReference::ThroughSignature,
            }],
            ..report_for_test()
        },
        StoredReport {
            package_root: "/elsewhere".to_string(),
            use_sites: vec![UseSite {
                target_def_path:        item_path.to_string(),
                caller_module_def_path: "crate::other".to_string(),
                reference:              UseSiteReference::Named,
            }],
            ..report_for_test()
        },
    ];

    let callers = apply_caller_aware_suppression(&mut reports);

    assert_eq!(reports[0].findings.len(), 1);
    let here = callers.callers_for_package("/package", item_path);
    assert!(here.is_some());
    let here = here.map(|c| (c.reaching().clone(), c.naming().clone(), c.semantic_reaching().clone()));
    assert_eq!(
        here,
        Some((vec!["crate::module::inner".to_string()], Vec::new(), vec!["crate::module::inner".to_string()]))
    );
    let there = callers.callers_for_package("/elsewhere", item_path).map(|c| c.naming().clone());
    assert_eq!(there, Some(vec!["crate::other".to_string()]));
    assert!(callers.callers_for_package("/package", "crate::missing").is_none());
}

#[test]
fn pub_crate_findings_are_never_dropped_by_callers() {
    let item_path = "crate::module::item";
    let mut reports = vec![StoredReport {
        findings: vec![narrowing_finding(DiagnosticCode::OverbroadPubCrate, item_path, "crate::module")],
        use_sites: vec![UseSite {
            target_def_path:        item_path.to_string(),
            caller_module_def_path: "crate::other".to_string(),
            reference:              UseSiteReference::Named,
        }],
        ..report_for_test()
    }];

    apply_caller_aware_suppression(&mut reports);

    assert_eq!(reports[0].findings.len(), 1);
    assert_eq!(reports[0].findings[0].related, None);
}

#[test]
fn gathered_caller_sets_nest() {
    let site = |caller: &str, reference: UseSiteReference| UseSite {
        target_def_path:        "crate::a::item".to_string(),
        caller_module_def_path: caller.to_string(),
        reference,
    };
    let first = StoredReport {
        use_sites: vec![
            site("crate::named", UseSiteReference::Named),
            site("crate::private", UseSiteReference::PrivateImport),
            site("crate::restricted", UseSiteReference::RestrictedImport),
        ],
        ..report_for_test()
    };
    let second = StoredReport {
        use_sites: vec![site("crate::signature", UseSiteReference::ThroughSignature)],
        ..report_for_test()
    };
    let callers = collect_callers(&vec![first, second]);
    let item = callers.callers_for_package("/package", "crate::a::item").unwrap();
    let strings = |v: &[&str]| v.iter().map(|s| s.to_string()).collect::<Vec<String>>();
    assert_eq!(item.reaching(), &strings(&["crate::named", "crate::private", "crate::restricted", "crate::signature"]));
    assert_eq!(item.naming(), &strings(&["crate::named", "crate::private", "crate::restricted"]));
    assert_eq!(item.semantic_reaching(), &strings(&["crate::named", "crate::signature"]));
    assert_eq!(item.private_imports(), &strings(&["crate::private"]));
    assert_eq!(item.restricted_imports(), &strings(&["crate::restricted"]));
    assert!(callers.callers_for_package("/other", "crate::a::item").is_none());
}
