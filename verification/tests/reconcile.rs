use cargo_mend::cargo_output::CompilerWarningFacts;
use cargo_mend::constants::FINDINGS_SCHEMA_VERSION;
use cargo_mend::findings::AllFeaturesCoverage;
use cargo_mend::findings::DiagnosticCode;
use cargo_mend::findings::ExactBoundarySpelling;
use cargo_mend::findings::FixSupport;
use cargo_mend::findings::Severity;
use cargo_mend::findings::StoredFinding;
use cargo_mend::findings::StoredPubUseFixFact;
use cargo_mend::findings::StoredReport;
use cargo_mend::ordering::retain_one_restricted_annotation_fix_per_site;
use cargo_mend::ordering::sort_and_dedup_findings;
use cargo_mend::ordering::sort_and_dedup_pub_use_fix_facts;
use cargo_mend::reconcile::apply_cross_compilation_intersection;
use cargo_mend::reconcile::apply_visibility_narrowing_priority;
use cargo_mend::reconcile::discard_fix_facts_for_suppressed_findings;

const CONFIG_FINGERPRINT: &str = "config-fingerprint";

fn stored_finding(diagnostic_code: DiagnosticCode, path: &str, item: &str, line: usize) -> StoredFinding {
    StoredFinding {
        severity: Severity::Warning,
        diagnostic_code,
        path: path.to_string(),
        line,
        column: 1,
        highlight_len: 3,
        source_line: "pub fn item() {}".to_string(),
        item: Some(item.to_string()),
        message: format!("{item} should change visibility"),
        suggestion: Some("use narrower visibility".to_string()),
        fix_support: FixSupport::NoFix,
        related: None,
        visibility_annotation: None,
        item_def_path: None,
        narrower_scope_def_path: None,
        exact_boundary_spelling: ExactBoundarySpelling::CratePath,
    }
}

fn narrowing_finding(
    diagnostic_code: DiagnosticCode,
    item_path: &str,
    narrower_scope: &str,
) -> StoredFinding {
    StoredFinding {
        item_def_path: Some(item_path.to_string()),
        narrower_scope_def_path: Some(narrower_scope.to_string()),
        ..stored_finding(diagnostic_code, "/package/src/lib.rs", "item", 1)
    }
}

fn report_for_test() -> StoredReport {
    StoredReport {
        version:                FINDINGS_SCHEMA_VERSION,
        analysis_fingerprint:   "analysis".to_string(),
        scope_fingerprint:      "scope".to_string(),
        package_root:           "/package".to_string(),
        crate_root_file:        "/package/src/lib.rs".to_string(),
        config_fingerprint:     CONFIG_FINGERPRINT.to_string(),
        source_files:           Vec::new(),
        findings:               Vec::new(),
        visibility_constraints: Vec::new(),
        pub_use_fix_facts:      Vec::new(),
        all_features_coverage:  AllFeaturesCoverage::default(),
        compiler_warning_facts: CompilerWarningFacts::Absent,
        use_sites:              Vec::new(),
    }
}

fn fact(path: &str, line: usize, name: &str) -> StoredPubUseFixFact {
    StoredPubUseFixFact {
        child_path:      path.to_string(),
        child_line:      line,
        child_item_name: name.to_string(),
        parent_path:     "/package/src/lib.rs".to_string(),
        parent_line:     1,
        child_module:    "child".to_string(),
    }
}

#[test]
fn cross_compilation_intersection_requires_all_sibling_reports() {
    let item_path = "crate::module::item";
    let narrower_scope = "crate::module";
    let mut first = StoredReport {
        findings: vec![narrowing_finding(
            DiagnosticCode::SuspiciousPub,
            item_path,
            narrower_scope,
        )],
        crate_root_file: "src/lib.rs".to_string(),
        ..report_for_test()
    };
    let second = StoredReport {
        findings: Vec::new(),
        crate_root_file: "src/lib.rs".to_string(),
        ..report_for_test()
    };
    let mut reports = vec![first, second];

    apply_cross_compilation_intersection(&mut reports);
    first = reports.remove(0);

    assert!(first.findings.is_empty());
}

#[test]
fn intersection_keeps_agreed_findings_and_lone_targets() {
    let agreed = stored_finding(DiagnosticCode::SuspiciousPub, "/package/src/lib.rs", "item", 4);
    let mut reports = vec![
        StoredReport { findings: vec![agreed.clone(), stored_finding(DiagnosticCode::UnusedPub, "/package/src/lib.rs", "other", 9)], ..report_for_test() },
        StoredReport { findings: vec![agreed.clone()], ..report_for_test() },
        StoredReport {
            crate_root_file: "/package/src/main.rs".to_string(),
            findings: vec![stored_finding(DiagnosticCode::SuspiciousPub, "/package/src/main.rs", "lone", 2)],
            ..report_for_test()
        },
    ];

    apply_cross_compilation_intersection(&mut reports);

    assert_eq!(reports[0].findings.len(), 2);
    assert_eq!(reports[1].findings.len(), 1);
    assert_eq!(reports[2].findings.len(), 1);
}

#[test]
fn visibility_priority_prefers_unused_pub_for_same_item() {
    let mut reports = vec![StoredReport {
        findings: vec![
            stored_finding(DiagnosticCode::UnusedPub, "/package/src/lib.rs", "item", 7),
            stored_finding(DiagnosticCode::NarrowToPubCrate, "/package/src/lib.rs", "item", 7),
        ],
        ..report_for_test()
    }];

    apply_visibility_narrowing_priority(&mut reports);

    assert_eq!(reports[0].findings.len(), 1);
    assert_eq!(
        reports[0].findings[0].diagnostic_code,
        DiagnosticCode::UnusedPub
    );
}

#[test]
fn unused_pub_in_another_report_also_takes_priority() {
    let mut reports = vec![
        StoredReport {
            findings: vec![stored_finding(DiagnosticCode::SuspiciousPub, "/package/src/lib.rs", "item", 7)],
            ..report_for_test()
        },
        StoredReport {
            findings: vec![stored_finding(DiagnosticCode::UnusedPub, "/package/src/lib.rs", "item", 7)],
            ..report_for_test()
        },
    ];

    apply_visibility_narrowing_priority(&mut reports);

    assert!(reports[0].findings.is_empty());
    assert_eq!(reports[1].findings.len(), 1);
}

#[test]
fn fix_fact_without_a_surviving_finding_is_discarded() {
    let mut reports = vec![StoredReport {
        findings: Vec::new(),
        pub_use_fix_facts: vec![fact("/package/src/child.rs", 3, "Item")],
        ..report_for_test()
    }];

    discard_fix_facts_for_suppressed_findings(&mut reports);

    assert!(reports[0].pub_use_fix_facts.is_empty());
}

#[test]
fn fix_fact_with_a_surviving_finding_is_kept() {
    let mut finding = stored_finding(DiagnosticCode::SuspiciousPub, "/package/src/child.rs", "struct Item", 3);
    finding.fix_support = FixSupport::PubUse;
    let mut reports = vec![StoredReport {
        findings: vec![finding],
        pub_use_fix_facts: vec![fact("/package/src/child.rs", 3, "Item"), fact("/package/src/child.rs", 4, "Item")],
        ..report_for_test()
    }];

    discard_fix_facts_for_suppressed_findings(&mut reports);

    assert_eq!(reports[0].pub_use_fix_facts.len(), 1);
    assert_eq!(reports[0].pub_use_fix_facts[0].child_line, 3);
}

#[test]
fn findings_are_sorted_and_deduplicated_keeping_the_first() {
    let mut first = stored_finding(DiagnosticCode::UnusedPub, "/b.rs", "item", 2);
    first.suggestion = Some("first".to_string());
    let mut repeat = first.clone();
    repeat.suggestion = Some("second".to_string());
    let mut error = stored_finding(DiagnosticCode::UnusedPub, "/z.rs", "item", 9);
    error.severity = Severity::Error;
    let earlier = stored_finding(DiagnosticCode::UnusedPub, "/a.rs", "item", 5);
    let mut findings = vec![first, earlier, repeat, error];

    sort_and_dedup_findings(&mut findings);

    let order: Vec<(String, usize)> = findings.iter().map(|f| (f.path.clone(), f.line)).collect();
    assert_eq!(
        order,
        vec![("/z.rs".to_string(), 9), ("/a.rs".to_string(), 5), ("/b.rs".to_string(), 2)]
    );
    assert_eq!(findings[2].suggestion.as_deref(), Some("first"));
}

#[test]
fn one_restricted_annotation_fix_per_site() {
    let mut a = stored_finding(DiagnosticCode::SuspiciousPub, "/a.rs", "item", 1);
    a.fix_support = FixSupport::RestrictedAnnotation;
    let mut b = a.clone();
    b.message = "other wording".to_string();
    let mut c = stored_finding(DiagnosticCode::SuspiciousPub, "/a.rs", "item", 2);
    c.fix_support = FixSupport::RestrictedAnnotation;
    let mut findings = vec![a, b, c];

    retain_one_restricted_annotation_fix_per_site(&mut findings);

    let fixes: Vec<FixSupport> = findings.iter().map(|f| f.fix_support).collect();
    assert_eq!(
        fixes,
        vec![FixSupport::RestrictedAnnotation, FixSupport::NoFix, FixSupport::RestrictedAnnotation]
    );
}

#[test]
fn one_restricted_annotation_fix_per_site_across_severities() {
    let mut a_error = stored_finding(DiagnosticCode::SuspiciousPub, "/a.rs", "item", 1);
    a_error.severity = Severity::Error;
    a_error.fix_support = FixSupport::RestrictedAnnotation;
    let mut b_error = stored_finding(DiagnosticCode::SuspiciousPub, "/b.rs", "item", 1);
    b_error.severity = Severity::Error;
    let mut a_warning = stored_finding(DiagnosticCode::SuspiciousPub, "/a.rs", "item", 1);
    a_warning.fix_support = FixSupport::RestrictedAnnotation;
    let mut findings = vec![a_error, b_error, a_warning];

    sort_and_dedup_findings(&mut findings);

    let fixes: Vec<(String, FixSupport)> = findings.iter().map(|f| (f.path.clone(), f.fix_support)).collect();
    assert_eq!(
        fixes,
        vec![
            ("/a.rs".to_string(), FixSupport::RestrictedAnnotation),
            ("/b.rs".to_string(), FixSupport::NoFix),
            ("/a.rs".to_string(), FixSupport::NoFix),
        ]
    );
}

#[test]
fn fix_facts_are_sorted_and_deduplicated() {
    let mut facts = vec![
        fact("/b.rs", 1, "B"),
        fact("/a.rs", 2, "A"),
        fact("/b.rs", 1, "B"),
    ];

    sort_and_dedup_pub_use_fix_facts(&mut facts);

    let paths: Vec<&str> = facts.iter().map(|f| f.child_path.as_str()).collect();
    assert_eq!(paths, vec!["/a.rs", "/b.rs"]);
}
