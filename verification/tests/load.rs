use cargo_mend::cargo_output::CompilerWarningFacts;
use cargo_mend::constants::FINDINGS_SCHEMA_VERSION;
use cargo_mend::findings::AllFeaturesCoverage;
use cargo_mend::findings::StoredReport;
use cargo_mend::load::is_findings_file;
use cargo_mend::load::select_stored_reports;
use cargo_mend::findings::DiagnosticCode;
use cargo_mend::findings::ExactBoundarySpelling;
use cargo_mend::findings::FixSupport;
use cargo_mend::findings::Severity;
use cargo_mend::findings::StoredFinding;
use cargo_mend::findings::StoredPubUseFixFact;
use cargo_mend::findings::render_item;
use cargo_mend::load::FindingsEntry;
use cargo_mend::load::LoadedFindings;
use cargo_mend::load::assemble_loaded_findings;
use cargo_mend::load::relativize_path;
use cargo_mend::load::relativized;

const CONFIG: &str = "config-fingerprint";
const ANALYSIS: &str = "0.1.0+nogit+nobuild";

fn report(package_root: &str, coverage: AllFeaturesCoverage) -> StoredReport {
    StoredReport {
        version:                FINDINGS_SCHEMA_VERSION,
        analysis_fingerprint:   ANALYSIS.to_string(),
        scope_fingerprint:      "scope".to_string(),
        package_root:           package_root.to_string(),
        crate_root_file:        format!("{package_root}/src/lib.rs"),
        config_fingerprint:     CONFIG.to_string(),
        source_files:           Vec::new(),
        findings:               Vec::new(),
        visibility_constraints: Vec::new(),
        pub_use_fix_facts:      Vec::new(),
        all_features_coverage:  coverage,
        compiler_warning_facts: CompilerWarningFacts::Absent,
        use_sites:              Vec::new(),
    }
}

fn stored(report: StoredReport) -> FindingsEntry {
    FindingsEntry::Stored { report, root_selected_canonically: false, crate_root_exists: true }
}

fn roots(items: &[&str]) -> Vec<String> {
    items.iter().map(|s| s.to_string()).collect()
}

#[test]
fn only_json_files_are_findings_files() {
    assert!(is_findings_file(Some("json")));
    assert!(!is_findings_file(Some("JSON")));
    assert!(!is_findings_file(Some("tmp")));
    assert!(!is_findings_file(None));
}

#[test]
fn an_unreadable_entry_keeps_the_reports_but_not_the_coverage() {
    let entries = vec![FindingsEntry::Unreadable, stored(report("/pkg", AllFeaturesCoverage::Superset))];
    let (reports, coverage) = select_stored_reports(entries, &roots(&["/pkg"]), CONFIG, ANALYSIS);
    assert_eq!(reports.len(), 1);
    assert_eq!(coverage, AllFeaturesCoverage::NotGuaranteed);
}

#[test]
fn superset_reports_of_the_selection_keep_the_coverage() {
    let entries = vec![
        FindingsEntry::Other,
        stored(report("/pkg", AllFeaturesCoverage::Superset)),
        stored(report("/other", AllFeaturesCoverage::NotGuaranteed)),
    ];
    let (reports, coverage) = select_stored_reports(entries, &roots(&["/pkg"]), CONFIG, ANALYSIS);
    assert_eq!(reports.len(), 1);
    assert_eq!(reports[0].package_root, "/pkg");
    assert_eq!(coverage, AllFeaturesCoverage::Superset);
}

#[test]
fn reports_of_another_schema_build_or_configuration_are_rejected() {
    let mut wrong_schema = report("/pkg", AllFeaturesCoverage::Superset);
    wrong_schema.version = FINDINGS_SCHEMA_VERSION - 1;
    let mut wrong_analysis = report("/pkg", AllFeaturesCoverage::Superset);
    wrong_analysis.analysis_fingerprint = "old-analysis".to_string();
    let mut wrong_config = report("/pkg", AllFeaturesCoverage::Superset);
    wrong_config.config_fingerprint = "old-config".to_string();
    let entries = vec![stored(wrong_schema), stored(wrong_analysis), stored(wrong_config)];
    let (reports, coverage) = select_stored_reports(entries, &roots(&["/pkg"]), CONFIG, ANALYSIS);
    assert!(reports.is_empty());
    assert_eq!(coverage, AllFeaturesCoverage::NotGuaranteed);
}

#[test]
fn a_missing_crate_root_rejects_the_report_unless_none_is_named() {
    let missing = FindingsEntry::Stored {
        report: report("/pkg", AllFeaturesCoverage::Superset),
        root_selected_canonically: false,
        crate_root_exists: false,
    };
    let (reports, _) = select_stored_reports(vec![missing], &roots(&["/pkg"]), CONFIG, ANALYSIS);
    assert!(reports.is_empty());

    let mut legacy = report("", AllFeaturesCoverage::Superset);
    legacy.crate_root_file.clear();
    let unnamed = FindingsEntry::Stored { report: legacy, root_selected_canonically: false, crate_root_exists: false };
    let (reports, coverage) = select_stored_reports(vec![unnamed], &roots(&["/pkg"]), CONFIG, ANALYSIS);
    assert_eq!(reports.len(), 1);
    assert_eq!(coverage, AllFeaturesCoverage::Superset);
}

#[test]
fn an_empty_package_root_matches_only_a_single_selection() {
    let mut legacy = report("", AllFeaturesCoverage::Superset);
    legacy.crate_root_file.clear();
    let (reports, coverage) =
        select_stored_reports(vec![stored(legacy)], &roots(&["/a", "/b"]), CONFIG, ANALYSIS);
    assert!(reports.is_empty());
    assert_eq!(coverage, AllFeaturesCoverage::NotGuaranteed);
}

#[test]
fn a_canonically_selected_root_is_accepted() {
    let entry = FindingsEntry::Stored {
        report: report("/pkg/src/..", AllFeaturesCoverage::NotGuaranteed),
        root_selected_canonically: true,
        crate_root_exists: true,
    };
    let (reports, coverage) = select_stored_reports(vec![entry], &roots(&["/pkg"]), CONFIG, ANALYSIS);
    assert_eq!(reports.len(), 1);
    assert_eq!(coverage, AllFeaturesCoverage::NotGuaranteed);
}

// Reports read back through selection and assembly, for a fixture package
// at `/fixture/package` whose crate root is `/fixture/package/src/lib.rs`.

const PACKAGE_ROOT: &str = "/fixture/package";
const CRATE_ROOT: &str = "/fixture/package/src/lib.rs";
const CONFIG_FINGERPRINT: &str = "config-fingerprint";

fn fixture_finding(diagnostic_code: DiagnosticCode, item: &str, line: usize) -> StoredFinding {
    StoredFinding {
        severity: Severity::Warning,
        diagnostic_code,
        path: CRATE_ROOT.to_string(),
        line,
        column: 1,
        highlight_len: 3,
        source_line: "pub fn item() {}".to_string(),
        item: Some(item.to_string()),
        message: format!("{item} should change visibility"),
        suggestion: Some("use narrower visibility".to_string()),
        fix_support: FixSupport::NoFix,
        related: None,
        visibility_annotation: None,
        item_def_path: None,
        narrower_scope_def_path: None,
        exact_boundary_spelling: ExactBoundarySpelling::CratePath,
    }
}

fn fixture_report(findings: Vec<StoredFinding>) -> StoredReport {
    StoredReport {
        version:                FINDINGS_SCHEMA_VERSION,
        analysis_fingerprint:   ANALYSIS.to_string(),
        scope_fingerprint:      "scope".to_string(),
        package_root:           PACKAGE_ROOT.to_string(),
        crate_root_file:        CRATE_ROOT.to_string(),
        config_fingerprint:     CONFIG_FINGERPRINT.to_string(),
        source_files:           Vec::new(),
        findings,
        visibility_constraints: Vec::new(),
        pub_use_fix_facts:      Vec::new(),
        all_features_coverage:  AllFeaturesCoverage::default(),
        compiler_warning_facts: CompilerWarningFacts::Absent,
        use_sites:              Vec::new(),
    }
}

fn child_fact() -> StoredPubUseFixFact {
    StoredPubUseFixFact {
        child_path:      CRATE_ROOT.to_string(),
        child_line:      2,
        child_item_name: "Child".to_string(),
        parent_path:     CRATE_ROOT.to_string(),
        parent_line:     3,
        child_module:    "child".to_string(),
    }
}

fn load(entries: Vec<FindingsEntry>, selected_roots: &[&str]) -> (LoadedFindings, AllFeaturesCoverage) {
    let (reports, coverage) =
        select_stored_reports(entries, &roots(selected_roots), CONFIG_FINGERPRINT, ANALYSIS);
    (assemble_loaded_findings(reports, PACKAGE_ROOT), coverage)
}

#[test]
fn malformed_json_prevents_all_features_coverage() {
    let mut report = fixture_report(vec![fixture_finding(DiagnosticCode::ForbiddenPubCrate, "item", 1)]);
    report.all_features_coverage = AllFeaturesCoverage::Superset;

    let (loaded, coverage) = load(vec![FindingsEntry::Unreadable, stored(report)], &[PACKAGE_ROOT]);

    assert_eq!(loaded.findings.len(), 1);
    assert_eq!(coverage, AllFeaturesCoverage::NotGuaranteed);
}

#[test]
fn wrong_schema_or_fingerprint_reports_are_rejected() {
    let mut wrong_schema = fixture_report(vec![fixture_finding(DiagnosticCode::ForbiddenPubCrate, "item", 1)]);
    wrong_schema.pub_use_fix_facts.push(child_fact());
    wrong_schema.version = FINDINGS_SCHEMA_VERSION - 1;
    let mut wrong_analysis = fixture_report(vec![fixture_finding(DiagnosticCode::ForbiddenPubCrate, "item", 1)]);
    wrong_analysis.analysis_fingerprint = "old-analysis".to_string();
    let mut wrong_config = fixture_report(vec![fixture_finding(DiagnosticCode::ForbiddenPubCrate, "item", 1)]);
    wrong_config.config_fingerprint = "old-config".to_string();

    let (loaded, _) =
        load(vec![stored(wrong_schema), stored(wrong_analysis), stored(wrong_config)], &[PACKAGE_ROOT]);

    assert!(loaded.findings.is_empty());
    assert!(loaded.pub_use_fix_facts.is_empty());
}

#[test]
fn missing_crate_root_report_is_rejected() {
    let mut report = fixture_report(vec![fixture_finding(DiagnosticCode::ForbiddenPubCrate, "item", 1)]);
    report.crate_root_file = "src/missing.rs".to_string();
    let entry = FindingsEntry::Stored { report, root_selected_canonically: false, crate_root_exists: false };

    let (loaded, _) = load(vec![entry], &[PACKAGE_ROOT]);

    assert!(loaded.findings.is_empty());
}

#[test]
fn canonical_selected_roots_are_accepted() {
    let report = fixture_report(vec![fixture_finding(DiagnosticCode::ForbiddenPubCrate, "item", 1)]);
    let entry = FindingsEntry::Stored { report, root_selected_canonically: true, crate_root_exists: true };

    let (loaded, _) = load(vec![entry], &["/fixture/package/src/.."]);

    assert_eq!(loaded.findings.len(), 1);
}

#[test]
fn empty_package_root_compatibility_is_retained() {
    let mut report = fixture_report(vec![fixture_finding(DiagnosticCode::ForbiddenPubCrate, "item", 1)]);
    report.package_root.clear();
    report.crate_root_file.clear();

    let (loaded, _) = load(vec![stored(report)], &[PACKAGE_ROOT]);

    assert_eq!(loaded.findings.len(), 1);
}

#[test]
fn suppressed_finding_leaves_no_applicable_pub_use_fix_fact() {
    let mut suspicious = fixture_finding(DiagnosticCode::SuspiciousPub, "Child", 2);
    suspicious.item = Some(render_item("struct", "Child"));
    suspicious.fix_support = FixSupport::PubUse;
    let unused = fixture_finding(DiagnosticCode::UnusedPub, "Child", 2);
    let mut report = fixture_report(vec![suspicious, unused]);
    report.pub_use_fix_facts.push(child_fact());

    let (loaded, _) = load(vec![stored(report)], &[PACKAGE_ROOT]);

    assert_eq!(loaded.findings.len(), 1);
    assert_eq!(loaded.findings[0].diagnostic_code, DiagnosticCode::UnusedPub);
    assert!(
        loaded.pub_use_fix_facts.is_empty(),
        "a suppressed finding must not leave its pub-use fix fact behind"
    );
}

#[test]
fn surviving_finding_keeps_its_pub_use_fix_fact() {
    let mut suspicious = fixture_finding(DiagnosticCode::SuspiciousPub, "Child", 2);
    suspicious.item = Some(render_item("struct", "Child"));
    suspicious.fix_support = FixSupport::PubUse;
    let mut report = fixture_report(vec![suspicious]);
    report.pub_use_fix_facts.push(child_fact());

    let (loaded, _) = load(vec![stored(report)], &[PACKAGE_ROOT]);

    assert_eq!(loaded.findings.len(), 1);
    assert_eq!(loaded.pub_use_fix_facts.len(), 1);
    assert_eq!(loaded.findings[0].path, "src/lib.rs");
    assert_eq!(loaded.pub_use_fix_facts[0].child_path, "src/lib.rs");
}

#[test]
fn paths_outside_the_analysis_root_are_shown_unchanged() {
    assert_eq!(relativize_path("/fixture/package/src/lib.rs", "/fixture/package"), "src/lib.rs");
    assert_eq!(relativize_path("/elsewhere/lib.rs", "/fixture/package"), "/elsewhere/lib.rs");
    assert_eq!(relativize_path("/fixture/packages/lib.rs", "/fixture/package"), "/fixture/packages/lib.rs");
    assert_eq!(relativized(Some(String::from("a\\b\\c.rs")), "ignored"), "a/b/c.rs");
    assert_eq!(relativized(None, "/kept.rs"), "/kept.rs");
}
