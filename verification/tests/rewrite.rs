use cargo_mend::constraint::StoredCallerReconciliation;
use cargo_mend::constraint::StoredConstraintOutcome;
use cargo_mend::constraint::StoredExactBoundaryAcceptance;
use cargo_mend::constraint::StoredExactPathPolicy;
use cargo_mend::constraint::StoredFacadeConstraint;
use cargo_mend::constraint::StoredVisibilityConstraint;
use cargo_mend::constraint::StoredVisibilityDeclaration;
use cargo_mend::constraint::StoredVisibilitySource;
use cargo_mend::constraint::StoredVisibilitySpelling;
use cargo_mend::constraint_set::VisibilityConstraintSet;
use cargo_mend::findings::DiagnosticCode;
use cargo_mend::findings::ExactBoundarySpelling;
use cargo_mend::findings::FixSupport;
use cargo_mend::findings::Severity;
use cargo_mend::findings::StoredFinding;
use cargo_mend::reach::StoredVisibilityReach;
use cargo_mend::rewrite::candidate_priority;
use cargo_mend::rewrite::compiler_boundary_path;
use cargo_mend::rewrite::replacement_changes_reach;
use cargo_mend::rewrite::replacement_only_widens;
use cargo_mend::rewrite::replacement_spelling;
use cargo_mend::rewrite::rewrite_fix_support;
use cargo_mend::rewrite::rewrite_scope;
use cargo_mend::rewrite::rewrite_suggestion;
use cargo_mend::rewrite::CandidatePriority;
use cargo_mend::rewrite::VisibilityConstraintKey;

fn restricted(boundary: &str) -> StoredVisibilityReach {
    StoredVisibilityReach::Restricted { boundary: boundary.to_string() }
}

fn constraint(
    facade: StoredFacadeConstraint,
    signature_requirement: Option<StoredVisibilityReach>,
) -> StoredVisibilityConstraint {
    StoredVisibilityConstraint {
        diagnostic_code: DiagnosticCode::ForbiddenPubInCrate,
        source: StoredVisibilitySource { path: String::from("/package/src/lib.rs"), line: 1, column: 1 },
        declaration: StoredVisibilityDeclaration {
            item_def_path:        String::from("crate::a::b::item"),
            item_module_def_path: String::from("crate::a::b"),
        },
        visibility_annotation: String::from("pub(in crate::a)"),
        declared_reach: restricted("crate::a"),
        spelling: StoredVisibilitySpelling::ExactPath,
        signature_requirement,
        facade,
        exact_boundary_acceptance: StoredExactBoundaryAcceptance::Eligible,
        annotation_edit_acceptance: StoredExactBoundaryAcceptance::Eligible,
        exact_path_policy: StoredExactPathPolicy::Allowed,
        caller_reconciliation: StoredCallerReconciliation::CallerAware,
        outcome: StoredConstraintOutcome::Finding,
    }
}

fn finding() -> StoredFinding {
    StoredFinding {
        severity:                Severity::Error,
        diagnostic_code:         DiagnosticCode::ForbiddenPubInCrate,
        path:                    String::from("/package/src/lib.rs"),
        line:                    1,
        column:                  1,
        highlight_len:           3,
        source_line:             String::from("pub(in crate::a) fn item() {}"),
        item:                    None,
        message:                 String::from("message"),
        suggestion:              Some(String::from("suggestion")),
        fix_support:             FixSupport::NoFix,
        related:                 None,
        visibility_annotation:   None,
        item_def_path:           None,
        narrower_scope_def_path: None,
        exact_boundary_spelling: ExactBoundarySpelling::CratePath,
    }
}

#[test]
fn suggestions_name_the_replacement() {
    assert_eq!(rewrite_suggestion(ExactBoundarySpelling::CratePath, "crate::a"), "consider using: `pub(in crate::a)`");
    assert_eq!(rewrite_suggestion(ExactBoundarySpelling::Parent, "crate::a"), "consider using: `pub(super)`");
    assert_eq!(rewrite_suggestion(ExactBoundarySpelling::Crate, "crate"), "consider using: `pub(crate)`");
    assert_eq!(rewrite_suggestion(ExactBoundarySpelling::Private, "private"), "consider removing the visibility");
    assert_eq!(rewrite_suggestion(ExactBoundarySpelling::Public, "crate-external"), "consider using: `pub`");
    assert_eq!(replacement_spelling(ExactBoundarySpelling::CratePath, "crate::a"), "`pub(in crate::a)`");
    assert_eq!(replacement_spelling(ExactBoundarySpelling::Private, "private"), "private");
}

#[test]
fn respelling_the_same_boundary_does_not_change_reach() {
    let declared = restricted("crate::a");
    assert!(!replacement_changes_reach(ExactBoundarySpelling::Parent, &declared, "crate::a"));
    assert!(!replacement_changes_reach(ExactBoundarySpelling::CratePath, &declared, "crate::a"));
    assert!(replacement_changes_reach(ExactBoundarySpelling::CratePath, &declared, "crate::b"));
    assert!(replacement_changes_reach(ExactBoundarySpelling::Crate, &declared, "crate"));
    assert!(replacement_changes_reach(ExactBoundarySpelling::Private, &declared, "private"));
    assert!(!replacement_changes_reach(ExactBoundarySpelling::Crate, &StoredVisibilityReach::Crate, "crate"));
    assert!(!replacement_changes_reach(ExactBoundarySpelling::Public, &StoredVisibilityReach::Public, "crate-external"));
}

#[test]
fn widening_and_fixability_follow_the_written_annotation() {
    assert!(replacement_only_widens(ExactBoundarySpelling::Public, "pub(crate)"));
    assert!(!replacement_only_widens(ExactBoundarySpelling::Public, "pub"));
    assert!(replacement_only_widens(ExactBoundarySpelling::Crate, "pub(in crate::a)"));
    assert!(!replacement_only_widens(ExactBoundarySpelling::Crate, "pub"));
    assert!(!replacement_only_widens(ExactBoundarySpelling::CratePath, "pub(in crate::a::b)"));

    assert_eq!(rewrite_fix_support(ExactBoundarySpelling::CratePath, Some("pub")), FixSupport::RestrictedAnnotation);
    assert_eq!(rewrite_fix_support(ExactBoundarySpelling::CratePath, Some("pub(in crate::a::b)")), FixSupport::NoFix);
    assert_eq!(rewrite_fix_support(ExactBoundarySpelling::Private, Some("pub(in crate::a::b)")), FixSupport::RestrictedAnnotation);
    assert_eq!(rewrite_fix_support(ExactBoundarySpelling::Crate, Some("pub(in crate::a::b)")), FixSupport::RestrictedAnnotation);
    assert_eq!(rewrite_fix_support(ExactBoundarySpelling::Parent, None), FixSupport::NoFix);
}

#[test]
fn recorded_scopes_drop_the_crate_prefix() {
    assert_eq!(rewrite_scope(ExactBoundarySpelling::CratePath, "crate::a"), "a");
    assert_eq!(rewrite_scope(ExactBoundarySpelling::Parent, "crate::a::b"), "a::b");
    assert_eq!(rewrite_scope(ExactBoundarySpelling::CratePath, "a"), "a");
    assert_eq!(rewrite_scope(ExactBoundarySpelling::Crate, "crate"), "crate");
    assert_eq!(rewrite_scope(ExactBoundarySpelling::Public, "crate-external"), "crate");
    assert_eq!(rewrite_scope(ExactBoundarySpelling::Private, "private"), "private");
}

#[test]
fn compiler_boundaries_follow_the_item_module_form() {
    assert_eq!(compiler_boundary_path("crate::a", "crate::a::b"), "crate::a");
    assert_eq!(compiler_boundary_path("crate::a", "a::b"), "a");
    assert_eq!(compiler_boundary_path("a", "a::b"), "a");
}

#[test]
fn candidates_with_signatures_come_first() {
    assert_eq!(
        candidate_priority(&constraint(StoredFacadeConstraint::Blocked, Some(StoredVisibilityReach::Crate))),
        CandidatePriority::Signature
    );
    assert_eq!(
        candidate_priority(&constraint(StoredFacadeConstraint::Resolved { required: restricted("crate::a") }, None)),
        CandidatePriority::ResolvedFacade
    );
    assert_eq!(candidate_priority(&constraint(StoredFacadeConstraint::Absent, None)), CandidatePriority::Other);
}

#[test]
fn a_finding_carries_its_constraint_key() {
    let c = constraint(StoredFacadeConstraint::Absent, None);
    let f = finding();
    assert_eq!(VisibilityConstraintKey::new("/package", &c), VisibilityConstraintKey::for_finding("/package", &f));
    let mut moved = finding();
    moved.column = 2;
    assert_ne!(VisibilityConstraintKey::new("/package", &c), VisibilityConstraintKey::for_finding("/package", &moved));
    assert_ne!(VisibilityConstraintKey::new("/other", &c), VisibilityConstraintKey::for_finding("/package", &f));
}

#[test]
fn exact_paths_need_the_project_policy() {
    let mut c = constraint(StoredFacadeConstraint::Absent, None);
    c.exact_path_policy = StoredExactPathPolicy::Forbidden;
    let set = VisibilityConstraintSet::from_constraint(c);
    assert!(!set.supports_rewrite(ExactBoundarySpelling::CratePath));
    assert!(set.supports_rewrite(ExactBoundarySpelling::Parent));
    let mut d = constraint(StoredFacadeConstraint::Absent, None);
    d.annotation_edit_acceptance = StoredExactBoundaryAcceptance::Ineligible;
    assert!(!VisibilityConstraintSet::from_constraint(d).supports_rewrite(ExactBoundarySpelling::Crate));
}
