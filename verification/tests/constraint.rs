use cargo_mend::constraint::StoredCallerReconciliation;
use cargo_mend::constraint::StoredConstraintOutcome;
use cargo_mend::constraint::StoredExactBoundaryAcceptance;
use cargo_mend::constraint::StoredExactPathPolicy;
use cargo_mend::constraint::StoredFacadeConstraint;
use cargo_mend::constraint::StoredVisibilityConstraint;
use cargo_mend::constraint::StoredVisibilityDeclaration;
use cargo_mend::constraint::StoredVisibilitySource;
use cargo_mend::constraint::StoredVisibilitySpelling;
use cargo_mend::constraint_set::VisibilityConstraintSet;
use cargo_mend::findings::DiagnosticCode;
use cargo_mend::reach::StoredVisibilityReach;

fn restricted(boundary: &str) -> StoredVisibilityReach {
    StoredVisibilityReach::Restricted {
        boundary: boundary.to_string(),
    }
}

fn constraint(
    facade: StoredFacadeConstraint,
    signature_requirement: Option<StoredVisibilityReach>,
) -> StoredVisibilityConstraint {
    StoredVisibilityConstraint {
        diagnostic_code: DiagnosticCode::ForbiddenPubInCrate,
        source: StoredVisibilitySource {
            path:   String::from("/package/src/lib.rs"),
            line:   1,
            column: 1,
        },
        declaration: StoredVisibilityDeclaration {
            item_def_path:        String::from("crate::a::b::item"),
            item_module_def_path: String::from("crate::a::b"),
        },
        visibility_annotation: String::from("pub(in crate::a)"),
        declared_reach: restricted("crate::a"),
        spelling: StoredVisibilitySpelling::ExactPath,
        signature_requirement,
        facade,
        exact_boundary_acceptance: StoredExactBoundaryAcceptance::Eligible,
        annotation_edit_acceptance: StoredExactBoundaryAcceptance::Eligible,
        exact_path_policy: StoredExactPathPolicy::Allowed,
        caller_reconciliation: StoredCallerReconciliation::CallerAware,
        outcome: StoredConstraintOutcome::Finding,
    }
}

#[test]
fn reach_join_is_associative_commutative_and_idempotent() {
    let reaches = [
        StoredVisibilityReach::Public,
        StoredVisibilityReach::Crate,
        restricted("crate::a"),
        restricted("crate::a::b"),
        restricted("crate::c"),
    ];

    for left in &reaches {
        assert_eq!(left.join(left), *left);
        for right in &reaches {
            assert_eq!(left.join(right), right.join(left));
            for third in &reaches {
                assert_eq!(left.join(&right.join(third)), left.join(right).join(third));
            }
        }
    }
}

#[test]
fn constraint_union_is_associative_commutative_and_idempotent() {
    let left = VisibilityConstraintSet::from_constraint(constraint(
        StoredFacadeConstraint::Absent,
        Some(restricted("crate::a::b")),
    ));
    let right = VisibilityConstraintSet::from_constraint(constraint(
        StoredFacadeConstraint::Resolved {
            required: restricted("crate::a"),
        },
        None,
    ));
    let third = VisibilityConstraintSet::from_constraint(constraint(
        StoredFacadeConstraint::Resolved {
            required: restricted("crate::c"),
        },
        None,
    ));

    assert_eq!(left.clone().join(left.clone()), left);
    assert_eq!(
        left.clone().join(right.clone()),
        right.clone().join(left.clone())
    );
    assert_eq!(
        left.clone().join(right.clone()).join(third.clone()),
        left.join(right.join(third))
    );
}

#[test]
fn sibling_requirements_join_to_crate_reach() {
    let constraints = VisibilityConstraintSet::from_constraint(constraint(
        StoredFacadeConstraint::Resolved {
            required: restricted("crate::left"),
        },
        None,
    ))
    .join(VisibilityConstraintSet::from_constraint(constraint(
        StoredFacadeConstraint::Resolved {
            required: restricted("crate::right"),
        },
        None,
    )));

    assert_eq!(
        constraints.required_reach(),
        Some(StoredVisibilityReach::Crate)
    );
}

#[test]
fn required_reach_joins_signature_and_facade() {
    let c = constraint(
        StoredFacadeConstraint::Resolved {
            required: restricted("crate::a::c"),
        },
        Some(restricted("crate::a::b")),
    );
    assert_eq!(c.required_reach(), Some(restricted("crate::a")));
    let none = constraint(StoredFacadeConstraint::Blocked, None);
    assert_eq!(none.required_reach(), None);
    let signature_only = constraint(StoredFacadeConstraint::Absent, Some(StoredVisibilityReach::Public));
    assert_eq!(signature_only.required_reach(), Some(StoredVisibilityReach::Public));
}

#[test]
fn required_reach_of_a_union_is_the_join_of_the_parts() {
    let left = VisibilityConstraintSet::from_constraint(constraint(
        StoredFacadeConstraint::Absent,
        Some(restricted("crate::a::b")),
    ));
    let right = VisibilityConstraintSet::from_constraint(constraint(
        StoredFacadeConstraint::Resolved {
            required: restricted("crate::a::c"),
        },
        None,
    ));
    let parts = left.required_reach().zip(right.required_reach()).map(|(l, r)| l.join(&r));
    assert_eq!(left.join(right).required_reach(), parts);
    assert_eq!(parts, Some(restricted("crate::a")));
    assert_eq!(VisibilityConstraintSet::new().required_reach(), None);
}

#[test]
fn set_predicates_follow_their_members() {
    let set = VisibilityConstraintSet::from_constraint(constraint(StoredFacadeConstraint::Blocked, None))
        .join(VisibilityConstraintSet::from_constraint(constraint(
            StoredFacadeConstraint::Impossible,
            None,
        )));
    assert_eq!(set.len(), 2);
    assert!(set.includes_facade_blocker());
    assert!(set.includes_absent_facade());
    assert!(!set.all_facades_are_impossible());
    assert!(!set.all_facades_are_absent_or_impossible());
    assert!(!set.all_facades_are_resolved());
    assert!(set.all_exact_boundaries_are_eligible());
    assert!(set.all_exact_paths_are_allowed());
    assert!(set.all_annotation_edits_are_eligible());
    assert_eq!(set.uniform_declared_reach(), Some(restricted("crate::a")));
    assert!(set.uses_caller_reconciliation());
    assert!(!set.declares_exactly_its_signature_reach());
    let first = set.first().map(|c| c.facade.clone());
    assert_eq!(first, Some(StoredFacadeConstraint::Impossible));

    let exact = VisibilityConstraintSet::from_constraint(constraint(
        StoredFacadeConstraint::Absent,
        Some(restricted("crate::a")),
    ));
    assert!(exact.declares_exactly_its_signature_reach());
    assert!(VisibilityConstraintSet::new().is_empty());
    assert!(!VisibilityConstraintSet::new().all_facades_are_impossible());
}
