//! The visibility constraints each target's analysis stores for a
//! declaration, and what they jointly require of it.
//!
//! A constraint records the reach a declaration spells, the reach its
//! signature and any facade demand, and how mend may edit it. Every target
//! that compiled the declaration contributes constraints; their set is a
//! join-semilattice (union), and the reach the set requires is the join of
//! the reaches its members require.

use vstd::prelude::*;
use crate::findings::DiagnosticCode;
use crate::keys::{ExecKey, Keyed, SortKey};
use crate::reach::{ReachView, StoredVisibilityReach, reach_join, reach_wf};

verus! {

/// How a declaration spells its visibility.
#[derive(Debug, Clone, Copy, PartialEq, Eq, Structural)]
pub enum StoredVisibilitySpelling {
    Public,
    Crate,
    InCrate,
    ExactPath,
    NonCanonical,
}

/// What a re-export facade demands of the declaration.
#[derive(Debug, PartialEq, Eq)]
pub enum StoredFacadeConstraint {
    /// No facade re-exports the item.
    Absent,
    /// No facade could re-export the item.
    Impossible,
    /// A facade re-exports the item and needs this reach.
    Resolved { required: StoredVisibilityReach },
    /// A facade exists but something blocks resolving its reach.
    Blocked,
}

#[derive(Debug, Clone, Copy, PartialEq, Eq, Structural)]
pub enum StoredExactBoundaryAcceptance {
    Eligible,
    Ineligible,
}

/// Project policy for an exact `pub(in crate::...)` replacement.
#[derive(Debug, Clone, Copy, Default, PartialEq, Eq, Structural)]
pub enum StoredExactPathPolicy {
    #[default]
    Forbidden,
    Allowed,
}

#[derive(Debug, Clone, Copy, PartialEq, Eq, Structural)]
pub enum StoredCallerReconciliation {
    Fixed,
    CallerAware,
}

#[derive(Debug, Clone, Copy, PartialEq, Eq, Structural)]
pub enum StoredConstraintOutcome {
    Accepted,
    Finding,
}

/// Where the annotation is written.
#[derive(Debug, PartialEq, Eq)]
pub struct StoredVisibilitySource {
    pub path: String,
    pub line: usize,
    pub column: usize,
}

/// The item the annotation belongs to.
#[derive(Debug, PartialEq, Eq)]
pub struct StoredVisibilityDeclaration {
    pub item_def_path: String,
    pub item_module_def_path: String,
}

/// One target's view of one visibility annotation.
#[derive(Debug, PartialEq, Eq)]
pub struct StoredVisibilityConstraint {
    pub diagnostic_code: DiagnosticCode,
    pub source: StoredVisibilitySource,
    pub declaration: StoredVisibilityDeclaration,
    pub visibility_annotation: String,
    pub declared_reach: StoredVisibilityReach,
    pub spelling: StoredVisibilitySpelling,
    pub signature_requirement: Option<StoredVisibilityReach>,
    pub facade: StoredFacadeConstraint,
    pub exact_boundary_acceptance: StoredExactBoundaryAcceptance,
    /// Whether the declaration form alone lets mend edit this annotation.
    pub annotation_edit_acceptance: StoredExactBoundaryAcceptance,
    pub exact_path_policy: StoredExactPathPolicy,
    pub caller_reconciliation: StoredCallerReconciliation,
    pub outcome: StoredConstraintOutcome,
}

/// The mathematical reading of [`StoredFacadeConstraint`].
pub enum FacadeView {
    Absent,
    Impossible,
    Resolved(ReachView),
    Blocked,
}

/// The mathematical reading of [`StoredVisibilityConstraint`].
pub struct ConstraintView {
    pub code: DiagnosticCode,
    pub path: Seq<char>,
    pub line: usize,
    pub column: usize,
    pub item: Seq<char>,
    pub module: Seq<char>,
    pub annotation: Seq<char>,
    pub declared: ReachView,
    pub spelling: StoredVisibilitySpelling,
    pub signature: Option<ReachView>,
    pub facade: FacadeView,
    pub exact: StoredExactBoundaryAcceptance,
    pub edit: StoredExactBoundaryAcceptance,
    pub policy: StoredExactPathPolicy,
    pub reconciliation: StoredCallerReconciliation,
    pub outcome: StoredConstraintOutcome,
}

impl View for StoredFacadeConstraint {
    type V = FacadeView;

    open spec fn view(&self) -> FacadeView {
        match self {
            StoredFacadeConstraint::Absent => FacadeView::Absent,
            StoredFacadeConstraint::Impossible => FacadeView::Impossible,
            StoredFacadeConstraint::Resolved { required } => FacadeView::Resolved(required@),
            StoredFacadeConstraint::Blocked => FacadeView::Blocked,
        }
    }
}

pub open spec fn option_reach_view(r: Option<StoredVisibilityReach>) -> Option<ReachView> {
    match r {
        Some(x) => Some(x@),
        None => None,
    }
}

impl View for StoredVisibilityConstraint {
    type V = ConstraintView;

    open spec fn view(&self) -> ConstraintView {
        ConstraintView {
            code: self.diagnostic_code,
            path: self.source.path@,
            line: self.source.line,
            column: self.source.column,
            item: self.declaration.item_def_path@,
            module: self.declaration.item_module_def_path@,
            annotation: self.visibility_annotation@,
            declared: self.declared_reach@,
            spelling: self.spelling,
            signature: option_reach_view(self.signature_requirement),
            facade: self.facade@,
            exact: self.exact_boundary_acceptance,
            edit: self.annotation_edit_acceptance,
            policy: self.exact_path_policy,
            reconciliation: self.caller_reconciliation,
            outcome: self.outcome,
        }
    }
}

/// The reach a constraint's signature and facade jointly demand.
pub open spec fn constraint_required(c: ConstraintView) -> Option<ReachView> {
    let facade = match c.facade {
        FacadeView::Resolved(r) => Some(r),
        _ => None,
    };
    option_join(c.signature, facade)
}

/// Joins two optional requirements; an absent one adds nothing.
pub open spec fn option_join(a: Option<ReachView>, b: Option<ReachView>) -> Option<ReachView> {
    match (a, b) {
        (Some(x), Some(y)) => Some(reach_join(x, y)),
        (Some(x), None) => Some(x),
        (None, y) => y,
    }
}

pub open spec fn option_wf(a: Option<ReachView>) -> bool {
    match a {
        Some(x) => reach_wf(x),
        None => true,
    }
}

/// Every reach a constraint names is well formed.
pub open spec fn constraint_wf(c: ConstraintView) -> bool {
    &&& reach_wf(c.declared)
    &&& option_wf(c.signature)
    &&& (c.facade matches FacadeView::Resolved(r) ==> reach_wf(r))
}

// ---------------------------------------------------------------------
// Clones with contracts.

impl Clone for StoredVisibilitySource {
    fn clone(&self) -> (res: Self)
        ensures
            res.path@ == self.path@,
            res.line == self.line,
            res.column == self.column,
    {
        StoredVisibilitySource { path: self.path.clone(), line: self.line, column: self.column }
    }
}

impl Clone for StoredVisibilityDeclaration {
    fn clone(&self) -> (res: Self)
        ensures
            res.item_def_path@ == self.item_def_path@,
            res.item_module_def_path@ == self.item_module_def_path@,
    {
        StoredVisibilityDeclaration {
            item_def_path: self.item_def_path.clone(),
            item_module_def_path: self.item_module_def_path.clone(),
        }
    }
}

impl Clone for StoredFacadeConstraint {
    fn clone(&self) -> (res: Self)
        ensures
            res@ == self@,
    {
        match self {
            StoredFacadeConstraint::Absent => StoredFacadeConstraint::Absent,
            StoredFacadeConstraint::Impossible => StoredFacadeConstraint::Impossible,
            StoredFacadeConstraint::Resolved { required } => StoredFacadeConstraint::Resolved {
                required: required.clone(),
            },
            StoredFacadeConstraint::Blocked => StoredFacadeConstraint::Blocked,
        }
    }
}

/// Clones an optional reach, keeping its reading.
pub fn clone_option_reach(r: &Option<StoredVisibilityReach>) -> (res: Option<StoredVisibilityReach>)
    ensures
        option_reach_view(res) == option_reach_view(*r),
{
    match r {
        Some(x) => Some(x.clone()),
        None => None,
    }
}

impl Clone for StoredVisibilityConstraint {
    fn clone(&self) -> (res: Self)
        ensures
            res@ == self@,
    {
        StoredVisibilityConstraint {
            diagnostic_code: self.diagnostic_code,
            source: self.source.clone(),
            declaration: self.declaration.clone(),
            visibility_annotation: self.visibility_annotation.clone(),
            declared_reach: self.declared_reach.clone(),
            spelling: self.spelling,
            signature_requirement: clone_option_reach(&self.signature_requirement),
            facade: self.facade.clone(),
            exact_boundary_acceptance: self.exact_boundary_acceptance,
            annotation_edit_acceptance: self.annotation_edit_acceptance,
            exact_path_policy: self.exact_path_policy,
            caller_reconciliation: self.caller_reconciliation,
            outcome: self.outcome,
        }
    }
}

impl StoredVisibilityConstraint {
    /// The reach this constraint demands: its signature's requirement joined
    /// with the reach a resolved facade needs, or `None` if neither demands
    /// one.
    pub fn required_reach(&self) -> (r: Option<StoredVisibilityReach>)
        ensures
            option_reach_view(r) == constraint_required(self@),
    {
        let facade_requirement = match &self.facade {
            StoredFacadeConstraint::Resolved { required } => Some(required.clone()),
            _ => None,
        };
        match (&self.signature_requirement, facade_requirement) {
            (Some(signature), Some(facade)) => Some(signature.join(&facade)),
            (Some(signature), None) => Some(signature.clone()),
            (None, Some(facade)) => Some(facade),
            (None, None) => None,
        }
    }
}

} // verus!
