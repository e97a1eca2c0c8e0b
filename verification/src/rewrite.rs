//! The parts of a visibility rewrite that depend only on the replacement:
//! its suggestion, whether it changes or only widens the item's reach,
//! whether `fixes::restricted_annotation` can apply it, and the scope it
//! records; plus the key that pairs a finding with its constraints and the
//! order in which a group's candidate findings are preferred.

use vstd::prelude::*;

use crate::constraint::ConstraintView;
use crate::constraint::FacadeView;
use crate::constraint::StoredVisibilityConstraint;
use crate::findings::DiagnosticCode;
use crate::findings::ExactBoundarySpelling;
use crate::findings::FixSupport;
use crate::findings::StoredFinding;
use crate::reach::ReachView;
use crate::reach::StoredVisibilityReach;
use crate::text::chars_eq;
use crate::text::chars_of;
use crate::text::chars_start_with;
use crate::text::copy_range;
use crate::text::starts_with;
use crate::text::string_from_chars;

verus! {

/// Whether a replacement changes what can name the item, rather than only
/// how the same reach is spelled.
pub open spec fn changes_reach_spec(
    spelling: ExactBoundarySpelling,
    declared: ReachView,
    boundary: Seq<char>,
) -> bool {
    match spelling {
        ExactBoundarySpelling::Public => declared != ReachView::Public,
        ExactBoundarySpelling::Crate => declared != ReachView::Crate,
        ExactBoundarySpelling::Private => true,
        ExactBoundarySpelling::CratePath | ExactBoundarySpelling::Parent => declared
            != ReachView::Restricted(boundary),
    }
}

/// Whether replacing the declared reach with `spelling` at `boundary`
/// changes what can name the item. `pub(in crate::a)` on an item of
/// `crate::a::b` reaches what `pub(super)` reaches, so a rewrite between the
/// two only respells it.
pub fn replacement_changes_reach(
    spelling: ExactBoundarySpelling,
    declared_reach: &StoredVisibilityReach,
    boundary: &str,
) -> (r: bool)
    ensures
        r == changes_reach_spec(spelling, declared_reach@, boundary@),
{
    match spelling {
        ExactBoundarySpelling::Public => !matches!(declared_reach, StoredVisibilityReach::Public),
        ExactBoundarySpelling::Crate => !matches!(declared_reach, StoredVisibilityReach::Crate),
        ExactBoundarySpelling::Private => true,
        ExactBoundarySpelling::CratePath | ExactBoundarySpelling::Parent => match declared_reach {
            StoredVisibilityReach::Restricted { boundary: declared } => {
                let a = chars_of(declared.as_str());
                let b = chars_of(boundary);
                !chars_eq(&a, &b)
            },
            _ => true,
        },
    }
}

/// How a replacement is written in a message, outside a suggestion.
pub open spec fn replacement_spelling_spec(
    spelling: ExactBoundarySpelling,
    boundary: Seq<char>,
) -> Seq<char> {
    match spelling {
        ExactBoundarySpelling::CratePath => "`pub(in "@ + boundary + ")`"@,
        ExactBoundarySpelling::Parent => "`pub(super)`"@,
        ExactBoundarySpelling::Crate => "`pub(crate)`"@,
        ExactBoundarySpelling::Private => "private"@,
        ExactBoundarySpelling::Public => "`pub`"@,
    }
}

fn joined(prefix: &str, middle: &str, suffix: &str) -> (s: String)
    ensures
        s@ == prefix@ + middle@ + suffix@,
{
    let mut s = prefix.to_owned();
    s.append(middle);
    s.append(suffix);
    s
}

/// How the resolved boundary is written in a message.
pub fn replacement_spelling(spelling: ExactBoundarySpelling, boundary: &str) -> (s: String)
    ensures
        s@ == replacement_spelling_spec(spelling, boundary@),
{
    match spelling {
        ExactBoundarySpelling::CratePath => joined("`pub(in ", boundary, ")`"),
        ExactBoundarySpelling::Parent => "`pub(super)`".to_owned(),
        ExactBoundarySpelling::Crate => "`pub(crate)`".to_owned(),
        ExactBoundarySpelling::Private => "private".to_owned(),
        ExactBoundarySpelling::Public => "`pub`".to_owned(),
    }
}

/// The suggestion a rewrite to `spelling` at `boundary` makes.
pub open spec fn rewrite_suggestion_spec(
    spelling: ExactBoundarySpelling,
    boundary: Seq<char>,
) -> Seq<char> {
    match spelling {
        ExactBoundarySpelling::CratePath => "consider using: `pub(in "@ + boundary + ")`"@,
        ExactBoundarySpelling::Parent => "consider using: `pub(super)`"@,
        ExactBoundarySpelling::Crate => "consider using: `pub(crate)`"@,
        ExactBoundarySpelling::Private => "consider removing the visibility"@,
        ExactBoundarySpelling::Public => "consider using: `pub`"@,
    }
}

/// The suggestion of a rewrite to `spelling` at `boundary`.
pub fn rewrite_suggestion(spelling: ExactBoundarySpelling, boundary: &str) -> (s: String)
    ensures
        s@ == rewrite_suggestion_spec(spelling, boundary@),
{
    match spelling {
        ExactBoundarySpelling::CratePath => joined("consider using: `pub(in ", boundary, ")`"),
        ExactBoundarySpelling::Parent => "consider using: `pub(super)`".to_owned(),
        ExactBoundarySpelling::Crate => "consider using: `pub(crate)`".to_owned(),
        ExactBoundarySpelling::Private => "consider removing the visibility".to_owned(),
        ExactBoundarySpelling::Public => "consider using: `pub`".to_owned(),
    }
}

/// The written annotations a caller-derived boundary may retarget.
pub open spec fn is_retargetable(annotation: Seq<char>) -> bool {
    annotation == "pub"@ || annotation == "pub(crate)"@ || annotation == "pub(in crate)"@
}

/// Whether replacing `annotation` with `spelling` can only widen the item's
/// reach: any annotation widens to `pub` but `pub` itself, and any
/// restricted annotation widens to `pub(crate)`.
pub open spec fn only_widens_spec(spelling: ExactBoundarySpelling, annotation: Seq<char>) -> bool {
    match spelling {
        ExactBoundarySpelling::Public => annotation != "pub"@,
        ExactBoundarySpelling::Crate => !is_retargetable(annotation),
        _ => false,
    }
}

fn text_is(s: &str, lit: &str) -> (r: bool)
    ensures
        r == (s@ == lit@),
{
    let a = chars_of(s);
    let b = chars_of(lit);
    chars_eq(&a, &b)
}

fn retargetable(annotation: &str) -> (r: bool)
    ensures
        r == is_retargetable(annotation@),
{
    text_is(annotation, "pub") || text_is(annotation, "pub(crate)") || text_is(
        annotation,
        "pub(in crate)",
    )
}

/// Whether replacing `annotation` with `spelling` can only widen the reach.
pub fn replacement_only_widens(spelling: ExactBoundarySpelling, annotation: &str) -> (r: bool)
    ensures
        r == only_widens_spec(spelling, annotation@),
{
    match spelling {
        ExactBoundarySpelling::Public => !text_is(annotation, "pub"),
        ExactBoundarySpelling::Crate => !retargetable(annotation),
        _ => false,
    }
}

/// Whether `fixes::restricted_annotation` applies a rewrite of `annotation`
/// to `spelling`: removing an annotation always, a replacement that only
/// widens always, and a narrowing retarget only of a retargetable
/// annotation.
pub open spec fn rewrite_fixable_spec(spelling: ExactBoundarySpelling, annotation: Seq<char>) -> bool {
    spelling == ExactBoundarySpelling::Private || only_widens_spec(spelling, annotation)
        || is_retargetable(annotation)
}

/// The fix a rewrite advertises, given the annotation of the group's first
/// constraint (none when the group has no constraint).
pub fn rewrite_fix_support(spelling: ExactBoundarySpelling, annotation: Option<&str>) -> (r:
    FixSupport)
    ensures
        r == (if annotation matches Some(a) && rewrite_fixable_spec(spelling, a@) {
            FixSupport::RestrictedAnnotation
        } else {
            FixSupport::NoFix
        }),
{
    match annotation {
        Some(a) => if spelling == ExactBoundarySpelling::Private || replacement_only_widens(
            spelling,
            a,
        ) || retargetable(a) {
            FixSupport::RestrictedAnnotation
        } else {
            FixSupport::NoFix
        },
        None => FixSupport::NoFix,
    }
}

/// `s` without a leading `crate::`, or `s` when it has none.
pub open spec fn without_crate_prefix(s: Seq<char>) -> Seq<char> {
    if starts_with(s, "crate::"@) {
        s.skip(7)
    } else {
        s
    }
}

fn strip_crate_prefix(s: &str) -> (r: String)
    ensures
        r@ == without_crate_prefix(s@),
{
    let v = chars_of(s);
    let p = chars_of("crate::");
    proof {
        reveal_strlit("crate::");
    }
    if chars_start_with(&v, &p) {
        string_from_chars(&copy_range(&v, 7, v.len()))
    } else {
        s.to_owned()
    }
}

/// The scope a rewrite records as the item's narrower scope.
pub open spec fn rewrite_scope_spec(spelling: ExactBoundarySpelling, boundary: Seq<char>) -> Seq<
    char,
> {
    match spelling {
        ExactBoundarySpelling::CratePath | ExactBoundarySpelling::Parent => without_crate_prefix(
            boundary,
        ),
        ExactBoundarySpelling::Crate | ExactBoundarySpelling::Public => "crate"@,
        ExactBoundarySpelling::Private => "private"@,
    }
}

/// The narrower scope a rewrite to `spelling` at `boundary` records.
pub fn rewrite_scope(spelling: ExactBoundarySpelling, boundary: &str) -> (s: String)
    ensures
        s@ == rewrite_scope_spec(spelling, boundary@),
{
    match spelling {
        ExactBoundarySpelling::CratePath | ExactBoundarySpelling::Parent => strip_crate_prefix(
            boundary,
        ),
        ExactBoundarySpelling::Crate | ExactBoundarySpelling::Public => "crate".to_owned(),
        ExactBoundarySpelling::Private => "private".to_owned(),
    }
}

/// The boundary as rustc writes it for an item module: unchanged for a
/// crate-rooted module path, without `crate::` otherwise.
pub open spec fn compiler_boundary_spec(boundary: Seq<char>, item_module: Seq<char>) -> Seq<char> {
    if starts_with(item_module, "crate::"@) {
        boundary
    } else {
        without_crate_prefix(boundary)
    }
}

/// The boundary in the form the item module's def path uses.
pub fn compiler_boundary_path(boundary: &str, item_module: &str) -> (r: String)
    ensures
        r@ == compiler_boundary_spec(boundary@, item_module@),
{
    let m = chars_of(item_module);
    let p = chars_of("crate::");
    if chars_start_with(&m, &p) {
        boundary.to_owned()
    } else {
        strip_crate_prefix(boundary)
    }
}

/// Which of a group's candidate findings is preferred: one with a signature
/// requirement, then one with a resolved facade, then any other.
#[derive(Debug, Clone, Copy, PartialEq, Eq, Structural)]
pub enum CandidatePriority {
    Signature,
    ResolvedFacade,
    Other,
}

/// The priority of a candidate with this constraint.
pub open spec fn priority_spec(c: ConstraintView) -> CandidatePriority {
    if c.signature is Some {
        CandidatePriority::Signature
    } else if c.facade is Resolved {
        CandidatePriority::ResolvedFacade
    } else {
        CandidatePriority::Other
    }
}

/// The priority of a candidate finding whose constraint is `constraint`.
pub fn candidate_priority(constraint: &StoredVisibilityConstraint) -> (p: CandidatePriority)
    ensures
        p == priority_spec(constraint@),
{
    if constraint.signature_requirement.is_some() {
        CandidatePriority::Signature
    } else if matches!(constraint.facade, crate::constraint::StoredFacadeConstraint::Resolved { .. }) {
        CandidatePriority::ResolvedFacade
    } else {
        CandidatePriority::Other
    }
}

/// What pairs constraints with each other and with their finding: the
/// package, the diagnostic and the source position.
#[derive(Debug, Clone, PartialEq, Eq)]
pub struct VisibilityConstraintKey {
    pub package_root: String,
    pub diagnostic_code: DiagnosticCode,
    pub path: String,
    pub line: usize,
    pub column: usize,
}

/// The specification view of a [`VisibilityConstraintKey`].
pub struct KeyView {
    pub package_root: Seq<char>,
    pub code: DiagnosticCode,
    pub path: Seq<char>,
    pub line: usize,
    pub column: usize,
}

impl View for VisibilityConstraintKey {
    type V = KeyView;

    open spec fn view(&self) -> KeyView {
        KeyView {
            package_root: self.package_root@,
            code: self.diagnostic_code,
            path: self.path@,
            line: self.line,
            column: self.column,
        }
    }
}

/// The key of a constraint of the package at `root`.
pub open spec fn constraint_key_spec(root: Seq<char>, c: ConstraintView) -> KeyView {
    KeyView { package_root: root, code: c.code, path: c.path, line: c.line, column: c.column }
}

/// The key a finding of the package at `root` would carry as a constraint.
pub open spec fn finding_key_spec(root: Seq<char>, f: StoredFinding) -> KeyView {
    KeyView { package_root: root, code: f.diagnostic_code, path: f.path@, line: f.line, column: f.column }
}

impl VisibilityConstraintKey {
    /// The key of a constraint.
    pub fn new(package_root: &str, constraint: &StoredVisibilityConstraint) -> (k: Self)
        ensures
            k@ == constraint_key_spec(package_root@, constraint@),
    {
        VisibilityConstraintKey {
            package_root: package_root.to_owned(),
            diagnostic_code: constraint.diagnostic_code,
            path: constraint.source.path.clone(),
            line: constraint.source.line,
            column: constraint.source.column,
        }
    }

    /// The key a finding would carry if it were a constraint.
    pub fn for_finding(package_root: &str, finding: &StoredFinding) -> (k: Self)
        ensures
            k@ == finding_key_spec(package_root@, *finding),
    {
        VisibilityConstraintKey {
            package_root: package_root.to_owned(),
            diagnostic_code: finding.diagnostic_code,
            path: finding.path.clone(),
            line: finding.line,
            column: finding.column,
        }
    }
}

/// A constraint and a finding correspond exactly when their package root,
/// diagnostic code and source position agree, which is precisely when their
/// keys are equal.
pub proof fn lemma_keys_pair_a_finding_with_its_constraint(
    root: Seq<char>,
    finding_root: Seq<char>,
    c: ConstraintView,
    f: StoredFinding,
)
    ensures
        (constraint_key_spec(root, c) == finding_key_spec(finding_root, f)) <==> (root
            == finding_root && c.code == f.diagnostic_code && c.path == f.path@ && c.line == f.line
            && c.column == f.column),
{
}

/// Removing an annotation and widening are always fixable, and a narrowing
/// is fixable only from `pub`, `pub(crate)` or `pub(in crate)`: an
/// already-restricted annotation is never narrowed to a caller-derived
/// boundary.
pub proof fn lemma_only_retargetable_annotations_are_narrowed(
    spelling: ExactBoundarySpelling,
    annotation: Seq<char>,
)
    ensures
        spelling == ExactBoundarySpelling::Private ==> rewrite_fixable_spec(spelling, annotation),
        (spelling == ExactBoundarySpelling::CratePath || spelling == ExactBoundarySpelling::Parent)
            ==> (rewrite_fixable_spec(spelling, annotation) <==> is_retargetable(annotation)),
        spelling == ExactBoundarySpelling::Public ==> rewrite_fixable_spec(spelling, annotation),
        spelling == ExactBoundarySpelling::Crate ==> rewrite_fixable_spec(spelling, annotation),
{
    reveal_strlit("pub");
}

} // verus!
