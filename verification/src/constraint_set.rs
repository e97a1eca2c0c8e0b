//! Sets of visibility constraints.
//!
//! A set is kept as a list strictly ascending by each constraint's sort key,
//! which orders constraints field by field the way their derived `Ord`
//! would. Two such lists with the same members are the same list, so the
//! union of sets is a function of their members alone: it commutes,
//! associates and absorbs a repeat.

use vstd::prelude::*;
use crate::constraint::{
    ConstraintView, constraint_required, option_reach_view, constraint_wf, option_join, option_wf, FacadeView, StoredCallerReconciliation, StoredConstraintOutcome,
    StoredExactBoundaryAcceptance, StoredExactPathPolicy, StoredFacadeConstraint,
    StoredVisibilityConstraint, StoredVisibilitySpelling,
};
use crate::findings::DiagnosticCode;
use crate::findings::ExactBoundarySpelling;
use crate::keys::{
    ExecKey, Keyed, SortKey, compare_keyed, key_views, keys_lt, push_key, lemma_keys_lt_asymmetric,
    lemma_keys_lt_irreflexive, lemma_keys_lt_total, lemma_keys_lt_transitive,
};
use crate::ordered::TextOrder;
use crate::reach::{
    ReachView, StoredVisibilityReach, lemma_reach_join_associates, lemma_reach_join_commutes,
    lemma_reach_join_idempotent, reach_join, reach_wf,
};

verus! {

// ---------------------------------------------------------------------
// Sort keys.

pub open spec fn code_num(d: DiagnosticCode) -> int {
    match d {
        DiagnosticCode::ForbiddenPubCrate => 0,
        DiagnosticCode::ForbiddenPubInCrate => 1,
        DiagnosticCode::InternalParentPubUseFacade => 2,
        DiagnosticCode::NarrowToPubCrate => 3,
        DiagnosticCode::OverbroadPubCrate => 4,
        DiagnosticCode::ReviewPubMod => 5,
        DiagnosticCode::SuspiciousPub => 6,
        DiagnosticCode::UnusedPub => 7,
        DiagnosticCode::WildcardParentPubUse => 8,
    }
}

pub open spec fn spelling_num(s: StoredVisibilitySpelling) -> int {
    match s {
        StoredVisibilitySpelling::Public => 0,
        StoredVisibilitySpelling::Crate => 1,
        StoredVisibilitySpelling::InCrate => 2,
        StoredVisibilitySpelling::ExactPath => 3,
        StoredVisibilitySpelling::NonCanonical => 4,
    }
}

pub open spec fn acceptance_num(a: StoredExactBoundaryAcceptance) -> int {
    match a {
        StoredExactBoundaryAcceptance::Eligible => 0,
        StoredExactBoundaryAcceptance::Ineligible => 1,
    }
}

pub open spec fn policy_num(p: StoredExactPathPolicy) -> int {
    match p {
        StoredExactPathPolicy::Forbidden => 0,
        StoredExactPathPolicy::Allowed => 1,
    }
}

pub open spec fn reconciliation_num(r: StoredCallerReconciliation) -> int {
    match r {
        StoredCallerReconciliation::Fixed => 0,
        StoredCallerReconciliation::CallerAware => 1,
    }
}

pub open spec fn outcome_num(o: StoredConstraintOutcome) -> int {
    match o {
        StoredConstraintOutcome::Accepted => 0,
        StoredConstraintOutcome::Finding => 1,
    }
}

pub open spec fn reach_tag(r: ReachView) -> int {
    match r {
        ReachView::Public => 0,
        ReachView::Crate => 1,
        ReachView::Restricted(_) => 2,
    }
}

pub open spec fn reach_text(r: ReachView) -> Seq<char> {
    match r {
        ReachView::Restricted(b) => b,
        _ => Seq::empty(),
    }
}

pub open spec fn option_tag(r: Option<ReachView>) -> int {
    match r {
        Some(_) => 1,
        None => 0,
    }
}

pub open spec fn option_inner(r: Option<ReachView>) -> ReachView {
    match r {
        Some(x) => x,
        None => ReachView::Public,
    }
}

pub open spec fn facade_tag(f: FacadeView) -> int {
    match f {
        FacadeView::Absent => 0,
        FacadeView::Impossible => 1,
        FacadeView::Resolved(_) => 2,
        FacadeView::Blocked => 3,
    }
}

pub open spec fn facade_inner(f: FacadeView) -> ReachView {
    match f {
        FacadeView::Resolved(r) => r,
        _ => ReachView::Public,
    }
}

/// The sort key of a constraint: its fields in declaration order, an enum as
/// its variant's position followed by its payload.
pub open spec fn constraint_key(c: ConstraintView) -> Seq<SortKey> {
    seq![
        SortKey::Num(code_num(c.code)),
        SortKey::Text(c.path),
        SortKey::Num(c.line as int),
        SortKey::Num(c.column as int),
        SortKey::Text(c.item),
        SortKey::Text(c.module),
        SortKey::Text(c.annotation),
        SortKey::Num(reach_tag(c.declared)),
        SortKey::Text(reach_text(c.declared)),
        SortKey::Num(spelling_num(c.spelling)),
        SortKey::Num(option_tag(c.signature)),
        SortKey::Num(reach_tag(option_inner(c.signature))),
        SortKey::Text(reach_text(option_inner(c.signature))),
        SortKey::Num(facade_tag(c.facade)),
        SortKey::Num(reach_tag(facade_inner(c.facade))),
        SortKey::Text(reach_text(facade_inner(c.facade))),
        SortKey::Num(acceptance_num(c.exact)),
        SortKey::Num(acceptance_num(c.edit)),
        SortKey::Num(policy_num(c.policy)),
        SortKey::Num(reconciliation_num(c.reconciliation)),
        SortKey::Num(outcome_num(c.outcome)),
    ]
}

proof fn lemma_reach_key_injective(a: ReachView, b: ReachView)
    requires
        reach_tag(a) == reach_tag(b),
        reach_text(a) == reach_text(b),
    ensures
        a == b,
{
}

/// Two constraints with the same key are the same constraint.
pub proof fn lemma_constraint_key_injective(a: ConstraintView, b: ConstraintView)
    requires
        constraint_key(a) == constraint_key(b),
    ensures
        a == b,
{
    let ka = constraint_key(a);
    let kb = constraint_key(b);
    assert(ka[0] == kb[0] && ka[1] == kb[1] && ka[2] == kb[2] && ka[3] == kb[3]);
    assert(ka[4] == kb[4] && ka[5] == kb[5] && ka[6] == kb[6] && ka[7] == kb[7]);
    assert(ka[8] == kb[8] && ka[9] == kb[9] && ka[10] == kb[10] && ka[11] == kb[11]);
    assert(ka[12] == kb[12] && ka[13] == kb[13] && ka[14] == kb[14] && ka[15] == kb[15]);
    assert(ka[16] == kb[16] && ka[17] == kb[17] && ka[18] == kb[18] && ka[19] == kb[19]);
    assert(ka[20] == kb[20]);
    lemma_reach_key_injective(a.declared, b.declared);
    lemma_reach_key_injective(option_inner(a.signature), option_inner(b.signature));
    lemma_reach_key_injective(facade_inner(a.facade), facade_inner(b.facade));
    assert(a.signature == b.signature);
    assert(a.facade == b.facade);
}

fn code_number(d: DiagnosticCode) -> (n: u64)
    ensures
        n == code_num(d),
{
    match d {
        DiagnosticCode::ForbiddenPubCrate => 0,
        DiagnosticCode::ForbiddenPubInCrate => 1,
        DiagnosticCode::InternalParentPubUseFacade => 2,
        DiagnosticCode::NarrowToPubCrate => 3,
        DiagnosticCode::OverbroadPubCrate => 4,
        DiagnosticCode::ReviewPubMod => 5,
        DiagnosticCode::SuspiciousPub => 6,
        DiagnosticCode::UnusedPub => 7,
        DiagnosticCode::WildcardParentPubUse => 8,
    }
}

fn spelling_number(s: StoredVisibilitySpelling) -> (n: u64)
    ensures
        n == spelling_num(s),
{
    match s {
        StoredVisibilitySpelling::Public => 0,
        StoredVisibilitySpelling::Crate => 1,
        StoredVisibilitySpelling::InCrate => 2,
        StoredVisibilitySpelling::ExactPath => 3,
        StoredVisibilitySpelling::NonCanonical => 4,
    }
}

fn acceptance_number(a: StoredExactBoundaryAcceptance) -> (n: u64)
    ensures
        n == acceptance_num(a),
{
    match a {
        StoredExactBoundaryAcceptance::Eligible => 0,
        StoredExactBoundaryAcceptance::Ineligible => 1,
    }
}

/// Pushes the two key components of a reach.
fn push_reach_key(k: &mut Vec<ExecKey>, r: &StoredVisibilityReach)
    ensures
        key_views(final(k)@) == key_views(old(k)@) + seq![
            SortKey::Num(reach_tag(r@)),
            SortKey::Text(reach_text(r@)),
        ],
{
    let ghost before = k@;
    match r {
        StoredVisibilityReach::Public => {
            push_key(k, ExecKey::Num(0));
            push_key(k, ExecKey::Text(String::new()));
        },
        StoredVisibilityReach::Crate => {
            push_key(k, ExecKey::Num(1));
            push_key(k, ExecKey::Text(String::new()));
        },
        StoredVisibilityReach::Restricted { boundary } => {
            push_key(k, ExecKey::Num(2));
            push_key(k, ExecKey::Text(boundary.clone()));
        },
    }
    proof {
        assert(key_views(k@) =~= key_views(before) + seq![
            SortKey::Num(reach_tag(r@)),
            SortKey::Text(reach_text(r@)),
        ]);
    }
}

pub open spec fn key_head(c: ConstraintView) -> Seq<SortKey> {
    seq![
        SortKey::Num(code_num(c.code)),
        SortKey::Text(c.path),
        SortKey::Num(c.line as int),
        SortKey::Num(c.column as int),
        SortKey::Text(c.item),
        SortKey::Text(c.module),
        SortKey::Text(c.annotation),
    ]
}

pub open spec fn key_middle(c: ConstraintView) -> Seq<SortKey> {
    seq![
        SortKey::Num(reach_tag(c.declared)),
        SortKey::Text(reach_text(c.declared)),
        SortKey::Num(spelling_num(c.spelling)),
        SortKey::Num(option_tag(c.signature)),
        SortKey::Num(reach_tag(option_inner(c.signature))),
        SortKey::Text(reach_text(option_inner(c.signature))),
        SortKey::Num(facade_tag(c.facade)),
        SortKey::Num(reach_tag(facade_inner(c.facade))),
        SortKey::Text(reach_text(facade_inner(c.facade))),
    ]
}

pub open spec fn key_tail(c: ConstraintView) -> Seq<SortKey> {
    seq![
        SortKey::Num(acceptance_num(c.exact)),
        SortKey::Num(acceptance_num(c.edit)),
        SortKey::Num(policy_num(c.policy)),
        SortKey::Num(reconciliation_num(c.reconciliation)),
        SortKey::Num(outcome_num(c.outcome)),
    ]
}

fn push_key_head(k: &mut Vec<ExecKey>, c: &StoredVisibilityConstraint)
    ensures
        key_views(final(k)@) == key_views(old(k)@) + key_head(c@),
{
    let ghost before = key_views(k@);
    push_key(k, ExecKey::Num(code_number(c.diagnostic_code)));
    push_key(k, ExecKey::Text(c.source.path.clone()));
    push_key(k, ExecKey::Num(c.source.line as u64));
    push_key(k, ExecKey::Num(c.source.column as u64));
    push_key(k, ExecKey::Text(c.declaration.item_def_path.clone()));
    push_key(k, ExecKey::Text(c.declaration.item_module_def_path.clone()));
    push_key(k, ExecKey::Text(c.visibility_annotation.clone()));
    proof {
        assert(key_views(k@) =~= before + key_head(c@));
    }
}

fn push_key_middle(k: &mut Vec<ExecKey>, c: &StoredVisibilityConstraint)
    ensures
        key_views(final(k)@) == key_views(old(k)@) + key_middle(c@),
{
    let ghost before = key_views(k@);
    push_reach_key(k, &c.declared_reach);
    push_key(k, ExecKey::Num(spelling_number(c.spelling)));
    let ghost mid = key_views(k@);
    match &c.signature_requirement {
        Some(r) => {
            push_key(k, ExecKey::Num(1));
            push_reach_key(k, r);
        },
        None => {
            push_key(k, ExecKey::Num(0));
            push_reach_key(k, &StoredVisibilityReach::Public);
        },
    }
    let ghost after_signature = key_views(k@);
    match &c.facade {
        StoredFacadeConstraint::Absent => {
            push_key(k, ExecKey::Num(0));
            push_reach_key(k, &StoredVisibilityReach::Public);
        },
        StoredFacadeConstraint::Impossible => {
            push_key(k, ExecKey::Num(1));
            push_reach_key(k, &StoredVisibilityReach::Public);
        },
        StoredFacadeConstraint::Resolved { required } => {
            push_key(k, ExecKey::Num(2));
            push_reach_key(k, required);
        },
        StoredFacadeConstraint::Blocked => {
            push_key(k, ExecKey::Num(3));
            push_reach_key(k, &StoredVisibilityReach::Public);
        },
    }
    proof {
        assert(key_views(k@) =~= before + key_middle(c@));
    }
}

fn push_key_tail(k: &mut Vec<ExecKey>, c: &StoredVisibilityConstraint)
    ensures
        key_views(final(k)@) == key_views(old(k)@) + key_tail(c@),
{
    let ghost before = key_views(k@);
    push_key(k, ExecKey::Num(acceptance_number(c.exact_boundary_acceptance)));
    push_key(k, ExecKey::Num(acceptance_number(c.annotation_edit_acceptance)));
    let policy: u64 = match c.exact_path_policy {
        StoredExactPathPolicy::Forbidden => 0,
        StoredExactPathPolicy::Allowed => 1,
    };
    push_key(k, ExecKey::Num(policy));
    let reconciliation: u64 = match c.caller_reconciliation {
        StoredCallerReconciliation::Fixed => 0,
        StoredCallerReconciliation::CallerAware => 1,
    };
    push_key(k, ExecKey::Num(reconciliation));
    let outcome: u64 = match c.outcome {
        StoredConstraintOutcome::Accepted => 0,
        StoredConstraintOutcome::Finding => 1,
    };
    push_key(k, ExecKey::Num(outcome));
    proof {
        assert(key_views(k@) =~= before + key_tail(c@));
    }
}

impl Keyed for StoredVisibilityConstraint {
    open spec fn key_spec(&self) -> Seq<SortKey> {
        constraint_key(self@)
    }

    fn sort_key(&self) -> (k: Vec<ExecKey>) {
        let mut k: Vec<ExecKey> = Vec::new();
        proof {
            assert(key_views(k@) =~= Seq::<SortKey>::empty());
        }
        push_key_head(&mut k, self);
        push_key_middle(&mut k, self);
        push_key_tail(&mut k, self);
        proof {
            assert(key_views(k@) =~= constraint_key(self@));
        }
        k
    }
}

// ---------------------------------------------------------------------
// Ascending lists and their union.

pub open spec fn views_of(v: Seq<StoredVisibilityConstraint>) -> Seq<ConstraintView> {
    v.map_values(|c: StoredVisibilityConstraint| c@)
}

/// Strictly ascending by sort key, so free of repeats.
pub open spec fn ascending(s: Seq<ConstraintView>) -> bool {
    forall|i: int, j: int|
        0 <= i < j < s.len() ==> keys_lt(
            #[trigger] constraint_key(s[i]),
            #[trigger] constraint_key(s[j]),
        )
}

/// The ascending list holding the members of two ascending lists.
pub open spec fn merge(a: Seq<ConstraintView>, b: Seq<ConstraintView>) -> Seq<ConstraintView>
    decreases a.len() + b.len(),
{
    if a.len() == 0 {
        b
    } else if b.len() == 0 {
        a
    } else if constraint_key(a[0]) == constraint_key(b[0]) {
        seq![a[0]] + merge(a.drop_first(), b.drop_first())
    } else if keys_lt(constraint_key(a[0]), constraint_key(b[0])) {
        seq![a[0]] + merge(a.drop_first(), b)
    } else {
        seq![b[0]] + merge(a, b.drop_first())
    }
}

/// `s` and `t` hold the same members.
pub open spec fn same_members(s: Seq<ConstraintView>, t: Seq<ConstraintView>) -> bool {
    forall|x: ConstraintView| #[trigger] s.contains(x) <==> t.contains(x)
}

proof fn lemma_contains_cons(h: ConstraintView, rest: Seq<ConstraintView>, x: ConstraintView)
    ensures
        (seq![h] + rest).contains(x) <==> (x == h || rest.contains(x)),
{
    let s = seq![h] + rest;
    if s.contains(x) {
        let i = choose|i: int| 0 <= i < s.len() && s[i] == x;
        if i > 0 {
            assert(rest[i - 1] == x);
        }
    }
    if x == h {
        assert(s[0] == x);
    }
    if rest.contains(x) {
        let i = choose|i: int| 0 <= i < rest.len() && rest[i] == x;
        assert(s[i + 1] == x);
    }
}

proof fn lemma_contains_first(s: Seq<ConstraintView>, x: ConstraintView)
    requires
        s.len() > 0,
    ensures
        s.contains(x) <==> (x == s[0] || s.drop_first().contains(x)),
{
    assert(s =~= seq![s[0]] + s.drop_first());
    lemma_contains_cons(s[0], s.drop_first(), x);
}

proof fn lemma_contains_last(s: Seq<ConstraintView>, x: ConstraintView)
    requires
        s.len() > 0,
    ensures
        s.contains(x) <==> (x == s.last() || s.drop_last().contains(x)),
{
    if s.contains(x) {
        let i = choose|i: int| 0 <= i < s.len() && s[i] == x;
        if i < s.len() - 1 {
            assert(s.drop_last()[i] == x);
        }
    }
    if x == s.last() {
        assert(s[s.len() - 1] == x);
    }
    if s.drop_last().contains(x) {
        let i = choose|i: int| 0 <= i < s.drop_last().len() && s.drop_last()[i] == x;
        assert(s[i] == x);
    }
}

/// The head of an ascending list sorts before everything after it.
proof fn lemma_ascending_first(s: Seq<ConstraintView>)
    requires
        ascending(s),
        s.len() > 0,
    ensures
        ascending(s.drop_first()),
        forall|y: ConstraintView|
            #[trigger] s.drop_first().contains(y) ==> keys_lt(
                constraint_key(s[0]),
                constraint_key(y),
            ),
        !s.drop_first().contains(s[0]),
{
    let t = s.drop_first();
    assert forall|i: int, j: int| 0 <= i < j < t.len() implies keys_lt(
        #[trigger] constraint_key(t[i]),
        #[trigger] constraint_key(t[j]),
    ) by {
        assert(t[i] == s[i + 1] && t[j] == s[j + 1]);
    }
    assert forall|y: ConstraintView| #[trigger] t.contains(y) implies keys_lt(
        constraint_key(s[0]),
        constraint_key(y),
    ) by {
        let i = choose|i: int| 0 <= i < t.len() && t[i] == y;
        assert(s[i + 1] == y);
    }
    lemma_keys_lt_irreflexive(constraint_key(s[0]));
}

/// Putting `h` before an ascending list whose members all sort after it
/// gives an ascending list.
proof fn lemma_ascending_cons(h: ConstraintView, rest: Seq<ConstraintView>)
    requires
        ascending(rest),
        forall|y: ConstraintView| #[trigger] rest.contains(y) ==> keys_lt(
            constraint_key(h),
            constraint_key(y),
        ),
    ensures
        ascending(seq![h] + rest),
{
    let s = seq![h] + rest;
    assert forall|i: int, j: int| 0 <= i < j < s.len() implies keys_lt(
        #[trigger] constraint_key(s[i]),
        #[trigger] constraint_key(s[j]),
    ) by {
        assert(s[j] == rest[j - 1]);
        if i == 0 {
            assert(rest.contains(rest[j - 1]));
        } else {
            assert(s[i] == rest[i - 1]);
        }
    }
}

/// The union of two ascending lists is ascending and holds exactly their
/// members.
pub proof fn lemma_merge(a: Seq<ConstraintView>, b: Seq<ConstraintView>)
    requires
        ascending(a),
        ascending(b),
    ensures
        ascending(merge(a, b)),
        forall|x: ConstraintView| #[trigger]
            merge(a, b).contains(x) <==> (a.contains(x) || b.contains(x)),
    decreases a.len() + b.len(),
{
    if a.len() == 0 || b.len() == 0 {
        assert forall|x: ConstraintView| #[trigger]
            merge(a, b).contains(x) <==> (a.contains(x) || b.contains(x)) by {
            if a.len() == 0 && a.contains(x) {
                let i = choose|i: int| 0 <= i < a.len() && a[i] == x;
            }
            if b.len() == 0 && b.contains(x) {
                let i = choose|i: int| 0 <= i < b.len() && b[i] == x;
            }
        }
    } else {
        let ka = constraint_key(a[0]);
        let kb = constraint_key(b[0]);
        lemma_ascending_first(a);
        lemma_ascending_first(b);
        if ka == kb {
            lemma_constraint_key_injective(a[0], b[0]);
            let rest = merge(a.drop_first(), b.drop_first());
            lemma_merge(a.drop_first(), b.drop_first());
            assert forall|y: ConstraintView| #[trigger] rest.contains(y) implies keys_lt(
                ka,
                constraint_key(y),
            ) by {}
            lemma_ascending_cons(a[0], rest);
            assert forall|x: ConstraintView| #[trigger]
                merge(a, b).contains(x) <==> (a.contains(x) || b.contains(x)) by {
                lemma_contains_cons(a[0], rest, x);
                lemma_contains_first(a, x);
                lemma_contains_first(b, x);
            }
        } else if keys_lt(ka, kb) {
            let rest = merge(a.drop_first(), b);
            lemma_merge(a.drop_first(), b);
            assert forall|y: ConstraintView| #[trigger] rest.contains(y) implies keys_lt(
                ka,
                constraint_key(y),
            ) by {
                lemma_contains_first(b, y);
                if b.drop_first().contains(y) {
                    lemma_keys_lt_transitive(ka, kb, constraint_key(y));
                }
            }
            lemma_ascending_cons(a[0], rest);
            assert forall|x: ConstraintView| #[trigger]
                merge(a, b).contains(x) <==> (a.contains(x) || b.contains(x)) by {
                lemma_contains_cons(a[0], rest, x);
                lemma_contains_first(a, x);
            }
        } else {
            lemma_keys_lt_total(ka, kb);
            let rest = merge(a, b.drop_first());
            lemma_merge(a, b.drop_first());
            assert forall|y: ConstraintView| #[trigger] rest.contains(y) implies keys_lt(
                kb,
                constraint_key(y),
            ) by {
                lemma_contains_first(a, y);
                if a.drop_first().contains(y) {
                    lemma_keys_lt_transitive(kb, ka, constraint_key(y));
                }
            }
            lemma_ascending_cons(b[0], rest);
            assert forall|x: ConstraintView| #[trigger]
                merge(a, b).contains(x) <==> (a.contains(x) || b.contains(x)) by {
                lemma_contains_cons(b[0], rest, x);
                lemma_contains_first(b, x);
            }
        }
    }
}

/// An ascending list is determined by its members.
pub proof fn lemma_ascending_unique(s: Seq<ConstraintView>, t: Seq<ConstraintView>)
    requires
        ascending(s),
        ascending(t),
        same_members(s, t),
    ensures
        s == t,
    decreases s.len(),
{
    if s.len() == 0 {
        if t.len() > 0 {
            assert(t.contains(t[0]));
            assert(s.contains(t[0]));
            let i = choose|i: int| 0 <= i < s.len() && s[i] == t[0];
        }
        assert(s =~= t);
    } else {
        assert(s.contains(s[0]));
        assert(t.len() > 0);
        assert(t.contains(t[0]));
        lemma_ascending_first(s);
        lemma_ascending_first(t);
        lemma_contains_first(s, t[0]);
        lemma_contains_first(t, s[0]);
        if s[0] != t[0] {
            lemma_keys_lt_asymmetric(constraint_key(s[0]), constraint_key(t[0]));
        }
        assert forall|x: ConstraintView| #[trigger] s.drop_first().contains(x) <==> t.drop_first().contains(x) by {
            lemma_contains_first(s, x);
            lemma_contains_first(t, x);
        }
        lemma_ascending_unique(s.drop_first(), t.drop_first());
        assert(s =~= seq![s[0]] + s.drop_first());
        assert(t =~= seq![t[0]] + t.drop_first());
    }
}

/// The union of constraint sets commutes.
pub proof fn lemma_merge_commutes(a: Seq<ConstraintView>, b: Seq<ConstraintView>)
    requires
        ascending(a),
        ascending(b),
    ensures
        merge(a, b) == merge(b, a),
{
    lemma_merge(a, b);
    lemma_merge(b, a);
    lemma_ascending_unique(merge(a, b), merge(b, a));
}

/// The union of constraint sets associates.
pub proof fn lemma_merge_associates(
    a: Seq<ConstraintView>,
    b: Seq<ConstraintView>,
    c: Seq<ConstraintView>,
)
    requires
        ascending(a),
        ascending(b),
        ascending(c),
    ensures
        merge(merge(a, b), c) == merge(a, merge(b, c)),
{
    lemma_merge(a, b);
    lemma_merge(b, c);
    lemma_merge(merge(a, b), c);
    lemma_merge(a, merge(b, c));
    lemma_ascending_unique(merge(merge(a, b), c), merge(a, merge(b, c)));
}

/// A set joined with itself is unchanged.
pub proof fn lemma_merge_idempotent(a: Seq<ConstraintView>)
    requires
        ascending(a),
    ensures
        merge(a, a) == a,
{
    lemma_merge(a, a);
    lemma_ascending_unique(merge(a, a), a);
}

// ---------------------------------------------------------------------
// The reach a list of constraints requires.

/// The join of what each constraint requires, taken left to right.
pub open spec fn fold_required(s: Seq<ConstraintView>) -> Option<ReachView>
    decreases s.len(),
{
    if s.len() == 0 {
        None
    } else {
        option_join(fold_required(s.drop_last()), constraint_required(s.last()))
    }
}

pub open spec fn all_wf(s: Seq<ConstraintView>) -> bool {
    forall|i: int| 0 <= i < s.len() ==> constraint_wf(#[trigger] s[i])
}

proof fn lemma_option_join_commutes(a: Option<ReachView>, b: Option<ReachView>)
    ensures
        option_join(a, b) == option_join(b, a),
{
    if let (Some(x), Some(y)) = (a, b) {
        lemma_reach_join_commutes(x, y);
    }
}

proof fn lemma_option_join_associates(
    a: Option<ReachView>,
    b: Option<ReachView>,
    c: Option<ReachView>,
)
    ensures
        option_join(option_join(a, b), c) == option_join(a, option_join(b, c)),
{
    if let (Some(x), Some(y), Some(z)) = (a, b, c) {
        lemma_reach_join_associates(x, y, z);
    }
}

proof fn lemma_option_join_idempotent(a: Option<ReachView>)
    requires
        option_wf(a),
    ensures
        option_join(a, a) == a,
{
    if let Some(x) = a {
        lemma_reach_join_idempotent(x);
    }
}

proof fn lemma_reach_join_wf(a: ReachView, b: ReachView)
    ensures
        reach_wf(reach_join(a, b)),
{
}

proof fn lemma_required_wf(c: ConstraintView)
    requires
        constraint_wf(c),
    ensures
        option_wf(constraint_required(c)),
{
    if let (Some(x), FacadeView::Resolved(y)) = (c.signature, c.facade) {
        lemma_reach_join_wf(x, y);
    }
}

proof fn lemma_fold_wf(s: Seq<ConstraintView>)
    requires
        all_wf(s),
    ensures
        option_wf(fold_required(s)),
    decreases s.len(),
{
    if s.len() > 0 {
        let p = s.drop_last();
        assert(all_wf(p)) by {
            assert forall|i: int| 0 <= i < p.len() implies constraint_wf(#[trigger] p[i]) by {
                assert(p[i] == s[i]);
            }
        }
        lemma_fold_wf(p);
        assert(constraint_wf(s[s.len() - 1]));
        lemma_required_wf(s.last());
        if let (Some(x), Some(y)) = (fold_required(p), constraint_required(s.last())) {
            lemma_reach_join_wf(x, y);
        }
    }
}

proof fn lemma_all_wf_drop_last(s: Seq<ConstraintView>)
    requires
        all_wf(s),
        s.len() > 0,
    ensures
        all_wf(s.drop_last()),
        constraint_wf(s.last()),
{
    let p = s.drop_last();
    assert forall|i: int| 0 <= i < p.len() implies constraint_wf(#[trigger] p[i]) by {
        assert(p[i] == s[i]);
    }
    assert(constraint_wf(s[s.len() - 1]));
}

/// Joining in what a member already contributed changes nothing.
proof fn lemma_fold_absorbs(s: Seq<ConstraintView>, x: ConstraintView)
    requires
        all_wf(s),
        s.contains(x),
    ensures
        option_join(fold_required(s), constraint_required(x)) == fold_required(s),
    decreases s.len(),
{
    let p = s.drop_last();
    let l = s.last();
    lemma_all_wf_drop_last(s);
    let f = fold_required(p);
    let rl = constraint_required(l);
    let rx = constraint_required(x);
    lemma_contains_last(s, x);
    lemma_option_join_associates(f, rl, rx);
    if x == l {
        lemma_required_wf(l);
        lemma_option_join_idempotent(rl);
    } else {
        lemma_option_join_commutes(rl, rx);
        lemma_option_join_associates(f, rx, rl);
        lemma_fold_absorbs(p, x);
    }
}

/// Joining in the requirement of a list whose members are all members of
/// `s` changes nothing.
proof fn lemma_fold_subset(s: Seq<ConstraintView>, t: Seq<ConstraintView>)
    requires
        all_wf(s),
        all_wf(t),
        forall|y: ConstraintView| #[trigger] t.contains(y) ==> s.contains(y),
    ensures
        option_join(fold_required(s), fold_required(t)) == fold_required(s),
    decreases t.len(),
{
    if t.len() > 0 {
        let q = t.drop_last();
        let y = t.last();
        lemma_all_wf_drop_last(t);
        assert forall|z: ConstraintView| #[trigger] q.contains(z) implies s.contains(z) by {
            lemma_contains_last(t, z);
        }
        lemma_fold_subset(s, q);
        lemma_option_join_associates(fold_required(s), fold_required(q), constraint_required(y));
        lemma_contains_last(t, y);
        lemma_fold_absorbs(s, y);
    }
}

/// Lists with the same members require the same reach.
proof fn lemma_fold_same_members(s: Seq<ConstraintView>, t: Seq<ConstraintView>)
    requires
        all_wf(s),
        all_wf(t),
        same_members(s, t),
    ensures
        fold_required(s) == fold_required(t),
{
    lemma_fold_subset(s, t);
    lemma_fold_subset(t, s);
    lemma_option_join_commutes(fold_required(s), fold_required(t));
}

/// What a concatenation requires is the join of what its parts require.
proof fn lemma_fold_concat(s: Seq<ConstraintView>, t: Seq<ConstraintView>)
    ensures
        fold_required(s + t) == option_join(fold_required(s), fold_required(t)),
    decreases t.len(),
{
    if t.len() == 0 {
        assert(s + t =~= s);
    } else {
        let q = t.drop_last();
        assert((s + t).drop_last() =~= s + q);
        assert((s + t).last() == t.last());
        lemma_fold_concat(s, q);
        lemma_option_join_associates(
            fold_required(s),
            fold_required(q),
            constraint_required(t.last()),
        );
    }
}

/// The reach a union of constraint sets requires is the join of the reaches
/// the two sets require, whenever every reach the constraints name is well
/// formed.
pub proof fn lemma_merge_required_reach(a: Seq<ConstraintView>, b: Seq<ConstraintView>)
    requires
        ascending(a),
        ascending(b),
        all_wf(a),
        all_wf(b),
    ensures
        fold_required(merge(a, b)) == option_join(fold_required(a), fold_required(b)),
{
    let m = merge(a, b);
    let c = a + b;
    lemma_merge(a, b);
    assert forall|x: ConstraintView| #[trigger] c.contains(x) <==> (a.contains(x) || b.contains(x)) by {
        if c.contains(x) {
            let i = choose|i: int| 0 <= i < c.len() && c[i] == x;
            if i < a.len() {
                assert(a[i] == x);
            } else {
                assert(b[i - a.len()] == x);
            }
        }
        if a.contains(x) {
            let i = choose|i: int| 0 <= i < a.len() && a[i] == x;
            assert(c[i] == x);
        }
        if b.contains(x) {
            let i = choose|i: int| 0 <= i < b.len() && b[i] == x;
            assert(c[i + a.len()] == x);
        }
    }
    assert(all_wf(c)) by {
        assert forall|i: int| 0 <= i < c.len() implies constraint_wf(#[trigger] c[i]) by {
            if i < a.len() {
                assert(c[i] == a[i]);
            } else {
                assert(c[i] == b[i - a.len()]);
            }
        }
    }
    assert(all_wf(m)) by {
        assert forall|i: int| 0 <= i < m.len() implies constraint_wf(#[trigger] m[i]) by {
            assert(m.contains(m[i]));
            if a.contains(m[i]) {
                let j = choose|j: int| 0 <= j < a.len() && a[j] == m[i];
            } else {
                let j = choose|j: int| 0 <= j < b.len() && b[j] == m[i];
            }
        }
    }
    lemma_fold_same_members(m, c);
    lemma_fold_concat(a, b);
}

// ---------------------------------------------------------------------
// The executable set.

proof fn lemma_views_push(v: Seq<StoredVisibilityConstraint>, x: StoredVisibilityConstraint)
    ensures
        views_of(v.push(x)) == views_of(v).push(x@),
{
    assert(views_of(v.push(x)) =~= views_of(v).push(x@));
}

proof fn lemma_views_drop_last(v: Seq<StoredVisibilityConstraint>)
    requires
        v.len() > 0,
    ensures
        views_of(v.drop_last()) == views_of(v).drop_last(),
{
    assert(views_of(v.drop_last()) =~= views_of(v).drop_last());
}

proof fn lemma_views_insert(v: Seq<StoredVisibilityConstraint>, i: int, x: StoredVisibilityConstraint)
    requires
        0 <= i <= v.len(),
    ensures
        views_of(v.insert(i, x)) == views_of(v).insert(i, x@),
{
    assert(views_of(v.insert(i, x)) =~= views_of(v).insert(i, x@));
}

/// Adds `x` to an ascending list unless a constraint with its key is there.
fn insert_unique(v: &mut Vec<StoredVisibilityConstraint>, x: StoredVisibilityConstraint)
    requires
        ascending(views_of(old(v)@)),
    ensures
        ascending(views_of(final(v)@)),
        forall|y: ConstraintView| #[trigger]
            views_of(final(v)@).contains(y) <==> (views_of(old(v)@).contains(y) || y == x@),
{
    let ghost s = views_of(v@);
    let ghost kx = constraint_key(x@);
    let mut i: usize = 0;
    while i < v.len()
        invariant
            i <= v.len(),
            s == views_of(v@),
            ascending(s),
            kx == constraint_key(x@),
            forall|j: int| 0 <= j < i ==> keys_lt(#[trigger] constraint_key(s[j]), kx),
        ensures
            i <= v.len(),
            s == views_of(v@),
            forall|j: int| 0 <= j < i ==> keys_lt(#[trigger] constraint_key(s[j]), kx),
            i < v.len() ==> !keys_lt(constraint_key(s[i as int]), kx),
        decreases v.len() - i,
    {
        if compare_keyed(&v[i], &x) != TextOrder::Less {
            proof {
                lemma_keys_lt_irreflexive(kx);
                assert(s[i as int] == v@[i as int]@);
            }
            break;
        }
        i = i + 1;
    }
    if i < v.len() && compare_keyed(&v[i], &x) == TextOrder::Equal {
        proof {
            lemma_constraint_key_injective(s[i as int], x@);
            assert forall|y: ConstraintView| #[trigger] s.contains(y) <==> (s.contains(y) || y == x@) by {
                if y == x@ {
                    assert(s[i as int] == y);
                }
            }
        }
        return;
    }
    proof {
        if i < s.len() {
            lemma_keys_lt_total(constraint_key(s[i as int]), kx);
        }
        assert forall|j: int| i <= j < s.len() implies keys_lt(kx, #[trigger] constraint_key(s[j])) by {
            if j > i {
                lemma_keys_lt_transitive(kx, constraint_key(s[i as int]), constraint_key(s[j]));
            }
        }
    }
    let ghost xv = x@;
    let ghost before = v@;
    v.insert(i, x);
    proof {
        lemma_views_insert(before, i as int, x);
        let t = views_of(v@);
        assert(t == s.insert(i as int, xv));
        assert forall|a: int, b: int| 0 <= a < b < t.len() implies keys_lt(
            #[trigger] constraint_key(t[a]),
            #[trigger] constraint_key(t[b]),
        ) by {
            if b < i {
                assert(t[a] == s[a] && t[b] == s[b]);
            } else if b == i {
                assert(t[a] == s[a]);
            } else if a < i {
                assert(t[a] == s[a] && t[b] == s[b - 1]);
                lemma_keys_lt_transitive(constraint_key(s[a]), kx, constraint_key(s[b - 1]));
            } else if a == i {
                assert(t[b] == s[b - 1]);
            } else {
                assert(t[a] == s[a - 1] && t[b] == s[b - 1]);
            }
        }
        assert forall|y: ConstraintView| #[trigger] t.contains(y) <==> (s.contains(y) || y == xv) by {
            if t.contains(y) {
                let k = choose|k: int| 0 <= k < t.len() && t[k] == y;
                if k < i {
                    assert(s[k] == y);
                } else if k > i {
                    assert(s[k - 1] == y);
                }
            }
            if s.contains(y) {
                let k = choose|k: int| 0 <= k < s.len() && s[k] == y;
                if k < i {
                    assert(t[k] == y);
                } else {
                    assert(t[k + 1] == y);
                }
            }
            if y == xv {
                assert(t[i as int] == y);
            }
        }
    }
}

/// A set of visibility constraints on one declaration.
#[derive(Debug, PartialEq, Eq)]
pub struct VisibilityConstraintSet {
    constraints: Vec<StoredVisibilityConstraint>,
}

impl View for VisibilityConstraintSet {
    type V = Seq<ConstraintView>;

    closed spec fn view(&self) -> Seq<ConstraintView> {
        views_of(self.constraints@)
    }
}

pub open spec fn any_blocked(s: Seq<ConstraintView>) -> bool {
    exists|i: int| 0 <= i < s.len() && #[trigger] s[i].facade is Blocked
}

pub open spec fn absent_or_impossible(f: FacadeView) -> bool {
    f is Absent || f is Impossible
}

pub open spec fn any_absent_facade(s: Seq<ConstraintView>) -> bool {
    exists|i: int| 0 <= i < s.len() && absent_or_impossible(#[trigger] s[i].facade)
}

pub open spec fn all_impossible(s: Seq<ConstraintView>) -> bool {
    s.len() > 0 && forall|i: int| 0 <= i < s.len() ==> #[trigger] s[i].facade is Impossible
}

pub open spec fn all_absent_or_impossible(s: Seq<ConstraintView>) -> bool {
    s.len() > 0 && forall|i: int| 0 <= i < s.len() ==> absent_or_impossible(#[trigger] s[i].facade)
}

pub open spec fn all_resolved(s: Seq<ConstraintView>) -> bool {
    forall|i: int| 0 <= i < s.len() ==> #[trigger] s[i].facade is Resolved
}

pub open spec fn all_exact_eligible(s: Seq<ConstraintView>) -> bool {
    forall|i: int| 0 <= i < s.len() ==> #[trigger] s[i].exact == StoredExactBoundaryAcceptance::Eligible
}

pub open spec fn all_paths_allowed(s: Seq<ConstraintView>) -> bool {
    forall|i: int| 0 <= i < s.len() ==> #[trigger] s[i].policy == StoredExactPathPolicy::Allowed
}

pub open spec fn all_edits_eligible(s: Seq<ConstraintView>) -> bool {
    forall|i: int| 0 <= i < s.len() ==> #[trigger] s[i].edit == StoredExactBoundaryAcceptance::Eligible
}

pub open spec fn uniform_declared(s: Seq<ConstraintView>) -> Option<ReachView> {
    if s.len() > 0 && forall|i: int| 0 <= i < s.len() ==> #[trigger] s[i].declared == s[0].declared {
        Some(s[0].declared)
    } else {
        None
    }
}

/// Each constraint spells an exact path that is what its own signature
/// demands, with no facade.
pub open spec fn exactly_signature_reach(c: ConstraintView) -> bool {
    &&& c.spelling == StoredVisibilitySpelling::ExactPath
    &&& c.facade is Absent
    &&& c.signature == Some(c.declared)
}

pub open spec fn declares_exactly_signature(s: Seq<ConstraintView>) -> bool {
    &&& s.len() > 0
    &&& all_exact_eligible(s)
    &&& forall|i: int| 0 <= i < s.len() ==> exactly_signature_reach(#[trigger] s[i])
}

pub open spec fn caller_reconciled(s: Seq<ConstraintView>) -> bool {
    ||| exists|i: int| 0 <= i < s.len() && #[trigger] s[i].reconciliation
        == StoredCallerReconciliation::CallerAware
    ||| (any_absent_facade(s) && fold_required(s) is Some)
}

impl Clone for VisibilityConstraintSet {
    fn clone(&self) -> (res: Self)
        ensures
            res@ == self@,
    {
        let mut out: Vec<StoredVisibilityConstraint> = Vec::new();
        let mut i: usize = 0;
        while i < self.constraints.len()
            invariant
                i <= self.constraints.len(),
                views_of(out@) == views_of(self.constraints@).take(i as int),
            decreases self.constraints.len() - i,
        {
            let c = self.constraints[i].clone();
            proof {
                lemma_views_push(out@, c);
            }
            out.push(c);
            i = i + 1;
            proof {
                assert(views_of(self.constraints@).take(i as int) =~= views_of(
                    self.constraints@,
                ).take(i - 1).push(self.constraints@[i - 1]@));
            }
        }
        proof {
            assert(views_of(self.constraints@).take(i as int) =~= views_of(self.constraints@));
        }
        VisibilityConstraintSet { constraints: out }
    }
}

impl VisibilityConstraintSet {
    /// The set stays ascending by key.
    pub open spec fn wf(&self) -> bool {
        ascending(self@)
    }

    /// The empty set.
    pub fn new() -> (r: Self)
        ensures
            r.wf(),
            r@ == Seq::<ConstraintView>::empty(),
    {
        let r = VisibilityConstraintSet { constraints: Vec::new() };
        proof {
            assert(r@ =~= Seq::<ConstraintView>::empty());
        }
        r
    }

    /// The set holding one constraint.
    pub fn from_constraint(constraint: StoredVisibilityConstraint) -> (r: Self)
        ensures
            r.wf(),
            r@ == seq![constraint@],
    {
        let mut v: Vec<StoredVisibilityConstraint> = Vec::new();
        let ghost cv = constraint@;
        v.push(constraint);
        let r = VisibilityConstraintSet { constraints: v };
        proof {
            assert(r@ =~= seq![cv]);
        }
        r
    }

    /// The union of two sets.
    pub fn join(self, additional: Self) -> (r: Self)
        requires
            self.wf(),
            additional.wf(),
        ensures
            r.wf(),
            r@ == merge(self@, additional@),
    {
        let ghost a = self@;
        let ghost b = additional@;
        let mut out = self.constraints;
        let mut rest = additional.constraints;
        proof {
            assert forall|y: ConstraintView| #[trigger] views_of(out@).contains(y) || views_of(
                rest@,
            ).contains(y) <==> (a.contains(y) || b.contains(y)) by {}
            assert forall|i: int, j: int| 0 <= i < j < views_of(rest@).len() implies keys_lt(
                #[trigger] constraint_key(views_of(rest@)[i]),
                #[trigger] constraint_key(views_of(rest@)[j]),
            ) by {}
        }
        while rest.len() > 0
            invariant
                ascending(views_of(out@)),
                forall|y: ConstraintView| #[trigger] views_of(out@).contains(y) || views_of(
                    rest@,
                ).contains(y) <==> (a.contains(y) || b.contains(y)),
            decreases rest.len(),
        {
            let ghost before = rest@;
            let ghost out_before = views_of(out@);
            let x = rest.pop().unwrap();
            proof {
                lemma_views_drop_last(before);
                assert(views_of(before).last() == x@);
            }
            insert_unique(&mut out, x);
            proof {
                assert forall|y: ConstraintView| #[trigger] views_of(out@).contains(y) || views_of(
                    rest@,
                ).contains(y) <==> (a.contains(y) || b.contains(y)) by {
                    lemma_contains_last(views_of(before), y);
                    assert(views_of(out@).contains(y) <==> (out_before.contains(y) || y == x@));
                }
            }
        }
        proof {
            lemma_merge(a, b);
            assert forall|y: ConstraintView| #[trigger] views_of(out@).contains(y) <==> merge(
                a,
                b,
            ).contains(y) by {
                if views_of(rest@).contains(y) {
                    let k = choose|k: int| 0 <= k < views_of(rest@).len() && views_of(rest@)[k] == y;
                }
            }
            lemma_ascending_unique(views_of(out@), merge(a, b));
        }
        VisibilityConstraintSet { constraints: out }
    }

    pub fn len(&self) -> (n: usize)
        ensures
            n == self@.len(),
    {
        self.constraints.len()
    }

    pub fn is_empty(&self) -> (b: bool)
        ensures
            b == (self@.len() == 0),
    {
        self.constraints.len() == 0
    }

    /// The constraint with the least key, if any.
    pub fn first(&self) -> (r: Option<&StoredVisibilityConstraint>)
        ensures
            self@.len() == 0 ==> r is None,
            self@.len() > 0 ==> (r matches Some(c) && c@ == self@[0]),
    {
        if self.constraints.len() == 0 {
            None
        } else {
            Some(&self.constraints[0])
        }
    }

    /// The constraint at position `i` in key order.
    pub fn get(&self, i: usize) -> (c: &StoredVisibilityConstraint)
        requires
            i < self@.len(),
        ensures
            c@ == self@[i as int],
    {
        &self.constraints[i]
    }

    /// The join of what every member requires, or `None` if no member
    /// requires a reach.
    pub fn required_reach(&self) -> (r: Option<StoredVisibilityReach>)
        ensures
            option_reach_view(r) == fold_required(self@),
    {
        let ghost s = self@;
        let mut acc: Option<StoredVisibilityReach> = None;
        let mut i: usize = 0;
        proof {
            assert(s.take(0) =~= Seq::<ConstraintView>::empty());
        }
        while i < self.constraints.len()
            invariant
                i <= self.constraints.len(),
                s == self@,
                s == views_of(self.constraints@),
                option_reach_view(acc) == fold_required(s.take(i as int)),
            decreases self.constraints.len() - i,
        {
            let required = self.constraints[i].required_reach();
            acc = match (acc, required) {
                (Some(current), Some(additional)) => Some(current.join(&additional)),
                (Some(current), None) => Some(current),
                (None, additional) => additional,
            };
            proof {
                assert(s.take(i + 1).drop_last() =~= s.take(i as int));
                assert(s.take(i + 1).last() == s[i as int]);
            }
            i = i + 1;
        }
        proof {
            assert(s.take(i as int) =~= s);
        }
        acc
    }

    /// Some member's facade is blocked.
    pub fn includes_facade_blocker(&self) -> (b: bool)
        ensures
            b == any_blocked(self@),
    {
        let ghost s = self@;
        let mut i: usize = 0;
        while i < self.constraints.len()
            invariant
                i <= self.constraints.len(),
                s == views_of(self.constraints@),
                forall|j: int| 0 <= j < i ==> !(#[trigger] s[j].facade is Blocked),
            decreases self.constraints.len() - i,
        {
            if matches!(self.constraints[i].facade, StoredFacadeConstraint::Blocked) {
                assert(s[i as int].facade is Blocked);
                return true;
            }
            i = i + 1;
        }
        false
    }

    /// Some member has no facade, or one that cannot exist.
    pub fn includes_absent_facade(&self) -> (b: bool)
        ensures
            b == any_absent_facade(self@),
    {
        let ghost s = self@;
        let mut i: usize = 0;
        while i < self.constraints.len()
            invariant
                i <= self.constraints.len(),
                s == views_of(self.constraints@),
                forall|j: int| 0 <= j < i ==> !absent_or_impossible(#[trigger] s[j].facade),
            decreases self.constraints.len() - i,
        {
            if matches!(
                self.constraints[i].facade,
                StoredFacadeConstraint::Absent | StoredFacadeConstraint::Impossible
            ) {
                assert(absent_or_impossible(s[i as int].facade));
                return true;
            }
            i = i + 1;
        }
        false
    }

    /// The set is not empty and no member could have a facade.
    pub fn all_facades_are_impossible(&self) -> (b: bool)
        ensures
            b == all_impossible(self@),
    {
        let ghost s = self@;
        if self.constraints.len() == 0 {
            return false;
        }
        let mut i: usize = 0;
        while i < self.constraints.len()
            invariant
                i <= self.constraints.len(),
                s == views_of(self.constraints@),
                forall|j: int| 0 <= j < i ==> #[trigger] s[j].facade is Impossible,
            decreases self.constraints.len() - i,
        {
            if !matches!(self.constraints[i].facade, StoredFacadeConstraint::Impossible) {
                assert(!(s[i as int].facade is Impossible));
                return false;
            }
            i = i + 1;
        }
        true
    }

    /// The set is not empty and no member has a facade.
    pub fn all_facades_are_absent_or_impossible(&self) -> (b: bool)
        ensures
            b == all_absent_or_impossible(self@),
    {
        let ghost s = self@;
        if self.constraints.len() == 0 {
            return false;
        }
        let mut i: usize = 0;
        while i < self.constraints.len()
            invariant
                i <= self.constraints.len(),
                s == views_of(self.constraints@),
                forall|j: int| 0 <= j < i ==> absent_or_impossible(#[trigger] s[j].facade),
            decreases self.constraints.len() - i,
        {
            if !matches!(
                self.constraints[i].facade,
                StoredFacadeConstraint::Absent | StoredFacadeConstraint::Impossible
            ) {
                assert(!absent_or_impossible(s[i as int].facade));
                return false;
            }
            i = i + 1;
        }
        true
    }

    /// Every member's facade resolved (vacuously so for the empty set).
    pub fn all_facades_are_resolved(&self) -> (b: bool)
        ensures
            b == all_resolved(self@),
    {
        let ghost s = self@;
        let mut i: usize = 0;
        while i < self.constraints.len()
            invariant
                i <= self.constraints.len(),
                s == views_of(self.constraints@),
                forall|j: int| 0 <= j < i ==> #[trigger] s[j].facade is Resolved,
            decreases self.constraints.len() - i,
        {
            if !matches!(self.constraints[i].facade, StoredFacadeConstraint::Resolved { .. }) {
                assert(!(s[i as int].facade is Resolved));
                return false;
            }
            i = i + 1;
        }
        true
    }

    /// Every member accepts an exact-boundary replacement.
    pub fn all_exact_boundaries_are_eligible(&self) -> (b: bool)
        ensures
            b == all_exact_eligible(self@),
    {
        let ghost s = self@;
        let mut i: usize = 0;
        while i < self.constraints.len()
            invariant
                i <= self.constraints.len(),
                s == views_of(self.constraints@),
                forall|j: int| 0 <= j < i ==> #[trigger] s[j].exact == StoredExactBoundaryAcceptance::Eligible,
            decreases self.constraints.len() - i,
        {
            if self.constraints[i].exact_boundary_acceptance != StoredExactBoundaryAcceptance::Eligible {
                assert(s[i as int].exact != StoredExactBoundaryAcceptance::Eligible);
                return false;
            }
            i = i + 1;
        }
        true
    }

    /// Every member's project allows an exact `pub(in crate::...)` path.
    pub fn all_exact_paths_are_allowed(&self) -> (b: bool)
        ensures
            b == all_paths_allowed(self@),
    {
        let ghost s = self@;
        let mut i: usize = 0;
        while i < self.constraints.len()
            invariant
                i <= self.constraints.len(),
                s == views_of(self.constraints@),
                forall|j: int| 0 <= j < i ==> #[trigger] s[j].policy == StoredExactPathPolicy::Allowed,
            decreases self.constraints.len() - i,
        {
            if self.constraints[i].exact_path_policy != StoredExactPathPolicy::Allowed {
                assert(s[i as int].policy != StoredExactPathPolicy::Allowed);
                return false;
            }
            i = i + 1;
        }
        true
    }

    /// Every member's declaration form lets mend edit its annotation, with
    /// no question of what the replacement spells.
    pub fn all_annotation_edits_are_eligible(&self) -> (b: bool)
        ensures
            b == all_edits_eligible(self@),
    {
        let ghost s = self@;
        let mut i: usize = 0;
        while i < self.constraints.len()
            invariant
                i <= self.constraints.len(),
                s == views_of(self.constraints@),
                forall|j: int| 0 <= j < i ==> #[trigger] s[j].edit == StoredExactBoundaryAcceptance::Eligible,
            decreases self.constraints.len() - i,
        {
            if self.constraints[i].annotation_edit_acceptance != StoredExactBoundaryAcceptance::Eligible {
                assert(s[i as int].edit != StoredExactBoundaryAcceptance::Eligible);
                return false;
            }
            i = i + 1;
        }
        true
    }

    /// Whether the members allow a rewrite to `spelling`: every annotation
    /// can be edited, and an exact `pub(in crate::...)` path is allowed
    /// wherever the rewrite would spell one.
    pub fn supports_rewrite(&self, spelling: ExactBoundarySpelling) -> (b: bool)
        ensures
            b == (all_edits_eligible(self@) && (spelling != ExactBoundarySpelling::CratePath
                || all_paths_allowed(self@))),
    {
        self.all_annotation_edits_are_eligible() && (spelling != ExactBoundarySpelling::CratePath
            || self.all_exact_paths_are_allowed())
    }

    /// The reach every member declares, if they all declare the same one.
    pub fn uniform_declared_reach(&self) -> (r: Option<StoredVisibilityReach>)
        ensures
            option_reach_view(r) == uniform_declared(self@),
    {
        let ghost s = self@;
        if self.constraints.len() == 0 {
            return None;
        }
        let first = &self.constraints[0].declared_reach;
        let mut i: usize = 1;
        while i < self.constraints.len()
            invariant
                1 <= i <= self.constraints.len(),
                s == views_of(self.constraints@),
                first@ == s[0].declared,
                forall|j: int| 0 <= j < i ==> #[trigger] s[j].declared == s[0].declared,
            decreases self.constraints.len() - i,
        {
            if self.constraints[i].declared_reach != *first {
                assert(s[i as int].declared != s[0].declared);
                return None;
            }
            i = i + 1;
        }
        Some(first.clone())
    }

    /// Every member spells an exact crate-rooted path that matches the reach
    /// its own signature demands, and none has a facade: nothing but the
    /// callers can still demand the boundary.
    pub fn declares_exactly_its_signature_reach(&self) -> (b: bool)
        ensures
            b == declares_exactly_signature(self@),
    {
        let ghost s = self@;
        if self.constraints.len() == 0 || !self.all_exact_boundaries_are_eligible() {
            return false;
        }
        let mut i: usize = 0;
        while i < self.constraints.len()
            invariant
                i <= self.constraints.len(),
                s == views_of(self.constraints@),
                forall|j: int| 0 <= j < i ==> exactly_signature_reach(#[trigger] s[j]),
            decreases self.constraints.len() - i,
        {
            let c = &self.constraints[i];
            let matches_signature = match &c.signature_requirement {
                Some(required) => *required == c.declared_reach,
                None => false,
            };
            if !(c.spelling == StoredVisibilitySpelling::ExactPath && matches!(
                c.facade,
                StoredFacadeConstraint::Absent
            ) && matches_signature) {
                assert(!exactly_signature_reach(s[i as int]));
                return false;
            }
            i = i + 1;
        }
        true
    }

    /// Whether the callers decide this declaration's boundary: some member
    /// asked for it, or a member without a facade still requires a reach.
    pub fn uses_caller_reconciliation(&self) -> (b: bool)
        ensures
            b == caller_reconciled(self@),
    {
        let ghost s = self@;
        let mut i: usize = 0;
        while i < self.constraints.len()
            invariant
                i <= self.constraints.len(),
                s == views_of(self.constraints@),
                forall|j: int| 0 <= j < i ==> #[trigger] s[j].reconciliation
                    != StoredCallerReconciliation::CallerAware,
            decreases self.constraints.len() - i,
        {
            if self.constraints[i].caller_reconciliation == StoredCallerReconciliation::CallerAware {
                assert(s[i as int].reconciliation == StoredCallerReconciliation::CallerAware);
                return true;
            }
            i = i + 1;
        }
        self.includes_absent_facade() && self.required_reach().is_some()
    }
}

} // verus!
