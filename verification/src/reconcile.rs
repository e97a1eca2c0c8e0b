//! Passes over the reports of every compilation target of a run: findings
//! that must agree across sibling targets, `unused_pub` taking precedence
//! over other narrowings of the same item, and fix facts whose authorizing
//! finding was dropped.

use vstd::prelude::*;
use crate::findings::{
    DiagnosticCode, FindingView, FixFactView, fact_views, FixSupport, StoredFinding, StoredPubUseFixFact, StoredReport,
    finding_views, item_name, item_name_spec,
};
use crate::ordered::{TextOrder, compare_text};

verus! {

/// Keeps the findings whose flag is set, in order.
fn retain_flagged(
    findings: &mut Vec<StoredFinding>,
    keep: &Vec<bool>,
    Ghost(pred): Ghost<spec_fn(FindingView) -> bool>,
)
    requires
        keep@.len() == old(findings)@.len(),
        forall|j: int| 0 <= j < keep@.len() ==> keep@[j] == pred(#[trigger] old(findings)@[j]@),
    ensures
        finding_views(final(findings)@) == finding_views(old(findings)@).filter(pred),
{
    let ghost fs = finding_views(findings@);
    let mut rest: Vec<StoredFinding> = Vec::new();
    std::mem::swap(findings, &mut rest);
    let ghost initial = rest@;
    let mut i: usize = 0;
    proof {
        assert(fs.take(0).filter(pred) =~= Seq::<FindingView>::empty());
        assert(finding_views(findings@) =~= Seq::<FindingView>::empty());
    }
    while rest.len() > 0
        invariant
            i <= initial.len(),
            rest@ == initial.skip(i as int),
            keep.len() == initial.len(),
            fs == finding_views(initial),
            forall|j: int| 0 <= j < keep@.len() ==> keep@[j] == pred(#[trigger] initial[j]@),
            finding_views(findings@) == fs.take(i as int).filter(pred),
        decreases rest.len(),
    {
        let ghost rest_before = rest@;
        let f = rest.remove(0);
        proof {
            assert(rest_before[0] == initial[i as int]);
            assert(rest@ =~= initial.skip(i + 1));
            assert(fs.take(i + 1).drop_last() =~= fs.take(i as int));
            assert(fs.take(i + 1).last() == fs[i as int]);
            assert(fs[i as int] == initial[i as int]@);
            assert(i < keep.len());
            reveal(Seq::filter);
            assert(fs.take(i + 1).filter(pred) == (if pred(fs[i as int]) {
                fs.take(i as int).filter(pred).push(fs[i as int])
            } else {
                fs.take(i as int).filter(pred)
            }));
        }
        if keep[i] {
            let ghost before = findings@;
            let ghost fv = f@;
            findings.push(f);
            proof {
                assert(finding_views(findings@) =~= finding_views(before).push(fv));
            }
        }
        i = i + 1;
    }
    proof {
        assert(fs.take(i as int) =~= fs);
    }
}

// ---------------------------------------------------------------------
// Agreement across sibling targets.

/// Lints whose findings must be emitted by every target compiling the same
/// crate root: what one target alone sees unused, another may use.
pub open spec fn requires_agreement(code: DiagnosticCode) -> bool {
    code == DiagnosticCode::SuspiciousPub || code == DiagnosticCode::InternalParentPubUseFacade
}

/// Two findings sit at the same lint and position.
pub open spec fn same_site_and_code(a: FindingView, b: FindingView) -> bool {
    a.code == b.code && a.path == b.path && a.line == b.line && a.column == b.column
}

/// `r` holds a finding at `f`'s lint and position.
pub open spec fn emits(r: StoredReport, f: FindingView) -> bool {
    exists|j: int| 0 <= j < r.findings@.len() && same_site_and_code(#[trigger] r.findings@[j]@, f)
}

pub open spec fn same_crate(a: StoredReport, b: StoredReport) -> bool {
    a.crate_root_file@ == b.crate_root_file@
}

/// Another report compiled the same crate root as report `i`.
pub open spec fn has_sibling(reports: Seq<StoredReport>, i: int) -> bool {
    exists|q: int| 0 <= q < reports.len() && q != i && same_crate(#[trigger] reports[q], reports[i])
}

/// Every report of report `i`'s crate root emits `f`.
pub open spec fn agreed(reports: Seq<StoredReport>, i: int, f: FindingView) -> bool {
    forall|q: int|
        0 <= q < reports.len() && same_crate(#[trigger] reports[q], reports[i]) ==> emits(
            reports[q],
            f,
        )
}

/// Whether a finding of report `i` survives the intersection.
pub open spec fn survives_intersection(reports: Seq<StoredReport>, i: int, f: FindingView) -> bool {
    !requires_agreement(f.code) || !has_sibling(reports, i) || agreed(reports, i, f)
}

fn same_crate_root(a: &StoredReport, b: &StoredReport) -> (r: bool)
    ensures
        r == same_crate(*a, *b),
{
    compare_text(a.crate_root_file.as_str(), b.crate_root_file.as_str()) == TextOrder::Equal
}

fn report_emits(r: &StoredReport, f: &StoredFinding) -> (b: bool)
    ensures
        b == emits(*r, f@),
{
    let mut j: usize = 0;
    while j < r.findings.len()
        invariant
            j <= r.findings.len(),
            forall|k: int| 0 <= k < j ==> !same_site_and_code(#[trigger] r.findings@[k]@, f@),
        decreases r.findings.len() - j,
    {
        let g = &r.findings[j];
        if g.diagnostic_code == f.diagnostic_code && g.line == f.line && g.column == f.column
            && compare_text(g.path.as_str(), f.path.as_str()) == TextOrder::Equal {
            assert(same_site_and_code(r.findings@[j as int]@, f@));
            return true;
        }
        j = j + 1;
    }
    false
}

fn report_has_sibling(reports: &Vec<StoredReport>, i: usize) -> (b: bool)
    requires
        i < reports.len(),
    ensures
        b == has_sibling(reports@, i as int),
{
    let mut q: usize = 0;
    while q < reports.len()
        invariant
            q <= reports.len(),
            i < reports.len(),
            forall|k: int| 0 <= k < q && k != i ==> !same_crate(#[trigger] reports@[k], reports@[i as int]),
        decreases reports.len() - q,
    {
        if q != i && same_crate_root(&reports[q], &reports[i]) {
            return true;
        }
        q = q + 1;
    }
    false
}

fn all_siblings_emit(reports: &Vec<StoredReport>, i: usize, f: &StoredFinding) -> (b: bool)
    requires
        i < reports.len(),
    ensures
        b == agreed(reports@, i as int, f@),
{
    let mut q: usize = 0;
    while q < reports.len()
        invariant
            q <= reports.len(),
            i < reports.len(),
            forall|k: int|
                0 <= k < q && same_crate(#[trigger] reports@[k], reports@[i as int]) ==> emits(
                    reports@[k],
                    f@,
                ),
        decreases reports.len() - q,
    {
        if same_crate_root(&reports[q], &reports[i]) && !report_emits(&reports[q], f) {
            return false;
        }
        q = q + 1;
    }
    true
}

/// `after` is `before` with each report's findings reduced to those that
/// survive the intersection.
pub open spec fn intersected(before: Seq<StoredReport>, after: Seq<StoredReport>) -> bool {
    &&& after.len() == before.len()
    &&& forall|i: int|
        0 <= i < before.len() ==> {
            &&& #[trigger] after[i] == (StoredReport { findings: after[i].findings, ..before[i] })
            &&& finding_views(after[i].findings@) == finding_views(before[i].findings@).filter(
                |f: FindingView| survives_intersection(before, i, f),
            )
        }
}

/// Keeps a `suspicious_pub` or internal-facade finding only where every
/// target compiling the same crate root emitted it.
pub fn apply_cross_compilation_intersection(reports: &mut Vec<StoredReport>)
    ensures
        intersected(old(reports)@, final(reports)@),
{
    let ghost before = reports@;
    let mut flags: Vec<Vec<bool>> = Vec::new();
    let mut i: usize = 0;
    while i < reports.len()
        invariant
            i <= reports.len(),
            reports@ == before,
            flags@.len() == i,
            forall|a: int|
                0 <= a < i ==> (#[trigger] flags@[a])@.len() == before[a].findings@.len() && forall|
                    j: int,
                |
                    0 <= j < flags@[a]@.len() ==> flags@[a]@[j] == survives_intersection(
                        before,
                        a,
                        #[trigger] before[a].findings@[j]@,
                    ),
        decreases reports.len() - i,
    {
        let sibling = report_has_sibling(reports, i);
        let report = &reports[i];
        let mut keep: Vec<bool> = Vec::new();
        let mut j: usize = 0;
        while j < report.findings.len()
            invariant
                j <= report.findings.len(),
                i < reports.len(),
                reports@ == before,
                report == reports@[i as int],
                sibling == has_sibling(before, i as int),
                keep@.len() == j,
                forall|k: int|
                    0 <= k < j ==> keep@[k] == survives_intersection(
                        before,
                        i as int,
                        #[trigger] report.findings@[k]@,
                    ),
            decreases report.findings.len() - j,
        {
            let f = &report.findings[j];
            let survives = !(f.diagnostic_code == DiagnosticCode::SuspiciousPub || f.diagnostic_code
                == DiagnosticCode::InternalParentPubUseFacade) || !sibling || all_siblings_emit(
                reports,
                i,
                f,
            );
            keep.push(survives);
            j = j + 1;
        }
        flags.push(keep);
        i = i + 1;
    }
    let mut i: usize = 0;
    while i < reports.len()
        invariant
            i <= reports.len(),
            reports@.len() == before.len(),
            flags@.len() == before.len(),
            forall|a: int|
                0 <= a < before.len() ==> (#[trigger] flags@[a])@.len() == before[a].findings@.len()
                    && forall|j: int|
                    0 <= j < flags@[a]@.len() ==> flags@[a]@[j] == survives_intersection(
                        before,
                        a,
                        #[trigger] before[a].findings@[j]@,
                    ),
            forall|a: int| i <= a < before.len() ==> #[trigger] reports@[a] == before[a],
            forall|a: int|
                0 <= a < i ==> {
                    &&& #[trigger] reports@[a] == (StoredReport {
                        findings: reports@[a].findings,
                        ..before[a]
                    })
                    &&& finding_views(reports@[a].findings@) == finding_views(
                        before[a].findings@,
                    ).filter(|f: FindingView| survives_intersection(before, a, f))
                },
        decreases reports.len() - i,
    {
        let mut report = reports.remove(i);
        let ghost ii = i as int;
        proof {
            assert(report == before[ii]);
        }
        retain_flagged(
            &mut report.findings,
            &flags[i],
            Ghost(|f: FindingView| survives_intersection(before, ii, f)),
        );
        reports.insert(i, report);
        i = i + 1;
    }
}

// ---------------------------------------------------------------------
// `unused_pub` first.

/// Two findings sit at the same position.
pub open spec fn same_position(a: FindingView, b: FindingView) -> bool {
    a.path == b.path && a.line == b.line && a.column == b.column
}

/// Some report holds an `unused_pub` finding at `f`'s position.
pub open spec fn unused_pub_at(reports: Seq<StoredReport>, f: FindingView) -> bool {
    exists|q: int, j: int|
        0 <= q < reports.len() && 0 <= j < reports[q].findings@.len() && (#[trigger] reports[q].findings@[j]@).code
            == DiagnosticCode::UnusedPub && same_position(reports[q].findings@[j]@, f)
}

/// A `narrow_to_pub_crate` or `suspicious_pub` finding yields to an
/// `unused_pub` finding at the same position in any report.
pub open spec fn survives_priority(reports: Seq<StoredReport>, f: FindingView) -> bool {
    !(f.code == DiagnosticCode::NarrowToPubCrate || f.code == DiagnosticCode::SuspiciousPub)
        || !unused_pub_at(reports, f)
}

fn any_unused_pub_at(reports: &Vec<StoredReport>, f: &StoredFinding) -> (b: bool)
    ensures
        b == unused_pub_at(reports@, f@),
{
    let mut q: usize = 0;
    while q < reports.len()
        invariant
            q <= reports.len(),
            forall|a: int, j: int|
                0 <= a < q && 0 <= j < reports@[a].findings@.len() ==> !((
                #[trigger] reports@[a].findings@[j]@).code == DiagnosticCode::UnusedPub
                    && same_position(reports@[a].findings@[j]@, f@)),
        decreases reports.len() - q,
    {
        let r = &reports[q];
        let mut j: usize = 0;
        while j < r.findings.len()
            invariant
                j <= r.findings.len(),
                q < reports.len(),
                r == reports@[q as int],
                forall|a: int, k: int|
                    0 <= a < q && 0 <= k < reports@[a].findings@.len() ==> !((
                    #[trigger] reports@[a].findings@[k]@).code == DiagnosticCode::UnusedPub
                        && same_position(reports@[a].findings@[k]@, f@)),
                forall|k: int|
                    0 <= k < j ==> !((#[trigger] r.findings@[k]@).code == DiagnosticCode::UnusedPub
                        && same_position(r.findings@[k]@, f@)),
            decreases r.findings.len() - j,
        {
            let g = &r.findings[j];
            if g.diagnostic_code == DiagnosticCode::UnusedPub && g.line == f.line && g.column
                == f.column && compare_text(g.path.as_str(), f.path.as_str()) == TextOrder::Equal {
                assert(reports@[q as int].findings@[j as int]@.code == DiagnosticCode::UnusedPub
                    && same_position(reports@[q as int].findings@[j as int]@, f@));
                return true;
            }
            j = j + 1;
        }
        q = q + 1;
    }
    false
}

/// `after` is `before` with each report's findings reduced to those the
/// unused-item findings do not take priority over.
pub open spec fn prioritized(before: Seq<StoredReport>, after: Seq<StoredReport>) -> bool {
    &&& after.len() == before.len()
    &&& forall|i: int|
        0 <= i < before.len() ==> {
            &&& #[trigger] after[i] == (StoredReport { findings: after[i].findings, ..before[i] })
            &&& finding_views(after[i].findings@) == finding_views(before[i].findings@).filter(
                |f: FindingView| survives_priority(before, f),
            )
        }
}

/// Drops a `narrow_to_pub_crate` or `suspicious_pub` finding wherever some
/// report says the same item is not used at all.
pub fn apply_visibility_narrowing_priority(reports: &mut Vec<StoredReport>)
    ensures
        prioritized(old(reports)@, final(reports)@),
{
    let ghost before = reports@;
    let mut flags: Vec<Vec<bool>> = Vec::new();
    let mut i: usize = 0;
    while i < reports.len()
        invariant
            i <= reports.len(),
            reports@ == before,
            flags@.len() == i,
            forall|a: int|
                0 <= a < i ==> (#[trigger] flags@[a])@.len() == before[a].findings@.len() && forall|
                    j: int,
                |
                    0 <= j < flags@[a]@.len() ==> flags@[a]@[j] == survives_priority(
                        before,
                        #[trigger] before[a].findings@[j]@,
                    ),
        decreases reports.len() - i,
    {
        let report = &reports[i];
        let mut keep: Vec<bool> = Vec::new();
        let mut j: usize = 0;
        while j < report.findings.len()
            invariant
                j <= report.findings.len(),
                i < reports.len(),
                reports@ == before,
                report == reports@[i as int],
                keep@.len() == j,
                forall|k: int|
                    0 <= k < j ==> keep@[k] == survives_priority(
                        before,
                        #[trigger] report.findings@[k]@,
                    ),
            decreases report.findings.len() - j,
        {
            let f = &report.findings[j];
            let survives = !(f.diagnostic_code == DiagnosticCode::NarrowToPubCrate
                || f.diagnostic_code == DiagnosticCode::SuspiciousPub) || !any_unused_pub_at(
                reports,
                f,
            );
            keep.push(survives);
            j = j + 1;
        }
        flags.push(keep);
        i = i + 1;
    }
    let mut i: usize = 0;
    while i < reports.len()
        invariant
            i <= reports.len(),
            reports@.len() == before.len(),
            flags@.len() == before.len(),
            forall|a: int|
                0 <= a < before.len() ==> (#[trigger] flags@[a])@.len() == before[a].findings@.len()
                    && forall|j: int|
                    0 <= j < flags@[a]@.len() ==> flags@[a]@[j] == survives_priority(
                        before,
                        #[trigger] before[a].findings@[j]@,
                    ),
            forall|a: int| i <= a < before.len() ==> #[trigger] reports@[a] == before[a],
            forall|a: int|
                0 <= a < i ==> {
                    &&& #[trigger] reports@[a] == (StoredReport {
                        findings: reports@[a].findings,
                        ..before[a]
                    })
                    &&& finding_views(reports@[a].findings@) == finding_views(
                        before[a].findings@,
                    ).filter(|f: FindingView| survives_priority(before, f))
                },
        decreases reports.len() - i,
    {
        let mut report = reports.remove(i);
        proof {
            assert(report == before[i as int]);
        }
        retain_flagged(
            &mut report.findings,
            &flags[i],
            Ghost(|f: FindingView| survives_priority(before, f)),
        );
        reports.insert(i, report);
        i = i + 1;
    }
}

// ---------------------------------------------------------------------
// Fix facts whose finding survived.

/// A `pub_use` finding of the report authorizes the fact: it sits at the
/// fact's child declaration and names the same item.
pub open spec fn authorizes(f: FindingView, fact: FixFactView) -> bool {
    &&& f.fix_support == FixSupport::PubUse
    &&& f.item matches Some(item) && item_name_spec(item) == fact.child_item_name
    &&& f.path == fact.child_path
    &&& f.line == fact.child_line
}

pub open spec fn authorized(fs: Seq<FindingView>, fact: FixFactView) -> bool {
    exists|j: int| 0 <= j < fs.len() && authorizes(#[trigger] fs[j], fact)
}

fn retain_flagged_facts(
    facts: &mut Vec<StoredPubUseFixFact>,
    keep: &Vec<bool>,
    Ghost(pred): Ghost<spec_fn(FixFactView) -> bool>,
)
    requires
        keep@.len() == old(facts)@.len(),
        forall|j: int| 0 <= j < keep@.len() ==> keep@[j] == pred(#[trigger] old(facts)@[j]@),
    ensures
        fact_views(final(facts)@) == fact_views(old(facts)@).filter(pred),
{
    let ghost fs = fact_views(facts@);
    let mut rest: Vec<StoredPubUseFixFact> = Vec::new();
    std::mem::swap(facts, &mut rest);
    let ghost initial = rest@;
    let mut i: usize = 0;
    proof {
        reveal(Seq::filter);
        assert(fs.take(0).filter(pred) =~= Seq::<FixFactView>::empty());
        assert(fact_views(facts@) =~= Seq::<FixFactView>::empty());
    }
    while rest.len() > 0
        invariant
            i <= initial.len(),
            rest@ == initial.skip(i as int),
            keep.len() == initial.len(),
            fs == fact_views(initial),
            forall|j: int| 0 <= j < keep@.len() ==> keep@[j] == pred(#[trigger] initial[j]@),
            fact_views(facts@) == fs.take(i as int).filter(pred),
        decreases rest.len(),
    {
        let ghost rest_before = rest@;
        let f = rest.remove(0);
        proof {
            assert(rest_before[0] == initial[i as int]);
            assert(rest@ =~= initial.skip(i + 1));
            assert(fs.take(i + 1).drop_last() =~= fs.take(i as int));
            assert(fs.take(i + 1).last() == fs[i as int]);
            assert(fs[i as int] == initial[i as int]@);
            assert(i < keep.len());
            reveal(Seq::filter);
            assert(fs.take(i + 1).filter(pred) == (if pred(fs[i as int]) {
                fs.take(i as int).filter(pred).push(fs[i as int])
            } else {
                fs.take(i as int).filter(pred)
            }));
        }
        if keep[i] {
            let ghost before = facts@;
            let ghost fv = f@;
            facts.push(f);
            proof {
                assert(fact_views(facts@) =~= fact_views(before).push(fv));
            }
        }
        i = i + 1;
    }
    proof {
        assert(fs.take(i as int) =~= fs);
    }
}

fn finding_authorizes(f: &StoredFinding, fact: &StoredPubUseFixFact) -> (b: bool)
    ensures
        b == authorizes(f@, fact@),
{
    if f.fix_support != FixSupport::PubUse || f.line != fact.child_line {
        return false;
    }
    match &f.item {
        Some(item) => {
            let name = item_name(item.as_str());
            compare_text(f.path.as_str(), fact.child_path.as_str()) == TextOrder::Equal
                && compare_text(name.as_str(), fact.child_item_name.as_str()) == TextOrder::Equal
        },
        None => false,
    }
}

fn fact_is_authorized(findings: &Vec<StoredFinding>, fact: &StoredPubUseFixFact) -> (b: bool)
    ensures
        b == authorized(finding_views(findings@), fact@),
{
    let ghost fs = finding_views(findings@);
    let mut j: usize = 0;
    while j < findings.len()
        invariant
            j <= findings.len(),
            fs == finding_views(findings@),
            forall|k: int| 0 <= k < j ==> !authorizes(#[trigger] fs[k], fact@),
        decreases findings.len() - j,
    {
        if finding_authorizes(&findings[j], fact) {
            assert(authorizes(fs[j as int], fact@));
            return true;
        }
        assert(fs[j as int] == findings@[j as int]@);
        j = j + 1;
    }
    false
}

/// `after` is `before` with each report's fix facts reduced to those a
/// surviving finding of the same report authorizes.
pub open spec fn facts_authorized(before: Seq<StoredReport>, after: Seq<StoredReport>) -> bool {
    &&& after.len() == before.len()
    &&& forall|i: int|
        0 <= i < before.len() ==> {
            &&& #[trigger] after[i] == (StoredReport {
                pub_use_fix_facts: after[i].pub_use_fix_facts,
                ..before[i]
            })
            &&& crate::findings::fact_views(after[i].pub_use_fix_facts@)
                == crate::findings::fact_views(before[i].pub_use_fix_facts@).filter(
                |fact: FixFactView| authorized(finding_views(before[i].findings@), fact),
            )
        }
}

/// Drops every fix fact whose authorizing `pub_use` finding did not survive
/// reconciliation, so the fixer never applies a narrowing the cross-target
/// analysis rejected.
pub fn discard_fix_facts_for_suppressed_findings(reports: &mut Vec<StoredReport>)
    ensures
        facts_authorized(old(reports)@, final(reports)@),
{
    let ghost before = reports@;
    let mut i: usize = 0;
    while i < reports.len()
        invariant
            i <= reports.len(),
            reports@.len() == before.len(),
            forall|a: int| i <= a < before.len() ==> #[trigger] reports@[a] == before[a],
            forall|a: int|
                0 <= a < i ==> {
                    &&& #[trigger] reports@[a] == (StoredReport {
                        pub_use_fix_facts: reports@[a].pub_use_fix_facts,
                        ..before[a]
                    })
                    &&& crate::findings::fact_views(reports@[a].pub_use_fix_facts@)
                        == crate::findings::fact_views(before[a].pub_use_fix_facts@).filter(
                        |fact: FixFactView| authorized(finding_views(before[a].findings@), fact),
                    )
                },
        decreases reports.len() - i,
    {
        let mut report = reports.remove(i);
        let ghost fs = finding_views(report.findings@);
        proof {
            assert(report == before[i as int]);
        }
        let mut keep: Vec<bool> = Vec::new();
        let mut j: usize = 0;
        while j < report.pub_use_fix_facts.len()
            invariant
                j <= report.pub_use_fix_facts.len(),
                fs == finding_views(report.findings@),
                keep@.len() == j,
                forall|k: int|
                    0 <= k < j ==> keep@[k] == authorized(
                        fs,
                        #[trigger] report.pub_use_fix_facts@[k]@,
                    ),
            decreases report.pub_use_fix_facts.len() - j,
        {
            let authorized_now = fact_is_authorized(&report.findings, &report.pub_use_fix_facts[j]);
            keep.push(authorized_now);
            j = j + 1;
        }
        retain_flagged_facts(
            &mut report.pub_use_fix_facts,
            &keep,
            Ghost(|fact: FixFactView| authorized(fs, fact)),
        );
        reports.insert(i, report);
        i = i + 1;
    }
}

} // verus!
