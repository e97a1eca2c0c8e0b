//! Which stored reports a run reads back, and whether together they cover
//! an all-features build.
//!
//! The application lists the findings directory, reads and parses each
//! findings file, and asks the file system the questions only it can answer
//! (whether a selected root names the same directory, whether a crate root
//! file exists); these functions decide the rest.

use vstd::prelude::*;

use crate::constants::FINDINGS_SCHEMA_VERSION;
use crate::constants::JSON_FILE_EXTENSION;
use crate::caller_aware::apply_caller_aware_suppression;
use crate::caller_aware::caller_suppressed;
use crate::findings::AllFeaturesCoverage;
use crate::findings::FindingView;
use crate::findings::FixFactView;
use crate::findings::StoredFinding;
use crate::findings::StoredPubUseFixFact;
use crate::findings::StoredReport;
use crate::findings::fact_views;
use crate::findings::finding_views;
use crate::findings::option_text;
use crate::ordering::facts_sorted_and_deduped;
use crate::ordering::findings_sorted_and_deduped;
use crate::ordering::sort_and_dedup_findings;
use crate::ordering::sort_and_dedup_pub_use_fix_facts;
use crate::reconcile::apply_cross_compilation_intersection;
use crate::reconcile::apply_visibility_narrowing_priority;
use crate::reconcile::discard_fix_facts_for_suppressed_findings;
use crate::reconcile::facts_authorized;
use crate::reconcile::intersected;
use crate::reconcile::prioritized;
use crate::text::chars_eq;
use crate::text::chars_of;

verus! {

/// One entry of the findings directory, as the application read it.
pub enum FindingsEntry {
    /// An entry the listing could not yield, or a findings file that could
    /// not be read or parsed.
    Unreadable,
    /// An entry that is not a findings file.
    Other,
    /// A parsed report.
    Stored {
        report: StoredReport,
        /// Whether the report's package root is, once canonicalized, one of
        /// the selected roots.
        root_selected_canonically: bool,
        /// Whether the report's crate root file exists (read against the
        /// package root when it is relative).
        crate_root_exists: bool,
    },
}

/// Whether an entry with this extension is a findings file.
pub fn is_findings_file(extension: Option<&str>) -> (r: bool)
    ensures
        r == (extension matches Some(e) && e@ == JSON_FILE_EXTENSION@),
{
    match extension {
        Some(e) => {
            let a = chars_of(e);
            let b = chars_of(JSON_FILE_EXTENSION);
            chars_eq(&a, &b)
        },
        None => false,
    }
}

/// Whether a report belongs to the selected packages: its package root is
/// one of the selected roots as written or once canonicalized, or it names
/// no package root and exactly one package is selected.
pub open spec fn matches_selected_root(
    report: StoredReport,
    selected_roots: Seq<Seq<char>>,
    root_selected_canonically: bool,
) -> bool {
    ||| selected_roots.contains(report.package_root@)
    ||| root_selected_canonically
    ||| (report.package_root@.len() == 0 && selected_roots.len() == 1)
}

/// Whether a report was written by this schema, this build of the analysis
/// and this configuration, for a crate root that still exists.
pub open spec fn is_compatible(
    report: StoredReport,
    config_fingerprint: Seq<char>,
    analysis_fingerprint: Seq<char>,
    crate_root_exists: bool,
) -> bool {
    &&& report.version == FINDINGS_SCHEMA_VERSION
    &&& report.analysis_fingerprint@ == analysis_fingerprint
    &&& report.config_fingerprint@ == config_fingerprint
    &&& (report.crate_root_file@.len() == 0 || crate_root_exists)
}

/// Whether an entry's report is read back.
pub open spec fn is_accepted(
    e: FindingsEntry,
    selected_roots: Seq<Seq<char>>,
    config_fingerprint: Seq<char>,
    analysis_fingerprint: Seq<char>,
) -> bool {
    match e {
        FindingsEntry::Stored { report, root_selected_canonically, crate_root_exists } => {
            &&& matches_selected_root(report, selected_roots, root_selected_canonically)
            &&& is_compatible(report, config_fingerprint, analysis_fingerprint, crate_root_exists)
        },
        _ => false,
    }
}

/// The reports read back, in entry order.
pub open spec fn accepted_reports(
    entries: Seq<FindingsEntry>,
    selected_roots: Seq<Seq<char>>,
    config_fingerprint: Seq<char>,
    analysis_fingerprint: Seq<char>,
) -> Seq<StoredReport>
    decreases entries.len(),
{
    if entries.len() == 0 {
        Seq::empty()
    } else {
        let rest = accepted_reports(
            entries.drop_last(),
            selected_roots,
            config_fingerprint,
            analysis_fingerprint,
        );
        if is_accepted(entries.last(), selected_roots, config_fingerprint, analysis_fingerprint) {
            rest.push(entries.last()->report)
        } else {
            rest
        }
    }
}

/// Whether an entry leaves an all-features build able to cover the run: it
/// is not a findings file, or it is a report of another package, or a
/// report read back whose own coverage is a superset.
pub open spec fn keeps_superset(
    e: FindingsEntry,
    selected_roots: Seq<Seq<char>>,
    config_fingerprint: Seq<char>,
    analysis_fingerprint: Seq<char>,
) -> bool {
    match e {
        FindingsEntry::Unreadable => false,
        FindingsEntry::Other => true,
        FindingsEntry::Stored { report, root_selected_canonically, crate_root_exists } => {
            !matches_selected_root(report, selected_roots, root_selected_canonically) || (
            is_compatible(report, config_fingerprint, analysis_fingerprint, crate_root_exists)
                && report.all_features_coverage == AllFeaturesCoverage::Superset)
        },
    }
}

/// The coverage of the reports read back: a superset only if at least one
/// report is read back and every entry keeps the superset.
pub open spec fn selected_coverage(
    entries: Seq<FindingsEntry>,
    selected_roots: Seq<Seq<char>>,
    config_fingerprint: Seq<char>,
    analysis_fingerprint: Seq<char>,
) -> AllFeaturesCoverage {
    if accepted_reports(entries, selected_roots, config_fingerprint, analysis_fingerprint).len()
        > 0 && forall|i: int|
        0 <= i < entries.len() ==> #[trigger] keeps_superset(
            entries[i],
            selected_roots,
            config_fingerprint,
            analysis_fingerprint,
        ) {
        AllFeaturesCoverage::Superset
    } else {
        AllFeaturesCoverage::NotGuaranteed
    }
}

/// The texts of a list of strings.
pub open spec fn root_texts(roots: Seq<String>) -> Seq<Seq<char>> {
    roots.map_values(|r: String| r@)
}

fn root_is_selected(package_root: &String, selected_roots: &Vec<String>) -> (r: bool)
    ensures
        r == root_texts(selected_roots@).contains(package_root@),
{
    let mut i: usize = 0;
    while i < selected_roots.len()
        invariant
            i <= selected_roots.len(),
            forall|j: int| 0 <= j < i ==> selected_roots@[j]@ != package_root@,
        decreases selected_roots.len() - i,
    {
        if selected_roots[i] == *package_root {
            assert(root_texts(selected_roots@)[i as int] == package_root@);
            return true;
        }
        i = i + 1;
    }
    assert forall|j: int| 0 <= j < root_texts(selected_roots@).len() implies root_texts(
        selected_roots@,
    )[j] != package_root@ by {
        assert(root_texts(selected_roots@)[j] == selected_roots@[j]@);
    }
    false
}

fn report_matches_selected_root(
    report: &StoredReport,
    selected_roots: &Vec<String>,
    root_selected_canonically: bool,
) -> (r: bool)
    ensures
        r == matches_selected_root(*report, root_texts(selected_roots@), root_selected_canonically),
{
    root_is_selected(&report.package_root, selected_roots) || root_selected_canonically || (
    report.package_root.as_str().is_empty() && selected_roots.len() == 1)
}

fn report_is_compatible(
    report: &StoredReport,
    config_fingerprint: &str,
    analysis_fingerprint: &str,
    crate_root_exists: bool,
) -> (r: bool)
    ensures
        r == is_compatible(*report, config_fingerprint@, analysis_fingerprint@, crate_root_exists),
{
    report.version == FINDINGS_SCHEMA_VERSION && report.analysis_fingerprint == analysis_fingerprint.to_owned()
        && report.config_fingerprint == config_fingerprint.to_owned() && (
    report.crate_root_file.as_str().is_empty() || crate_root_exists)
}

/// The reports of the selected packages that this build can read back, in
/// entry order, and whether an all-features build covers all of them.
pub fn select_stored_reports(
    entries: Vec<FindingsEntry>,
    selected_roots: &Vec<String>,
    config_fingerprint: &str,
    analysis_fingerprint: &str,
) -> (r: (Vec<StoredReport>, AllFeaturesCoverage))
    ensures
        r.0@ == accepted_reports(
            entries@,
            root_texts(selected_roots@),
            config_fingerprint@,
            analysis_fingerprint@,
        ),
        r.1 == selected_coverage(
            entries@,
            root_texts(selected_roots@),
            config_fingerprint@,
            analysis_fingerprint@,
        ),
{
    let ghost roots = root_texts(selected_roots@);
    let ghost cfg = config_fingerprint@;
    let ghost ana = analysis_fingerprint@;
    let ghost all = entries@;
    let mut rest = entries;
    let mut reports: Vec<StoredReport> = Vec::new();
    let mut superset = true;
    let mut i: usize = 0;
    let n = rest.len();
    while rest.len() > 0
        invariant
            n == all.len(),
            i + rest@.len() == all.len(),
            rest@ == all.skip(i as int),
            roots == root_texts(selected_roots@),
            cfg == config_fingerprint@,
            ana == analysis_fingerprint@,
            reports@ == accepted_reports(all.take(i as int), roots, cfg, ana),
            superset == forall|j: int|
                0 <= j < i ==> #[trigger] keeps_superset(all[j], roots, cfg, ana),
        decreases rest.len(),
    {
        let ghost taken = all.take(i as int);
        let entry = rest.remove(0);
        assert(entry == all[i as int]);
        assert(all.take(i + 1).drop_last() =~= taken);
        assert(all.take(i + 1).last() == all[i as int]);
        let ghost keeps = keeps_superset(entry, roots, cfg, ana);
        match entry {
            FindingsEntry::Unreadable => {
                superset = false;
            },
            FindingsEntry::Other => {},
            FindingsEntry::Stored { report, root_selected_canonically, crate_root_exists } => {
                if report_matches_selected_root(
                    &report,
                    selected_roots,
                    root_selected_canonically,
                ) {
                    if report_is_compatible(
                        &report,
                        config_fingerprint,
                        analysis_fingerprint,
                        crate_root_exists,
                    ) {
                        if report.all_features_coverage != AllFeaturesCoverage::Superset {
                            superset = false;
                        }
                        reports.push(report);
                    } else {
                        superset = false;
                    }
                }
            },
        }
        proof {
            assert(rest@ =~= all.skip(i + 1));
            if superset {
                assert forall|j: int| 0 <= j < i + 1 implies #[trigger] keeps_superset(
                    all[j],
                    roots,
                    cfg,
                    ana,
                ) by {
                    if j == i {
                        assert(keeps);
                    }
                }
            } else {
                if !keeps {
                    assert(!keeps_superset(all[i as int], roots, cfg, ana));
                }
            }
        }
        i = i + 1;
    }
    assert(all.take(i as int) =~= all);
    let coverage = if superset && reports.len() > 0 {
        AllFeaturesCoverage::Superset
    } else {
        AllFeaturesCoverage::NotGuaranteed
    };
    (reports, coverage)
}

// ---------------------------------------------------------------------
// Reconciling the reports read back and collecting what they hold.

/// `after` is `before` after the cross-target stages, in order: findings
/// every sibling target must agree on are intersected, narrowings the
/// callers across all targets contradict are suppressed, and a finding that
/// an item is unused takes priority over narrowing it.
pub open spec fn reconciled(before: Seq<StoredReport>, after: Seq<StoredReport>) -> bool {
    exists|intersection: Seq<StoredReport>, suppression: Seq<StoredReport>|
        {
            &&& intersected(before, intersection)
            &&& caller_suppressed(intersection, suppression)
            &&& prioritized(suppression, after)
        }
}

/// Applies the cross-target stages to the reports read back.
pub fn reconcile_cross_target_reports(reports: &mut Vec<StoredReport>)
    ensures
        reconciled(old(reports)@, final(reports)@),
{
    let ghost start = reports@;
    apply_cross_compilation_intersection(reports);
    let ghost intersection = reports@;
    let _callers = apply_caller_aware_suppression(reports);
    let ghost suppression = reports@;
    apply_visibility_narrowing_priority(reports);
    assert(intersected(start, intersection) && caller_suppressed(intersection, suppression)
        && prioritized(suppression, reports@));
}

/// What `std::path::Path::strip_prefix` gives for a path and a base, as
/// text: the path's components after the base's, when the base's
/// components begin it.
pub uninterp spec fn stripped_path(path: Seq<char>, base: Seq<char>) -> Option<Seq<char>>;

/// The path below `base`, if `path` lies below it.
///
/// Wraps `Path::strip_prefix` (and `to_string_lossy`, lossless on text
/// input); the contract only names its result.
#[verifier::external_body]
pub(crate) fn strip_path_prefix(path: &str, base: &str) -> (r: Option<String>)
    ensures
        option_text(r) == stripped_path(path@, base@),
{
    std::path::Path::new(path).strip_prefix(base).ok().map(|rel| rel.to_string_lossy().into_owned())
}

/// `s` with every backslash written as a forward slash.
pub open spec fn forward_slashes(s: Seq<char>) -> Seq<char> {
    s.map_values(|c: char| if c == '\\' { '/' } else { c })
}

/// A path as shown to the user: relative to the analysis root when it lies
/// below it, with forward slashes; unchanged otherwise.
pub open spec fn relativized_text(stripped: Option<Seq<char>>, path: Seq<char>) -> Seq<char> {
    match stripped {
        Some(rel) => forward_slashes(rel),
        None => path,
    }
}

/// `path` with every backslash written as a forward slash.
pub fn normalize_relative_path(path: &str) -> (r: String)
    ensures
        r@ == forward_slashes(path@),
{
    let v = chars_of(path);
    let mut out: Vec<char> = Vec::new();
    let mut i: usize = 0;
    while i < v.len()
        invariant
            i <= v.len(),
            v@ == path@,
            out@ == forward_slashes(v@.take(i as int)),
        decreases v.len() - i,
    {
        out.push(if v[i] == '\\' { '/' } else { v[i] });
        i = i + 1;
        assert(out@ =~= forward_slashes(v@.take(i as int)));
    }
    assert(v@.take(v@.len() as int) =~= v@);
    crate::text::string_from_chars(&out)
}

/// The shown form of `path`, given what stripping the analysis root from it
/// gave.
pub fn relativized(stripped: Option<String>, path: &str) -> (r: String)
    ensures
        r@ == relativized_text(option_text(stripped), path@),
{
    match stripped {
        Some(rel) => normalize_relative_path(rel.as_str()),
        None => path.to_owned(),
    }
}

/// A path relative to the analysis root, for display.
pub fn relativize_path(path: &str, analysis_root: &str) -> (r: String)
    ensures
        r@ == relativized_text(stripped_path(path@, analysis_root@), path@),
{
    relativized(strip_path_prefix(path, analysis_root), path)
}

/// The shown form of a path below `root`.
pub open spec fn shown(path: Seq<char>, root: Seq<char>) -> Seq<char> {
    relativized_text(stripped_path(path, root), path)
}

/// A finding as shown: its path and related path relative to `root`.
pub open spec fn shown_finding(f: FindingView, root: Seq<char>) -> FindingView {
    FindingView {
        path: shown(f.path, root),
        related: match f.related {
            Some(r) => Some(shown(r, root)),
            None => None,
        },
        ..f
    }
}

/// A fix fact as shown: its child and parent paths relative to `root`.
pub open spec fn shown_fact(f: FixFactView, root: Seq<char>) -> FixFactView {
    FixFactView { child_path: shown(f.child_path, root), parent_path: shown(f.parent_path, root), ..f }
}

/// Every report's findings, in report order, as shown.
pub open spec fn shown_findings(reports: Seq<StoredReport>, root: Seq<char>) -> Seq<FindingView>
    decreases reports.len(),
{
    if reports.len() == 0 {
        Seq::empty()
    } else {
        shown_findings(reports.drop_last(), root) + finding_views(reports.last().findings@).map_values(
            |f: FindingView| shown_finding(f, root),
        )
    }
}

/// Every report's fix facts, in report order, as shown.
pub open spec fn shown_facts(reports: Seq<StoredReport>, root: Seq<char>) -> Seq<FixFactView>
    decreases reports.len(),
{
    if reports.len() == 0 {
        Seq::empty()
    } else {
        shown_facts(reports.drop_last(), root) + fact_views(reports.last().pub_use_fix_facts@).map_values(
            |f: FixFactView| shown_fact(f, root),
        )
    }
}

fn show_finding(f: StoredFinding, analysis_root: &str) -> (r: StoredFinding)
    ensures
        r@ == shown_finding(f@, analysis_root@),
{
    let mut f = f;
    let path = relativize_path(f.path.as_str(), analysis_root);
    f.path = path;
    let related = match &f.related {
        Some(r) => Some(relativize_path(r.as_str(), analysis_root)),
        None => None,
    };
    f.related = related;
    f
}

fn show_fact(f: StoredPubUseFixFact, analysis_root: &str) -> (r: StoredPubUseFixFact)
    ensures
        r@ == shown_fact(f@, analysis_root@),
{
    let mut f = f;
    let child = relativize_path(f.child_path.as_str(), analysis_root);
    let parent = relativize_path(f.parent_path.as_str(), analysis_root);
    f.child_path = child;
    f.parent_path = parent;
    f
}

/// The findings and fix facts of a run, as shown to the user.
pub struct LoadedFindings {
    pub findings: Vec<StoredFinding>,
    pub pub_use_fix_facts: Vec<StoredPubUseFixFact>,
}

/// Every report's findings and fix facts, in report order, with their
/// paths relative to the analysis root.
pub fn collect_shown(reports: Vec<StoredReport>, analysis_root: &str) -> (r: LoadedFindings)
    ensures
        finding_views(r.findings@) == shown_findings(reports@, analysis_root@),
        fact_views(r.pub_use_fix_facts@) == shown_facts(reports@, analysis_root@),
{
    let ghost all = reports@;
    let ghost root = analysis_root@;
    let mut rest = reports;
    let mut findings: Vec<StoredFinding> = Vec::new();
    let mut facts: Vec<StoredPubUseFixFact> = Vec::new();
    let mut i: usize = 0;
    let n = rest.len();
    while rest.len() > 0
        invariant
            n == all.len(),
            i + rest@.len() == all.len(),
            rest@ == all.skip(i as int),
            root == analysis_root@,
            finding_views(findings@) == shown_findings(all.take(i as int), root),
            fact_views(facts@) == shown_facts(all.take(i as int), root),
        decreases rest.len(),
    {
        let report = rest.remove(0);
        assert(report == all[i as int]);
        assert(all.take(i + 1).drop_last() =~= all.take(i as int));
        assert(all.take(i + 1).last() == all[i as int]);
        let ghost f0 = finding_views(findings@);
        let ghost report_findings = report.findings@;
        let mut own = report.findings;
        let mut j: usize = 0;
        let m = own.len();
        while own.len() > 0
            invariant
                m == report_findings.len(),
                j + own@.len() == report_findings.len(),
                own@ == report_findings.skip(j as int),
                root == analysis_root@,
                finding_views(findings@) == f0 + finding_views(report_findings.take(j as int)).map_values(
                    |f: FindingView| shown_finding(f, root),
                ),
            decreases own.len(),
        {
            let ghost before = findings@;
            let f = own.remove(0);
            assert(f == report_findings[j as int]);
            findings.push(show_finding(f, analysis_root));
            j = j + 1;
            assert(own@ =~= report_findings.skip(j as int));
            assert(finding_views(findings@) =~= f0 + finding_views(report_findings.take(j as int)).map_values(
                |f: FindingView| shown_finding(f, root),
            )) by {
                assert(finding_views(report_findings.take(j as int)) =~= finding_views(
                    report_findings.take(j - 1),
                ).push(report_findings[j - 1]@));
                assert(finding_views(findings@) =~= finding_views(before).push(
                    shown_finding(report_findings[j - 1]@, root),
                ));
            }
        }
        assert(report_findings.take(j as int) =~= report_findings);
        let ghost g0 = fact_views(facts@);
        let ghost report_facts = report.pub_use_fix_facts@;
        let mut own_facts = report.pub_use_fix_facts;
        let mut k: usize = 0;
        let q = own_facts.len();
        while own_facts.len() > 0
            invariant
                q == report_facts.len(),
                k + own_facts@.len() == report_facts.len(),
                own_facts@ == report_facts.skip(k as int),
                root == analysis_root@,
                fact_views(facts@) == g0 + fact_views(report_facts.take(k as int)).map_values(
                    |f: FixFactView| shown_fact(f, root),
                ),
            decreases own_facts.len(),
        {
            let ghost before = facts@;
            let f = own_facts.remove(0);
            assert(f == report_facts[k as int]);
            facts.push(show_fact(f, analysis_root));
            k = k + 1;
            assert(own_facts@ =~= report_facts.skip(k as int));
            assert(fact_views(facts@) =~= g0 + fact_views(report_facts.take(k as int)).map_values(
                |f: FixFactView| shown_fact(f, root),
            )) by {
                assert(fact_views(report_facts.take(k as int)) =~= fact_views(
                    report_facts.take(k - 1),
                ).push(report_facts[k - 1]@));
                assert(fact_views(facts@) =~= fact_views(before).push(
                    shown_fact(report_facts[k - 1]@, root),
                ));
            }
        }
        assert(report_facts.take(k as int) =~= report_facts);
        assert(rest@ =~= all.skip(i + 1));
        i = i + 1;
    }
    assert(all.take(i as int) =~= all);
    LoadedFindings { findings, pub_use_fix_facts: facts }
}

/// What a run shows of the reports it read back: the reports reconciled
/// across targets, fix facts without an authorizing finding dropped, every
/// finding and fact collected with paths relative to the analysis root,
/// and both lists sorted with repeats removed.
pub fn assemble_loaded_findings(reports: Vec<StoredReport>, analysis_root: &str) -> (r:
    LoadedFindings)
    ensures
        exists|
            kept: Seq<StoredReport>,
            collected_findings: Seq<StoredFinding>,
            collected_facts: Seq<StoredPubUseFixFact>,
        |
            {
                &&& exists|rec: Seq<StoredReport>| reconciled(reports@, rec) && facts_authorized(rec, kept)
                &&& finding_views(collected_findings) == shown_findings(kept, analysis_root@)
                &&& fact_views(collected_facts) == shown_facts(kept, analysis_root@)
                &&& findings_sorted_and_deduped(collected_findings, r.findings@)
                &&& facts_sorted_and_deduped(collected_facts, r.pub_use_fix_facts@)
            },
{
    let ghost start = reports@;
    let mut reports = reports;
    reconcile_cross_target_reports(&mut reports);
    let ghost rec = reports@;
    discard_fix_facts_for_suppressed_findings(&mut reports);
    let ghost kept = reports@;
    let collected = collect_shown(reports, analysis_root);
    let ghost collected_findings = collected.findings@;
    let ghost collected_facts = collected.pub_use_fix_facts@;
    let LoadedFindings { findings, pub_use_fix_facts } = collected;
    let mut findings = findings;
    let mut facts = pub_use_fix_facts;
    sort_and_dedup_findings(&mut findings);
    sort_and_dedup_pub_use_fix_facts(&mut facts);
    let r = LoadedFindings { findings, pub_use_fix_facts: facts };
    proof {
        assert(reconciled(start, rec) && facts_authorized(rec, kept));
        assert(finding_views(collected_findings) == shown_findings(kept, analysis_root@));
        assert(findings_sorted_and_deduped(collected_findings, r.findings@));
        assert(facts_sorted_and_deduped(collected_facts, r.pub_use_fix_facts@));
    }
    r
}

} // verus!
