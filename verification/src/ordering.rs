//! The order findings and fix facts are reported in, and the duplicates a
//! run's several targets leave that the report drops.

use vstd::prelude::*;
use crate::constraint_set::code_num;
use crate::findings::{
    FindingView, FixFactView, FixSupport, Severity, StoredFinding, StoredPubUseFixFact,
    finding_views,
};
use crate::keys::{
    ExecKey, Keyed, SortKey, dedup_by_key, drawn_first, has_key, key_views, push_key,
    strictly_sorted_by_key,
};
use crate::reconcile::same_position;

verus! {

pub open spec fn severity_num(s: Severity) -> int {
    match s {
        Severity::Error => 0,
        Severity::Warning => 1,
    }
}

pub open spec fn option_tag(o: Option<Seq<char>>) -> int {
    match o {
        Some(_) => 1,
        None => 0,
    }
}

pub open spec fn option_body(o: Option<Seq<char>>) -> Seq<char> {
    match o {
        Some(t) => t,
        None => Seq::empty(),
    }
}

/// Findings are reported by severity, then position, then lint, item and
/// message.
pub open spec fn finding_key(f: FindingView) -> Seq<SortKey> {
    seq![
        SortKey::Num(severity_num(f.severity)),
        SortKey::Text(f.path),
        SortKey::Num(f.line as int),
        SortKey::Num(f.column as int),
        SortKey::Num(code_num(f.code)),
        SortKey::Num(option_tag(f.item)),
        SortKey::Text(option_body(f.item)),
        SortKey::Text(f.message),
    ]
}

/// Fix facts are ordered by every field, child declaration first.
pub open spec fn fact_key(f: FixFactView) -> Seq<SortKey> {
    seq![
        SortKey::Text(f.child_path),
        SortKey::Num(f.child_line as int),
        SortKey::Text(f.child_item_name),
        SortKey::Text(f.parent_path),
        SortKey::Num(f.parent_line as int),
        SortKey::Text(f.child_module),
    ]
}

fn code_number(c: crate::findings::DiagnosticCode) -> (n: u64)
    ensures
        n == code_num(c),
{
    match c {
        crate::findings::DiagnosticCode::ForbiddenPubCrate => 0,
        crate::findings::DiagnosticCode::ForbiddenPubInCrate => 1,
        crate::findings::DiagnosticCode::InternalParentPubUseFacade => 2,
        crate::findings::DiagnosticCode::NarrowToPubCrate => 3,
        crate::findings::DiagnosticCode::OverbroadPubCrate => 4,
        crate::findings::DiagnosticCode::ReviewPubMod => 5,
        crate::findings::DiagnosticCode::SuspiciousPub => 6,
        crate::findings::DiagnosticCode::UnusedPub => 7,
        crate::findings::DiagnosticCode::WildcardParentPubUse => 8,
    }
}

impl Keyed for StoredFinding {
    open spec fn key_spec(&self) -> Seq<SortKey> {
        finding_key(self@)
    }

    fn sort_key(&self) -> (k: Vec<ExecKey>) {
        let mut k: Vec<ExecKey> = Vec::new();
        proof {
            assert(key_views(k@) =~= Seq::<SortKey>::empty());
        }
        let severity: u64 = match self.severity {
            Severity::Error => 0,
            Severity::Warning => 1,
        };
        push_key(&mut k, ExecKey::Num(severity));
        push_key(&mut k, ExecKey::Text(self.path.clone()));
        push_key(&mut k, ExecKey::Num(self.line as u64));
        push_key(&mut k, ExecKey::Num(self.column as u64));
        push_key(&mut k, ExecKey::Num(code_number(self.diagnostic_code)));
        match &self.item {
            Some(item) => {
                push_key(&mut k, ExecKey::Num(1));
                push_key(&mut k, ExecKey::Text(item.clone()));
            },
            None => {
                push_key(&mut k, ExecKey::Num(0));
                push_key(&mut k, ExecKey::Text(String::new()));
            },
        }
        push_key(&mut k, ExecKey::Text(self.message.clone()));
        proof {
            assert(key_views(k@) =~= finding_key(self@));
        }
        k
    }
}

impl Keyed for StoredPubUseFixFact {
    open spec fn key_spec(&self) -> Seq<SortKey> {
        fact_key(self@)
    }

    fn sort_key(&self) -> (k: Vec<ExecKey>) {
        let mut k: Vec<ExecKey> = Vec::new();
        proof {
            assert(key_views(k@) =~= Seq::<SortKey>::empty());
        }
        push_key(&mut k, ExecKey::Text(self.child_path.clone()));
        push_key(&mut k, ExecKey::Num(self.child_line as u64));
        push_key(&mut k, ExecKey::Text(self.child_item_name.clone()));
        push_key(&mut k, ExecKey::Text(self.parent_path.clone()));
        push_key(&mut k, ExecKey::Num(self.parent_line as u64));
        push_key(&mut k, ExecKey::Text(self.child_module.clone()));
        proof {
            assert(key_views(k@) =~= fact_key(self@));
        }
        k
    }
}

/// An earlier finding at the same position already advertises a
/// `restricted_annotation` fix.
pub open spec fn restricted_before(s: Seq<FindingView>, t: int) -> bool {
    exists|a: int|
        0 <= a < t && (#[trigger] s[a]).fix_support == FixSupport::RestrictedAnnotation
            && same_position(s[a], s[t])
}

/// Finding `t` as left once only the first `restricted_annotation` fix at
/// each declaration site stays advertised.
pub open spec fn one_fix_at(s: Seq<FindingView>, t: int) -> FindingView {
    if s[t].fix_support == FixSupport::RestrictedAnnotation && restricted_before(s, t) {
        FindingView { fix_support: FixSupport::NoFix, ..s[t] }
    } else {
        s[t]
    }
}

/// The declaration site of a finding: its path, line and column.
pub open spec fn site_of(f: FindingView) -> (Seq<char>, usize, usize) {
    (f.path, f.line, f.column)
}

pub open spec fn site_views(sites: Seq<(String, usize, usize)>) -> Seq<(Seq<char>, usize, usize)> {
    sites.map_values(|x: (String, usize, usize)| (x.0@, x.1, x.2))
}

/// Whether `f`'s site is among `sites`.
fn site_listed(sites: &Vec<(String, usize, usize)>, f: &StoredFinding) -> (r: bool)
    ensures
        r == site_views(sites@).contains(site_of(f@)),
{
    let mut i: usize = 0;
    while i < sites.len()
        invariant
            i <= sites.len(),
            forall|j: int| 0 <= j < i ==> #[trigger] site_views(sites@)[j] != site_of(f@),
        decreases sites.len() - i,
    {
        let (ref path, line, column) = sites[i];
        if line == f.line && column == f.column && crate::ordered::compare_text(
            path.as_str(),
            f.path.as_str(),
        ) == crate::ordered::TextOrder::Equal {
            assert(site_views(sites@)[i as int] == site_of(f@));
            return true;
        }
        assert(site_views(sites@)[i as int] != site_of(f@));
        i = i + 1;
    }
    false
}

/// Leaves one `restricted_annotation` fix advertised per declaration site:
/// every such fix after the first at the same path, line and column is
/// withdrawn, since the declaration is rewritten once.
pub fn retain_one_restricted_annotation_fix_per_site(findings: &mut Vec<StoredFinding>)
    ensures
        final(findings)@.len() == old(findings)@.len(),
        forall|t: int|
            0 <= t < old(findings)@.len() ==> (#[trigger] final(findings)@[t])@ == one_fix_at(
                finding_views(old(findings)@),
                t,
            ),
{
    let ghost s = finding_views(findings@);
    let ghost initial = findings@;
    let mut rest: Vec<StoredFinding> = Vec::new();
    std::mem::swap(findings, &mut rest);
    let total = rest.len();
    assert(total == initial.len());
    let mut sites: Vec<(String, usize, usize)> = Vec::new();
    let mut t: usize = 0;
    while rest.len() > 0
        invariant
            t <= initial.len(),
            initial.len() <= usize::MAX,
            rest@ == initial.skip(t as int),
            s == finding_views(initial),
            findings@.len() == t,
            forall|u: int| 0 <= u < t ==> (#[trigger] findings@[u])@ == one_fix_at(s, u),
            forall|p: (Seq<char>, usize, usize)|
                site_views(sites@).contains(p) <==> exists|a: int|
                    0 <= a < t && (#[trigger] s[a]).fix_support == FixSupport::RestrictedAnnotation
                        && site_of(s[a]) == p,
        decreases rest.len(),
    {
        let ghost sites0 = site_views(sites@);
        assert(t < initial.len()) by {
            if t >= initial.len() {
                assert(initial.skip(t as int).len() == 0);
            }
        }
        let mut f = rest.remove(0);
        proof {
            assert(f == initial[t as int]);
            assert(s[t as int] == f@);
            assert(rest@ =~= initial.skip(t + 1));
        }
        let ti: Ghost<int> = Ghost(t as int);
        let listed = site_listed(&sites, &f);
        proof {
            assert(listed == restricted_before(s, ti@)) by {
                if listed {
                    let a = choose|a: int|
                        0 <= a < ti@ && (#[trigger] s[a]).fix_support
                            == FixSupport::RestrictedAnnotation && site_of(s[a]) == site_of(f@);
                    assert(same_position(s[a], s[ti@]));
                }
                if restricted_before(s, ti@) {
                    let a = choose|a: int|
                        0 <= a < ti@ && (#[trigger] s[a]).fix_support
                            == FixSupport::RestrictedAnnotation && same_position(s[a], s[ti@]);
                    assert(site_of(s[a]) == site_of(f@));
                }
            }
        }
        let ghost fv = f@;
        if f.fix_support == FixSupport::RestrictedAnnotation {
            if listed {
                f.fix_support = FixSupport::NoFix;
            } else {
                let ghost before_sites = sites@;
                sites.push((f.path.clone(), f.line, f.column));
                proof {
                    assert(site_views(sites@) =~= site_views(before_sites).push(site_of(fv)));
                }
            }
        }
        let ghost before = findings@;
        findings.push(f);
        proof {
            assert(findings@[ti@]@ == one_fix_at(s, ti@));
            assert forall|u: int| 0 <= u < ti@ + 1 implies (#[trigger] findings@[u])@ == one_fix_at(
                s,
                u,
            ) by {
                if u < ti@ {
                    assert(findings@[u] == before[u]);
                }
            }
            let now = site_views(sites@);
            let added = fv.fix_support == FixSupport::RestrictedAnnotation && !listed;
            if added {
                assert(now == sites0.push(site_of(fv)));
            } else {
                assert(now == sites0);
            }
            assert forall|p: (Seq<char>, usize, usize)|
                now.contains(p) <==> exists|a: int|
                    0 <= a < ti@ + 1 && (#[trigger] s[a]).fix_support
                        == FixSupport::RestrictedAnnotation && site_of(s[a]) == p by {
                if now.contains(p) {
                    if added && p == site_of(fv) {
                        assert(s[ti@].fix_support == FixSupport::RestrictedAnnotation && site_of(s[ti@]) == p);
                    } else {
                        if added {
                            let j = choose|j: int| 0 <= j < now.len() && now[j] == p;
                            if j < sites0.len() {
                                assert(sites0[j] == p);
                                assert(sites0.contains(p));
                            }
                        }
                        assert(sites0.contains(p));
                        let a = choose|a: int|
                            0 <= a < ti@ && (#[trigger] s[a]).fix_support
                                == FixSupport::RestrictedAnnotation && site_of(s[a]) == p;
                        assert(0 <= a < ti@ + 1);
                    }
                }
                if exists|a: int|
                    0 <= a < ti@ + 1 && (#[trigger] s[a]).fix_support
                        == FixSupport::RestrictedAnnotation && site_of(s[a]) == p {
                    let a = choose|a: int|
                        0 <= a < ti@ + 1 && (#[trigger] s[a]).fix_support
                            == FixSupport::RestrictedAnnotation && site_of(s[a]) == p;
                    if a == ti@ {
                        if added {
                            assert(now[now.len() - 1] == p);
                        } else {
                            assert(listed);
                            assert(sites0.contains(p));
                        }
                    } else {
                        assert(sites0.contains(p));
                        let j = choose|j: int| 0 <= j < sites0.len() && sites0[j] == p;
                        if added {
                            assert(now[j] == p);
                        }
                    }
                }
            }
        }
        t = t + 1;
    }
}

/// `after` is `before` sorted by key with one finding kept per key (the
/// first in `before`'s order), and with one `restricted_annotation` fix left
/// per declaration site.
pub open spec fn findings_sorted_and_deduped(
    before: Seq<StoredFinding>,
    after: Seq<StoredFinding>,
) -> bool {
    exists|d: Seq<StoredFinding>|
        {
            &&& strictly_sorted_by_key(d)
            &&& drawn_first(d, before, before.len() as int)
            &&& forall|i: int| 0 <= i < before.len() ==> has_key(d, (#[trigger] before[i]).key_spec())
            &&& after.len() == d.len()
            &&& forall|t: int|
                0 <= t < d.len() ==> (#[trigger] after[t])@ == one_fix_at(finding_views(d), t)
        }
}

/// `after` is `before` sorted by key with one fact kept per key (the first
/// in `before`'s order).
pub open spec fn facts_sorted_and_deduped(
    before: Seq<StoredPubUseFixFact>,
    after: Seq<StoredPubUseFixFact>,
) -> bool {
    &&& strictly_sorted_by_key(after)
    &&& drawn_first(after, before, before.len() as int)
    &&& forall|i: int| 0 <= i < before.len() ==> has_key(after, (#[trigger] before[i]).key_spec())
}

/// Sorts findings by severity, position, lint, item and message, keeps one
/// of each (the first in the incoming order), and then leaves one
/// `restricted_annotation` fix advertised per declaration site.
pub fn sort_and_dedup_findings(findings: &mut Vec<StoredFinding>)
    ensures
        findings_sorted_and_deduped(old(findings)@, final(findings)@),
{
    let mut incoming: Vec<StoredFinding> = Vec::new();
    std::mem::swap(findings, &mut incoming);
    let deduped = dedup_by_key(incoming);
    let ghost d = deduped@;
    *findings = deduped;
    retain_one_restricted_annotation_fix_per_site(findings);
}

/// Sorts fix facts by every field and drops repeats.
pub fn sort_and_dedup_pub_use_fix_facts(facts: &mut Vec<StoredPubUseFixFact>)
    ensures
        facts_sorted_and_deduped(old(facts)@, final(facts)@),
{
    let mut incoming: Vec<StoredPubUseFixFact> = Vec::new();
    std::mem::swap(facts, &mut incoming);
    *facts = dedup_by_key(incoming);
}

} // verus!
