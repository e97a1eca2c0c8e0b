//! Which visibility findings an item raises, decided from what the
//! analysis found out about it: how its visibility is written, where its
//! module sits, whether the crate root or a parent facade re-exports it,
//! and whether anything outside its parent's subtree needs it.
//!
//! The compiler-side analysis gathers those facts; these functions decide.
//! Where a finding stands in the source is filled in by the caller.

use vstd::prelude::*;

use crate::facade_exports::ParentFacadeExportStatus;
use crate::facade_exports::ParentFacadeFixSupport;
use crate::facade_exports::ParentFacadeSpelling;
use crate::facade_paths::ParentFacadeUsage;
use crate::findings::DiagnosticCode;
use crate::findings::FixFactView;
use crate::findings::FixSupport;
use crate::findings::Severity;
use crate::findings::StoredPubUseFixFact;
use crate::findings::option_text;
use crate::findings::render_item;
use crate::findings::render_item_spec;
use crate::policy::CrateKind;
use crate::policy::ModuleLocation;
use crate::policy::allow_pub_crate_by_policy;
use crate::policy::allow_pub_crate_spec;
use crate::policy::components_view;
use crate::policy::forbidden_pub_crate_help;
use crate::policy::forbidden_pub_crate_help_spec;
use crate::policy::is_boundary_file;
use crate::policy::is_boundary_file_spec;
use crate::policy::is_top_level_module_file;
use crate::policy::is_top_level_module_file_spec;
use crate::policy::suspicious_pub_note;
use crate::policy::suspicious_pub_note_spec;
use crate::sweep_counters::decimal_chars;
use crate::sweep_counters::decimal_text;
use crate::text::chars_eq;
use crate::text::chars_of;
use crate::text::chars_start_with;
use crate::text::starts_with;
use crate::text::string_from_chars;

verus! {

/// What a finding says, before its place in the source is known.
#[derive(Debug)]
pub struct FindingParams {
    pub severity: Severity,
    pub diagnostic_code: DiagnosticCode,
    pub item: Option<String>,
    pub message: String,
    pub suggestion: Option<String>,
    pub fix_support: FixSupport,
    pub related: Option<String>,
}

/// The mathematical reading of [`FindingParams`].
pub struct FindingParamsView {
    pub severity: Severity,
    pub diagnostic_code: DiagnosticCode,
    pub item: Option<Seq<char>>,
    pub message: Seq<char>,
    pub suggestion: Option<Seq<char>>,
    pub fix_support: FixSupport,
    pub related: Option<Seq<char>>,
}

impl View for FindingParams {
    type V = FindingParamsView;

    open spec fn view(&self) -> FindingParamsView {
        FindingParamsView {
            severity: self.severity,
            diagnostic_code: self.diagnostic_code,
            item: option_text(self.item),
            message: self.message@,
            suggestion: option_text(self.suggestion),
            fix_support: self.fix_support,
            related: option_text(self.related),
        }
    }
}

pub open spec fn params_views(s: Seq<FindingParams>) -> Seq<FindingParamsView> {
    s.map_values(|p: FindingParams| p@)
}

/// Whether `text` is one of `list`'s entries.
pub open spec fn listed(list: Seq<String>, text: Seq<char>) -> bool {
    exists|i: int| 0 <= i < list.len() && #[trigger] list[i]@ == text
}

/// A library's crate root is `lib.rs`; any other root module is a binary's.
pub open spec fn crate_kind_of(root_file_name: Option<Seq<char>>) -> CrateKind {
    if root_file_name == Some("lib.rs"@) {
        CrateKind::Library
    } else {
        CrateKind::Binary
    }
}

/// The finding for a `pub(crate)` the policy forbids here.
pub open spec fn forbidden_pub_crate_finding(module_location: ModuleLocation) -> FindingParamsView {
    FindingParamsView {
        severity: Severity::Error,
        diagnostic_code: DiagnosticCode::ForbiddenPubCrate,
        item: None,
        message: "use of `pub(crate)` is forbidden by policy"@,
        suggestion: Some(forbidden_pub_crate_help_spec(module_location)),
        fix_support: FixSupport::NoFix,
        related: None,
    }
}

/// The finding for a `pub(in crate::...)`.
pub open spec fn forbidden_pub_in_crate_finding() -> FindingParamsView {
    FindingParamsView {
        severity: Severity::Error,
        diagnostic_code: DiagnosticCode::ForbiddenPubInCrate,
        item: None,
        message: "use of `pub(in crate::...)` is forbidden by policy"@,
        suggestion: None,
        fix_support: FixSupport::NoFix,
        related: None,
    }
}

/// The finding for a `pub mod` no configuration entry allows.
pub open spec fn review_pub_mod_finding(item_name: Option<Seq<char>>) -> FindingParamsView {
    FindingParamsView {
        severity: Severity::Error,
        diagnostic_code: DiagnosticCode::ReviewPubMod,
        item: item_name,
        message: "`pub mod` requires explicit review or allowlisting"@,
        suggestion: None,
        fix_support: FixSupport::NoFix,
        related: None,
    }
}

/// The policy findings an item's visibility raises on its own: a
/// forbidden `pub(crate)`, a `pub(in crate::...)`, and a public module that
/// is not allowlisted by its configuration-relative path.
pub open spec fn policy_findings_spec(
    crate_kind: CrateKind,
    vis_text: Seq<char>,
    module_location: ModuleLocation,
    parent_is_public: bool,
    is_module_item: bool,
    item_name: Option<Seq<char>>,
    config_rel_path: Option<Seq<char>>,
    allow_pub_mod: Seq<String>,
) -> Seq<FindingParamsView> {
    let forbidden = if vis_text == "pub(crate)"@ && !allow_pub_crate_spec(
        crate_kind,
        module_location,
        parent_is_public,
    ) {
        seq![forbidden_pub_crate_finding(module_location)]
    } else {
        seq![]
    };
    let in_crate = if starts_with(vis_text, "pub(in crate::"@) {
        seq![forbidden_pub_in_crate_finding()]
    } else {
        seq![]
    };
    let allowlisted = match config_rel_path {
        Some(path) => listed(allow_pub_mod, path),
        None => false,
    };
    let pub_mod = if is_module_item && starts_with(vis_text, "pub"@) && !allowlisted {
        seq![review_pub_mod_finding(item_name)]
    } else {
        seq![]
    };
    forbidden + in_crate + pub_mod
}

/// What the visibility check decides for one item: the policy findings it
/// raises, the kind of crate it is in, and whether the crate-root re-export
/// check and the suspicious-`pub` check apply to it.
#[derive(Debug)]
pub struct VisibilityFindings {
    pub crate_kind: CrateKind,
    pub findings: Vec<FindingParams>,
    /// A plain `pub` item of a top-level module whose parent is not public.
    pub check_narrow_to_pub_crate: bool,
    /// A plain `pub` item outside the files that open a module boundary.
    pub check_suspicious_pub: bool,
}

fn text_equals(text: &str, lit: &str) -> (r: bool)
    ensures
        r == (text@ == lit@),
{
    chars_eq(&chars_of(text), &chars_of(lit))
}

fn text_starts_with(text: &str, prefix: &str) -> (r: bool)
    ensures
        r == starts_with(text@, prefix@),
{
    chars_start_with(&chars_of(text), &chars_of(prefix))
}

fn is_listed(list: &Vec<String>, text: &str) -> (r: bool)
    ensures
        r == listed(list@, text@),
{
    let mut i: usize = 0;
    while i < list.len()
        invariant
            i <= list.len(),
            forall|j: int| 0 <= j < i ==> #[trigger] list@[j]@ != text@,
        decreases list.len() - i,
    {
        if text_equals(list[i].as_str(), text) {
            assert(list@[i as int]@ == text@);
            return true;
        }
        i = i + 1;
    }
    false
}

fn option_string(text: Option<&str>) -> (r: Option<String>)
    ensures
        option_text(r) == match text {
            Some(t) => Some(t@),
            None => None,
        },
{
    match text {
        Some(t) => Some(t.to_owned()),
        None => None,
    }
}

/// The visibility findings for one item. Paths are given as components:
/// the source root, the crate's root module file, and the item's file.
pub fn record_visibility_findings(
    src_root: &Vec<String>,
    root_module: &Vec<String>,
    file_path: &Vec<String>,
    vis_text: &str,
    module_location: ModuleLocation,
    parent_is_public: bool,
    is_module_item: bool,
    item_name: Option<&str>,
    config_rel_path: Option<&str>,
    allow_pub_mod: &Vec<String>,
) -> (r: VisibilityFindings)
    ensures
        r.crate_kind == crate_kind_of(
            if root_module@.len() > 0 {
                Some(root_module@.last()@)
            } else {
                None
            },
        ),
        params_views(r.findings@) == policy_findings_spec(
            r.crate_kind,
            vis_text@,
            module_location,
            parent_is_public,
            is_module_item,
            match item_name {
                Some(n) => Some(n@),
                None => None,
            },
            match config_rel_path {
                Some(p) => Some(p@),
                None => None,
            },
            allow_pub_mod@,
        ),
        r.check_narrow_to_pub_crate == (vis_text@ == "pub"@ && !parent_is_public
            && is_top_level_module_file_spec(
            components_view(src_root@),
            components_view(root_module@),
            components_view(file_path@),
        )),
        r.check_suspicious_pub == (vis_text@ == "pub"@ && !is_boundary_file_spec(
            components_view(src_root@),
            components_view(root_module@),
            components_view(file_path@),
        )),
{
    let crate_kind = if root_module.len() > 0 && text_equals(
        root_module[root_module.len() - 1].as_str(),
        "lib.rs",
    ) {
        CrateKind::Library
    } else {
        CrateKind::Binary
    };
    let mut findings: Vec<FindingParams> = Vec::new();
    let ghost name_view = match item_name {
        Some(n) => Some(n@),
        None => None,
    };
    let ghost rel_view = match config_rel_path {
        Some(p) => Some(p@),
        None => None,
    };
    if text_equals(vis_text, "pub(crate)") && !allow_pub_crate_by_policy(
        crate_kind,
        module_location,
        parent_is_public,
    ) {
        findings.push(
            FindingParams {
                severity: Severity::Error,
                diagnostic_code: DiagnosticCode::ForbiddenPubCrate,
                item: None,
                message: "use of `pub(crate)` is forbidden by policy".to_owned(),
                suggestion: Some(forbidden_pub_crate_help(module_location).to_owned()),
                fix_support: FixSupport::NoFix,
                related: None,
            },
        );
    }
    let ghost after_forbidden = params_views(findings@);
    if text_starts_with(vis_text, "pub(in crate::") {
        findings.push(
            FindingParams {
                severity: Severity::Error,
                diagnostic_code: DiagnosticCode::ForbiddenPubInCrate,
                item: None,
                message: "use of `pub(in crate::...)` is forbidden by policy".to_owned(),
                suggestion: None,
                fix_support: FixSupport::NoFix,
                related: None,
            },
        );
    }
    let ghost after_in_crate = params_views(findings@);
    if is_module_item && text_starts_with(vis_text, "pub") {
        let allowlisted = match config_rel_path {
            Some(path) => is_listed(allow_pub_mod, path),
            None => false,
        };
        if !allowlisted {
            findings.push(
                FindingParams {
                    severity: Severity::Error,
                    diagnostic_code: DiagnosticCode::ReviewPubMod,
                    item: option_string(item_name),
                    message: "`pub mod` requires explicit review or allowlisting".to_owned(),
                    suggestion: None,
                    fix_support: FixSupport::NoFix,
                    related: None,
                },
            );
        }
    }
    proof {
        let expected = policy_findings_spec(
            crate_kind,
            vis_text@,
            module_location,
            parent_is_public,
            is_module_item,
            name_view,
            rel_view,
            allow_pub_mod@,
        );
        assert(params_views(findings@) =~= expected);
    }
    let check_narrow_to_pub_crate = text_equals(vis_text, "pub") && !parent_is_public
        && is_top_level_module_file(src_root, root_module, file_path);
    let check_suspicious_pub = text_equals(vis_text, "pub") && !is_boundary_file(
        src_root,
        root_module,
        file_path,
    );
    VisibilityFindings { crate_kind, findings, check_narrow_to_pub_crate, check_suspicious_pub }
}

/// The finding for a plain `pub` item of a top-level module that the crate
/// root does not re-export.
pub open spec fn narrow_to_pub_crate_finding(kind_label: Seq<char>, item_name: Seq<char>) -> FindingParamsView {
    FindingParamsView {
        severity: Severity::Warning,
        diagnostic_code: DiagnosticCode::NarrowToPubCrate,
        item: Some(render_item_spec(kind_label, item_name)),
        message: "item is not re-exported by the crate root \u{2014} use `pub(crate)`"@,
        suggestion: Some("consider using: `pub(crate)`"@),
        fix_support: FixSupport::NarrowToPubCrate,
        related: None,
    }
}

/// The narrow-to-`pub(crate)` finding for a named item of a known kind,
/// unless the crate root re-exports it, or re-exports the type whose impl
/// it belongs to.
pub fn maybe_record_narrow_to_pub_crate(
    item_name: Option<&str>,
    kind_label: Option<&str>,
    root_exports_item: bool,
    root_exports_self_type: bool,
) -> (r: Option<FindingParams>)
    ensures
        r is Some <==> (item_name is Some && kind_label is Some && !root_exports_item
            && !root_exports_self_type),
        r is Some ==> r->0@ == narrow_to_pub_crate_finding(kind_label->0@, item_name->0@),
{
    let (name, kind) = match (item_name, kind_label) {
        (Some(name), Some(kind)) => (name, kind),
        _ => return None,
    };
    if root_exports_item || root_exports_self_type {
        return None;
    }
    Some(
        FindingParams {
            severity: Severity::Warning,
            diagnostic_code: DiagnosticCode::NarrowToPubCrate,
            item: Some(render_item(kind, name)),
            message: "item is not re-exported by the crate root \u{2014} use `pub(crate)`".to_owned(),
            suggestion: Some("consider using: `pub(crate)`".to_owned()),
            fix_support: FixSupport::NarrowToPubCrate,
            related: None,
        },
    )
}

/// Why a plain `pub` item is left alone.
#[derive(Debug, Clone, Copy, PartialEq, Eq, Structural)]
pub enum AllowanceReason {
    Allowlist,
    ParentIsPublic,
    TopLevelPrivateModulePolicy,
    ReachablePublicApi,
    ParentFacadeUsedOutsideParent,
    InternalParentFacadeBoundary,
    ExposedByOtherCrateVisibleSignature,
}

/// What the suspicious-`pub` check concludes for an item.
#[derive(Debug)]
pub enum SuspiciousPubAssessment {
    Allowed(AllowanceReason),
    /// The parent facade that re-exports the item is used only inside the
    /// parent's subtree, by relative paths.
    ReviewInternalParentFacade { related: Option<String> },
    Warn {
        fix_support: FixSupport,
        related: Option<String>,
        /// The parent facade whose `pub use` went stale with the item.
        stale_parent_pub_use: Option<ParentFacadeExportStatus>,
    },
}

/// The mathematical reading of [`SuspiciousPubAssessment`].
pub enum AssessmentView {
    Allowed(AllowanceReason),
    ReviewInternalParentFacade { related: Option<Seq<char>> },
    Warn {
        fix_support: FixSupport,
        related: Option<Seq<char>>,
        stale_parent_pub_use: Option<ParentFacadeExportStatus>,
    },
}

impl View for SuspiciousPubAssessment {
    type V = AssessmentView;

    open spec fn view(&self) -> AssessmentView {
        match *self {
            SuspiciousPubAssessment::Allowed(reason) => AssessmentView::Allowed(reason),
            SuspiciousPubAssessment::ReviewInternalParentFacade { related } => {
                AssessmentView::ReviewInternalParentFacade { related: option_text(related) }
            },
            SuspiciousPubAssessment::Warn { fix_support, related, stale_parent_pub_use } => {
                AssessmentView::Warn {
                    fix_support,
                    related: option_text(related),
                    stale_parent_pub_use,
                }
            },
        }
    }
}

/// `prefix`, the parent facade's path and line as `path:line`, and `suffix`.
pub open spec fn at_parent_line(
    prefix: Seq<char>,
    status: ParentFacadeExportStatus,
    suffix: Seq<char>,
) -> Seq<char> {
    prefix + status.parent_rel_path@ + ":"@ + decimal_text(status.parent_line as nat) + suffix
}

fn text_at_parent_line(prefix: &str, status: &ParentFacadeExportStatus, suffix: &str) -> (r: String)
    ensures
        r@ == at_parent_line(prefix@, *status, suffix@),
{
    let mut text = String::from_str(prefix);
    text.append(status.parent_rel_path.as_str());
    text.append(":");
    let digits = string_from_chars(&decimal_chars(status.parent_line as u128));
    text.append(digits.as_str());
    text.append(suffix);
    text
}

/// The item key configuration entries allow a `pub` item by:
/// `{config_rel_path}::{item_name}`.
pub open spec fn allow_key(config_rel_path: Seq<char>, item_name: Seq<char>) -> Seq<char> {
    config_rel_path + "::"@ + item_name
}

/// The allowances that need no look at the parent facade: an allowlisted
/// item key, a public parent, or an item reachable from the public API.
pub open spec fn basic_allowance_spec(
    allow_pub_items: Seq<String>,
    config_rel_path: Option<Seq<char>>,
    item_name: Option<Seq<char>>,
    parent_is_public: bool,
    reachable_public: bool,
) -> Option<AllowanceReason> {
    if config_rel_path is Some && item_name is Some && listed(
        allow_pub_items,
        allow_key(config_rel_path->0, item_name->0),
    ) {
        Some(AllowanceReason::Allowlist)
    } else if parent_is_public {
        Some(AllowanceReason::ParentIsPublic)
    } else if reachable_public {
        Some(AllowanceReason::ReachablePublicApi)
    } else {
        None
    }
}

/// Why a `pub` item is allowed without looking at its parent facade, if it
/// is. `reachable_public` says whether the item is reachable from the
/// crate's public API.
pub fn basic_suspicious_pub_allowance(
    allow_pub_items: &Vec<String>,
    config_rel_path: Option<&str>,
    item_name: Option<&str>,
    parent_is_public: bool,
    reachable_public: bool,
) -> (r: Option<AllowanceReason>)
    ensures
        r == basic_allowance_spec(
            allow_pub_items@,
            match config_rel_path {
                Some(p) => Some(p@),
                None => None,
            },
            match item_name {
                Some(n) => Some(n@),
                None => None,
            },
            parent_is_public,
            reachable_public,
        ),
{
    let allowlisted = match (config_rel_path, item_name) {
        (Some(path), Some(name)) => {
            let mut key = String::from_str(path);
            key.append("::");
            key.append(name);
            is_listed(allow_pub_items, key.as_str())
        },
        _ => false,
    };
    if allowlisted {
        return Some(AllowanceReason::Allowlist);
    }
    if parent_is_public {
        return Some(AllowanceReason::ParentIsPublic);
    }
    if reachable_public {
        return Some(AllowanceReason::ReachablePublicApi);
    }
    None
}

/// What the parent facade's use settles, if anything: a `pub(super)` facade
/// that is used marks an internal boundary; a facade used outside the
/// parent's subtree allows the item; one used inside the subtree by
/// relative paths is an internal facade to review.
pub open spec fn facade_assessment_spec(status: Option<ParentFacadeExportStatus>) -> Option<
    AssessmentView,
> {
    match status {
        None => None,
        Some(s) => if s.parent_facade_reach.spelling == ParentFacadeSpelling::Super && s.usage
            != ParentFacadeUsage::Unused {
            Some(AssessmentView::Allowed(AllowanceReason::InternalParentFacadeBoundary))
        } else {
            match s.usage {
                ParentFacadeUsage::UsedOutsideSubtree => Some(
                    AssessmentView::Allowed(AllowanceReason::ParentFacadeUsedOutsideParent),
                ),
                ParentFacadeUsage::UsedInsideSubtreeByRelativePath
                | ParentFacadeUsage::UsedInsideSubtreeByRelativeImport => Some(
                    AssessmentView::ReviewInternalParentFacade {
                        related: Some(
                            at_parent_line(
                                "parent module uses this item as an internal facade at "@,
                                s,
                                seq![],
                            ),
                        ),
                    },
                ),
                _ => None,
            }
        },
    }
}

/// What the parent facade that re-exports the item settles, if anything.
pub fn assess_parent_facade_usage(status: Option<&ParentFacadeExportStatus>) -> (r: Option<
    SuspiciousPubAssessment,
>)
    ensures
        match r {
            Some(a) => facade_assessment_spec(
                match status {
                    Some(s) => Some(*s),
                    None => None,
                },
            ) == Some(a@),
            None => facade_assessment_spec(
                match status {
                    Some(s) => Some(*s),
                    None => None,
                },
            ) is None,
        },
{
    let s = match status {
        Some(s) => s,
        None => return None,
    };
    if s.parent_facade_reach.spelling == ParentFacadeSpelling::Super && s.usage
        != ParentFacadeUsage::Unused {
        return Some(SuspiciousPubAssessment::Allowed(AllowanceReason::InternalParentFacadeBoundary));
    }
    match s.usage {
        ParentFacadeUsage::UsedOutsideSubtree => Some(
            SuspiciousPubAssessment::Allowed(AllowanceReason::ParentFacadeUsedOutsideParent),
        ),
        ParentFacadeUsage::UsedInsideSubtreeByRelativePath
        | ParentFacadeUsage::UsedInsideSubtreeByRelativeImport => {
            let related = text_at_parent_line(
                "parent module uses this item as an internal facade at ",
                s,
                "",
            );
            proof {
                reveal_strlit("");
            }
            Some(SuspiciousPubAssessment::ReviewInternalParentFacade { related: Some(related) })
        },
        _ => None,
    }
}

/// What the analysis found out about a plain `pub` item, for the
/// suspicious-`pub` check.
#[derive(Debug)]
pub struct SuspiciousPubFacts {
    pub config_rel_path: Option<String>,
    pub item_name: Option<String>,
    pub parent_is_public: bool,
    /// The item is reachable from the crate's public API.
    pub reachable_public: bool,
    /// The parent facade that re-exports the item, if one does.
    pub parent_facade_export: Option<ParentFacadeExportStatus>,
    /// A signature visible outside the crate, an exported impl's self type,
    /// a sibling boundary's signature, or the parent boundary's public
    /// signature used outside the parent exposes the item.
    pub exposed_by_signature: bool,
    pub module_location: ModuleLocation,
}

/// Why the parent facade's `pub use` went stale along with the item: its
/// import is unused, or it is used only by crate-relative paths inside the
/// parent's subtree.
pub open spec fn stale_message(s: ParentFacadeExportStatus) -> Option<Seq<char>> {
    match s.usage {
        ParentFacadeUsage::Unused => Some(
            at_parent_line(
                "parent module also has an `unused import` warning for this `pub use` at "@,
                s,
                seq![],
            ),
        ),
        ParentFacadeUsage::UsedInsideSubtreeByCratePath
        | ParentFacadeUsage::UsedInsideSubtreeByCrateImport => Some(
            at_parent_line(
                "parent `pub use` at "@,
                s,
                " is only used through crate-relative paths inside its own subtree"@,
            ),
        ),
        _ => None,
    }
}

/// How the suspicious-`pub` check concludes: an allowlisted, public-parent
/// or reachable item is allowed; next the parent facade's use decides; next
/// exposure through a signature allows the item; a top-level private module
/// allows an item whose parent `pub use` is not stale; any other item is
/// warned about, naming a stale parent `pub use` and offering to rewrite it
/// when a fix can.
pub open spec fn classify_spec(facts: SuspiciousPubFacts, allow_pub_items: Seq<String>) -> AssessmentView {
    let basic = basic_allowance_spec(
        allow_pub_items,
        option_text(facts.config_rel_path),
        option_text(facts.item_name),
        facts.parent_is_public,
        facts.reachable_public,
    );
    let stale = match facts.parent_facade_export {
        Some(s) => stale_message(s) is Some,
        None => false,
    };
    if basic is Some {
        AssessmentView::Allowed(basic->0)
    } else if facade_assessment_spec(facts.parent_facade_export) is Some {
        facade_assessment_spec(facts.parent_facade_export)->0
    } else if facts.exposed_by_signature {
        AssessmentView::Allowed(AllowanceReason::ExposedByOtherCrateVisibleSignature)
    } else if facts.module_location == ModuleLocation::TopLevelPrivateModule && !stale {
        AssessmentView::Allowed(AllowanceReason::TopLevelPrivateModulePolicy)
    } else if stale {
        let s = facts.parent_facade_export->0;
        AssessmentView::Warn {
            fix_support: if s.fix_support == ParentFacadeFixSupport::Supported {
                FixSupport::PubUse
            } else {
                FixSupport::NeedsManualPubUseCleanup
            },
            related: stale_message(s),
            stale_parent_pub_use: Some(s),
        }
    } else {
        AssessmentView::Warn { fix_support: FixSupport::NoFix, related: None, stale_parent_pub_use: None }
    }
}

/// The parent facade's import went stale along with the item: it is
/// unused, or used only through crate-relative paths or imports inside
/// the parent's subtree.
pub open spec fn stale_usage(u: ParentFacadeUsage) -> bool {
    u == ParentFacadeUsage::Unused || u == ParentFacadeUsage::UsedInsideSubtreeByCratePath || u
        == ParentFacadeUsage::UsedInsideSubtreeByCrateImport
}

/// An item that is neither allowlisted, nor under a public parent, nor
/// reachable, nor exposed by a signature, and whose parent `pub use` went
/// stale (and, when used by crate paths, is not a `pub(super)` facade), is
/// warned about, wherever its module stands: the warning carries that
/// parent `pub use`, offers to rewrite it when the facade supports a fix
/// (and asks for a manual cleanup otherwise), and points at the parent's
/// `unused import` warning, or says the `pub use` is only used through
/// crate-relative paths inside its own subtree.
pub proof fn lemma_stale_parent_pub_use_is_warned(facts: SuspiciousPubFacts, allow_pub_items: Seq<String>)
    requires
        !(facts.config_rel_path is Some && facts.item_name is Some && listed(
            allow_pub_items,
            allow_key(facts.config_rel_path->0@, facts.item_name->0@),
        )),
        !facts.parent_is_public,
        !facts.reachable_public,
        !facts.exposed_by_signature,
        facts.parent_facade_export is Some,
        stale_usage(facts.parent_facade_export->0.usage),
        facts.parent_facade_export->0.usage != ParentFacadeUsage::Unused
            ==> facts.parent_facade_export->0.parent_facade_reach.spelling != ParentFacadeSpelling::Super,
    ensures
        ({
            let r = classify_spec(facts, allow_pub_items);
            let s = facts.parent_facade_export->0;
            &&& r is Warn
            &&& r->Warn_stale_parent_pub_use == Some(s)
            &&& r->Warn_related is Some
            &&& (r->Warn_fix_support == FixSupport::PubUse) == (s.fix_support
                == ParentFacadeFixSupport::Supported)
            &&& (r->Warn_fix_support == FixSupport::PubUse || r->Warn_fix_support
                == FixSupport::NeedsManualPubUseCleanup)
            &&& s.usage == ParentFacadeUsage::Unused ==> r->Warn_related == Some(
                "parent module also has an `unused import` warning for this `pub use` at "@
                    + s.parent_rel_path@ + ":"@ + decimal_text(s.parent_line as nat),
            )
            &&& s.usage != ParentFacadeUsage::Unused ==> r->Warn_related == Some(
                "parent `pub use` at "@ + s.parent_rel_path@ + ":"@ + decimal_text(
                    s.parent_line as nat,
                ) + " is only used through crate-relative paths inside its own subtree"@,
            )
        }),
{
    let s = facts.parent_facade_export->0;
    assert(option_text(facts.config_rel_path) == Some(facts.config_rel_path->0@)
        || facts.config_rel_path is None);
    assert(option_text(facts.item_name) == Some(facts.item_name->0@) || facts.item_name is None);
    assert(facade_assessment_spec(facts.parent_facade_export) is None);
    if s.usage == ParentFacadeUsage::Unused {
        assert(at_parent_line(
            "parent module also has an `unused import` warning for this `pub use` at "@,
            s,
            seq![],
        ) =~= "parent module also has an `unused import` warning for this `pub use` at "@
            + s.parent_rel_path@ + ":"@ + decimal_text(s.parent_line as nat));
    }
}

/// The top-level private module policy allows an item only in a top-level
/// private module, and only when its parent `pub use` has not gone stale.
pub proof fn lemma_top_level_policy_needs_live_parent_pub_use(
    facts: SuspiciousPubFacts,
    allow_pub_items: Seq<String>,
)
    requires
        classify_spec(facts, allow_pub_items) == AssessmentView::Allowed(
            AllowanceReason::TopLevelPrivateModulePolicy,
        ),
    ensures
        facts.module_location == ModuleLocation::TopLevelPrivateModule,
        !(facts.parent_facade_export is Some && stale_usage(facts.parent_facade_export->0.usage)),
{
}

/// Where the item's module stands decides only between the top-level
/// private module allowance and a bare warning: two items alike in all but
/// their module location are assessed alike, or one is allowed by that
/// policy and the other draws a warning with no fix, note or parent
/// `pub use`.
pub proof fn lemma_location_only_decides_policy_allowance(
    a: SuspiciousPubFacts,
    b: SuspiciousPubFacts,
    allow_pub_items: Seq<String>,
)
    requires
        a.config_rel_path == b.config_rel_path,
        a.item_name == b.item_name,
        a.parent_is_public == b.parent_is_public,
        a.reachable_public == b.reachable_public,
        a.parent_facade_export == b.parent_facade_export,
        a.exposed_by_signature == b.exposed_by_signature,
    ensures
        ({
            let ra = classify_spec(a, allow_pub_items);
            let rb = classify_spec(b, allow_pub_items);
            let allowed = AssessmentView::Allowed(AllowanceReason::TopLevelPrivateModulePolicy);
            let bare = AssessmentView::Warn {
                fix_support: FixSupport::NoFix,
                related: None,
                stale_parent_pub_use: None,
            };
            ra == rb || (ra == allowed && rb == bare) || (ra == bare && rb == allowed)
        }),
{
}

fn option_str(o: &Option<String>) -> (r: Option<&str>)
    ensures
        match r {
            Some(t) => option_text(*o) == Some(t@),
            None => o is None,
        },
{
    match o {
        Some(t) => Some(t.as_str()),
        None => None,
    }
}

fn stale_parent_message(s: &ParentFacadeExportStatus) -> (r: Option<String>)
    ensures
        option_text(r) == stale_message(*s),
{
    match s.usage {
        ParentFacadeUsage::Unused => {
            proof {
                reveal_strlit("");
            }
            Some(
                text_at_parent_line(
                    "parent module also has an `unused import` warning for this `pub use` at ",
                    s,
                    "",
                ),
            )
        },
        ParentFacadeUsage::UsedInsideSubtreeByCratePath
        | ParentFacadeUsage::UsedInsideSubtreeByCrateImport => Some(
            text_at_parent_line(
                "parent `pub use` at ",
                s,
                " is only used through crate-relative paths inside its own subtree",
            ),
        ),
        _ => None,
    }
}

/// Whether a plain `pub` item is allowed, is re-exported by an internal
/// parent facade to review, or draws a warning.
pub fn classify_suspicious_pub(facts: SuspiciousPubFacts, allow_pub_items: &Vec<String>) -> (r:
    SuspiciousPubAssessment)
    ensures
        r@ == classify_spec(facts, allow_pub_items@),
{
    if let Some(allowance) = basic_suspicious_pub_allowance(
        allow_pub_items,
        option_str(&facts.config_rel_path),
        option_str(&facts.item_name),
        facts.parent_is_public,
        facts.reachable_public,
    ) {
        return SuspiciousPubAssessment::Allowed(allowance);
    }
    let facade = match &facts.parent_facade_export {
        Some(s) => assess_parent_facade_usage(Some(s)),
        None => assess_parent_facade_usage(None),
    };
    if let Some(assessment) = facade {
        return assessment;
    }
    if facts.exposed_by_signature {
        return SuspiciousPubAssessment::Allowed(
            AllowanceReason::ExposedByOtherCrateVisibleSignature,
        );
    }
    let module_location = facts.module_location;
    match facts.parent_facade_export {
        Some(status) => {
            match stale_parent_message(&status) {
                Some(message) => {
                    let fix_support = if status.fix_support == ParentFacadeFixSupport::Supported {
                        FixSupport::PubUse
                    } else {
                        FixSupport::NeedsManualPubUseCleanup
                    };
                    SuspiciousPubAssessment::Warn {
                        fix_support,
                        related: Some(message),
                        stale_parent_pub_use: Some(status),
                    }
                },
                None => {
                    if module_location == ModuleLocation::TopLevelPrivateModule {
                        SuspiciousPubAssessment::Allowed(
                            AllowanceReason::TopLevelPrivateModulePolicy,
                        )
                    } else {
                        SuspiciousPubAssessment::Warn {
                            fix_support: FixSupport::NoFix,
                            related: None,
                            stale_parent_pub_use: None,
                        }
                    }
                },
            }
        },
        None => {
            if module_location == ModuleLocation::TopLevelPrivateModule {
                SuspiciousPubAssessment::Allowed(AllowanceReason::TopLevelPrivateModulePolicy)
            } else {
                SuspiciousPubAssessment::Warn {
                    fix_support: FixSupport::NoFix,
                    related: None,
                    stale_parent_pub_use: None,
                }
            }
        },
    }
}

/// Where a finding is reported.
#[derive(Debug)]
pub enum FindingPlace {
    /// At the item's own visibility annotation.
    Item,
    /// At a line of another file: the parent facade's `pub use`.
    Line { path: String, line: usize },
}

/// A finding and where it is reported.
#[derive(Debug)]
pub struct PlacedFinding {
    pub place: FindingPlace,
    pub params: FindingParams,
}

/// What the suspicious-`pub` check records for an item: at most one
/// finding, and the fix fact that authorizes rewriting a stale parent
/// `pub use`.
#[derive(Debug)]
pub struct SuspiciousPubOutcome {
    pub finding: Option<PlacedFinding>,
    pub fix_fact: Option<StoredPubUseFixFact>,
}

/// The finding for an internal parent facade to review.
pub open spec fn internal_facade_finding(item_name: Option<Seq<char>>, related: Option<Seq<char>>) -> FindingParamsView {
    FindingParamsView {
        severity: Severity::Warning,
        diagnostic_code: DiagnosticCode::InternalParentPubUseFacade,
        item: match item_name {
            Some(name) => Some("pub use "@ + name),
            None => None,
        },
        message: "this `pub use` is used inside its parent module subtree"@,
        suggestion: None,
        fix_support: FixSupport::InternalParentFacade,
        related,
    }
}

/// The suspicious-`pub` warning.
pub open spec fn suspicious_pub_finding(
    crate_kind: CrateKind,
    kind_label: Seq<char>,
    item_name: Option<Seq<char>>,
    fix_support: FixSupport,
    related: Option<Seq<char>>,
) -> FindingParamsView {
    FindingParamsView {
        severity: Severity::Warning,
        diagnostic_code: DiagnosticCode::SuspiciousPub,
        item: match item_name {
            Some(name) => Some(render_item_spec(kind_label, name)),
            None => None,
        },
        message: suspicious_pub_note_spec(crate_kind, kind_label),
        suggestion: None,
        fix_support,
        related,
    }
}

/// The child module a file is, by its stem; a `mod.rs` names none.
pub open spec fn child_module_of(stem: Option<Seq<char>>) -> Option<Seq<char>> {
    match stem {
        Some(s) => if s != "mod"@ {
            Some(s)
        } else {
            None
        },
        None => None,
    }
}

pub open spec fn str_view(o: Option<&str>) -> Option<Seq<char>> {
    match o {
        Some(t) => Some(t@),
        None => None,
    }
}

/// What the suspicious-`pub` check records for an item of a known kind:
/// nothing when it is allowed; a finding at the parent facade's line for an
/// internal facade; otherwise a warning at the item, and, when the warning
/// offers to rewrite a stale parent `pub use` and the item's file names a
/// child module, the fix fact for that rewrite.
pub open spec fn suspicious_outcome_holds(
    r: SuspiciousPubOutcome,
    kind_label: Option<Seq<char>>,
    crate_kind: CrateKind,
    facts: SuspiciousPubFacts,
    allow_pub_items: Seq<String>,
    child_path: Seq<char>,
    child_line: usize,
    child_file_stem: Option<Seq<char>>,
) -> bool {
    let name = option_text(facts.item_name);
    match kind_label {
        None => r.finding is None && r.fix_fact is None,
        Some(kind) => match classify_spec(facts, allow_pub_items) {
            AssessmentView::Allowed(_) => r.finding is None && r.fix_fact is None,
            AssessmentView::ReviewInternalParentFacade { related } => {
                &&& r.fix_fact is None
                &&& r.finding is Some
                &&& r.finding->0.place == (FindingPlace::Line {
                    path: facts.parent_facade_export->0.parent_path,
                    line: facts.parent_facade_export->0.parent_line,
                })
                &&& r.finding->0.params@ == internal_facade_finding(name, related)
            },
            AssessmentView::Warn { fix_support, related, stale_parent_pub_use } => {
                &&& r.finding is Some
                &&& r.finding->0.place == FindingPlace::Item
                &&& r.finding->0.params@ == suspicious_pub_finding(
                    crate_kind,
                    kind,
                    name,
                    fix_support,
                    related,
                )
                &&& if stale_parent_pub_use is Some && name is Some && fix_support
                    == FixSupport::PubUse && child_module_of(child_file_stem) is Some {
                    &&& r.fix_fact is Some
                    &&& r.fix_fact->0@ == (FixFactView {
                        child_path,
                        child_line,
                        child_item_name: name->0,
                        parent_path: stale_parent_pub_use->0.parent_path@,
                        parent_line: stale_parent_pub_use->0.parent_line,
                        child_module: child_module_of(child_file_stem)->0,
                    })
                } else {
                    r.fix_fact is None
                }
            },
        },
    }
}

/// What the suspicious-`pub` check records for a plain `pub` item.
/// `child_path` is the item's file, `child_line` the line of its
/// annotation, and `child_file_stem` its file's stem.
pub fn maybe_record_suspicious_pub(
    kind_label: Option<&str>,
    crate_kind: CrateKind,
    facts: SuspiciousPubFacts,
    allow_pub_items: &Vec<String>,
    child_path: &str,
    child_line: usize,
    child_file_stem: Option<&str>,
) -> (r: SuspiciousPubOutcome)
    ensures
        suspicious_outcome_holds(
            r,
            str_view(kind_label),
            crate_kind,
            facts,
            allow_pub_items@,
            child_path@,
            child_line,
            str_view(child_file_stem),
        ),
{
    let kind = match kind_label {
        Some(kind) => kind,
        None => return SuspiciousPubOutcome { finding: None, fix_fact: None },
    };
    let item_name: Option<String> = match &facts.item_name {
        Some(name) => Some(name.clone()),
        None => None,
    };
    let parent_place: Option<FindingPlace> = match &facts.parent_facade_export {
        Some(s) => Some(FindingPlace::Line { path: s.parent_path.clone(), line: s.parent_line }),
        None => None,
    };
    match classify_suspicious_pub(facts, allow_pub_items) {
        SuspiciousPubAssessment::Allowed(_) => SuspiciousPubOutcome { finding: None, fix_fact: None },
        SuspiciousPubAssessment::ReviewInternalParentFacade { related } => {
            let place = match parent_place {
                Some(place) => place,
                None => return SuspiciousPubOutcome { finding: None, fix_fact: None },
            };
            let item = match &item_name {
                Some(name) => {
                    let mut text = String::from_str("pub use ");
                    text.append(name.as_str());
                    Some(text)
                },
                None => None,
            };
            let params = FindingParams {
                severity: Severity::Warning,
                diagnostic_code: DiagnosticCode::InternalParentPubUseFacade,
                item,
                message: "this `pub use` is used inside its parent module subtree".to_owned(),
                suggestion: None,
                fix_support: FixSupport::InternalParentFacade,
                related,
            };
            SuspiciousPubOutcome {
                finding: Some(PlacedFinding { place, params }),
                fix_fact: None,
            }
        },
        SuspiciousPubAssessment::Warn { fix_support, related, stale_parent_pub_use } => {
            let item = match &item_name {
                Some(name) => Some(render_item(kind, name.as_str())),
                None => None,
            };
            let params = FindingParams {
                severity: Severity::Warning,
                diagnostic_code: DiagnosticCode::SuspiciousPub,
                item,
                message: suspicious_pub_note(crate_kind, kind),
                suggestion: None,
                fix_support,
                related,
            };
            let finding = Some(PlacedFinding { place: FindingPlace::Item, params });
            let fix_fact = match (stale_parent_pub_use, item_name) {
                (Some(status), Some(name)) => {
                    if fix_support == FixSupport::PubUse {
                        match child_file_stem {
                            Some(stem) => {
                                if text_equals(stem, "mod") {
                                    None
                                } else {
                                    Some(
                                        StoredPubUseFixFact {
                                            child_path: child_path.to_owned(),
                                            child_line,
                                            child_item_name: name,
                                            parent_path: status.parent_path,
                                            parent_line: status.parent_line,
                                            child_module: stem.to_owned(),
                                        },
                                    )
                                }
                            },
                            None => None,
                        }
                    } else {
                        None
                    }
                },
                _ => None,
            };
            SuspiciousPubOutcome { finding, fix_fact }
        },
    }
}

} // verus!
