//! What one compilation target's analysis stores: its findings, the fix
//! facts that authorize `--fix-pub-use` edits, and the modules that use each
//! item.

use vstd::prelude::*;
use crate::cargo_output::CompilerWarningFacts;
use crate::constraint::StoredVisibilityConstraint;

verus! {

/// The lint a finding belongs to.
#[derive(Debug, Clone, Copy, PartialEq, Eq, Structural)]
pub enum DiagnosticCode {
    ForbiddenPubCrate,
    ForbiddenPubInCrate,
    InternalParentPubUseFacade,
    NarrowToPubCrate,
    OverbroadPubCrate,
    ReviewPubMod,
    SuspiciousPub,
    UnusedPub,
    WildcardParentPubUse,
}

#[derive(Debug, Clone, Copy, PartialEq, Eq, Structural)]
pub enum Severity {
    Error,
    Warning,
}

/// Which automatic fix, if any, a finding advertises.
#[derive(Debug, Clone, Copy, Default, PartialEq, Eq, Structural)]
pub enum FixSupport {
    #[default]
    NoFix,
    PubUse,
    NeedsManualPubUseCleanup,
    RestrictedAnnotation,
    BlockedByPrivateImport,
    UnusedPub,
    InternalParentFacade,
    NarrowToPubCrate,
}

/// How a replacement visibility is written.
#[derive(Debug, Clone, Copy, PartialEq, Eq, Structural)]
pub enum ExactBoundarySpelling {
    Public,
    Crate,
    Private,
    CratePath,
    Parent,
}

/// Whether the feature configuration analyzed covers every feature.
#[derive(Debug, Clone, Copy, Default, PartialEq, Eq, Structural)]
pub enum AllFeaturesCoverage {
    Superset,
    #[default]
    NotGuaranteed,
}

impl AllFeaturesCoverage {
    /// Coverage of two analyses together: a superset only if both are.
    pub fn merge(self, other: Self) -> (r: Self)
        ensures
            r == (if self == AllFeaturesCoverage::Superset && other
                == AllFeaturesCoverage::Superset {
                AllFeaturesCoverage::Superset
            } else {
                AllFeaturesCoverage::NotGuaranteed
            }),
    {
        match (self, other) {
            (AllFeaturesCoverage::Superset, AllFeaturesCoverage::Superset) => {
                AllFeaturesCoverage::Superset
            },
            _ => AllFeaturesCoverage::NotGuaranteed,
        }
    }
}

/// How a caller reaches the target item.
#[derive(Debug, Clone, Copy, PartialEq, Eq, Structural)]
pub enum UseSiteReference {
    /// The caller writes a path to the item.
    Named,
    /// The caller reaches the item only through another item's signature.
    ThroughSignature,
    /// A private `use` of the item with no semantic reference.
    PrivateImport,
    /// A restricted `use` of the item, which imposes its written boundary.
    RestrictedImport,
    /// The item appears in its own declaration's interface.
    DeclarationInterface,
}

/// One module's use of one item.
#[derive(Debug, Clone, PartialEq, Eq)]
pub struct UseSite {
    pub target_def_path: String,
    pub caller_module_def_path: String,
    pub reference: UseSiteReference,
}

pub struct UseSiteView {
    pub target: Seq<char>,
    pub caller: Seq<char>,
    pub reference: UseSiteReference,
}

impl View for UseSite {
    type V = UseSiteView;

    open spec fn view(&self) -> UseSiteView {
        UseSiteView {
            target: self.target_def_path@,
            caller: self.caller_module_def_path@,
            reference: self.reference,
        }
    }
}

/// One diagnostic as a target's analysis stored it.
#[derive(Debug, Clone)]
pub struct StoredFinding {
    pub severity: Severity,
    pub diagnostic_code: DiagnosticCode,
    pub path: String,
    pub line: usize,
    pub column: usize,
    pub highlight_len: usize,
    pub source_line: String,
    /// `"{kind_label} {name}"`, built by [`render_item`].
    pub item: Option<String>,
    pub message: String,
    pub suggestion: Option<String>,
    pub fix_support: FixSupport,
    pub related: Option<String>,
    /// The complete text of the visibility annotation.
    pub visibility_annotation: Option<String>,
    /// Def-path of the item the finding is about.
    pub item_def_path: Option<String>,
    /// Def-path of the proposed narrower scope.
    pub narrower_scope_def_path: Option<String>,
    pub exact_boundary_spelling: ExactBoundarySpelling,
}

pub open spec fn option_text(o: Option<String>) -> Option<Seq<char>> {
    match o {
        Some(s) => Some(s@),
        None => None,
    }
}

/// The mathematical reading of [`StoredFinding`].
pub struct FindingView {
    pub severity: Severity,
    pub code: DiagnosticCode,
    pub path: Seq<char>,
    pub line: usize,
    pub column: usize,
    pub highlight_len: usize,
    pub source_line: Seq<char>,
    pub item: Option<Seq<char>>,
    pub message: Seq<char>,
    pub suggestion: Option<Seq<char>>,
    pub fix_support: FixSupport,
    pub related: Option<Seq<char>>,
    pub annotation: Option<Seq<char>>,
    pub item_def_path: Option<Seq<char>>,
    pub narrower_scope: Option<Seq<char>>,
    pub spelling: ExactBoundarySpelling,
}

impl View for StoredFinding {
    type V = FindingView;

    open spec fn view(&self) -> FindingView {
        FindingView {
            severity: self.severity,
            code: self.diagnostic_code,
            path: self.path@,
            line: self.line,
            column: self.column,
            highlight_len: self.highlight_len,
            source_line: self.source_line@,
            item: option_text(self.item),
            message: self.message@,
            suggestion: option_text(self.suggestion),
            fix_support: self.fix_support,
            related: option_text(self.related),
            annotation: option_text(self.visibility_annotation),
            item_def_path: option_text(self.item_def_path),
            narrower_scope: option_text(self.narrower_scope_def_path),
            spelling: self.exact_boundary_spelling,
        }
    }
}

pub open spec fn finding_views(v: Seq<StoredFinding>) -> Seq<FindingView> {
    v.map_values(|f: StoredFinding| f@)
}

/// The child declaration a `--fix-pub-use` narrowing would rewrite.
#[derive(Debug, Clone, PartialEq, Eq)]
pub struct StoredPubUseFixFact {
    pub child_path: String,
    pub child_line: usize,
    pub child_item_name: String,
    pub parent_path: String,
    pub parent_line: usize,
    pub child_module: String,
}

/// The mathematical reading of [`StoredPubUseFixFact`].
pub struct FixFactView {
    pub child_path: Seq<char>,
    pub child_line: usize,
    pub child_item_name: Seq<char>,
    pub parent_path: Seq<char>,
    pub parent_line: usize,
    pub child_module: Seq<char>,
}

impl View for StoredPubUseFixFact {
    type V = FixFactView;

    open spec fn view(&self) -> FixFactView {
        FixFactView {
            child_path: self.child_path@,
            child_line: self.child_line,
            child_item_name: self.child_item_name@,
            parent_path: self.parent_path@,
            parent_line: self.parent_line,
            child_module: self.child_module@,
        }
    }
}

pub open spec fn fact_views(v: Seq<StoredPubUseFixFact>) -> Seq<FixFactView> {
    v.map_values(|f: StoredPubUseFixFact| f@)
}

/// Everything one compilation target's analysis stored.
#[derive(Debug)]
pub struct StoredReport {
    pub version: u32,
    pub analysis_fingerprint: String,
    pub scope_fingerprint: String,
    pub package_root: String,
    pub crate_root_file: String,
    pub config_fingerprint: String,
    pub source_files: Vec<String>,
    pub findings: Vec<StoredFinding>,
    pub visibility_constraints: Vec<StoredVisibilityConstraint>,
    pub pub_use_fix_facts: Vec<StoredPubUseFixFact>,
    pub all_features_coverage: AllFeaturesCoverage,
    pub compiler_warning_facts: CompilerWarningFacts,
    pub use_sites: Vec<UseSite>,
}

pub open spec fn render_item_spec(kind_label: Seq<char>, name: Seq<char>) -> Seq<char> {
    kind_label + seq![' '] + name
}

/// `"{kind_label} {name}"`: the rendering stored in [`StoredFinding::item`].
pub fn render_item(kind_label: &str, name: &str) -> (r: String)
    ensures
        r@ == render_item_spec(kind_label@, name@),
{
    let mut s = String::from_str(kind_label);
    s.append(" ");
    s.append(name);
    proof {
        reveal_strlit(" ");
    }
    s
}

/// The position of the last space in `s`, or -1.
pub open spec fn last_space(s: Seq<char>) -> int
    decreases s.len(),
{
    if s.len() == 0 {
        -1
    } else if s.last() == ' ' {
        s.len() - 1
    } else {
        last_space(s.drop_last())
    }
}

/// The bare name of a rendered item: what follows its last space.
pub open spec fn item_name_spec(item: Seq<char>) -> Seq<char> {
    let i = last_space(item);
    if i < 0 {
        item
    } else {
        item.skip(i + 1)
    }
}

proof fn lemma_last_space(s: Seq<char>)
    ensures
        -1 <= last_space(s) < s.len(),
        last_space(s) >= 0 ==> s[last_space(s)] == ' ',
        forall|j: int| last_space(s) < j < s.len() ==> s[j] != ' ',
    decreases s.len(),
{
    if s.len() > 0 && s.last() != ' ' {
        let t = s.drop_last();
        lemma_last_space(t);
        assert forall|j: int| last_space(s) < j < s.len() implies s[j] != ' ' by {
            if j < s.len() - 1 {
                assert(s[j] == t[j]);
            }
        }
    }
}

/// Recovers the bare item name from a rendering built by [`render_item`].
pub fn item_name(item: &str) -> (r: String)
    ensures
        r@ == item_name_spec(item@),
{
    let v = crate::text::chars_of(item);
    let mut i = v.len();
    while i > 0 && v[i - 1] != ' '
        invariant
            i <= v.len(),
            v@ == item@,
            forall|j: int| i <= j < v.len() ==> v@[j] != ' ',
        decreases i,
    {
        i = i - 1;
    }
    proof {
        lemma_last_space(v@);
        lemma_last_space_is(v@, i as int - 1);
    }
    let tail = crate::text::copy_range(&v, i, v.len());
    proof {
        if i == 0 {
            assert(tail@ =~= v@);
        }
    }
    crate::text::string_from_chars(&tail)
}

proof fn lemma_last_space_is(s: Seq<char>, k: int)
    requires
        -1 <= k < s.len(),
        k >= 0 ==> s[k] == ' ',
        forall|j: int| k < j < s.len() ==> s[j] != ' ',
    ensures
        last_space(s) == k,
    decreases s.len(),
{
    if s.len() > 0 && k < s.len() - 1 {
        lemma_last_space_is(s.drop_last(), k);
    }
}

/// Reading the name back from a rendered item gives the name, whenever the
/// name itself holds no space.
pub proof fn lemma_item_name_inverts_render_item(kind_label: Seq<char>, name: Seq<char>)
    requires
        forall|j: int| 0 <= j < name.len() ==> name[j] != ' ',
    ensures
        item_name_spec(render_item_spec(kind_label, name)) == name,
{
    let s = render_item_spec(kind_label, name);
    let k = kind_label.len() as int;
    assert forall|j: int| k < j < s.len() implies s[j] != ' ' by {
        assert(s[j] == name[j - k - 1]);
    }
    lemma_last_space_is(s, k);
    assert(s.skip(k + 1) =~= name);
}

} // verus!
