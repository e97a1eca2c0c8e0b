//! Which modules use each item across every compilation target of a
//! package, and the narrowing findings those uses invalidate.
//!
//! One target's analysis sees only its own callers. Before findings from
//! several targets are merged, the use sites of all of them are gathered per
//! (package, item), and a finding proposing a narrower scope is dropped when
//! some module outside that scope uses the item.

use vstd::prelude::*;
use crate::constraint::ConstraintView;
use crate::def_path::{def_path_is_descendant, is_descendant};
use crate::findings::{
    DiagnosticCode, FindingView, FixSupport, StoredFinding, StoredReport, UseSite,
    UseSiteReference, UseSiteView,
};
use crate::ordered::{
    TextOrder, ascending, compare_text, insert_text, lemma_text_lt_irreflexive, text_set, texts,
};

verus! {

/// The five caller sets kept per item.
pub enum CallerSet {
    /// Modules that write a path to the item.
    Naming,
    /// Every module that reaches the item.
    Reaching,
    /// Reach backed by an expression, type or signature.
    Semantic,
    /// Private imports of the item.
    PrivateImport,
    /// Restricted imports of the item.
    RestrictedImport,
}

/// Whether a reference of kind `r` puts its module in `set`.
pub open spec fn counts(set: CallerSet, r: UseSiteReference) -> bool {
    match set {
        CallerSet::Naming => r is Named || r is PrivateImport || r is RestrictedImport,
        CallerSet::Reaching => true,
        CallerSet::Semantic => r is Named || r is ThroughSignature,
        CallerSet::PrivateImport => r is PrivateImport,
        CallerSet::RestrictedImport => r is RestrictedImport,
    }
}

/// The mathematical reading of [`ItemCallers`].
pub struct ItemCallersView {
    pub naming: Set<Seq<char>>,
    pub reaching: Set<Seq<char>>,
    pub semantic_reaching: Set<Seq<char>>,
    pub private_imports: Set<Seq<char>>,
    pub restricted_imports: Set<Seq<char>>,
}

pub open spec fn no_callers() -> ItemCallersView {
    ItemCallersView {
        naming: Set::empty(),
        reaching: Set::empty(),
        semantic_reaching: Set::empty(),
        private_imports: Set::empty(),
        restricted_imports: Set::empty(),
    }
}

pub open spec fn add_to(s: Set<Seq<char>>, set: CallerSet, site: UseSiteView) -> Set<Seq<char>> {
    if counts(set, site.reference) {
        s.insert(site.caller)
    } else {
        s
    }
}

/// The callers after recording one use site.
pub open spec fn add_site(v: ItemCallersView, site: UseSiteView) -> ItemCallersView {
    ItemCallersView {
        naming: add_to(v.naming, CallerSet::Naming, site),
        reaching: add_to(v.reaching, CallerSet::Reaching, site),
        semantic_reaching: add_to(v.semantic_reaching, CallerSet::Semantic, site),
        private_imports: add_to(v.private_imports, CallerSet::PrivateImport, site),
        restricted_imports: add_to(v.restricted_imports, CallerSet::RestrictedImport, site),
    }
}

/// The modules reaching one item across every compilation target, split by
/// how they reach it. Each list ascends without repeats.
pub struct ItemCallers {
    naming: Vec<String>,
    reaching: Vec<String>,
    semantic_reaching: Vec<String>,
    private_imports: Vec<String>,
    restricted_imports: Vec<String>,
}

impl View for ItemCallers {
    type V = ItemCallersView;

    closed spec fn view(&self) -> ItemCallersView {
        ItemCallersView {
            naming: text_set(self.naming@),
            reaching: text_set(self.reaching@),
            semantic_reaching: text_set(self.semantic_reaching@),
            private_imports: text_set(self.private_imports@),
            restricted_imports: text_set(self.restricted_imports@),
        }
    }
}

fn insert_if(v: &mut Vec<String>, set: CallerSet, site: &UseSite)
    requires
        ascending(texts(old(v)@)),
    ensures
        ascending(texts(final(v)@)),
        text_set(final(v)@) == add_to(text_set(old(v)@), set, site@),
{
    let counted = match set {
        CallerSet::Naming => matches!(
            site.reference,
            UseSiteReference::Named | UseSiteReference::PrivateImport
                | UseSiteReference::RestrictedImport
        ),
        CallerSet::Reaching => true,
        CallerSet::Semantic => matches!(
            site.reference,
            UseSiteReference::Named | UseSiteReference::ThroughSignature
        ),
        CallerSet::PrivateImport => matches!(site.reference, UseSiteReference::PrivateImport),
        CallerSet::RestrictedImport => matches!(site.reference, UseSiteReference::RestrictedImport),
    };
    if counted {
        insert_text(v, site.caller_module_def_path.clone());
    }
}

impl ItemCallers {
    pub closed spec fn wf(&self) -> bool {
        &&& ascending(texts(self.naming@))
        &&& ascending(texts(self.reaching@))
        &&& ascending(texts(self.semantic_reaching@))
        &&& ascending(texts(self.private_imports@))
        &&& ascending(texts(self.restricted_imports@))
    }

    /// No caller yet.
    pub fn new() -> (r: Self)
        ensures
            r.wf(),
            r@ == no_callers(),
    {
        let r = ItemCallers {
            naming: Vec::new(),
            reaching: Vec::new(),
            semantic_reaching: Vec::new(),
            private_imports: Vec::new(),
            restricted_imports: Vec::new(),
        };
        proof {
            assert(text_set(r.naming@) =~= Set::<Seq<char>>::empty());
        }
        r
    }

    /// Records one use site of the item.
    pub fn add(&mut self, site: &UseSite)
        requires
            old(self).wf(),
        ensures
            final(self).wf(),
            final(self)@ == add_site(old(self)@, site@),
    {
        insert_if(&mut self.naming, CallerSet::Naming, site);
        insert_if(&mut self.reaching, CallerSet::Reaching, site);
        insert_if(&mut self.semantic_reaching, CallerSet::Semantic, site);
        insert_if(&mut self.private_imports, CallerSet::PrivateImport, site);
        insert_if(&mut self.restricted_imports, CallerSet::RestrictedImport, site);
    }

    /// Modules that write a path to the item, ascending.
    pub fn naming(&self) -> (r: &Vec<String>)
        requires
            self.wf(),
        ensures
            text_set(r@) == self@.naming,
            ascending(texts(r@)),
    {
        &self.naming
    }

    /// Every module that reaches the item, ascending.
    pub fn reaching(&self) -> (r: &Vec<String>)
        requires
            self.wf(),
        ensures
            text_set(r@) == self@.reaching,
            ascending(texts(r@)),
    {
        &self.reaching
    }

    /// Modules whose reach is backed by an expression, type or signature.
    pub fn semantic_reaching(&self) -> (r: &Vec<String>)
        requires
            self.wf(),
        ensures
            text_set(r@) == self@.semantic_reaching,
            ascending(texts(r@)),
    {
        &self.semantic_reaching
    }

    /// Modules that import the item privately.
    pub fn private_imports(&self) -> (r: &Vec<String>)
        requires
            self.wf(),
        ensures
            text_set(r@) == self@.private_imports,
            ascending(texts(r@)),
    {
        &self.private_imports
    }

    /// Modules that import the item with a restricted visibility.
    pub fn restricted_imports(&self) -> (r: &Vec<String>)
        requires
            self.wf(),
        ensures
            text_set(r@) == self@.restricted_imports,
            ascending(texts(r@)),
    {
        &self.restricted_imports
    }
}

// ---------------------------------------------------------------------
// The caller map.

/// A use site with the package root of the report it came from.
pub open spec fn site_key(e: (Seq<char>, UseSiteView)) -> (Seq<char>, Seq<char>) {
    (e.0, e.1.target)
}

/// The modules that, among the sites `p`, use the item keyed `k` in a way
/// that counts for `set`.
pub open spec fn callers_in(
    p: Seq<(Seq<char>, UseSiteView)>,
    k: (Seq<char>, Seq<char>),
    set: CallerSet,
) -> Set<Seq<char>> {
    Set::new(
        |c: Seq<char>|
            exists|i: int|
                0 <= i < p.len() && site_key(#[trigger] p[i]) == k && p[i].1.caller == c && counts(
                    set,
                    p[i].1.reference,
                ),
    )
}

/// The callers of every (package root, item) that the sites `p` mention.
pub open spec fn declared_callers(p: Seq<(Seq<char>, UseSiteView)>) -> Map<
    (Seq<char>, Seq<char>),
    ItemCallersView,
> {
    Map::new(
        |k: (Seq<char>, Seq<char>)| exists|i: int| 0 <= i < p.len() && site_key(#[trigger] p[i]) == k,
        |k: (Seq<char>, Seq<char>)|
            ItemCallersView {
                naming: callers_in(p, k, CallerSet::Naming),
                reaching: callers_in(p, k, CallerSet::Reaching),
                semantic_reaching: callers_in(p, k, CallerSet::Semantic),
                private_imports: callers_in(p, k, CallerSet::PrivateImport),
                restricted_imports: callers_in(p, k, CallerSet::RestrictedImport),
            },
    )
}

/// The map after recording one more site.
pub open spec fn record_spec(
    m: Map<(Seq<char>, Seq<char>), ItemCallersView>,
    e: (Seq<char>, UseSiteView),
) -> Map<(Seq<char>, Seq<char>), ItemCallersView> {
    let k = site_key(e);
    let before = if m.dom().contains(k) {
        m[k]
    } else {
        no_callers()
    };
    m.insert(k, add_site(before, e.1))
}

proof fn lemma_callers_in_push(
    p: Seq<(Seq<char>, UseSiteView)>,
    e: (Seq<char>, UseSiteView),
    k: (Seq<char>, Seq<char>),
    set: CallerSet,
)
    ensures
        callers_in(p.push(e), k, set) == (if site_key(e) == k {
            add_to(callers_in(p, k, set), set, e.1)
        } else {
            callers_in(p, k, set)
        }),
{
    let q = p.push(e);
    assert forall|c: Seq<char>| #[trigger] callers_in(q, k, set).contains(c) <==> (if site_key(e)
        == k {
        add_to(callers_in(p, k, set), set, e.1)
    } else {
        callers_in(p, k, set)
    }).contains(c) by {
        if callers_in(q, k, set).contains(c) {
            let i = choose|i: int|
                0 <= i < q.len() && site_key(#[trigger] q[i]) == k && q[i].1.caller == c && counts(
                    set,
                    q[i].1.reference,
                );
            if i < p.len() {
                assert(q[i] == p[i]);
            }
        }
        if callers_in(p, k, set).contains(c) {
            let i = choose|i: int|
                0 <= i < p.len() && site_key(#[trigger] p[i]) == k && p[i].1.caller == c && counts(
                    set,
                    p[i].1.reference,
                );
            assert(q[i] == p[i]);
        }
        if site_key(e) == k && counts(set, e.1.reference) && c == e.1.caller {
            assert(q[p.len() as int] == e);
        }
    }
    assert(callers_in(q, k, set) =~= (if site_key(e) == k {
        add_to(callers_in(p, k, set), set, e.1)
    } else {
        callers_in(p, k, set)
    }));
}

/// Gathering one more site records it.
pub proof fn lemma_declared_callers_push(
    p: Seq<(Seq<char>, UseSiteView)>,
    e: (Seq<char>, UseSiteView),
)
    ensures
        declared_callers(p.push(e)) == record_spec(declared_callers(p), e),
{
    let q = p.push(e);
    let m = declared_callers(p);
    assert forall|k: (Seq<char>, Seq<char>)| #[trigger] declared_callers(q).dom().contains(k) <==> record_spec(
        m,
        e,
    ).dom().contains(k) by {
        if declared_callers(q).dom().contains(k) {
            let i = choose|i: int| 0 <= i < q.len() && site_key(#[trigger] q[i]) == k;
            if i < p.len() {
                assert(q[i] == p[i]);
            }
        }
        if m.dom().contains(k) {
            let i = choose|i: int| 0 <= i < p.len() && site_key(#[trigger] p[i]) == k;
            assert(q[i] == p[i]);
        }
        if k == site_key(e) {
            assert(q[p.len() as int] == e);
        }
    }
    assert forall|k: (Seq<char>, Seq<char>)| #[trigger] declared_callers(q).dom().contains(k) implies declared_callers(
        q,
    )[k] == record_spec(m, e)[k] by {
        lemma_callers_in_push(p, e, k, CallerSet::Naming);
        lemma_callers_in_push(p, e, k, CallerSet::Reaching);
        lemma_callers_in_push(p, e, k, CallerSet::Semantic);
        lemma_callers_in_push(p, e, k, CallerSet::PrivateImport);
        lemma_callers_in_push(p, e, k, CallerSet::RestrictedImport);
        if k == site_key(e) && !m.dom().contains(k) {
            assert forall|set: CallerSet| #[trigger] callers_in(p, k, set) == Set::<Seq<char>>::empty() by {
                assert forall|c: Seq<char>| !#[trigger] callers_in(p, k, set).contains(c) by {
                    if callers_in(p, k, set).contains(c) {
                        let i = choose|i: int|
                            0 <= i < p.len() && site_key(#[trigger] p[i]) == k && p[i].1.caller == c
                                && counts(set, p[i].1.reference);
                    }
                }
                assert(callers_in(p, k, set) =~= Set::<Seq<char>>::empty());
            }
            assert(callers_in(p, k, CallerSet::Naming) == Set::<Seq<char>>::empty());
            assert(callers_in(p, k, CallerSet::Reaching) == Set::<Seq<char>>::empty());
            assert(callers_in(p, k, CallerSet::Semantic) == Set::<Seq<char>>::empty());
            assert(callers_in(p, k, CallerSet::PrivateImport) == Set::<Seq<char>>::empty());
            assert(callers_in(p, k, CallerSet::RestrictedImport) == Set::<Seq<char>>::empty());
        }
    }
    assert(declared_callers(q) =~= record_spec(m, e));
}

struct CallerEntry {
    package_root: String,
    target_def_path: String,
    callers: ItemCallers,
}

spec fn entry_key(e: CallerEntry) -> (Seq<char>, Seq<char>) {
    (e.package_root@, e.target_def_path@)
}

/// The callers of each item, keyed by package root and item def-path.
pub struct CallerMap {
    entries: Vec<CallerEntry>,
}

spec fn entry_index(entries: Seq<CallerEntry>, k: (Seq<char>, Seq<char>)) -> int {
    choose|i: int| 0 <= i < entries.len() && entry_key(entries[i]) == k
}

impl View for CallerMap {
    type V = Map<(Seq<char>, Seq<char>), ItemCallersView>;

    closed spec fn view(&self) -> Map<(Seq<char>, Seq<char>), ItemCallersView> {
        Map::new(
            |k: (Seq<char>, Seq<char>)|
                exists|i: int| 0 <= i < self.entries.len() && entry_key(#[trigger] self.entries@[i]) == k,
            |k: (Seq<char>, Seq<char>)| self.entries@[entry_index(self.entries@, k)].callers@,
        )
    }
}

impl CallerMap {
    /// Keys are distinct and every entry is well formed.
    pub closed spec fn wf(&self) -> bool {
        &&& forall|i: int, j: int|
            0 <= i < j < self.entries.len() ==> entry_key(#[trigger] self.entries@[i])
                != entry_key(#[trigger] self.entries@[j])
        &&& forall|i: int| 0 <= i < self.entries.len() ==> (#[trigger] self.entries@[i]).callers.wf()
    }

    proof fn lemma_view_at(&self, i: int)
        requires
            self.wf(),
            0 <= i < self.entries.len(),
        ensures
            self@.dom().contains(entry_key(self.entries@[i])),
            self@[entry_key(self.entries@[i])] == self.entries@[i].callers@,
    {
        let k = entry_key(self.entries@[i]);
        let j = entry_index(self.entries@, k);
        assert(0 <= j < self.entries.len() && entry_key(self.entries@[j]) == k);
        if j != i {
            if i < j {
                assert(entry_key(self.entries@[i]) != entry_key(self.entries@[j]));
            } else {
                assert(entry_key(self.entries@[j]) != entry_key(self.entries@[i]));
            }
        }
    }

    /// A map with no caller recorded.
    pub fn new() -> (r: Self)
        ensures
            r.wf(),
            r@ == Map::<(Seq<char>, Seq<char>), ItemCallersView>::empty(),
    {
        let r = CallerMap { entries: Vec::new() };
        proof {
            assert(r@ =~= Map::<(Seq<char>, Seq<char>), ItemCallersView>::empty());
        }
        r
    }

    fn find(&self, package_root: &str, target_def_path: &str) -> (r: Option<usize>)
        ensures
            match r {
                Some(i) => i < self.entries.len() && entry_key(self.entries@[i as int]) == (
                    package_root@,
                    target_def_path@,
                ),
                None => forall|i: int|
                    0 <= i < self.entries.len() ==> entry_key(#[trigger] self.entries@[i]) != (
                        package_root@,
                        target_def_path@,
                    ),
            },
    {
        let mut i: usize = 0;
        while i < self.entries.len()
            invariant
                i <= self.entries.len(),
                forall|j: int|
                    0 <= j < i ==> entry_key(#[trigger] self.entries@[j]) != (
                        package_root@,
                        target_def_path@,
                    ),
            decreases self.entries.len() - i,
        {
            let entry = &self.entries[i];
            if compare_text(entry.package_root.as_str(), package_root) == TextOrder::Equal
                && compare_text(entry.target_def_path.as_str(), target_def_path)
                == TextOrder::Equal {
                return Some(i);
            }
            i = i + 1;
        }
        None
    }

    /// The callers recorded for an item of a package.
    pub fn callers_for_package(&self, package_root: &str, item_def_path: &str) -> (r: Option<
        &ItemCallers,
    >)
        requires
            self.wf(),
        ensures
            r is Some <==> self@.dom().contains((package_root@, item_def_path@)),
            r matches Some(c) ==> c.wf() && c@ == self@[(package_root@, item_def_path@)],
    {
        match self.find(package_root, item_def_path) {
            Some(i) => {
                proof {
                    self.lemma_view_at(i as int);
                }
                Some(&self.entries[i].callers)
            },
            None => None,
        }
    }

    /// Records one use site found in the report of `package_root`.
    pub fn record(&mut self, package_root: &str, site: &UseSite)
        requires
            old(self).wf(),
        ensures
            final(self).wf(),
            final(self)@ == record_spec(old(self)@, (package_root@, site@)),
    {
        let ghost before = *self;
        let ghost k = (package_root@, site@.target);
        match self.find(package_root, site.target_def_path.as_str()) {
            Some(i) => {
                let mut entry = self.entries.remove(i);
                let ghost old_callers = entry.callers@;
                entry.callers.add(site);
                let ghost new_entry = entry;
                self.entries.insert(i, entry);
                proof {
                    assert(self.entries@ =~= before.entries@.update(i as int, new_entry));
                    before.lemma_view_at(i as int);
                    assert forall|a: int, b: int|
                        0 <= a < b < self.entries.len() implies entry_key(#[trigger] self.entries@[a])
                        != entry_key(#[trigger] self.entries@[b]) by {
                        assert(entry_key(self.entries@[a]) == entry_key(before.entries@[a]));
                        assert(entry_key(self.entries@[b]) == entry_key(before.entries@[b]));
                    }
                    assert forall|a: int| 0 <= a < self.entries.len() implies (#[trigger] self.entries@[a]).callers.wf() by {
                        if a != i {
                            assert(self.entries@[a] == before.entries@[a]);
                        }
                    }
                    assert forall|u: (Seq<char>, Seq<char>)| #[trigger] self@.dom().contains(u) <==> record_spec(
                        before@,
                        (package_root@, site@),
                    ).dom().contains(u) by {
                        if self@.dom().contains(u) {
                            let a = choose|a: int| 0 <= a < self.entries.len() && entry_key(#[trigger] self.entries@[a]) == u;
                            assert(entry_key(before.entries@[a]) == u);
                        }
                        if before@.dom().contains(u) {
                            let a = choose|a: int| 0 <= a < before.entries.len() && entry_key(#[trigger] before.entries@[a]) == u;
                            assert(entry_key(self.entries@[a]) == u);
                        }
                    }
                    assert forall|u: (Seq<char>, Seq<char>)| #[trigger] self@.dom().contains(u) implies self@[u]
                        == record_spec(before@, (package_root@, site@))[u] by {
                        let a = choose|a: int| 0 <= a < self.entries.len() && entry_key(#[trigger] self.entries@[a]) == u;
                        self.lemma_view_at(a);
                        if a != i {
                            assert(self.entries@[a] == before.entries@[a]);
                            before.lemma_view_at(a);
                        }
                    }
                    assert(self@ =~= record_spec(before@, (package_root@, site@)));
                }
            },
            None => {
                let mut callers = ItemCallers::new();
                callers.add(site);
                let entry = CallerEntry {
                    package_root: package_root.to_string(),
                    target_def_path: site.target_def_path.clone(),
                    callers,
                };
                let ghost new_entry = entry;
                self.entries.push(entry);
                proof {
                    assert(self.entries@ == before.entries@.push(new_entry));
                    assert(entry_key(new_entry) == k);
                    assert(!before@.dom().contains(k));
                    assert forall|a: int, b: int|
                        0 <= a < b < self.entries.len() implies entry_key(#[trigger] self.entries@[a])
                        != entry_key(#[trigger] self.entries@[b]) by {
                        if b < before.entries.len() {
                            assert(self.entries@[a] == before.entries@[a]);
                            assert(self.entries@[b] == before.entries@[b]);
                        } else {
                            assert(self.entries@[a] == before.entries@[a]);
                        }
                    }
                    assert forall|a: int| 0 <= a < self.entries.len() implies (#[trigger] self.entries@[a]).callers.wf() by {
                        if a < before.entries.len() {
                            assert(self.entries@[a] == before.entries@[a]);
                        }
                    }
                    assert forall|u: (Seq<char>, Seq<char>)| #[trigger] self@.dom().contains(u) <==> record_spec(
                        before@,
                        (package_root@, site@),
                    ).dom().contains(u) by {
                        if self@.dom().contains(u) {
                            let a = choose|a: int| 0 <= a < self.entries.len() && entry_key(#[trigger] self.entries@[a]) == u;
                            if a < before.entries.len() {
                                assert(self.entries@[a] == before.entries@[a]);
                            }
                        }
                        if before@.dom().contains(u) {
                            let a = choose|a: int| 0 <= a < before.entries.len() && entry_key(#[trigger] before.entries@[a]) == u;
                            assert(self.entries@[a] == before.entries@[a]);
                        }
                        if u == k {
                            assert(entry_key(self.entries@[before.entries.len() as int]) == k);
                        }
                    }
                    assert forall|u: (Seq<char>, Seq<char>)| #[trigger] self@.dom().contains(u) implies self@[u]
                        == record_spec(before@, (package_root@, site@))[u] by {
                        let a = choose|a: int| 0 <= a < self.entries.len() && entry_key(#[trigger] self.entries@[a]) == u;
                        self.lemma_view_at(a);
                        if a < before.entries.len() {
                            assert(self.entries@[a] == before.entries@[a]);
                            before.lemma_view_at(a);
                        }
                    }
                    assert(self@ =~= record_spec(before@, (package_root@, site@)));
                }
            },
        }
    }
}

// ---------------------------------------------------------------------
// Gathering callers from every report.

/// The use sites of one report, each with the report's package root.
pub open spec fn report_sites(r: StoredReport) -> Seq<(Seq<char>, UseSiteView)> {
    r.use_sites@.map_values(|s: UseSite| (r.package_root@, s@))
}

/// The use sites of every report, report by report.
pub open spec fn all_sites(reports: Seq<StoredReport>) -> Seq<(Seq<char>, UseSiteView)>
    decreases reports.len(),
{
    if reports.len() == 0 {
        Seq::empty()
    } else {
        all_sites(reports.drop_last()) + report_sites(reports.last())
    }
}

/// The callers of every item of every package, across all reports.
pub open spec fn collected_callers(reports: Seq<StoredReport>) -> Map<
    (Seq<char>, Seq<char>),
    ItemCallersView,
> {
    declared_callers(all_sites(reports))
}

/// Every site of `all_sites` comes from some report's use sites, and
/// every report's use site is among them.
proof fn lemma_all_sites_members(reports: Seq<StoredReport>)
    ensures
        forall|e: (Seq<char>, UseSiteView)|
            all_sites(reports).contains(e) <==> exists|q: int, j: int|
                0 <= q < reports.len() && 0 <= j < reports[q].use_sites@.len() && e == (
                    reports[q].package_root@,
                    #[trigger] reports[q].use_sites@[j]@,
                ),
    decreases reports.len(),
{
    if reports.len() > 0 {
        let init = reports.drop_last();
        lemma_all_sites_members(init);
        let a = all_sites(init);
        let b = report_sites(reports.last());
        assert(all_sites(reports) == a + b);
        assert forall|e: (Seq<char>, UseSiteView)|
            all_sites(reports).contains(e) <==> exists|q: int, j: int|
                0 <= q < reports.len() && 0 <= j < reports[q].use_sites@.len() && e == (
                    reports[q].package_root@,
                    #[trigger] reports[q].use_sites@[j]@,
                ) by {
            if (a + b).contains(e) {
                let k = choose|k: int| 0 <= k < (a + b).len() && (a + b)[k] == e;
                if k < a.len() {
                    assert(a[k] == e);
                    assert(a.contains(e));
                    let (q, j) = choose|q: int, j: int|
                        0 <= q < init.len() && 0 <= j < init[q].use_sites@.len() && e == (
                            init[q].package_root@,
                            #[trigger] init[q].use_sites@[j]@,
                        );
                    assert(reports[q] == init[q]);
                } else {
                    assert(b[k - a.len()] == e);
                    let q = reports.len() - 1;
                    assert(reports[q].use_sites@[k - a.len()]@ == e.1);
                }
            }
            if exists|q: int, j: int|
                0 <= q < reports.len() && 0 <= j < reports[q].use_sites@.len() && e == (
                    reports[q].package_root@,
                    #[trigger] reports[q].use_sites@[j]@,
                ) {
                let (q, j) = choose|q: int, j: int|
                    0 <= q < reports.len() && 0 <= j < reports[q].use_sites@.len() && e == (
                        reports[q].package_root@,
                        #[trigger] reports[q].use_sites@[j]@,
                    );
                if q < init.len() {
                    assert(init[q] == reports[q]);
                    assert(a.contains(e));
                    let k = choose|k: int| 0 <= k < a.len() && a[k] == e;
                    assert((a + b)[k] == e);
                } else {
                    assert(b[j] == e);
                    assert((a + b)[a.len() + j] == e);
                }
            }
        }
    }
}

/// For every item the gathered callers nest: the modules naming it, and
/// those reaching it semantically, all reach it; its private and its
/// restricted importers all name it; and the modules reaching it are
/// exactly the callers of its use sites in the reports of its package.
pub proof fn lemma_collected_caller_sets_nest(
    reports: Seq<StoredReport>,
    k: (Seq<char>, Seq<char>),
)
    requires
        collected_callers(reports).dom().contains(k),
    ensures
        collected_callers(reports)[k].naming.subset_of(collected_callers(reports)[k].reaching),
        collected_callers(reports)[k].semantic_reaching.subset_of(collected_callers(reports)[k].reaching),
        collected_callers(reports)[k].private_imports.subset_of(collected_callers(reports)[k].naming),
        collected_callers(reports)[k].restricted_imports.subset_of(collected_callers(reports)[k].naming),
        forall|c: Seq<char>|
            #[trigger] collected_callers(reports)[k].reaching.contains(c) <==> exists|q: int, j: int|
                0 <= q < reports.len() && 0 <= j < reports[q].use_sites@.len()
                    && reports[q].package_root@ == k.0 && #[trigger] reports[q].use_sites@[j]@.target
                    == k.1 && reports[q].use_sites@[j]@.caller == c,
{
    let p = all_sites(reports);
    lemma_all_sites_members(reports);
    assert forall|c: Seq<char>|
        #[trigger] collected_callers(reports)[k].reaching.contains(c) <==> exists|q: int, j: int|
            0 <= q < reports.len() && 0 <= j < reports[q].use_sites@.len()
                && reports[q].package_root@ == k.0 && #[trigger] reports[q].use_sites@[j]@.target
                == k.1 && reports[q].use_sites@[j]@.caller == c by {
        if collected_callers(reports)[k].reaching.contains(c) {
            let i = choose|i: int|
                0 <= i < p.len() && site_key(#[trigger] p[i]) == k && p[i].1.caller == c && counts(
                    CallerSet::Reaching,
                    p[i].1.reference,
                );
            assert(p.contains(p[i]));
            let (q, j) = choose|q: int, j: int|
                0 <= q < reports.len() && 0 <= j < reports[q].use_sites@.len() && p[i] == (
                    reports[q].package_root@,
                    #[trigger] reports[q].use_sites@[j]@,
                );
            assert(reports[q].use_sites@[j]@.target == k.1);
        }
        if exists|q: int, j: int|
            0 <= q < reports.len() && 0 <= j < reports[q].use_sites@.len()
                && reports[q].package_root@ == k.0 && #[trigger] reports[q].use_sites@[j]@.target
                == k.1 && reports[q].use_sites@[j]@.caller == c {
            let (q, j) = choose|q: int, j: int|
                0 <= q < reports.len() && 0 <= j < reports[q].use_sites@.len()
                    && reports[q].package_root@ == k.0 && #[trigger] reports[q].use_sites@[j]@.target
                    == k.1 && reports[q].use_sites@[j]@.caller == c;
            let e = (reports[q].package_root@, reports[q].use_sites@[j]@);
            assert(p.contains(e));
            let i = choose|i: int| 0 <= i < p.len() && p[i] == e;
            assert(site_key(p[i]) == k);
        }
    }
}

/// Gathers the callers of every item from every report's use sites.
pub fn collect_callers(reports: &Vec<StoredReport>) -> (m: CallerMap)
    ensures
        m.wf(),
        m@ == collected_callers(reports@),
{
    let mut m = CallerMap::new();
    let mut i: usize = 0;
    proof {
        assert(all_sites(reports@.take(0)) =~= Seq::<(Seq<char>, UseSiteView)>::empty());
        assert(declared_callers(Seq::<(Seq<char>, UseSiteView)>::empty()) =~= Map::<
            (Seq<char>, Seq<char>),
            ItemCallersView,
        >::empty());
    }
    while i < reports.len()
        invariant
            i <= reports.len(),
            m.wf(),
            m@ == declared_callers(all_sites(reports@.take(i as int))),
        decreases reports.len() - i,
    {
        let report = &reports[i];
        let ghost base = all_sites(reports@.take(i as int));
        let ghost sites = report_sites(*report);
        let mut j: usize = 0;
        proof {
            assert(base + sites.take(0) =~= base);
        }
        while j < report.use_sites.len()
            invariant
                j <= report.use_sites.len(),
                report == reports@[i as int],
                sites == report_sites(*report),
                m.wf(),
                m@ == declared_callers(base + sites.take(j as int)),
            decreases report.use_sites.len() - j,
        {
            m.record(report.package_root.as_str(), &report.use_sites[j]);
            proof {
                let e = (report.package_root@, report.use_sites@[j as int]@);
                assert(sites[j as int] == e);
                assert(base + sites.take(j + 1) =~= (base + sites.take(j as int)).push(e));
                lemma_declared_callers_push(base + sites.take(j as int), e);
            }
            j = j + 1;
        }
        proof {
            assert(sites.take(j as int) =~= sites);
            assert(reports@.take(i + 1).drop_last() =~= reports@.take(i as int));
            assert(reports@.take(i + 1).last() == reports@[i as int]);
        }
        i = i + 1;
    }
    proof {
        assert(reports@.take(i as int) =~= reports@);
    }
    m
}

// ---------------------------------------------------------------------
// Dropping narrowings that callers contradict.

/// Some module in `s` lies outside `scope`.
pub open spec fn escapes(s: Set<Seq<char>>, scope: Seq<char>) -> bool {
    exists|c: Seq<char>| s.contains(c) && !is_descendant(c, scope)
}

pub open spec fn blocked_note() -> Seq<char> {
    "remove the unused private import before narrowing this item"@
}

/// What becomes of a finding proposing a narrower scope once every
/// target's callers are known: `None` when it is dropped.
///
/// A caller whose reach is semantic and lies outside the proposed scope
/// drops it; a restricted import outside it drops it unless the finding is a
/// `suspicious_pub` that asks for facade cleanup; a private import outside
/// it keeps the finding but blocks its rewrite.
pub open spec fn narrowing_outcome(
    f: FindingView,
    m: Map<(Seq<char>, Seq<char>), ItemCallersView>,
    root: Seq<char>,
) -> Option<FindingView> {
    match (f.item_def_path, f.narrower_scope) {
        (Some(item), Some(scope)) => {
            if !m.dom().contains((root, item)) {
                Some(f)
            } else {
                let c = m[(root, item)];
                if escapes(c.semantic_reaching, scope) {
                    None
                } else if escapes(c.restricted_imports, scope) {
                    if f.code == DiagnosticCode::SuspiciousPub && (f.related is Some || f.fix_support
                        == FixSupport::PubUse || f.fix_support
                        == FixSupport::NeedsManualPubUseCleanup) {
                        Some(f)
                    } else {
                        None
                    }
                } else if escapes(c.private_imports, scope) {
                    Some(
                        FindingView {
                            fix_support: FixSupport::BlockedByPrivateImport,
                            related: Some(blocked_note()),
                            ..f
                        },
                    )
                } else {
                    Some(f)
                }
            }
        },
        _ => Some(f),
    }
}

/// Whether some module of `v` lies outside `scope`.
fn any_escapes(v: &Vec<String>, scope: &str) -> (r: bool)
    ensures
        r == escapes(text_set(v@), scope@),
{
    let mut i: usize = 0;
    while i < v.len()
        invariant
            i <= v.len(),
            forall|j: int| 0 <= j < i ==> is_descendant(#[trigger] v@[j]@, scope@),
        decreases v.len() - i,
    {
        if !def_path_is_descendant(v[i].as_str(), scope) {
            proof {
                assert(texts(v@)[i as int] == v@[i as int]@);
                assert(text_set(v@).contains(v@[i as int]@));
            }
            return true;
        }
        i = i + 1;
    }
    proof {
        if escapes(text_set(v@), scope@) {
            let c = choose|c: Seq<char>| text_set(v@).contains(c) && !is_descendant(c, scope@);
            let j = choose|j: int| 0 <= j < texts(v@).len() && texts(v@)[j] == c;
            assert(v@[j]@ == c);
        }
    }
    false
}

/// Decides whether a narrowing finding survives the callers of every
/// target, blocking its rewrite where a private import stands in the way.
pub fn retain_narrowing_finding(
    finding: &mut StoredFinding,
    callers: &CallerMap,
    package_root: &str,
) -> (keep: bool)
    requires
        callers.wf(),
    ensures
        keep == narrowing_outcome(old(finding)@, callers@, package_root@) is Some,
        keep ==> final(finding)@ == narrowing_outcome(old(finding)@, callers@, package_root@)->0,
        !keep ==> final(finding)@ == old(finding)@,
{
    let item_path = match &finding.item_def_path {
        Some(p) => p,
        None => {
            return true;
        },
    };
    let narrower_scope = match &finding.narrower_scope_def_path {
        Some(s) => s,
        None => {
            return true;
        },
    };
    let item_callers = match callers.callers_for_package(package_root, item_path.as_str()) {
        Some(c) => c,
        None => {
            return true;
        },
    };
    if any_escapes(item_callers.semantic_reaching(), narrower_scope.as_str()) {
        return false;
    }
    if any_escapes(item_callers.restricted_imports(), narrower_scope.as_str()) {
        return finding.diagnostic_code == DiagnosticCode::SuspiciousPub && (
        finding.related.is_some() || matches!(
            finding.fix_support,
            FixSupport::PubUse | FixSupport::NeedsManualPubUseCleanup
        ));
    }
    if any_escapes(item_callers.private_imports(), narrower_scope.as_str()) {
        finding.fix_support = FixSupport::BlockedByPrivateImport;
        finding.related = Some(
            String::from_str("remove the unused private import before narrowing this item"),
        );
        proof {
            reveal_strlit("remove the unused private import before narrowing this item");
        }
    }
    true
}

/// A constraint of the report sits at the finding's lint and position.
pub open spec fn constrained(cs: Seq<ConstraintView>, f: FindingView) -> bool {
    exists|i: int|
        0 <= i < cs.len() && (#[trigger] cs[i]).code == f.code && cs[i].path == f.path
            && cs[i].line == f.line && cs[i].column == f.column
}

/// Findings the caller pass never drops: `pub(crate)` and
/// `pub(in crate::...)` findings, and any finding a visibility constraint
/// records. The pass that reconciles visibility constraints across targets
/// is not part of this library, so such findings stand as the targets
/// stored them.
pub open spec fn exempt(cs: Seq<ConstraintView>, f: FindingView) -> bool {
    f.code == DiagnosticCode::OverbroadPubCrate || f.code == DiagnosticCode::ForbiddenPubInCrate
        || constrained(cs, f)
}

/// The findings that survive, in their order, each as the caller pass
/// leaves it.
pub open spec fn suppressed(
    fs: Seq<FindingView>,
    cs: Seq<ConstraintView>,
    m: Map<(Seq<char>, Seq<char>), ItemCallersView>,
    root: Seq<char>,
) -> Seq<FindingView>
    decreases fs.len(),
{
    if fs.len() == 0 {
        Seq::empty()
    } else {
        let rest = suppressed(fs.drop_last(), cs, m, root);
        let f = fs.last();
        if exempt(cs, f) {
            rest.push(f)
        } else {
            match narrowing_outcome(f, m, root) {
                Some(g) => rest.push(g),
                None => rest,
            }
        }
    }
}

fn is_constrained(constraints: &Vec<crate::constraint::StoredVisibilityConstraint>, f: &StoredFinding) -> (r: bool)
    ensures
        r == constrained(crate::constraint_set::views_of(constraints@), f@),
{
    let ghost cs = crate::constraint_set::views_of(constraints@);
    let mut i: usize = 0;
    while i < constraints.len()
        invariant
            i <= constraints.len(),
            cs == crate::constraint_set::views_of(constraints@),
            forall|j: int|
                0 <= j < i ==> !((#[trigger] cs[j]).code == f@.code && cs[j].path == f@.path
                    && cs[j].line == f@.line && cs[j].column == f@.column),
        decreases constraints.len() - i,
    {
        let c = &constraints[i];
        if c.diagnostic_code == f.diagnostic_code && c.source.line == f.line && c.source.column
            == f.column && compare_text(c.source.path.as_str(), f.path.as_str()) == TextOrder::Equal {
            assert(cs[i as int] == c@);
            return true;
        }
        assert(cs[i as int] == c@);
        i = i + 1;
    }
    false
}

/// Drops, from one report, the narrowing findings its package's callers
/// contradict.
pub fn suppress_invalid_narrowings(report: &mut StoredReport, callers: &CallerMap)
    requires
        callers.wf(),
    ensures
        *final(report) == (StoredReport { findings: final(report).findings, ..*old(report) }),
        crate::findings::finding_views(final(report).findings@) == suppressed(
            crate::findings::finding_views(old(report).findings@),
            crate::constraint_set::views_of(old(report).visibility_constraints@),
            callers@,
            old(report).package_root@,
        ),
{
    let ghost before = *report;
    let ghost fs = crate::findings::finding_views(report.findings@);
    let ghost cs = crate::constraint_set::views_of(report.visibility_constraints@);
    let mut rest: Vec<StoredFinding> = Vec::new();
    std::mem::swap(&mut report.findings, &mut rest);
    let mut kept: Vec<StoredFinding> = Vec::new();
    let ghost mut done: int = 0;
    proof {
        assert(crate::findings::finding_views(rest@) =~= fs.skip(0));
        assert(fs.take(0) =~= Seq::<FindingView>::empty());
        assert(crate::findings::finding_views(kept@) =~= Seq::<FindingView>::empty());
    }
    while rest.len() > 0
        invariant
            0 <= done <= fs.len(),
            crate::findings::finding_views(rest@) == fs.skip(done),
            crate::findings::finding_views(kept@) == suppressed(fs.take(done), cs, callers@, before.package_root@),
            callers.wf(),
            report.package_root@ == before.package_root@,
            cs == crate::constraint_set::views_of(report.visibility_constraints@),
            *report == (StoredReport { findings: report.findings, ..before }),
        decreases rest.len(),
    {
        let ghost rest_before = rest@;
        let mut f = rest.remove(0);
        proof {
            assert(crate::findings::finding_views(rest_before).len() == rest_before.len());
            assert(crate::findings::finding_views(rest_before)[0] == rest_before[0]@);
            assert(fs.skip(done)[0] == fs[done]);
            assert(f@ == fs[done]);
            assert forall|k: int| 0 <= k < rest@.len() implies #[trigger] rest@[k] == rest_before[k + 1] by {}
            assert forall|k: int| 0 <= k < rest@.len() implies #[trigger] crate::findings::finding_views(rest@)[k]
                == fs.skip(done + 1)[k] by {
                assert(crate::findings::finding_views(rest_before)[k + 1] == rest_before[k + 1]@);
                assert(fs.skip(done)[k + 1] == fs[done + k + 1]);
            }
            assert(crate::findings::finding_views(rest@) =~= fs.skip(done + 1));
            assert(fs.take(done + 1).drop_last() =~= fs.take(done));
            assert(fs.take(done + 1).last() == fs[done]);
        }
        let ghost fv = f@;
        let keep = if f.diagnostic_code == DiagnosticCode::OverbroadPubCrate || f.diagnostic_code
            == DiagnosticCode::ForbiddenPubInCrate || is_constrained(
            &report.visibility_constraints,
            &f,
        ) {
            true
        } else {
            retain_narrowing_finding(&mut f, callers, report.package_root.as_str())
        };
        if keep {
            let ghost kept_before = kept@;
            let ghost g = f@;
            kept.push(f);
            proof {
                assert(crate::findings::finding_views(kept@) =~= crate::findings::finding_views(
                    kept_before,
                ).push(g));
            }
        }
        proof {
            done = done + 1;
        }
    }
    proof {
        assert(fs.take(done) =~= fs);
    }
    report.findings = kept;
}

/// `after` is `before` with each report's findings reduced by the callers
/// every report together records.
pub open spec fn caller_suppressed(before: Seq<StoredReport>, after: Seq<StoredReport>) -> bool {
    &&& after.len() == before.len()
    &&& forall|i: int|
        0 <= i < before.len() ==> {
            &&& #[trigger] after[i] == (StoredReport { findings: after[i].findings, ..before[i] })
            &&& crate::findings::finding_views(after[i].findings@) == suppressed(
                crate::findings::finding_views(before[i].findings@),
                crate::constraint_set::views_of(before[i].visibility_constraints@),
                collected_callers(before),
                before[i].package_root@,
            )
        }
}

/// Gathers every report's callers, drops the narrowings they contradict,
/// and returns the callers for cross-target reconciliation.
pub fn apply_caller_aware_suppression(reports: &mut Vec<StoredReport>) -> (callers: CallerMap)
    ensures
        callers.wf(),
        callers@ == collected_callers(old(reports)@),
        caller_suppressed(old(reports)@, final(reports)@),
{
    let callers = collect_callers(reports);
    let ghost before = reports@;
    let mut i: usize = 0;
    while i < reports.len()
        invariant
            i <= reports.len(),
            reports@.len() == before.len(),
            callers.wf(),
            callers@ == collected_callers(before),
            forall|j: int| i <= j < before.len() ==> #[trigger] reports@[j] == before[j],
            forall|j: int|
                0 <= j < i ==> {
                    &&& #[trigger] reports@[j] == (StoredReport {
                        findings: reports@[j].findings,
                        ..before[j]
                    })
                    &&& crate::findings::finding_views(reports@[j].findings@) == suppressed(
                        crate::findings::finding_views(before[j].findings@),
                        crate::constraint_set::views_of(before[j].visibility_constraints@),
                        callers@,
                        before[j].package_root@,
                    )
                },
        decreases reports.len() - i,
    {
        let mut report = reports.remove(i);
        suppress_invalid_narrowings(&mut report, &callers);
        reports.insert(i, report);
        i = i + 1;
    }
    callers
}

} // verus!
