//! What one compilation's analysis collects before it is stored: findings,
//! constraints, fix facts, and the set of modules that reference each item.

use vstd::prelude::*;
use crate::constraint::StoredVisibilityConstraint;
use crate::findings::{StoredFinding, StoredPubUseFixFact, UseSite, UseSiteReference, UseSiteView};
use crate::ordered::{
    ascending, insert_text, lemma_text_lt_irreflexive, lemma_text_lt_transitive, search_position,
    text_lt, text_set, texts,
};

verus! {

/// Where `t` stands in `ts`.
pub open spec fn position(ts: Seq<Seq<char>>, t: Seq<char>) -> int {
    choose|i: int| 0 <= i < ts.len() && ts[i] == t
}

proof fn lemma_position(ts: Seq<Seq<char>>, i: int)
    requires
        ascending(ts),
        0 <= i < ts.len(),
    ensures
        position(ts, ts[i]) == i,
{
    let p = position(ts, ts[i]);
    assert(0 <= p < ts.len() && ts[p] == ts[i]);
    if p != i {
        lemma_text_lt_irreflexive(ts[i]);
        if p < i {
            assert(text_lt(ts[p], ts[i]));
        } else {
            assert(text_lt(ts[i], ts[p]));
        }
    }
}

/// `a` sorts before `b` by target, then by caller.
pub open spec fn site_lt(a: UseSiteView, b: UseSiteView) -> bool {
    text_lt(a.target, b.target) || (a.target == b.target && text_lt(a.caller, b.caller))
}

/// `a` sorts no later than `b`.
pub open spec fn text_le(a: Seq<char>, b: Seq<char>) -> bool {
    text_lt(a, b) || a == b
}

/// The record of a reference that names `target` from `caller`.
pub open spec fn named_site(target: Seq<char>, caller: Seq<char>) -> UseSiteView {
    UseSiteView { target, caller, reference: UseSiteReference::Named }
}

/// A stored record that the index holds.
pub open spec fn valid_site(m: Map<Seq<char>, Set<Seq<char>>>, v: UseSiteView) -> bool {
    &&& m.dom().contains(v.target)
    &&& m[v.target].contains(v.caller)
    &&& v.reference == UseSiteReference::Named
}

/// `v` sorts before every record of `target` from its `j`-th caller on.
pub open spec fn below_entry(v: UseSiteView, target: Seq<char>, cs: Seq<Seq<char>>, j: int) -> bool {
    text_lt(v.target, target) || (v.target == target && j > 0 && text_le(v.caller, cs[j - 1]))
}

/// The index's view after recording each `(target, caller)` of `pairs`, in
/// order, starting from `m`: each step is what [`UseSiteIndex::insert`]
/// states.
pub open spec fn after_inserts(
    m: Map<Seq<char>, Set<Seq<char>>>,
    pairs: Seq<(Seq<char>, Seq<char>)>,
) -> Map<Seq<char>, Set<Seq<char>>>
    decreases pairs.len(),
{
    if pairs.len() == 0 {
        m
    } else {
        let prev = after_inserts(m, pairs.drop_last());
        let (t, c) = pairs.last();
        prev.insert(
            t,
            if prev.dom().contains(t) {
                prev[t].insert(c)
            } else {
                set![c]
            },
        )
    }
}

/// The modules recorded against `target` among `pairs`.
pub open spec fn recorded_callers(pairs: Seq<(Seq<char>, Seq<char>)>, target: Seq<char>) -> Set<
    Seq<char>,
> {
    Set::new(|c: Seq<char>| exists|i: int| 0 <= i < pairs.len() && #[trigger] pairs[i] == (target, c))
}

/// Recording any sequence of references into an empty index leaves exactly
/// the targets that were recorded, each with the set of modules recorded
/// against it (each module once); the stored records are then exactly the
/// recorded pairs.
pub proof fn lemma_inserts_collect_callers(pairs: Seq<(Seq<char>, Seq<char>)>)
    ensures
        forall|t: Seq<char>|
            #[trigger] after_inserts(Map::empty(), pairs).dom().contains(t) <==> exists|i: int|
                0 <= i < pairs.len() && pairs[i].0 == t,
        forall|t: Seq<char>|
            #[trigger] after_inserts(Map::empty(), pairs).dom().contains(t) ==> after_inserts(
                Map::empty(),
                pairs,
            )[t] == recorded_callers(pairs, t),
        forall|v: UseSiteView|
            #[trigger] valid_site(after_inserts(Map::empty(), pairs), v) <==> (v.reference
                == UseSiteReference::Named && recorded_callers(pairs, v.target).contains(v.caller)),
    decreases pairs.len(),
{
    let m = after_inserts(Map::empty(), pairs);
    if pairs.len() == 0 {
        assert forall|t: Seq<char>| #[trigger] recorded_callers(pairs, t) == Set::<Seq<char>>::empty() by {
            assert(recorded_callers(pairs, t) =~= Set::<Seq<char>>::empty());
        }
    } else {
        let init = pairs.drop_last();
        let (lt, lc) = pairs.last();
        lemma_inserts_collect_callers(init);
        let prev = after_inserts(Map::empty(), init);
        assert forall|t: Seq<char>| #[trigger] m.dom().contains(t) <==> exists|i: int|
            0 <= i < pairs.len() && pairs[i].0 == t by {
            if exists|i: int| 0 <= i < pairs.len() && pairs[i].0 == t {
                let i = choose|i: int| 0 <= i < pairs.len() && pairs[i].0 == t;
                if i < init.len() {
                    assert(init[i] == pairs[i]);
                }
            }
            if prev.dom().contains(t) {
                let i = choose|i: int| 0 <= i < init.len() && init[i].0 == t;
                assert(pairs[i] == init[i]);
            }
        }
        assert forall|t: Seq<char>| #[trigger] m.dom().contains(t) implies m[t] == recorded_callers(
            pairs,
            t,
        ) by {
            assert forall|c: Seq<char>| m[t].contains(c) <==> recorded_callers(pairs, t).contains(c) by {
                if recorded_callers(pairs, t).contains(c) {
                    let i = choose|i: int| 0 <= i < pairs.len() && #[trigger] pairs[i] == (t, c);
                    if i < init.len() {
                        assert(init[i] == pairs[i]);
                        assert(recorded_callers(init, t).contains(c));
                        assert(prev.dom().contains(t));
                    }
                }
                if recorded_callers(init, t).contains(c) {
                    let i = choose|i: int| 0 <= i < init.len() && #[trigger] init[i] == (t, c);
                    assert(pairs[i] == init[i]);
                }
                if t == lt && c == lc {
                    assert(pairs[pairs.len() - 1] == (t, c));
                }
            }
            assert(m[t] =~= recorded_callers(pairs, t));
        }
        assert forall|v: UseSiteView| #[trigger] valid_site(m, v) <==> (v.reference
            == UseSiteReference::Named && recorded_callers(pairs, v.target).contains(v.caller)) by {
            if recorded_callers(pairs, v.target).contains(v.caller) {
                let i = choose|i: int| 0 <= i < pairs.len() && #[trigger] pairs[i] == (v.target, v.caller);
                assert(pairs[i].0 == v.target);
                assert(m.dom().contains(v.target));
            }
        }
    }
}

/// The modules that reference each item, keyed by the item's def-path.
///
/// Both consumers want exactly that set: the current pass asks which
/// modules call one item, and cross-target reconciliation unions the sets
/// across compilations. Targets are kept ascending, and so are each
/// target's callers, with no repeats.
pub struct UseSiteIndex {
    targets: Vec<String>,
    callers: Vec<Vec<String>>,
}

impl View for UseSiteIndex {
    type V = Map<Seq<char>, Set<Seq<char>>>;

    closed spec fn view(&self) -> Map<Seq<char>, Set<Seq<char>>> {
        Map::new(
            |t: Seq<char>| texts(self.targets@).contains(t),
            |t: Seq<char>| text_set(self.callers@[position(texts(self.targets@), t)]@),
        )
    }
}

impl UseSiteIndex {
    /// Targets and each target's callers ascend; every target has a caller.
    pub closed spec fn wf(&self) -> bool {
        &&& ascending(texts(self.targets@))
        &&& self.targets.len() == self.callers.len()
        &&& forall|i: int|
            0 <= i < self.callers.len() ==> ascending(texts(#[trigger] self.callers@[i]@))
        &&& forall|i: int| 0 <= i < self.callers.len() ==> #[trigger] self.callers@[i].len() > 0
    }

    proof fn lemma_view_at(&self, i: int)
        requires
            self.wf(),
            0 <= i < self.targets.len(),
        ensures
            self@.dom().contains(self.targets@[i]@),
            self@[self.targets@[i]@] == text_set(self.callers@[i]@),
    {
        let ts = texts(self.targets@);
        assert(ts[i] == self.targets@[i]@);
        assert(ts.contains(ts[i]));
        lemma_position(ts, i);
    }

    /// An index with no use recorded.
    pub fn new() -> (r: Self)
        ensures
            r.wf(),
            r@ == Map::<Seq<char>, Set<Seq<char>>>::empty(),
    {
        let r = UseSiteIndex { targets: Vec::new(), callers: Vec::new() };
        proof {
            assert(r@ =~= Map::<Seq<char>, Set<Seq<char>>>::empty());
        }
        r
    }

    /// Records that `caller_module_def_path` references `target_def_path`.
    pub fn insert(&mut self, target_def_path: String, caller_module_def_path: String)
        requires
            old(self).wf(),
        ensures
            final(self).wf(),
            final(self)@ == old(self)@.insert(
                target_def_path@,
                if old(self)@.dom().contains(target_def_path@) {
                    old(self)@[target_def_path@].insert(caller_module_def_path@)
                } else {
                    set![caller_module_def_path@]
                },
            ),
    {
        let ghost old_index = *self;
        let ghost t = target_def_path@;
        let ghost c = caller_module_def_path@;
        let (pos, present) = search_position(&self.targets, target_def_path.as_str());
        if present {
            let mut entry = self.callers.remove(pos);
            insert_text(&mut entry, caller_module_def_path);
            let ghost new_entry = entry;
            self.callers.insert(pos, entry);
            proof {
                assert(self.callers@ =~= old_index.callers@.update(pos as int, new_entry));
                old_index.lemma_view_at(pos as int);
                assert forall|i: int| 0 <= i < self.callers.len() implies ascending(
                    texts(#[trigger] self.callers@[i]@),
                ) by {
                    if i != pos {
                        assert(self.callers@[i] == old_index.callers@[i]);
                    }
                }
                assert forall|i: int| 0 <= i < self.callers.len() implies #[trigger] self.callers@[i].len() > 0 by {
                    if i != pos {
                        assert(self.callers@[i] == old_index.callers@[i]);
                    } else {
                        assert(text_set(self.callers@[i]@).contains(c));
                    }
                }
                assert(self.wf());
                let ts = texts(self.targets@);
                assert forall|u: Seq<char>| #[trigger] self@.dom().contains(u) implies self@[u]
                    == old_index@.insert(t, old_index@[t].insert(c))[u] by {
                    assert(ts.contains(u));
                    let k = position(ts, u);
                    lemma_position(ts, k);
                    self.lemma_view_at(k);
                    assert(ts == texts(old_index.targets@));
                    assert(ts[k] == u);
                    if k != pos {
                        old_index.lemma_view_at(k);
                        assert(self.callers@[k] == old_index.callers@[k]);
                        lemma_text_lt_irreflexive(u);
                        if k < pos {
                            assert(text_lt(ts[k], ts[pos as int]));
                        } else {
                            assert(text_lt(ts[pos as int], ts[k]));
                        }
                        assert(u != t);
                    } else {
                        assert(self.callers@[k] == new_entry);
                    }
                }
                assert(self@ =~= old_index@.insert(t, old_index@[t].insert(c)));
            }
        } else {
            let mut entry: Vec<String> = Vec::new();
            entry.push(caller_module_def_path);
            let ghost ts_before = texts(self.targets@);
            self.targets.insert(pos, target_def_path);
            self.callers.insert(pos, entry);
            proof {
                let ts = texts(self.targets@);
                assert(ts =~= ts_before.insert(pos as int, t));
                assert(text_set(entry@) =~= set![c]) by {
                    assert(texts(entry@) =~= seq![c]);
                    assert forall|y: Seq<char>| #[trigger] seq![c].contains(y) <==> y == c by {
                        if y == c {
                            assert(seq![c][0] == c);
                        }
                    }
                }
                assert(ascending(ts)) by {
                    assert forall|i: int, j: int| 0 <= i < j < ts.len() implies text_lt(
                        #[trigger] ts[i],
                        #[trigger] ts[j],
                    ) by {
                        if j < pos {
                        } else if j == pos {
                        } else if i < pos {
                            assert(ts[j] == ts_before[j - 1]);
                            lemma_text_lt_transitive(ts[i], t, ts_before[j - 1]);
                        } else if i == pos {
                            assert(ts[j] == ts_before[j - 1]);
                        } else {
                            assert(ts[i] == ts_before[i - 1]);
                            assert(ts[j] == ts_before[j - 1]);
                        }
                    }
                }
                assert forall|i: int| 0 <= i < self.callers.len() implies ascending(
                    texts(#[trigger] self.callers@[i]@),
                ) by {
                    if i < pos {
                        assert(self.callers@[i] == old_index.callers@[i]);
                    } else if i > pos {
                        assert(self.callers@[i] == old_index.callers@[i - 1]);
                    }
                }
                assert forall|i: int| 0 <= i < self.callers.len() implies #[trigger] self.callers@[i].len() > 0 by {
                    if i < pos {
                        assert(self.callers@[i] == old_index.callers@[i]);
                    } else if i > pos {
                        assert(self.callers@[i] == old_index.callers@[i - 1]);
                    }
                }
                assert(self.wf());
                assert(!old_index@.dom().contains(t));
                assert forall|u: Seq<char>| #[trigger] self@.dom().contains(u) <==> old_index@.insert(
                    t,
                    set![c],
                ).dom().contains(u) by {
                    if ts.contains(u) {
                        let k = choose|k: int| 0 <= k < ts.len() && ts[k] == u;
                        if k < pos {
                            assert(ts_before[k] == u);
                        } else if k > pos {
                            assert(ts_before[k - 1] == u);
                        }
                    }
                    if ts_before.contains(u) {
                        let k = choose|k: int| 0 <= k < ts_before.len() && ts_before[k] == u;
                        if k < pos {
                            assert(ts[k] == u);
                        } else {
                            assert(ts[k + 1] == u);
                        }
                    }
                    if u == t {
                        assert(ts[pos as int] == t);
                    }
                }
                assert forall|u: Seq<char>| #[trigger] self@.dom().contains(u) implies self@[u]
                    == old_index@.insert(t, set![c])[u] by {
                    let k = position(ts, u);
                    lemma_position(ts, k);
                    if k < pos {
                        old_index.lemma_view_at(k);
                        assert(self.callers@[k] == old_index.callers@[k]);
                    } else if k > pos {
                        old_index.lemma_view_at(k - 1);
                        assert(self.callers@[k] == old_index.callers@[k - 1]);
                        assert(ts[k] == ts_before[k - 1]);
                    }
                }
                assert(self@ =~= old_index@.insert(t, set![c]));
            }
        }
    }

    /// The modules referencing `target_def_path` in this compilation, in
    /// ascending order.
    pub fn callers(&self, target_def_path: &str) -> (r: Option<&Vec<String>>)
        requires
            self.wf(),
        ensures
            r is None <==> !self@.dom().contains(target_def_path@),
            r matches Some(v) ==> text_set(v@) == self@[target_def_path@] && ascending(
                texts(v@),
            ),
    {
        let (pos, present) = search_position(&self.targets, target_def_path);
        if present {
            proof {
                self.lemma_view_at(pos as int);
            }
            Some(&self.callers[pos])
        } else {
            None
        }
    }

    /// Flattens to the stored form: one record per distinct pair, ascending
    /// by target and then caller, so the findings file is byte-identical
    /// across runs that analyzed the same crate. Each recorded reference
    /// names its target.
    pub fn into_use_sites(self) -> (r: Vec<UseSite>)
        requires
            self.wf(),
        ensures
            forall|k: int, l: int|
                0 <= k < l < r.len() ==> site_lt(#[trigger] r@[k]@, #[trigger] r@[l]@),
            forall|k: int|
                0 <= k < r.len() ==> valid_site(self@, #[trigger] r@[k]@),
            forall|t: Seq<char>, c: Seq<char>|
                self@.dom().contains(t) && #[trigger] self@[t].contains(c) ==> exists|k: int|
                    #![trigger r@[k]]
                    0 <= k < r.len() && r@[k]@ == named_site(t, c),
    {
        let ghost ts = texts(self.targets@);
        let ghost m = self@;
        let mut out: Vec<UseSite> = Vec::new();
        let ghost mut start: Seq<int> = seq![0int];
        let mut i: usize = 0;
        while i < self.targets.len()
            invariant
                self.wf(),
                m == self@,
                ts == texts(self.targets@),
                i <= self.targets.len(),
                start.len() == i + 1,
                start[0] == 0,
                start[i as int] == out.len(),
                forall|a: int|
                    0 <= a < i ==> #[trigger] start[a + 1] == start[a] + self.callers@[a].len(),
                forall|a: int, b: int|
                    #![trigger self.callers@[a]@[b]]
                    0 <= a < i && 0 <= b < self.callers@[a].len() ==> 0 <= start[a] + b < out.len()
                        && out@[start[a] + b]@ == named_site(ts[a], self.callers@[a]@[b]@),
                forall|k: int, l: int|
                    0 <= k < l < out.len() ==> site_lt(#[trigger] out@[k]@, #[trigger] out@[l]@),
                forall|k: int| 0 <= k < out.len() ==> valid_site(m, #[trigger] out@[k]@),
                forall|k: int|
                    0 <= k < out.len() ==> text_le(#[trigger] out@[k]@.target, ts[i - 1]),
            decreases self.targets.len() - i,
        {
            let entry = &self.callers[i];
            let ghost cs = texts(entry@);
            proof {
                self.lemma_view_at(i as int);
                assert forall|k: int| 0 <= k < out.len() implies text_lt(
                    #[trigger] out@[k]@.target,
                    ts[i as int],
                ) by {
                    assert(text_lt(ts[i - 1], ts[i as int]));
                    if out@[k]@.target != ts[i - 1] {
                        lemma_text_lt_transitive(out@[k]@.target, ts[i - 1], ts[i as int]);
                    }
                }
            }
            let mut j: usize = 0;
            while j < entry.len()
                invariant
                    self.wf(),
                    m == self@,
                    ts == texts(self.targets@),
                    i < self.targets.len(),
                    entry == self.callers@[i as int],
                    cs == texts(entry@),
                    ascending(cs),
                    j <= entry.len(),
                    start.len() == i + 1,
                    start[0] == 0,
                    start[i as int] + j == out.len(),
                    0 <= start[i as int],
                    m.dom().contains(ts[i as int]),
                    m[ts[i as int]] == text_set(entry@),
                    forall|a: int|
                        0 <= a < i ==> #[trigger] start[a + 1] == start[a] + self.callers@[a].len(),
                    forall|a: int, b: int|
                        #![trigger self.callers@[a]@[b]]
                        0 <= a < i && 0 <= b < self.callers@[a].len() ==> 0 <= start[a] + b
                            < start[i as int] && out@[start[a] + b]@ == named_site(
                            ts[a],
                            self.callers@[a]@[b]@,
                        ),
                    forall|b: int|
                        #![trigger cs[b]]
                        0 <= b < j ==> out@[start[i as int] + b]@ == named_site(ts[i as int], cs[b]),
                    forall|k: int, l: int|
                        0 <= k < l < out.len() ==> site_lt(#[trigger] out@[k]@, #[trigger] out@[l]@),
                    forall|k: int| 0 <= k < out.len() ==> valid_site(m, #[trigger] out@[k]@),
                    forall|k: int|
                        0 <= k < out.len() ==> below_entry(#[trigger] out@[k]@, ts[i as int], cs, j as int),
                decreases entry.len() - j,
            {
                let site = UseSite {
                    target_def_path: self.targets[i].clone(),
                    caller_module_def_path: entry[j].clone(),
                    reference: UseSiteReference::Named,
                };
                let ghost sv = site@;
                let ghost prev = out@;
                proof {
                    assert(cs[j as int] == entry@[j as int]@);
                    assert(sv == named_site(ts[i as int], cs[j as int]));
                    assert(cs.contains(cs[j as int]));
                    assert forall|k: int| 0 <= k < prev.len() implies site_lt(#[trigger] prev[k]@, sv) by {
                        assert(below_entry(prev[k]@, ts[i as int], cs, j as int));
                        lemma_text_lt_irreflexive(ts[i as int]);
                        if prev[k]@.target == ts[i as int] {
                            assert(text_lt(cs[j - 1], cs[j as int]));
                            if prev[k]@.caller != cs[j - 1] {
                                lemma_text_lt_transitive(prev[k]@.caller, cs[j - 1], cs[j as int]);
                            }
                        }
                    }
                }
                out.push(site);
                j = j + 1;
                proof {
                    assert(out@ == prev.push(site));
                    assert forall|a: int, b: int|
                        #![trigger self.callers@[a]@[b]]
                        0 <= a < i && 0 <= b < self.callers@[a].len() implies 0 <= start[a] + b
                            < start[i as int] && out@[start[a] + b]@ == named_site(
                            ts[a],
                            self.callers@[a]@[b]@,
                        ) by {
                        assert(out@[start[a] + b] == prev[start[a] + b]);
                    }
                    assert forall|b: int|
                        #![trigger cs[b]]
                        0 <= b < j implies out@[start[i as int] + b]@ == named_site(ts[i as int], cs[b]) by {
                        if b < j - 1 {
                            assert(out@[start[i as int] + b] == prev[start[i as int] + b]);
                        }
                    }
                    assert forall|k: int, l: int|
                        0 <= k < l < out.len() implies site_lt(#[trigger] out@[k]@, #[trigger] out@[l]@) by {
                        if l < out.len() - 1 {
                            assert(out@[k] == prev[k] && out@[l] == prev[l]);
                        } else {
                            assert(out@[k] == prev[k]);
                        }
                    }
                    assert forall|k: int| 0 <= k < out.len() implies valid_site(m, #[trigger] out@[k]@) by {
                        if k < out.len() - 1 {
                            assert(out@[k] == prev[k]);
                        } else {
                            assert(text_set(entry@).contains(cs[j - 1]));
                        }
                    }
                    assert forall|k: int| 0 <= k < out.len() implies below_entry(
                        #[trigger] out@[k]@,
                        ts[i as int],
                        cs,
                        j as int,
                    ) by {
                        if k < out.len() - 1 {
                            assert(out@[k] == prev[k]);
                            lemma_text_lt_irreflexive(ts[i as int]);
                            if prev[k]@.target == ts[i as int] && j >= 2 {
                                assert(text_lt(cs[j - 2], cs[j - 1]));
                                if prev[k]@.caller != cs[j - 2] {
                                    lemma_text_lt_transitive(prev[k]@.caller, cs[j - 2], cs[j - 1]);
                                }
                            }
                        }
                    }
                }
            }
            proof {
                let next = start[i as int] + entry.len();
                let old_start = start;
                start = start.push(next);
                assert forall|a: int|
                    0 <= a < i + 1 implies #[trigger] start[a + 1] == start[a] + self.callers@[a].len() by {
                    if a < i {
                        assert(start[a + 1] == old_start[a + 1]);
                        assert(start[a] == old_start[a]);
                    }
                }
                assert forall|a: int, b: int|
                    #![trigger self.callers@[a]@[b]]
                    0 <= a < i + 1 && 0 <= b < self.callers@[a].len() implies 0 <= start[a] + b
                        < out.len() && out@[start[a] + b]@ == named_site(ts[a], self.callers@[a]@[b]@) by {
                    assert(start[a] == old_start[a]);
                    if a == i {
                        assert(cs[b] == self.callers@[a]@[b]@);
                    }
                }
                assert forall|k: int| 0 <= k < out.len() implies text_le(
                    #[trigger] out@[k]@.target,
                    ts[i as int],
                ) by {
                    assert(below_entry(out@[k]@, ts[i as int], cs, j as int));
                }
            }
            i = i + 1;
        }
        proof {
            assert forall|t: Seq<char>, c: Seq<char>|
                m.dom().contains(t) && #[trigger] m[t].contains(c) implies exists|k: int|
                    #![trigger out@[k]]
                    0 <= k < out.len() && out@[k]@ == named_site(t, c) by {
                let a = position(ts, t);
                lemma_position(ts, a);
                self.lemma_view_at(a);
                let cs = texts(self.callers@[a]@);
                let b = choose|b: int| 0 <= b < cs.len() && cs[b] == c;
                assert(cs[b] == self.callers@[a]@[b]@);
                assert(out@[start[a] + b]@ == named_site(t, c));
            }
        }
        out
    }
}

/// What one compilation's analysis gathered.
pub struct FindingsSink {
    pub findings: Vec<StoredFinding>,
    pub visibility_constraints: Vec<StoredVisibilityConstraint>,
    pub pub_use_fix_facts: Vec<StoredPubUseFixFact>,
    pub use_sites: UseSiteIndex,
}

impl FindingsSink {
    /// A sink holding nothing yet.
    pub fn new() -> (r: Self)
        ensures
            r.findings@.len() == 0,
            r.visibility_constraints@.len() == 0,
            r.pub_use_fix_facts@.len() == 0,
            r.use_sites.wf(),
            r.use_sites@ == Map::<Seq<char>, Set<Seq<char>>>::empty(),
    {
        FindingsSink {
            findings: Vec::new(),
            visibility_constraints: Vec::new(),
            pub_use_fix_facts: Vec::new(),
            use_sites: UseSiteIndex::new(),
        }
    }
}

impl Default for UseSiteIndex {
    fn default() -> (r: Self)
        ensures
            r.wf(),
            r@ == Map::<Seq<char>, Set<Seq<char>>>::empty(),
    {
        UseSiteIndex::new()
    }
}

impl Default for FindingsSink {
    fn default() -> (r: Self)
        ensures
            r.findings@.len() == 0,
            r.visibility_constraints@.len() == 0,
            r.pub_use_fix_facts@.len() == 0,
            r.use_sites.wf(),
            r.use_sites@ == Map::<Seq<char>, Set<Seq<char>>>::empty(),
    {
        FindingsSink::new()
    }
}

} // verus!
