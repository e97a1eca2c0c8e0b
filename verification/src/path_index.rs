//! A file's paths grouped by the name each one could reach, so that asking
//! whether the file names one of a few exports costs one lookup per export
//! rather than a walk over every path.

use vstd::prelude::*;

use crate::facade_paths::PathAnchor;
use crate::facade_paths::UseRename;
use crate::facade_paths::alias_resolution;
use crate::facade_paths::resolve_alias_expr_path;
use crate::facade_scan::ExtractedPath;
use crate::facade_paths::anchor_of;
use crate::facade_paths::normalized;
use crate::facade_paths::normalized_name;
use crate::facade_paths::path_anchor;
use crate::ordered::TextOrder;
use crate::ordered::compare_text;
use crate::ordered::texts;

verus! {

/// Indices into a file's list of paths, grouped by the final segment of
/// each path.
#[derive(Debug)]
pub struct PathsByFinalSegment {
    /// Each final segment (without an `r#` prefix) once, with the indices of
    /// the paths that end in it, in the order they were added.
    by_segment: Vec<(String, Vec<usize>)>,
    /// The indices of paths that are empty or end in `crate`, `self` or
    /// `super`: resolution replaces that segment by one of the current
    /// module's, so the name such a path reaches is not known here.
    anchor_final: Vec<usize>,
}

/// A path's final segment is grouped by name, rather than kept aside as an
/// anchor: it is a plain name or `Self`.
pub open spec fn grouped_final(final_segment: Option<Seq<char>>) -> bool {
    match final_segment {
        Some(segment) => anchor_of(segment) == PathAnchor::Name || anchor_of(segment)
            == PathAnchor::SelfType,
        None => false,
    }
}

/// The indices grouped under `segment`, none when it has no group.
pub open spec fn group_of(groups: Seq<(String, Vec<usize>)>, segment: Seq<char>) -> Seq<usize> {
    if exists|i: int| 0 <= i < groups.len() && #[trigger] groups[i].0@ == segment {
        groups[choose|i: int| 0 <= i < groups.len() && #[trigger] groups[i].0@ == segment].1@
    } else {
        seq![]
    }
}

/// The groups of `segments`, in order, one after the other.
pub open spec fn grouped_lists(groups: Seq<(String, Vec<usize>)>, segments: Seq<Seq<char>>) -> Seq<
    usize,
>
    decreases segments.len(),
{
    if segments.len() == 0 {
        seq![]
    } else {
        grouped_lists(groups, segments.drop_last()) + group_of(groups, segments.last())
    }
}

/// The final segment of a path, none for an empty path.
pub open spec fn final_of(p: Seq<Seq<char>>) -> Option<Seq<char>> {
    if p.len() > 0 {
        Some(p.last())
    } else {
        None
    }
}

/// What the index records of the path at `index`: its own final segment,
/// and, for a one-segment path that a module's `use ... as` rename makes an
/// alias, the final segment of the renamed path as well, when it differs.
pub open spec fn path_entries(index: usize, p: ExtractedPath, renames: Seq<UseRename>) -> Seq<
    (usize, Option<Seq<char>>),
> {
    let segments = texts(p.segments@);
    let own = seq![(index, final_of(segments))];
    if segments.len() == 1 {
        match alias_resolution(segments, texts(p.module_suffix@), renames) {
            Some(renamed) => if final_of(renamed) != Some(segments[0]) {
                own.push((index, final_of(renamed)))
            } else {
                own
            },
            None => own,
        }
    } else {
        own
    }
}

/// What the index records of the first `n` paths, in order.
pub open spec fn index_entries(paths: Seq<ExtractedPath>, renames: Seq<UseRename>, n: int) -> Seq<
    (usize, Option<Seq<char>>),
>
    decreases n,
{
    if n <= 0 {
        seq![]
    } else {
        index_entries(paths, renames, n - 1) + path_entries((n - 1) as usize, paths[n - 1], renames)
    }
}

/// The indices recorded under `segment`, in order.
pub open spec fn grouped_entries(entries: Seq<(usize, Option<Seq<char>>)>, segment: Seq<char>) -> Seq<
    usize,
>
    decreases entries.len(),
{
    if entries.len() == 0 {
        seq![]
    } else {
        let rest = grouped_entries(entries.drop_last(), segment);
        let (index, f) = entries.last();
        if grouped_final(f) && normalized(f->0) == segment {
            rest.push(index)
        } else {
            rest
        }
    }
}

/// The indices recorded among the anchor-final paths, in order.
pub open spec fn anchor_entries(entries: Seq<(usize, Option<Seq<char>>)>) -> Seq<usize>
    decreases entries.len(),
{
    if entries.len() == 0 {
        seq![]
    } else {
        let rest = anchor_entries(entries.drop_last());
        let (index, f) = entries.last();
        if grouped_final(f) {
            rest
        } else {
            rest.push(index)
        }
    }
}

/// A recorded final segment could name one of `segments`: it is one of them
/// (without `r#`), or an anchor that resolution replaces, or absent.
pub open spec fn could_name(f: Option<Seq<char>>, segments: Seq<Seq<char>>) -> bool {
    !grouped_final(f) || segments.contains(normalized(f->0))
}

impl PathsByFinalSegment {
    /// No segment is grouped twice.
    pub closed spec fn wf(&self) -> bool {
        forall|i: int, j: int|
            0 <= i < j < self.by_segment@.len() ==> #[trigger] self.by_segment@[i].0@
                != #[trigger] self.by_segment@[j].0@
    }

    /// The indices of the paths ending in `segment`.
    pub closed spec fn group(&self, segment: Seq<char>) -> Seq<usize> {
        group_of(self.by_segment@, segment)
    }

    /// The indices of the paths whose final segment is an anchor, or that
    /// are empty.
    pub closed spec fn anchors(&self) -> Seq<usize> {
        self.anchor_final@
    }

    /// The candidates for `segments`: each one's group in turn, then every
    /// anchor-final path.
    pub closed spec fn candidates_spec(&self, segments: Seq<Seq<char>>) -> Seq<usize> {
        grouped_lists(self.by_segment@, segments) + self.anchor_final@
    }

    /// The index holds exactly `entries`, in order.
    pub open spec fn holds(&self, entries: Seq<(usize, Option<Seq<char>>)>) -> bool {
        &&& self.wf()
        &&& forall|segment: Seq<char>| #[trigger]
            self.group(segment) == grouped_entries(entries, segment)
        &&& self.anchors() == anchor_entries(entries)
    }

    /// Records `index` with final segment `f`, keeping what the index holds
    /// in step with `entries`.
    fn record(&mut self, index: usize, f: Option<&str>, Ghost(entries): Ghost<Seq<(usize, Option<Seq<char>>)>>)
        requires
            old(self).holds(entries),
        ensures
            final(self).holds(
                entries.push(
                    (
                        index,
                        match f {
                            Some(s) => Some(s@),
                            None => None,
                        },
                    ),
                ),
            ),
    {
        let ghost fv = match f {
            Some(s) => Some(s@),
            None => None,
        };
        self.insert(index, f);
        assert(entries.push((index, fv)).drop_last() =~= entries);
    }

    /// The index of a file's paths, each by its position in `paths`; a
    /// one-segment path that aliases a renamed path is also recorded under
    /// that path's final segment.
    pub fn index_by_final_segment(paths: &Vec<ExtractedPath>, renames: &Vec<UseRename>) -> (r: Self)
        ensures
            r.holds(index_entries(paths@, renames@, paths@.len() as int)),
    {
        let mut index = PathsByFinalSegment::new();
        assert(index.holds(seq![])) by {
            assert forall|segment: Seq<char>| #[trigger] index.group(segment) == grouped_entries(seq![], segment) by {}
        }
        let mut i: usize = 0;
        while i < paths.len()
            invariant
                i <= paths.len(),
                index.holds(index_entries(paths@, renames@, i as int)),
            decreases paths.len() - i,
        {
            let ghost before = index_entries(paths@, renames@, i as int);
            let path = &paths[i];
            let ghost segs = texts(path.segments@);
            let n = path.segments.len();
            let own: Option<&str> = if n > 0 {
                Some(path.segments[n - 1].as_str())
            } else {
                None
            };
            assert(final_of(segs) == match own {
                Some(s) => Some(s@),
                None => None,
            });
            index.record(i, own, Ghost(before));
            let ghost after_own = before.push((i, final_of(segs)));
            if n == 1 {
                match resolve_alias_expr_path(&path.segments, &path.module_suffix, renames) {
                    Some(renamed) => {
                        let m = renamed.len();
                        let aliased: Option<&str> = if m > 0 {
                            Some(renamed[m - 1].as_str())
                        } else {
                            None
                        };
                        assert(final_of(texts(renamed@)) == match aliased {
                            Some(s) => Some(s@),
                            None => None,
                        });
                        let differs = match aliased {
                            Some(name) => compare_text(name, path.segments[0].as_str()) != TextOrder::Equal,
                            None => true,
                        };
                        assert(segs[0] == path.segments@[0]@);
                        if differs {
                            index.record(i, aliased, Ghost(after_own));
                            assert(index_entries(paths@, renames@, i + 1) =~= after_own.push((i, final_of(texts(renamed@)))));
                        } else {
                            assert(index_entries(paths@, renames@, i + 1) =~= after_own);
                        }
                    },
                    None => {
                        assert(index_entries(paths@, renames@, i + 1) =~= after_own);
                    },
                }
            } else {
                assert(index_entries(paths@, renames@, i + 1) =~= after_own);
            }
            i = i + 1;
        }
        index
    }

    /// An index is among the candidates for `segments` exactly when one of
    /// the final segments recorded for it could name one of them.
    pub proof fn lemma_candidates_are_the_paths_that_could_name(
        &self,
        entries: Seq<(usize, Option<Seq<char>>)>,
        segments: Seq<Seq<char>>,
    )
        requires
            self.holds(entries),
        ensures
            forall|x: usize|
                #[trigger] self.candidates_spec(segments).contains(x) <==> exists|k: int|
                    0 <= k < entries.len() && entries[k].0 == x && could_name(entries[k].1, segments),
    {
        assert forall|x: usize|
            #[trigger] self.candidates_spec(segments).contains(x) <==> exists|k: int|
                0 <= k < entries.len() && entries[k].0 == x && could_name(entries[k].1, segments) by {
            let g = grouped_lists(self.by_segment@, segments);
            let a = self.anchor_final@;
            assert(self.candidates_spec(segments) == g + a);
            lemma_grouped_lists_contains(self.by_segment@, segments, x);
            lemma_anchor_entries_contains(entries, x);
            if (g + a).contains(x) {
                let k = choose|k: int| 0 <= k < (g + a).len() && #[trigger] (g + a)[k] == x;
                if k < g.len() {
                    assert(g[k] == x);
                    assert(g.contains(x));
                    let j = choose|j: int|
                        0 <= j < segments.len() && #[trigger] group_of(self.by_segment@, segments[j]).contains(x);
                    assert(self.group(segments[j]) == grouped_entries(entries, segments[j]));
                    lemma_grouped_entries_contains(entries, segments[j], x);
                    let e = choose|e: int|
                        0 <= e < entries.len() && #[trigger] entries[e].0 == x && grouped_final(entries[e].1)
                            && normalized(entries[e].1->0) == segments[j];
                    assert(segments.contains(segments[j]));
                    assert(could_name(entries[e].1, segments));
                } else {
                    assert(a[k - g.len()] == x);
                    assert(a.contains(x));
                }
            }
            if exists|k: int| 0 <= k < entries.len() && entries[k].0 == x && could_name(entries[k].1, segments) {
                let e = choose|k: int| 0 <= k < entries.len() && #[trigger] entries[k].0 == x && could_name(entries[k].1, segments);
                if grouped_final(entries[e].1) {
                    let key = normalized(entries[e].1->0);
                    let j = choose|j: int| 0 <= j < segments.len() && #[trigger] segments[j] == key;
                    lemma_grouped_entries_contains(entries, key, x);
                    assert(self.group(key) == grouped_entries(entries, key));
                    assert(group_of(self.by_segment@, segments[j]).contains(x));
                    assert(g.contains(x));
                    let k = choose|k: int| 0 <= k < g.len() && #[trigger] g[k] == x;
                    assert((g + a)[k] == x);
                } else {
                    assert(a.contains(x));
                    let k = choose|k: int| 0 <= k < a.len() && #[trigger] a[k] == x;
                    assert((g + a)[g.len() + k] == x);
                }
            }
        }
    }

    /// An empty index.
    pub fn new() -> (r: Self)
        ensures
            r.wf(),
            forall|segment: Seq<char>| #[trigger] r.group(segment) == Seq::<usize>::empty(),
            r.anchors() == Seq::<usize>::empty(),
    {
        PathsByFinalSegment { by_segment: Vec::new(), anchor_final: Vec::new() }
    }

    /// Where `segment` is grouped, if it is.
    fn position_of(&self, segment: &str) -> (r: Option<usize>)
        ensures
            match r {
                Some(p) => p < self.by_segment@.len() && self.by_segment@[p as int].0@ == segment@,
                None => forall|i: int|
                    0 <= i < self.by_segment@.len() ==> #[trigger] self.by_segment@[i].0@
                        != segment@,
            },
    {
        let mut i: usize = 0;
        while i < self.by_segment.len()
            invariant
                i <= self.by_segment@.len(),
                forall|j: int| 0 <= j < i ==> #[trigger] self.by_segment@[j].0@ != segment@,
            decreases self.by_segment.len() - i,
        {
            if compare_text(self.by_segment[i].0.as_str(), segment) == TextOrder::Equal {
                return Some(i);
            }
            i = i + 1;
        }
        None
    }

    /// Records the path at `index`, whose final segment is `final_segment`
    /// (none for an empty path): under its name without `r#`, or among the
    /// anchor-final paths.
    pub fn insert(&mut self, index: usize, final_segment: Option<&str>)
        requires
            old(self).wf(),
        ensures
            final(self).wf(),
            grouped_final(
                match final_segment {
                    Some(s) => Some(s@),
                    None => None,
                },
            ) ==> {
                &&& final(self).anchors() == old(self).anchors()
                &&& forall|segment: Seq<char>|
                    #[trigger] final(self).group(segment) == if segment == normalized(
                        final_segment->0@,
                    ) {
                        old(self).group(segment).push(index)
                    } else {
                        old(self).group(segment)
                    }
            },
            !grouped_final(
                match final_segment {
                    Some(s) => Some(s@),
                    None => None,
                },
            ) ==> {
                &&& final(self).anchors() == old(self).anchors().push(index)
                &&& forall|segment: Seq<char>|
                    #[trigger] final(self).group(segment) == old(self).group(segment)
            },
    {
        let grouped = match final_segment {
            Some(segment) => {
                let anchor = path_anchor(segment);
                anchor == PathAnchor::Name || anchor == PathAnchor::SelfType
            },
            None => false,
        };
        if !grouped {
            self.anchor_final.push(index);
            return;
        }
        let segment = match final_segment {
            Some(segment) => segment,
            None => return,
        };
        let key = normalized_name(segment);
        let ghost before = self.by_segment@;
        match self.position_of(key.as_str()) {
            Some(pos) => {
                let (name, mut list) = self.by_segment.remove(pos);
                let ghost old_list = list@;
                list.push(index);
                self.by_segment.insert(pos, (name, list));
                proof {
                    let after = self.by_segment@;
                    assert(after =~= before.update(pos as int, after[pos as int]));
                    assert forall|segment: Seq<char>| #[trigger]
                        group_of(after, segment) == if segment == key@ {
                            group_of(before, segment).push(index)
                        } else {
                            group_of(before, segment)
                        } by {
                        if segment == key@ {
                            assert(after[pos as int].0@ == segment);
                            assert(before[pos as int].0@ == segment);
                        } else {
                            if exists|i: int| 0 <= i < before.len() && #[trigger] before[i].0@ == segment {
                                let w = choose|i: int| 0 <= i < before.len() && #[trigger] before[i].0@ == segment;
                                assert(after[w].0@ == segment);
                            }
                            if exists|i: int| 0 <= i < after.len() && #[trigger] after[i].0@ == segment {
                                let w = choose|i: int| 0 <= i < after.len() && #[trigger] after[i].0@ == segment;
                                assert(before[w].0@ == segment);
                            }
                        }
                    }
                }
            },
            None => {
                let mut list: Vec<usize> = Vec::new();
                list.push(index);
                self.by_segment.push((key, list));
                proof {
                    let after = self.by_segment@;
                    let last = before.len() as int;
                    assert forall|segment: Seq<char>| #[trigger]
                        group_of(after, segment) == if segment == key@ {
                            group_of(before, segment).push(index)
                        } else {
                            group_of(before, segment)
                        } by {
                        if segment == key@ {
                            assert(after[last].0@ == segment);
                            assert(group_of(before, segment) == Seq::<usize>::empty());
                            assert(after[last].1@ =~= seq![index]);
                        } else {
                            if exists|i: int| 0 <= i < before.len() && #[trigger] before[i].0@ == segment {
                                let w = choose|i: int| 0 <= i < before.len() && #[trigger] before[i].0@ == segment;
                                assert(after[w].0@ == segment);
                            }
                            if exists|i: int| 0 <= i < after.len() && #[trigger] after[i].0@ == segment {
                                let w = choose|i: int| 0 <= i < after.len() && #[trigger] after[i].0@ == segment;
                                assert(before[w].0@ == segment);
                            }
                        }
                    }
                }
            },
        }
    }

    /// The indices of every path that could name one of `segments`: those
    /// grouped under each segment, in turn, and then every anchor-final
    /// path. A path reached through two segments appears twice.
    pub fn candidates(&self, segments: &Vec<String>) -> (r: Vec<usize>)
        requires
            self.wf(),
        ensures
            r@ == self.candidates_spec(texts(segments@)),
    {
        let ghost segs = texts(segments@);
        let mut out: Vec<usize> = Vec::new();
        let mut i: usize = 0;
        assert(segs.take(0) =~= seq![]);
        while i < segments.len()
            invariant
                i <= segments.len(),
                self.wf(),
                segs == texts(segments@),
                out@ == grouped_lists(self.by_segment@, segs.take(i as int)),
            decreases segments.len() - i,
        {
            let ghost before = out@;
            match self.position_of(segments[i].as_str()) {
                Some(pos) => {
                    let list = &self.by_segment[pos].1;
                    let mut k: usize = 0;
                    while k < list.len()
                        invariant
                            k <= list.len(),
                            out@ == before + list@.take(k as int),
                        decreases list.len() - k,
                    {
                        out.push(list[k]);
                        k = k + 1;
                        assert(out@ =~= before + list@.take(k as int));
                    }
                    proof {
                        assert(list@.take(list.len() as int) =~= list@);
                        let w = choose|j: int|
                            0 <= j < self.by_segment@.len() && #[trigger] self.by_segment@[j].0@
                                == segs[i as int];
                        assert(self.by_segment@[pos as int].0@ == segs[i as int]);
                        lemma_unique_position(self.by_segment@, w, pos as int);
                    }
                },
                None => {},
            }
            assert(segs.take(i + 1).drop_last() =~= segs.take(i as int));
            assert(segs.take(i + 1).last() == segs[i as int]);
            i = i + 1;
        }
        assert(segs.take(segments.len() as int) =~= segs);
        let mut a: usize = 0;
        let ghost grouped = out@;
        while a < self.anchor_final.len()
            invariant
                a <= self.anchor_final.len(),
                out@ == grouped + self.anchor_final@.take(a as int),
            decreases self.anchor_final.len() - a,
        {
            out.push(self.anchor_final[a]);
            a = a + 1;
            assert(out@ =~= grouped + self.anchor_final@.take(a as int));
        }
        assert(self.anchor_final@.take(self.anchor_final.len() as int) =~= self.anchor_final@);
        out
    }
}

proof fn lemma_grouped_entries_contains(entries: Seq<(usize, Option<Seq<char>>)>, segment: Seq<char>, x: usize)
    ensures
        grouped_entries(entries, segment).contains(x) <==> exists|k: int|
            0 <= k < entries.len() && #[trigger] entries[k].0 == x && grouped_final(entries[k].1)
                && normalized(entries[k].1->0) == segment,
    decreases entries.len(),
{
    if entries.len() > 0 {
        let init = entries.drop_last();
        lemma_grouped_entries_contains(init, segment, x);
        let rest = grouped_entries(init, segment);
        let (index, f) = entries.last();
        let hit = grouped_final(f) && normalized(f->0) == segment;
        let all = grouped_entries(entries, segment);
        if all.contains(x) {
            let k = choose|k: int| 0 <= k < all.len() && #[trigger] all[k] == x;
            if k < rest.len() {
                assert(rest[k] == x);
                assert(rest.contains(x));
                let e = choose|e: int| 0 <= e < init.len() && #[trigger] init[e].0 == x && grouped_final(init[e].1)
                    && normalized(init[e].1->0) == segment;
                assert(entries[e] == init[e]);
            } else {
                assert(entries[entries.len() - 1].0 == x);
            }
        }
        if exists|k: int| 0 <= k < entries.len() && #[trigger] entries[k].0 == x && grouped_final(entries[k].1)
            && normalized(entries[k].1->0) == segment {
            let e = choose|k: int| 0 <= k < entries.len() && #[trigger] entries[k].0 == x && grouped_final(entries[k].1)
                && normalized(entries[k].1->0) == segment;
            if e < entries.len() - 1 {
                assert(init[e] == entries[e]);
                assert(rest.contains(x));
                let k = choose|k: int| 0 <= k < rest.len() && #[trigger] rest[k] == x;
                if hit {
                    assert(rest.push(index)[k] == x);
                }
            } else {
                assert(hit);
                assert(rest.push(index)[rest.len() as int] == x);
            }
        }
    }
}

proof fn lemma_anchor_entries_contains(entries: Seq<(usize, Option<Seq<char>>)>, x: usize)
    ensures
        anchor_entries(entries).contains(x) <==> exists|k: int|
            0 <= k < entries.len() && #[trigger] entries[k].0 == x && !grouped_final(entries[k].1),
    decreases entries.len(),
{
    if entries.len() > 0 {
        let init = entries.drop_last();
        lemma_anchor_entries_contains(init, x);
        let rest = anchor_entries(init);
        let (index, f) = entries.last();
        let all = anchor_entries(entries);
        if all.contains(x) {
            let k = choose|k: int| 0 <= k < all.len() && #[trigger] all[k] == x;
            if k < rest.len() {
                assert(rest[k] == x);
                assert(rest.contains(x));
                let e = choose|e: int| 0 <= e < init.len() && #[trigger] init[e].0 == x && !grouped_final(init[e].1);
                assert(entries[e] == init[e]);
            } else {
                assert(entries[entries.len() - 1].0 == x);
            }
        }
        if exists|k: int| 0 <= k < entries.len() && #[trigger] entries[k].0 == x && !grouped_final(entries[k].1) {
            let e = choose|k: int| 0 <= k < entries.len() && #[trigger] entries[k].0 == x && !grouped_final(entries[k].1);
            if e < entries.len() - 1 {
                assert(init[e] == entries[e]);
                assert(rest.contains(x));
                let k = choose|k: int| 0 <= k < rest.len() && #[trigger] rest[k] == x;
                if !grouped_final(f) {
                    assert(rest.push(index)[k] == x);
                }
            } else {
                assert(rest.push(index)[rest.len() as int] == x);
            }
        }
    }
}

proof fn lemma_grouped_lists_contains(groups: Seq<(String, Vec<usize>)>, segments: Seq<Seq<char>>, x: usize)
    ensures
        grouped_lists(groups, segments).contains(x) <==> exists|j: int|
            0 <= j < segments.len() && #[trigger] group_of(groups, segments[j]).contains(x),
    decreases segments.len(),
{
    if segments.len() > 0 {
        let init = segments.drop_last();
        let last = segments.last();
        lemma_grouped_lists_contains(groups, init, x);
        let a = grouped_lists(groups, init);
        let b = group_of(groups, last);
        assert(grouped_lists(groups, segments) == a + b);
        if (a + b).contains(x) {
            let k = choose|k: int| 0 <= k < (a + b).len() && #[trigger] (a + b)[k] == x;
            if k < a.len() {
                assert(a[k] == x);
                assert(a.contains(x));
                let j = choose|j: int| 0 <= j < init.len() && #[trigger] group_of(groups, init[j]).contains(x);
                assert(segments[j] == init[j]);
                assert(group_of(groups, segments[j]).contains(x));
            } else {
                assert(b[k - a.len()] == x);
                assert(b.contains(x));
                assert(segments[segments.len() - 1] == last);
                assert(group_of(groups, segments[segments.len() - 1]).contains(x));
            }
        }
        if exists|j: int| 0 <= j < segments.len() && #[trigger] group_of(groups, segments[j]).contains(x) {
            let j = choose|j: int| 0 <= j < segments.len() && #[trigger] group_of(groups, segments[j]).contains(x);
            if j < segments.len() - 1 {
                assert(init[j] == segments[j]);
                assert(group_of(groups, init[j]).contains(x));
                assert(a.contains(x));
                let k = choose|k: int| 0 <= k < a.len() && #[trigger] a[k] == x;
                assert((a + b)[k] == x);
            } else {
                assert(segments[j] == last);
                let k = choose|k: int| 0 <= k < b.len() && #[trigger] b[k] == x;
                assert((a + b)[a.len() + k] == x);
            }
        }
    }
}

proof fn lemma_unique_position(groups: Seq<(String, Vec<usize>)>, i: int, j: int)
    requires
        0 <= i < groups.len(),
        0 <= j < groups.len(),
        groups[i].0@ == groups[j].0@,
        forall|a: int, b: int|
            0 <= a < b < groups.len() ==> #[trigger] groups[a].0@ != #[trigger] groups[b].0@,
    ensures
        i == j,
{
    if i < j {
        assert(groups[i].0@ != groups[j].0@);
    } else if j < i {
        assert(groups[j].0@ != groups[i].0@);
    }
}

} // verus!
