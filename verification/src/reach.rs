//! How far a visibility annotation lets an item be named, and the join that
//! combines two such requirements into the narrowest reach satisfying both.

use vstd::prelude::*;
use vstd::std_specs::cmp::PartialEqSpecImpl;
use crate::def_path::{
    common_ancestor, common_def_path_ancestor, common_prefix, crate_text, join_segments,
    lemma_common_prefix_associates, lemma_common_prefix_commutes, lemma_common_prefix_is_prefix,
    lemma_common_prefix_self, lemma_join_segments, lemma_segments_nonempty,
    lemma_segments_of_crate, lemma_segments_of_empty, lemma_segments_of_prefix, segments,
};

verus! {

/// The reach a declaration needs or has.
#[derive(Debug)]
pub enum StoredVisibilityReach {
    Public,
    Crate,
    Restricted { boundary: String },
}

/// The mathematical reading of [`StoredVisibilityReach`].
pub enum ReachView {
    Public,
    Crate,
    Restricted(Seq<char>),
}

impl View for StoredVisibilityReach {
    type V = ReachView;

    open spec fn view(&self) -> ReachView {
        match self {
            StoredVisibilityReach::Public => ReachView::Public,
            StoredVisibilityReach::Crate => ReachView::Crate,
            StoredVisibilityReach::Restricted { boundary } => ReachView::Restricted(boundary@),
        }
    }
}

/// A restricted reach never names the crate root or nothing: those are the
/// crate reach, and are spelled as such.
pub open spec fn reach_wf(r: ReachView) -> bool {
    match r {
        ReachView::Restricted(b) => b != crate_text() && b.len() != 0,
        _ => true,
    }
}

/// The reach two restricted boundaries jointly require: their common
/// ancestor, or the crate when that ancestor is the crate root or empty.
pub open spec fn restricted_join(left: Seq<char>, right: Seq<char>) -> ReachView {
    let c = common_ancestor(left, right);
    if c == crate_text() || c.len() == 0 {
        ReachView::Crate
    } else {
        ReachView::Restricted(c)
    }
}

/// The narrowest reach containing both arguments.
pub open spec fn reach_join(a: ReachView, b: ReachView) -> ReachView {
    match (a, b) {
        (ReachView::Public, _) => ReachView::Public,
        (_, ReachView::Public) => ReachView::Public,
        (ReachView::Crate, _) => ReachView::Crate,
        (_, ReachView::Crate) => ReachView::Crate,
        (ReachView::Restricted(l), ReachView::Restricted(r)) => restricted_join(l, r),
    }
}

pub open spec fn reach_source(r: ReachView) -> Seq<char> {
    match r {
        ReachView::Public => "pub"@,
        ReachView::Crate => "pub(crate)"@,
        ReachView::Restricted(b) => "pub(in "@ + b + ")"@,
    }
}

pub open spec fn reach_boundary(r: ReachView) -> Seq<char> {
    match r {
        ReachView::Public => "crate-external"@,
        ReachView::Crate => "crate"@,
        ReachView::Restricted(b) => b,
    }
}

impl Clone for StoredVisibilityReach {
    fn clone(&self) -> (res: Self)
        ensures
            res@ == self@,
    {
        match self {
            StoredVisibilityReach::Public => StoredVisibilityReach::Public,
            StoredVisibilityReach::Crate => StoredVisibilityReach::Crate,
            StoredVisibilityReach::Restricted { boundary } => StoredVisibilityReach::Restricted {
                boundary: boundary.clone(),
            },
        }
    }
}

impl PartialEq for StoredVisibilityReach {
    fn eq(&self, other: &Self) -> (r: bool) {
        match (self, other) {
            (StoredVisibilityReach::Public, StoredVisibilityReach::Public) => true,
            (StoredVisibilityReach::Crate, StoredVisibilityReach::Crate) => true,
            (
                StoredVisibilityReach::Restricted { boundary: left },
                StoredVisibilityReach::Restricted { boundary: right },
            ) => *left == *right,
            _ => false,
        }
    }
}

impl PartialEqSpecImpl for StoredVisibilityReach {
    open spec fn obeys_eq_spec() -> bool {
        true
    }

    open spec fn eq_spec(&self, other: &StoredVisibilityReach) -> bool {
        self@ == other@
    }
}

impl Eq for StoredVisibilityReach {
}

impl StoredVisibilityReach {
    /// The narrowest reach that satisfies both `self` and `other`.
    pub fn join(&self, other: &Self) -> (r: Self)
        ensures
            r@ == reach_join(self@, other@),
    {
        match (self, other) {
            (StoredVisibilityReach::Public, _) => StoredVisibilityReach::Public,
            (_, StoredVisibilityReach::Public) => StoredVisibilityReach::Public,
            (StoredVisibilityReach::Crate, _) => StoredVisibilityReach::Crate,
            (_, StoredVisibilityReach::Crate) => StoredVisibilityReach::Crate,
            (
                StoredVisibilityReach::Restricted { boundary: left },
                StoredVisibilityReach::Restricted { boundary: right },
            ) => {
                let boundary = common_def_path_ancestor(left.as_str(), right.as_str());
                let crate_word = String::from_str("crate");
                proof {
                    reveal_strlit("crate");
                    assert(crate_word@ == crate_text());
                }
                if boundary == crate_word || boundary.as_str().is_empty() {
                    StoredVisibilityReach::Crate
                } else {
                    StoredVisibilityReach::Restricted { boundary }
                }
            },
        }
    }

    /// The annotation that grants exactly this reach.
    pub fn to_source(&self) -> (s: String)
        ensures
            s@ == reach_source(self@),
    {
        match self {
            StoredVisibilityReach::Public => {
                proof {
                    reveal_strlit("pub");
                }
                String::from_str("pub")
            },
            StoredVisibilityReach::Crate => {
                proof {
                    reveal_strlit("pub(crate)");
                }
                String::from_str("pub(crate)")
            },
            StoredVisibilityReach::Restricted { boundary } => {
                let mut s = String::from_str("pub(in ");
                s.append(boundary.as_str());
                s.append(")");
                s
            },
        }
    }

    /// The module this reach stops at, or `crate-external` for `pub`.
    pub fn boundary(&self) -> (s: &str)
        ensures
            s@ == reach_boundary(self@),
    {
        match self {
            StoredVisibilityReach::Public => "crate-external",
            StoredVisibilityReach::Crate => "crate",
            StoredVisibilityReach::Restricted { boundary } => boundary.as_str(),
        }
    }
}

// ---------------------------------------------------------------------------
// The join is a semilattice operation.

pub open spec fn collapses(l: Seq<Seq<char>>) -> bool {
    l.len() == 0 || l == seq![Seq::<char>::empty()] || l == seq![crate_text()]
}

proof fn lemma_collapses_prefix(l: Seq<Seq<char>>, k: int)
    requires
        collapses(l),
        0 <= k <= l.len(),
    ensures
        collapses(l.take(k)),
{
    if k == 0 {
        assert(l.take(k).len() == 0);
    } else {
        assert(l.take(k) =~= l);
    }
}

/// For a leading run `l` of some path's segments, the joined text is the
/// crate root or empty exactly when the run collapses, and otherwise reads
/// back as the same run.
proof fn lemma_join_of_prefix(s: Seq<char>, l: Seq<Seq<char>>)
    requires
        l.len() <= segments(s).len(),
        l == segments(s).take(l.len() as int),
    ensures
        (join_segments(l) == crate_text() || join_segments(l).len() == 0) <==> collapses(l),
        !collapses(l) ==> segments(join_segments(l)) == l,
{
    lemma_segments_of_empty();
    lemma_segments_of_crate();
    if l.len() == 0 {
    } else {
        lemma_segments_of_prefix(s, l.len() as int);
        let j = join_segments(l);
        if j == crate_text() {
            assert(l == seq![crate_text()]);
        }
        if j.len() == 0 {
            assert(j =~= Seq::<char>::empty());
            assert(l == seq![Seq::<char>::empty()]);
        }
        if l == seq![Seq::<char>::empty()] {
            assert(join_segments(l) == Seq::<char>::empty());
        }
        if l == seq![crate_text()] {
            assert(join_segments(l) == crate_text());
        }
    }
}

proof fn lemma_restricted_join_shape(a: Seq<char>, b: Seq<char>)
    ensures
        collapses(common_prefix(segments(a), segments(b))) ==> restricted_join(a, b)
            == ReachView::Crate,
        !collapses(common_prefix(segments(a), segments(b))) ==> restricted_join(a, b)
            == ReachView::Restricted(join_segments(common_prefix(segments(a), segments(b)))) && segments(
            join_segments(common_prefix(segments(a), segments(b))),
        ) == common_prefix(segments(a), segments(b)),
{
    lemma_common_prefix_is_prefix(segments(a), segments(b));
    lemma_join_of_prefix(a, common_prefix(segments(a), segments(b)));
}

/// Joining requirements does not depend on their order.
pub proof fn lemma_reach_join_commutes(a: ReachView, b: ReachView)
    ensures
        reach_join(a, b) == reach_join(b, a),
{
    if let (ReachView::Restricted(l), ReachView::Restricted(r)) = (a, b) {
        lemma_common_prefix_commutes(segments(l), segments(r));
    }
}

/// Joining a well-formed requirement with itself leaves it unchanged.
pub proof fn lemma_reach_join_idempotent(a: ReachView)
    requires
        reach_wf(a),
    ensures
        reach_join(a, a) == a,
{
    if let ReachView::Restricted(b) = a {
        lemma_common_prefix_self(segments(b));
        lemma_join_segments(b);
    }
}

/// Joining requirements does not depend on how they are grouped.
pub proof fn lemma_reach_join_associates(a: ReachView, b: ReachView, c: ReachView)
    ensures
        reach_join(reach_join(a, b), c) == reach_join(a, reach_join(b, c)),
{
    if let (ReachView::Restricted(x), ReachView::Restricted(y), ReachView::Restricted(z)) = (
        a,
        b,
        c,
    ) {
        let sx = segments(x);
        let sy = segments(y);
        let sz = segments(z);
        let lxy = common_prefix(sx, sy);
        let lyz = common_prefix(sy, sz);
        lemma_restricted_join_shape(x, y);
        lemma_restricted_join_shape(y, z);
        lemma_common_prefix_associates(sx, sy, sz);
        let l = common_prefix(lxy, sz);
        assert(l == common_prefix(sx, lyz));
        lemma_common_prefix_is_prefix(lxy, sz);
        lemma_common_prefix_is_prefix(sx, lyz);
        if collapses(lxy) {
            if !collapses(lyz) {
                let jyz = join_segments(lyz);
                lemma_restricted_join_shape(x, jyz);
                lemma_collapses_prefix(lxy, l.len() as int);
            }
        } else if collapses(lyz) {
            let jxy = join_segments(lxy);
            lemma_restricted_join_shape(jxy, z);
            lemma_common_prefix_commutes(lyz, sx);
            lemma_common_prefix_is_prefix(lyz, sx);
            lemma_collapses_prefix(lyz, l.len() as int);
        } else {
            let jxy = join_segments(lxy);
            let jyz = join_segments(lyz);
            lemma_restricted_join_shape(jxy, z);
            lemma_restricted_join_shape(x, jyz);
        }
    }
}

} // verus!
