//! Text in the order `String`'s `Ord` gives it (lexicographic by character),
//! and sorted, duplicate-free lists of text: the sets and map keys the
//! reconciliation passes walk in a stable order.

use vstd::prelude::*;

verus! {

/// The three outcomes of comparing two texts.
#[derive(Debug, Clone, Copy, PartialEq, Eq, Structural)]
pub enum TextOrder {
    Less,
    Equal,
    Greater,
}

/// `a` sorts strictly before `b`: at the first difference `a` has the smaller
/// character, or `a` is a proper prefix of `b`.
pub open spec fn text_lt(a: Seq<char>, b: Seq<char>) -> bool
    decreases a.len(),
{
    if b.len() == 0 {
        false
    } else if a.len() == 0 {
        true
    } else if a[0] != b[0] {
        (a[0] as int) < (b[0] as int)
    } else {
        text_lt(a.drop_first(), b.drop_first())
    }
}

pub proof fn lemma_text_lt_irreflexive(a: Seq<char>)
    ensures
        !text_lt(a, a),
    decreases a.len(),
{
    if a.len() > 0 {
        lemma_text_lt_irreflexive(a.drop_first());
    }
}

pub proof fn lemma_text_lt_transitive(a: Seq<char>, b: Seq<char>, c: Seq<char>)
    requires
        text_lt(a, b),
        text_lt(b, c),
    ensures
        text_lt(a, c),
    decreases a.len(),
{
    if a.len() > 0 && b.len() > 0 && c.len() > 0 {
        if a[0] == b[0] && b[0] == c[0] {
            lemma_text_lt_transitive(a.drop_first(), b.drop_first(), c.drop_first());
        }
    }
}

pub proof fn lemma_text_lt_total(a: Seq<char>, b: Seq<char>)
    ensures
        text_lt(a, b) || text_lt(b, a) || a == b,
    decreases a.len(),
{
    if a.len() > 0 && b.len() > 0 {
        if a[0] == b[0] {
            lemma_text_lt_total(a.drop_first(), b.drop_first());
            if a.drop_first() == b.drop_first() {
                assert(a =~= seq![a[0]] + a.drop_first());
                assert(b =~= seq![b[0]] + b.drop_first());
            }
        }
    } else if a.len() == 0 && b.len() == 0 {
        assert(a =~= b);
    }
}

pub proof fn lemma_text_lt_asymmetric(a: Seq<char>, b: Seq<char>)
    requires
        text_lt(a, b),
    ensures
        !text_lt(b, a),
{
    if text_lt(b, a) {
        lemma_text_lt_transitive(a, b, a);
        lemma_text_lt_irreflexive(a);
    }
}

pub open spec fn text_order(a: Seq<char>, b: Seq<char>) -> TextOrder {
    if a == b {
        TextOrder::Equal
    } else if text_lt(a, b) {
        TextOrder::Less
    } else {
        TextOrder::Greater
    }
}

/// Compares two texts the way `String`'s `Ord` does.
pub fn compare_text(a: &str, b: &str) -> (r: TextOrder)
    ensures
        r == text_order(a@, b@),
        r == TextOrder::Greater ==> text_lt(b@, a@),
{
    let x = crate::text::chars_of(a);
    let y = crate::text::chars_of(b);
    let mut i: usize = 0;
    while i < x.len() && i < y.len()
        invariant
            i <= x.len(),
            i <= y.len(),
            x@ == a@,
            y@ == b@,
            forall|j: int| 0 <= j < i ==> x@[j] == y@[j],
        decreases x.len() - i,
    {
        if x[i] != y[i] {
            proof {
                lemma_text_lt_skip(x@, y@, i as int);
            }
            let lt = x[i] < y[i];
            assert(x@ != y@);
            proof {
                lemma_text_lt_total(x@, y@);
            }
            if lt {
                return TextOrder::Less;
            } else {
                return TextOrder::Greater;
            }
        }
        i = i + 1;
    }
    proof {
        lemma_text_lt_skip(x@, y@, i as int);
        lemma_text_lt_total(x@, y@);
        if i == x.len() && i == y.len() {
            assert(x@ =~= y@);
        }
    }
    if x.len() == y.len() {
        TextOrder::Equal
    } else if x.len() < y.len() {
        TextOrder::Less
    } else {
        TextOrder::Greater
    }
}

/// Comparing texts that agree on their first `i` characters comes down to
/// comparing what follows.
pub proof fn lemma_text_lt_skip(a: Seq<char>, b: Seq<char>, i: int)
    requires
        0 <= i <= a.len(),
        i <= b.len(),
        forall|j: int| 0 <= j < i ==> a[j] == b[j],
    ensures
        text_lt(a, b) == text_lt(a.skip(i), b.skip(i)),
    decreases i,
{
    if i > 0 {
        lemma_text_lt_skip(a.drop_first(), b.drop_first(), i - 1);
        assert(a.drop_first().skip(i - 1) =~= a.skip(i));
        assert(b.drop_first().skip(i - 1) =~= b.skip(i));
    } else {
        assert(a.skip(0) =~= a);
        assert(b.skip(0) =~= b);
    }
}

/// Strictly ascending: sorted with no repeats.
pub open spec fn ascending(s: Seq<Seq<char>>) -> bool {
    forall|i: int, j: int| 0 <= i < j < s.len() ==> text_lt(#[trigger] s[i], #[trigger] s[j])
}

pub open spec fn texts(v: Seq<String>) -> Seq<Seq<char>> {
    v.map_values(|s: String| s@)
}

/// The set of texts a list holds.
pub open spec fn text_set(v: Seq<String>) -> Set<Seq<char>> {
    texts(v).to_set()
}

/// Where `x` belongs in an ascending list: the first position whose text is
/// not below `x`.
pub fn search_position(v: &Vec<String>, x: &str) -> (r: (usize, bool))
    requires
        ascending(texts(v@)),
    ensures
        r.0 <= v.len(),
        forall|j: int| 0 <= j < r.0 ==> text_lt(#[trigger] texts(v@)[j], x@),
        forall|j: int| r.0 <= j < v.len() ==> text_lt(x@, #[trigger] texts(v@)[j]) || texts(
            v@,
        )[j] == x@,
        r.1 == (r.0 < v.len() && texts(v@)[r.0 as int] == x@),
        r.1 == text_set(v@).contains(x@),
{
    let ghost t = texts(v@);
    let mut i: usize = 0;
    while i < v.len()
        invariant
            i <= v.len(),
            t == texts(v@),
            ascending(t),
            forall|j: int| 0 <= j < i ==> text_lt(#[trigger] t[j], x@),
        decreases v.len() - i,
    {
        match compare_text(v[i].as_str(), x) {
            TextOrder::Less => {
                i = i + 1;
            },
            TextOrder::Equal => {
                proof {
                    assert forall|j: int| i <= j < v.len() implies text_lt(x@, #[trigger] t[j])
                        || t[j] == x@ by {
                        if j > i {
                            assert(text_lt(t[i as int], t[j]));
                        }
                    }
                    assert(t.to_set().contains(x@)) by {
                        assert(t[i as int] == x@);
                    }
                }
                return (i, true);
            },
            TextOrder::Greater => {
                proof {
                    assert forall|j: int| i <= j < v.len() implies text_lt(x@, #[trigger] t[j]) by {
                        if j > i {
                            assert(text_lt(t[i as int], t[j]));
                            lemma_text_lt_transitive(x@, t[i as int], t[j]);
                        }
                    }
                    lemma_not_in_set(t, x@, i as int);
                }
                return (i, false);
            },
        }
    }
    proof {
        lemma_not_in_set(t, x@, i as int);
    }
    (i, false)
}

proof fn lemma_not_in_set(t: Seq<Seq<char>>, x: Seq<char>, i: int)
    requires
        0 <= i <= t.len(),
        forall|j: int| 0 <= j < i ==> text_lt(#[trigger] t[j], x),
        forall|j: int| i <= j < t.len() ==> text_lt(x, #[trigger] t[j]),
    ensures
        !t.to_set().contains(x),
{
    if t.to_set().contains(x) {
        let k = choose|k: int| 0 <= k < t.len() && t[k] == x;
        if k < i {
            assert(text_lt(t[k], x));
        } else {
            assert(text_lt(x, t[k]));
        }
        lemma_text_lt_irreflexive(x);
    }
}

/// Adds `x` to an ascending list of texts, keeping it ascending.
pub fn insert_text(v: &mut Vec<String>, x: String)
    requires
        ascending(texts(old(v)@)),
    ensures
        ascending(texts(final(v)@)),
        text_set(final(v)@) == text_set(old(v)@).insert(x@),
{
    let (pos, present) = search_position(v, x.as_str());
    if present {
        proof {
            assert(text_set(v@).insert(x@) =~= text_set(v@));
        }
        return;
    }
    let ghost before = texts(v@);
    let ghost xv = x@;
    v.insert(pos, x);
    proof {
        let after = texts(v@);
        assert(after =~= before.insert(pos as int, xv));
        assert forall|i: int, j: int| 0 <= i < j < after.len() implies text_lt(
            #[trigger] after[i],
            #[trigger] after[j],
        ) by {
            if j < pos {
            } else if j == pos {
            } else if i < pos {
                assert(after[j] == before[j - 1]);
                if j - 1 >= pos {
                    assert(text_lt(xv, before[j - 1]) || before[j - 1] == xv);
                    if before[j - 1] == xv {
                        assert(before.to_set().contains(xv));
                    }
                    lemma_text_lt_transitive(before[i], xv, before[j - 1]);
                }
            } else if i == pos {
                assert(text_lt(xv, before[j - 1]) || before[j - 1] == xv);
                if before[j - 1] == xv {
                    assert(before.to_set().contains(xv));
                }
            } else {
                assert(after[i] == before[i - 1]);
                assert(after[j] == before[j - 1]);
            }
        }
        assert forall|y: Seq<char>| after.to_set().contains(y) <==> before.to_set().insert(
            xv,
        ).contains(y) by {
            if after.to_set().contains(y) {
                let k = choose|k: int| 0 <= k < after.len() && after[k] == y;
                if k < pos {
                    assert(before[k] == y);
                } else if k > pos {
                    assert(before[k - 1] == y);
                }
            }
            if before.to_set().contains(y) {
                let k = choose|k: int| 0 <= k < before.len() && before[k] == y;
                if k < pos {
                    assert(after[k] == y);
                } else {
                    assert(after[k + 1] == y);
                }
            }
            if y == xv {
                assert(after[pos as int] == xv);
            }
        }
        assert(after.to_set() =~= before.to_set().insert(xv));
    }
}

} // verus!
