//! Lexicographic sort keys.
//!
//! A record's derived `Ord` compares its fields in declaration order; each
//! record type here spells that order out as a fixed-layout sequence of
//! numbers and texts, and one verified comparison of such sequences then
//! orders every record kind the reconciliation passes sort or key by.

use vstd::prelude::*;
use crate::ordered::{
    TextOrder, compare_text, lemma_text_lt_irreflexive, lemma_text_lt_total,
    lemma_text_lt_transitive, text_lt,
};

verus! {

/// One component of a sort key.
pub enum SortKey {
    Num(int),
    Text(Seq<char>),
}

/// The executable form of a [`SortKey`].
pub enum ExecKey {
    Num(u64),
    Text(String),
}

impl View for ExecKey {
    type V = SortKey;

    open spec fn view(&self) -> SortKey {
        match self {
            ExecKey::Num(n) => SortKey::Num(*n as int),
            ExecKey::Text(s) => SortKey::Text(s@),
        }
    }
}

pub open spec fn key_views(v: Seq<ExecKey>) -> Seq<SortKey> {
    v.map_values(|k: ExecKey| k@)
}

pub open spec fn key_lt(a: SortKey, b: SortKey) -> bool {
    match (a, b) {
        (SortKey::Num(x), SortKey::Num(y)) => x < y,
        (SortKey::Text(x), SortKey::Text(y)) => text_lt(x, y),
        (SortKey::Num(_), SortKey::Text(_)) => true,
        (SortKey::Text(_), SortKey::Num(_)) => false,
    }
}

/// Lexicographic order on key sequences.
pub open spec fn keys_lt(a: Seq<SortKey>, b: Seq<SortKey>) -> bool
    decreases a.len(),
{
    if b.len() == 0 {
        false
    } else if a.len() == 0 {
        true
    } else if a[0] != b[0] {
        key_lt(a[0], b[0])
    } else {
        keys_lt(a.drop_first(), b.drop_first())
    }
}

pub open spec fn keys_order(a: Seq<SortKey>, b: Seq<SortKey>) -> TextOrder {
    if a == b {
        TextOrder::Equal
    } else if keys_lt(a, b) {
        TextOrder::Less
    } else {
        TextOrder::Greater
    }
}

proof fn lemma_key_lt_irreflexive(a: SortKey)
    ensures
        !key_lt(a, a),
{
    if let SortKey::Text(x) = a {
        lemma_text_lt_irreflexive(x);
    }
}

proof fn lemma_key_lt_transitive(a: SortKey, b: SortKey, c: SortKey)
    requires
        key_lt(a, b),
        key_lt(b, c),
    ensures
        key_lt(a, c),
{
    if let (SortKey::Text(x), SortKey::Text(y), SortKey::Text(z)) = (a, b, c) {
        lemma_text_lt_transitive(x, y, z);
    }
}

proof fn lemma_key_lt_total(a: SortKey, b: SortKey)
    ensures
        key_lt(a, b) || key_lt(b, a) || a == b,
{
    if let (SortKey::Text(x), SortKey::Text(y)) = (a, b) {
        lemma_text_lt_total(x, y);
    }
}

pub proof fn lemma_keys_lt_irreflexive(a: Seq<SortKey>)
    ensures
        !keys_lt(a, a),
    decreases a.len(),
{
    if a.len() > 0 {
        lemma_keys_lt_irreflexive(a.drop_first());
    }
}

pub proof fn lemma_keys_lt_transitive(a: Seq<SortKey>, b: Seq<SortKey>, c: Seq<SortKey>)
    requires
        keys_lt(a, b),
        keys_lt(b, c),
    ensures
        keys_lt(a, c),
    decreases a.len(),
{
    if a.len() > 0 && b.len() > 0 && c.len() > 0 {
        if a[0] == b[0] && b[0] == c[0] {
            lemma_keys_lt_transitive(a.drop_first(), b.drop_first(), c.drop_first());
        } else if a[0] != b[0] && b[0] != c[0] {
            lemma_key_lt_transitive(a[0], b[0], c[0]);
            if a[0] == c[0] {
                lemma_key_lt_irreflexive(a[0]);
            }
        }
    }
}

pub proof fn lemma_keys_lt_total(a: Seq<SortKey>, b: Seq<SortKey>)
    ensures
        keys_lt(a, b) || keys_lt(b, a) || a == b,
    decreases a.len(),
{
    if a.len() > 0 && b.len() > 0 {
        if a[0] == b[0] {
            lemma_keys_lt_total(a.drop_first(), b.drop_first());
            if a.drop_first() == b.drop_first() {
                assert(a =~= seq![a[0]] + a.drop_first());
                assert(b =~= seq![b[0]] + b.drop_first());
            }
        } else {
            lemma_key_lt_total(a[0], b[0]);
        }
    } else if a.len() == 0 && b.len() == 0 {
        assert(a =~= b);
    }
}

pub proof fn lemma_keys_lt_asymmetric(a: Seq<SortKey>, b: Seq<SortKey>)
    requires
        keys_lt(a, b),
    ensures
        !keys_lt(b, a),
        a != b,
{
    lemma_keys_lt_irreflexive(a);
    if keys_lt(b, a) {
        lemma_keys_lt_transitive(a, b, a);
    }
}

proof fn lemma_keys_lt_skip(a: Seq<SortKey>, b: Seq<SortKey>, i: int)
    requires
        0 <= i <= a.len(),
        i <= b.len(),
        forall|j: int| 0 <= j < i ==> a[j] == b[j],
    ensures
        keys_lt(a, b) == keys_lt(a.skip(i), b.skip(i)),
    decreases i,
{
    if i > 0 {
        lemma_keys_lt_skip(a.drop_first(), b.drop_first(), i - 1);
        assert(a.drop_first().skip(i - 1) =~= a.skip(i));
        assert(b.drop_first().skip(i - 1) =~= b.skip(i));
    } else {
        assert(a.skip(0) =~= a);
        assert(b.skip(0) =~= b);
    }
}

fn compare_key(a: &ExecKey, b: &ExecKey) -> (r: TextOrder)
    ensures
        r == TextOrder::Equal <==> a@ == b@,
        r == TextOrder::Less <==> key_lt(a@, b@),
        r == TextOrder::Greater <==> key_lt(b@, a@),
{
    match (a, b) {
        (ExecKey::Num(x), ExecKey::Num(y)) => {
            if *x < *y {
                TextOrder::Less
            } else if *x == *y {
                TextOrder::Equal
            } else {
                TextOrder::Greater
            }
        },
        (ExecKey::Text(x), ExecKey::Text(y)) => {
            let r = compare_text(x.as_str(), y.as_str());
            proof {
                lemma_text_lt_irreflexive(x@);
                if text_lt(x@, y@) {
                    if text_lt(y@, x@) {
                        lemma_text_lt_transitive(x@, y@, x@);
                    }
                }
            }
            r
        },
        (ExecKey::Num(_), ExecKey::Text(_)) => TextOrder::Less,
        (ExecKey::Text(_), ExecKey::Num(_)) => TextOrder::Greater,
    }
}

/// Compares two key sequences lexicographically.
pub fn compare_keys(a: &Vec<ExecKey>, b: &Vec<ExecKey>) -> (r: TextOrder)
    ensures
        r == keys_order(key_views(a@), key_views(b@)),
        r == TextOrder::Greater ==> keys_lt(key_views(b@), key_views(a@)),
{
    let ghost x = key_views(a@);
    let ghost y = key_views(b@);
    let mut i: usize = 0;
    while i < a.len() && i < b.len()
        invariant
            i <= a.len(),
            i <= b.len(),
            x == key_views(a@),
            y == key_views(b@),
            forall|j: int| 0 <= j < i ==> x[j] == y[j],
        decreases a.len() - i,
    {
        let c = compare_key(&a[i], &b[i]);
        if c != TextOrder::Equal {
            proof {
                lemma_keys_lt_skip(x, y, i as int);
                lemma_keys_lt_total(x, y);
                assert(x.skip(i as int)[0] == x[i as int]);
                assert(y.skip(i as int)[0] == y[i as int]);
                assert(x != y) by {
                    assert(x[i as int] != y[i as int]);
                }
                lemma_key_lt_irreflexive(x[i as int]);
                if key_lt(x[i as int], y[i as int]) && key_lt(y[i as int], x[i as int]) {
                    lemma_key_lt_transitive(x[i as int], y[i as int], x[i as int]);
                }
            }
            return c;
        }
        i = i + 1;
    }
    proof {
        lemma_keys_lt_skip(x, y, i as int);
        lemma_keys_lt_total(x, y);
        if i == a.len() && i == b.len() {
            assert(x =~= y);
        }
    }
    if a.len() == b.len() {
        TextOrder::Equal
    } else if a.len() < b.len() {
        TextOrder::Less
    } else {
        TextOrder::Greater
    }
}

/// Appends one key component.
pub fn push_key(k: &mut Vec<ExecKey>, x: ExecKey)
    ensures
        key_views(final(k)@) == key_views(old(k)@).push(x@),
{
    let ghost before = k@;
    let ghost xv = x@;
    k.push(x);
    proof {
        assert(key_views(k@) =~= key_views(before).push(xv));
    }
}

/// A record type with a sort key that follows its field order.
pub trait Keyed {
    spec fn key_spec(&self) -> Seq<SortKey>;

    fn sort_key(&self) -> (k: Vec<ExecKey>)
        ensures
            key_views(k@) == self.key_spec(),
    ;
}

/// Ascending by key, repeats allowed.
pub open spec fn sorted_by_key<T: Keyed>(v: Seq<T>) -> bool {
    forall|i: int, j: int| 0 <= i < j < v.len() ==> !keys_lt(#[trigger] v[j].key_spec(), #[trigger] v[i].key_spec())
}

/// Strictly ascending by key.
pub open spec fn strictly_sorted_by_key<T: Keyed>(v: Seq<T>) -> bool {
    forall|i: int, j: int| 0 <= i < j < v.len() ==> keys_lt(#[trigger] v[i].key_spec(), #[trigger] v[j].key_spec())
}

/// Compares two records by key.
pub fn compare_keyed<T: Keyed>(a: &T, b: &T) -> (r: TextOrder)
    ensures
        r == keys_order(a.key_spec(), b.key_spec()),
        r == TextOrder::Greater ==> keys_lt(b.key_spec(), a.key_spec()),
{
    let ka = a.sort_key();
    let kb = b.sort_key();
    compare_keys(&ka, &kb)
}

/// Inserts `x` after every element whose key is not above it, which keeps a
/// sorted list sorted and places `x` after its equals (a stable insertion).
pub fn insert_stable<T: Keyed>(v: &mut Vec<T>, x: T)
    requires
        sorted_by_key(old(v)@),
    ensures
        sorted_by_key(final(v)@),
        exists|pos: int| 0 <= pos <= old(v)@.len() && final(v)@ == old(v)@.insert(pos, x)
            && (forall|j: int| 0 <= j < pos ==> !keys_lt(x.key_spec(), #[trigger] old(v)@[j].key_spec()))
            && (forall|j: int| pos <= j < old(v)@.len() ==> keys_lt(x.key_spec(), #[trigger] old(v)@[j].key_spec())),
{
    let ghost before = v@;
    let mut pos = v.len();
    while pos > 0
        invariant
            pos <= v.len(),
            v@ == before,
            sorted_by_key(before),
            forall|j: int| pos <= j < before.len() ==> keys_lt(x.key_spec(), #[trigger] before[j].key_spec()),
        ensures
            pos <= v.len(),
            v@ == before,
            forall|j: int| pos <= j < before.len() ==> keys_lt(x.key_spec(), #[trigger] before[j].key_spec()),
            forall|j: int| 0 <= j < pos ==> !keys_lt(x.key_spec(), #[trigger] before[j].key_spec()),
        decreases pos,
    {
        if compare_keyed(&x, &v[pos - 1]) != TextOrder::Less {
            proof {
                let p = pos - 1;
                lemma_keys_lt_irreflexive(x.key_spec());
                assert(!keys_lt(x.key_spec(), before[p as int].key_spec()));
                assert forall|j: int| 0 <= j < pos implies !keys_lt(x.key_spec(), #[trigger] before[j].key_spec()) by {
                    if j < p {
                        assert(!keys_lt(before[p as int].key_spec(), before[j].key_spec()));
                        if keys_lt(x.key_spec(), before[j].key_spec()) {
                            lemma_keys_lt_total(before[j].key_spec(), before[p as int].key_spec());
                            if keys_lt(before[j].key_spec(), before[p as int].key_spec()) {
                                lemma_keys_lt_transitive(x.key_spec(), before[j].key_spec(), before[p as int].key_spec());
                            }
                        }
                    }
                }
            }
            break;
        }
        pos = pos - 1;
    }
    let ghost xv = x;
    v.insert(pos, x);
    proof {
        let after = v@;
        assert(after == before.insert(pos as int, xv));
        assert forall|i: int, j: int| 0 <= i < j < after.len() implies !keys_lt(
            #[trigger] after[j].key_spec(),
            #[trigger] after[i].key_spec(),
        ) by {
            if j < pos {
                assert(after[i] == before[i] && after[j] == before[j]);
            } else if j == pos {
                assert(after[i] == before[i]);
            } else if i < pos {
                assert(after[i] == before[i] && after[j] == before[j - 1]);
                assert(!keys_lt(before[j - 1].key_spec(), before[i].key_spec())) by {
                    if i < j - 1 {
                    } else {
                        lemma_keys_lt_irreflexive(before[i].key_spec());
                    }
                }
            } else if i == pos {
                assert(after[j] == before[j - 1]);
                lemma_keys_lt_asymmetric(xv.key_spec(), before[j - 1].key_spec());
            } else {
                assert(after[i] == before[i - 1] && after[j] == before[j - 1]);
            }
        }
    }
}

/// No earlier element of `s` shares element `i`'s key.
pub open spec fn first_with_key<T: Keyed>(s: Seq<T>, i: int) -> bool {
    forall|j: int| 0 <= j < i ==> (#[trigger] s[j]).key_spec() != s[i].key_spec()
}

/// Some element of `s` has key `k`.
pub open spec fn has_key<T: Keyed>(s: Seq<T>, k: Seq<SortKey>) -> bool {
    exists|j: int| 0 <= j < s.len() && (#[trigger] s[j]).key_spec() == k
}

/// Inserts `x` at its place in a strictly ascending list unless an element
/// with its key is already there; returns where it went.
pub fn insert_unique_keyed<T: Keyed>(v: &mut Vec<T>, x: T) -> (r: Option<usize>)
    requires
        strictly_sorted_by_key(old(v)@),
    ensures
        strictly_sorted_by_key(final(v)@),
        r is None <==> has_key(old(v)@, x.key_spec()),
        r is None ==> final(v)@ == old(v)@,
        r matches Some(pos) ==> pos <= old(v)@.len() && final(v)@ == old(v)@.insert(pos as int, x),
{
    let ghost s = v@;
    let ghost kx = x.key_spec();
    let mut i: usize = 0;
    while i < v.len()
        invariant
            i <= v.len(),
            s == v@,
            strictly_sorted_by_key(s),
            kx == x.key_spec(),
            forall|j: int| 0 <= j < i ==> keys_lt(#[trigger] s[j].key_spec(), kx),
        ensures
            i <= v.len(),
            s == v@,
            forall|j: int| 0 <= j < i ==> keys_lt(#[trigger] s[j].key_spec(), kx),
            i < v.len() ==> !keys_lt(s[i as int].key_spec(), kx),
        decreases v.len() - i,
    {
        if compare_keyed(&v[i], &x) != TextOrder::Less {
            proof {
                lemma_keys_lt_irreflexive(kx);
            }
            break;
        }
        i = i + 1;
    }
    if i < v.len() && compare_keyed(&v[i], &x) == TextOrder::Equal {
        proof {
            assert(s[i as int].key_spec() == kx);
        }
        return None;
    }
    proof {
        if i < s.len() {
            lemma_keys_lt_total(s[i as int].key_spec(), kx);
        }
        assert forall|j: int| i <= j < s.len() implies keys_lt(kx, #[trigger] s[j].key_spec()) by {
            if j > i {
                lemma_keys_lt_transitive(kx, s[i as int].key_spec(), s[j].key_spec());
            }
        }
        assert(!has_key(s, kx)) by {
            if has_key(s, kx) {
                let j = choose|j: int| 0 <= j < s.len() && (#[trigger] s[j]).key_spec() == kx;
                lemma_keys_lt_irreflexive(kx);
            }
        }
    }
    let ghost xv = x;
    v.insert(i, x);
    proof {
        let t = v@;
        assert(t == s.insert(i as int, xv));
        assert forall|a: int, b: int| 0 <= a < b < t.len() implies keys_lt(
            #[trigger] t[a].key_spec(),
            #[trigger] t[b].key_spec(),
        ) by {
            if b < i {
                assert(t[a] == s[a] && t[b] == s[b]);
            } else if b == i {
                assert(t[a] == s[a]);
            } else if a < i {
                assert(t[a] == s[a] && t[b] == s[b - 1]);
                lemma_keys_lt_transitive(s[a].key_spec(), kx, s[b - 1].key_spec());
            } else if a == i {
                assert(t[b] == s[b - 1]);
            } else {
                assert(t[a] == s[a - 1] && t[b] == s[b - 1]);
            }
        }
    }
    Some(i)
}

/// Every element of `out` is the first element of `source[..bound]` with
/// its key.
pub open spec fn drawn_first<T: Keyed>(out: Seq<T>, source: Seq<T>, bound: int) -> bool {
    forall|t: int|
        #![trigger out[t]]
        0 <= t < out.len() ==> exists|i: int|
            #![trigger source[i]]
            0 <= i < bound && out[t] == source[i] && first_with_key(source, i)
}

/// Orders `input` by key, keeping of each key only its first element: the
/// result of a stable sort followed by dropping adjacent repeats.
pub fn dedup_by_key<T: Keyed>(input: Vec<T>) -> (out: Vec<T>)
    ensures
        strictly_sorted_by_key(out@),
        drawn_first(out@, input@, input@.len() as int),
        forall|i: int| 0 <= i < input@.len() ==> has_key(out@, (#[trigger] input@[i]).key_spec()),
{
    let ghost source = input@;
    let mut rest = input;
    let mut out: Vec<T> = Vec::new();
    while rest.len() > 0
        invariant
            rest@.len() <= source.len(),
            rest@ == source.skip(source.len() - rest@.len()),
            strictly_sorted_by_key(out@),
            drawn_first(out@, source, source.len() - rest@.len()),
            forall|i: int| 0 <= i < source.len() - rest@.len() ==> has_key(out@, (#[trigger] source[i]).key_spec()),
        decreases rest.len(),
    {
        let ghost rest_before = rest@;
        let ghost out_before = out@;
        let ghost k = source.len() - rest@.len();
        let x = rest.remove(0);
        proof {
            assert(x == source[k]);
            assert(rest@ =~= source.skip(k + 1));
        }
        let r = insert_unique_keyed(&mut out, x);
        proof {
            match r {
                None => {
                    assert forall|t: int| #![trigger out@[t]] 0 <= t < out@.len() implies exists|i: int|
                #![trigger source[i]]
                        0 <= i < k + 1 && out@[t] == source[i] && first_with_key(
                            source,
                            i,
                        ) by {
                        let i = choose|i: int|
                            #![trigger source[i]]
                            0 <= i < k && out_before[t] == source[i] && first_with_key(
                                source,
                                i,
                            );
                    }
                },
                Some(pos) => {
                    assert(!has_key(out_before, source[k].key_spec()));
                    assert(first_with_key(source, k)) by {
                        assert forall|j: int| 0 <= j < k implies (#[trigger] source[j]).key_spec()
                            != source[k].key_spec() by {
                            assert(has_key(out_before, source[j].key_spec()));
                        }
                    }
                    assert forall|t: int| #![trigger out@[t]] 0 <= t < out@.len() implies exists|i: int|
                #![trigger source[i]]
                        0 <= i < k + 1 && out@[t] == source[i] && first_with_key(
                            source,
                            i,
                        ) by {
                        if t < pos {
                            assert(out@[t] == out_before[t]);
                            let i = choose|i: int|
                                #![trigger source[i]]
                                0 <= i < k && out_before[t] == source[i]
                                    && first_with_key(source, i);
                        } else if t > pos {
                            assert(out@[t] == out_before[t - 1]);
                            let i = choose|i: int|
                                #![trigger source[i]]
                                0 <= i < k && out_before[t - 1] == source[i]
                                    && first_with_key(source, i);
                        } else {
                            assert(out@[t] == source[k]);
                        }
                    }
                    assert forall|i: int| 0 <= i < k implies has_key(
                        out@,
                        (#[trigger] source[i]).key_spec(),
                    ) by {
                        assert(has_key(out_before, source[i].key_spec()));
                        let j = choose|j: int|
                            0 <= j < out_before.len() && (#[trigger] out_before[j]).key_spec()
                                == source[i].key_spec();
                        if j < pos {
                            assert(out@[j] == out_before[j]);
                        } else {
                            assert(out@[j + 1] == out_before[j]);
                        }
                    }
                    assert(out@[pos as int] == source[k]);
                },
            }
            assert(has_key(out@, source[k].key_spec())) by {
                if r is None {
                    let j = choose|j: int|
                        0 <= j < out_before.len() && (#[trigger] out_before[j]).key_spec()
                            == source[k].key_spec();
                    assert(out@[j] == out_before[j]);
                } else {
                    let pos = r->0;
                    assert(out@[pos as int] == source[k]);
                }
            }
        }
    }
    proof {
        assert(rest@.len() == 0);
        assert(drawn_first(out@, source, source.len() - rest@.len()));
    }
    out
}

} // verus!
