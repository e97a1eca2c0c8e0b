//! Def-paths such as `crate::a::b`, read as `::`-separated segments.
//!
//! The segment reading is the one `str::split("::")` gives: the text is cut
//! at the leftmost `::`, then again in what follows, and so on. The common
//! ancestor of two def-paths is the longest run of leading segments the two
//! share, joined back with `::`.

use vstd::prelude::*;
use crate::text::{chars_of, chars_eq, chars_start_with, concat_chars, copy_range, starts_with, string_from_chars};

verus! {

/// A `::` separator starts at position `i` of `s`.
pub open spec fn sep_at(s: Seq<char>, i: int) -> bool {
    0 <= i && i + 1 < s.len() && s[i] == ':' && s[i + 1] == ':'
}

/// The position of the first separator at or after `from`, or -1.
pub open spec fn first_sep_from(s: Seq<char>, from: int) -> int
    decreases s.len() - from,
{
    if from < 0 || from + 1 >= s.len() {
        -1
    } else if sep_at(s, from) {
        from
    } else {
        first_sep_from(s, from + 1)
    }
}

pub open spec fn first_sep(s: Seq<char>) -> int {
    first_sep_from(s, 0)
}

/// The segments of `s`, as `s.split("::")` yields them.
pub open spec fn segments(s: Seq<char>) -> Seq<Seq<char>>
    decreases s.len(),
{
    let i = first_sep(s);
    if 0 <= i && i + 2 <= s.len() {
        seq![s.take(i)] + segments(s.skip(i + 2))
    } else {
        seq![s]
    }
}

/// The segments of `p` joined with `::`, as `join("::")` writes them.
pub open spec fn join_segments(p: Seq<Seq<char>>) -> Seq<char>
    decreases p.len(),
{
    if p.len() == 0 {
        Seq::empty()
    } else if p.len() == 1 {
        p[0]
    } else {
        p[0] + seq![':', ':'] + join_segments(p.drop_first())
    }
}

/// The longest common prefix of two sequences.
pub open spec fn common_prefix<A>(a: Seq<A>, b: Seq<A>) -> Seq<A>
    decreases a.len(),
{
    if a.len() == 0 || b.len() == 0 || a[0] != b[0] {
        Seq::empty()
    } else {
        seq![a[0]] + common_prefix(a.drop_first(), b.drop_first())
    }
}

/// The def-path made of the leading segments `left` and `right` share.
pub open spec fn common_ancestor(left: Seq<char>, right: Seq<char>) -> Seq<char> {
    join_segments(common_prefix(segments(left), segments(right)))
}

/// `caller` is `scope` or lies inside it.
pub open spec fn is_descendant(caller: Seq<char>, scope: Seq<char>) -> bool {
    caller == scope || (starts_with(caller, scope) && sep_at(caller, scope.len() as int))
}

pub open spec fn crate_text() -> Seq<char> {
    seq!['c', 'r', 'a', 't', 'e']
}

// ---------------------------------------------------------------------------
// Lemmas about separators and segments.

pub proof fn lemma_first_sep_from(s: Seq<char>, from: int)
    requires
        from >= 0,
    ensures
        ({
            let i = first_sep_from(s, from);
            (i == -1 && forall|j: int| from <= j ==> !#[trigger] sep_at(s, j)) || (from <= i
                && sep_at(s, i) && forall|j: int| from <= j < i ==> !#[trigger] sep_at(s, j))
        }),
    decreases s.len() - from,
{
    if from + 1 >= s.len() {
    } else if sep_at(s, from) {
    } else {
        lemma_first_sep_from(s, from + 1);
    }
}

/// The first separator is characterized by where it is and that none precedes it.
pub proof fn lemma_first_sep_is(s: Seq<char>, i: int)
    requires
        i == -1 ==> forall|j: int| 0 <= j ==> !#[trigger] sep_at(s, j),
        i != -1 ==> 0 <= i && sep_at(s, i) && forall|j: int| 0 <= j < i ==> !#[trigger] sep_at(s, j),
    ensures
        first_sep(s) == i,
{
    lemma_first_sep_from(s, 0);
    let f = first_sep(s);
    if f != -1 && i != -1 {
        if f < i {
            assert(sep_at(s, f));
        } else if i < f {
            assert(sep_at(s, i));
        }
    } else if f != -1 {
        assert(sep_at(s, f));
    } else if i != -1 {
        assert(sep_at(s, i));
    }
}

pub proof fn lemma_segments_nonempty(s: Seq<char>)
    ensures
        segments(s).len() >= 1,
    decreases s.len(),
{
}

/// Joining the segments of a path gives the path back.
pub proof fn lemma_join_segments(s: Seq<char>)
    ensures
        join_segments(segments(s)) == s,
    decreases s.len(),
{
    let i = first_sep(s);
    lemma_first_sep_from(s, 0);
    if 0 <= i && i + 2 <= s.len() {
        let rest = s.skip(i + 2);
        lemma_join_segments(rest);
        lemma_segments_nonempty(rest);
        let p = segments(s);
        assert(p == seq![s.take(i)] + segments(rest));
        assert(p.drop_first() =~= segments(rest));
        assert(p.len() >= 2);
        assert(join_segments(p) == p[0] + seq![':', ':'] + join_segments(p.drop_first()));
        assert(s =~= s.take(i) + seq![':', ':'] + rest);
    }
}

/// Re-reading the join of any leading run of a path's segments gives the run back.
pub proof fn lemma_segments_of_prefix(s: Seq<char>, k: int)
    requires
        1 <= k <= segments(s).len(),
    ensures
        segments(join_segments(segments(s).take(k))) == segments(s).take(k),
    decreases s.len(),
{
    let i = first_sep(s);
    lemma_first_sep_from(s, 0);
    let p = segments(s);
    if 0 <= i && i + 2 <= s.len() {
        let rest = s.skip(i + 2);
        let r = segments(rest);
        lemma_segments_nonempty(rest);
        assert(p == seq![s.take(i)] + r);
        let head = s.take(i);
        if k == 1 {
            assert(p.take(1) =~= seq![head]);
            assert(join_segments(p.take(1)) == head);
            assert forall|j: int| 0 <= j implies !#[trigger] sep_at(head, j) by {
                if sep_at(head, j) {
                    assert(sep_at(s, j));
                }
            }
            lemma_first_sep_is(head, -1);
            assert(segments(head) == seq![head]);
        } else {
            lemma_segments_of_prefix(rest, k - 1);
            let tail = join_segments(r.take(k - 1));
            let pk = p.take(k);
            assert(pk =~= seq![head] + r.take(k - 1));
            assert(pk.len() >= 2);
            assert(pk.drop_first() =~= r.take(k - 1));
            let t = join_segments(pk);
            assert(t == head + seq![':', ':'] + tail);
            assert(t.take(i) =~= head);
            assert(t.skip(i + 2) =~= tail);
            assert(sep_at(t, i));
            assert forall|j: int| 0 <= j < i implies !#[trigger] sep_at(t, j) by {
                if sep_at(t, j) {
                    assert(t[j] == s[j]);
                    assert(t[j + 1] == s[j + 1]);
                    assert(sep_at(s, j));
                }
            }
            lemma_first_sep_is(t, i);
            assert(segments(t) == seq![t.take(i)] + segments(t.skip(i + 2)));
            assert(segments(t) =~= pk);
        }
    } else {
        assert(p == seq![s]);
        assert(p.take(1) =~= p);
    }
}

pub proof fn lemma_common_prefix_is_prefix<A>(a: Seq<A>, b: Seq<A>)
    ensures
        common_prefix(a, b).len() <= a.len(),
        common_prefix(a, b).len() <= b.len(),
        common_prefix(a, b) == a.take(common_prefix(a, b).len() as int),
        common_prefix(a, b) == b.take(common_prefix(a, b).len() as int),
    decreases a.len(),
{
    if a.len() == 0 || b.len() == 0 || a[0] != b[0] {
        assert(a.take(0) =~= Seq::<A>::empty());
        assert(b.take(0) =~= Seq::<A>::empty());
    } else {
        lemma_common_prefix_is_prefix(a.drop_first(), b.drop_first());
        let c = common_prefix(a, b);
        assert(c =~= a.take(c.len() as int));
        assert(c =~= b.take(c.len() as int));
    }
}

/// Characterizes the common prefix by its length.
pub proof fn lemma_common_prefix_len<A>(a: Seq<A>, b: Seq<A>, n: int)
    requires
        0 <= n <= a.len(),
        n <= b.len(),
        forall|j: int| 0 <= j < n ==> a[j] == b[j],
        n == a.len() || n == b.len() || a[n] != b[n],
    ensures
        common_prefix(a, b) == a.take(n),
    decreases a.len(),
{
    if a.len() == 0 || b.len() == 0 || a[0] != b[0] {
        assert(a.take(n) =~= Seq::<A>::empty());
    } else {
        assert forall|j: int| 0 <= j < n - 1 implies a.drop_first()[j] == b.drop_first()[j] by {
            assert(a[j + 1] == b[j + 1]);
        }
        lemma_common_prefix_len(a.drop_first(), b.drop_first(), n - 1);
        assert(common_prefix(a, b) =~= a.take(n));
    }
}

pub proof fn lemma_common_prefix_commutes<A>(a: Seq<A>, b: Seq<A>)
    ensures
        common_prefix(a, b) == common_prefix(b, a),
    decreases a.len(),
{
    if a.len() == 0 || b.len() == 0 || a[0] != b[0] {
    } else {
        lemma_common_prefix_commutes(a.drop_first(), b.drop_first());
    }
}

pub proof fn lemma_common_prefix_self<A>(a: Seq<A>)
    ensures
        common_prefix(a, a) == a,
    decreases a.len(),
{
    if a.len() > 0 {
        lemma_common_prefix_self(a.drop_first());
        assert(a =~= seq![a[0]] + a.drop_first());
    }
}

pub proof fn lemma_common_prefix_associates<A>(a: Seq<A>, b: Seq<A>, c: Seq<A>)
    ensures
        common_prefix(common_prefix(a, b), c) == common_prefix(a, common_prefix(b, c)),
    decreases a.len(),
{
    let ab = common_prefix(a, b);
    let bc = common_prefix(b, c);
    if a.len() == 0 || b.len() == 0 || a[0] != b[0] {
        if b.len() > 0 && c.len() > 0 && b[0] == c[0] {
            assert(bc[0] == b[0]);
        }
    } else if c.len() == 0 || b[0] != c[0] {
        assert(ab[0] == a[0]);
    } else {
        lemma_common_prefix_associates(a.drop_first(), b.drop_first(), c.drop_first());
        assert(ab.drop_first() =~= common_prefix(a.drop_first(), b.drop_first()));
        assert(bc.drop_first() =~= common_prefix(b.drop_first(), c.drop_first()));
    }
}

pub proof fn lemma_segments_of_empty()
    ensures
        segments(Seq::<char>::empty()) == seq![Seq::<char>::empty()],
{
    lemma_first_sep_is(Seq::<char>::empty(), -1);
}

pub proof fn lemma_segments_of_crate()
    ensures
        segments(crate_text()) == seq![crate_text()],
{
    let s = crate_text();
    assert forall|j: int| 0 <= j implies !#[trigger] sep_at(s, j) by {
        if 0 <= j && j + 1 < s.len() {
            assert(s[j] != ':');
        }
    }
    lemma_first_sep_is(s, -1);
}

// ---------------------------------------------------------------------------
// Executable operations.

pub open spec fn views(v: Seq<Vec<char>>) -> Seq<Seq<char>> {
    v.map_values(|x: Vec<char>| x@)
}

proof fn lemma_views_push(v: Seq<Vec<char>>, x: Vec<char>)
    ensures
        views(v.push(x)) == views(v).push(x@),
{
    assert(views(v.push(x)) =~= views(v).push(x@));
}

/// Splits a def-path into its segments.
pub fn split_segments(s: &Vec<char>) -> (out: Vec<Vec<char>>)
    ensures
        views(out@) == segments(s@),
{
    let mut out: Vec<Vec<char>> = Vec::new();
    let mut from: usize = 0;
    assert(s@.skip(0) =~= s@);
    assert(views(out@) =~= Seq::<Seq<char>>::empty());
    loop
        invariant
            from <= s.len(),
            segments(s@) == views(out@) + segments(s@.skip(from as int)),
        decreases s.len() - from,
    {
        let ghost rest = s@.skip(from as int);
        let mut j = from;
        let mut found = false;
        while j < s.len() && j + 1 < s.len()
            invariant_except_break
                !found,
            invariant
                from <= j <= s.len(),
                rest == s@.skip(from as int),
                forall|k: int| 0 <= k < j - from ==> !#[trigger] sep_at(rest, k),
            ensures
                found ==> j + 1 < s.len() && s@[j as int] == ':' && s@[j + 1] == ':',
                !found ==> j + 1 >= s.len(),
            decreases s.len() - j,
        {
            if s[j] == ':' && s[j + 1] == ':' {
                found = true;
                break;
            }
            assert(!sep_at(rest, j - from));
            j = j + 1;
        }
        if found {
            assert(sep_at(rest, j - from));
            proof {
                lemma_first_sep_is(rest, j - from);
            }
            let seg = copy_range(s, from, j);
            assert(seg@ =~= rest.take(j - from));
            assert(rest.skip(j - from + 2) =~= s@.skip(j + 2));
            proof {
                lemma_views_push(out@, seg);
            }
            out.push(seg);
            from = j + 2;
        } else {
            assert forall|k: int| 0 <= k implies !#[trigger] sep_at(rest, k) by {
                if 0 <= k && k + 1 < rest.len() {
                    assert(k < j - from);
                }
            }
            proof {
                lemma_first_sep_is(rest, -1);
            }
            let seg = copy_range(s, from, s.len());
            assert(seg@ =~= rest);
            proof {
                lemma_views_push(out@, seg);
            }
            out.push(seg);
            assert(views(out@) =~= segments(s@));
            return out;
        }
    }
}

/// Joins segments with `::`.
pub fn join_with_separator(p: &Vec<Vec<char>>, n: usize) -> (out: Vec<char>)
    requires
        n <= p.len(),
    ensures
        out@ == join_segments(views(p@).take(n as int)),
{
    if n == 0 {
        return Vec::new();
    }
    // Build from the back: join(take(n)) relates to join(take(n - 1)).
    let mut out = copy_range(&p[0], 0, p[0].len());
    assert(out@ =~= p@[0]@);
    let mut k: usize = 1;
    proof {
        assert(views(p@).take(1) =~= seq![p@[0]@]);
    }
    while k < n
        invariant
            1 <= k <= n <= p.len(),
            out@ == join_segments(views(p@).take(k as int)),
        decreases n - k,
    {
        let mut sep: Vec<char> = Vec::new();
        sep.push(':');
        sep.push(':');
        let with_sep = concat_chars(&out, &sep);
        out = concat_chars(&with_sep, &p[k]);
        proof {
            lemma_join_push(views(p@).take(k as int), p@[k as int]@);
            assert(views(p@).take(k + 1) =~= views(p@).take(k as int).push(p@[k as int]@));
        }
        k = k + 1;
    }
    out
}

pub proof fn lemma_join_push(p: Seq<Seq<char>>, x: Seq<char>)
    requires
        p.len() >= 1,
    ensures
        join_segments(p.push(x)) == join_segments(p) + seq![':', ':'] + x,
    decreases p.len(),
{
    let q = p.push(x);
    if p.len() == 1 {
        assert(q.drop_first() =~= seq![x]);
        assert(join_segments(q.drop_first()) == x);
    } else {
        lemma_join_push(p.drop_first(), x);
        assert(q.drop_first() =~= p.drop_first().push(x));
    }
}

/// The longest run of leading segments two def-paths share, joined with `::`.
///
/// `crate::a::b` and `crate::a::c` share `crate::a`; `crate::a` and `other`
/// share nothing, which is the empty string.
pub fn common_def_path_ancestor(left: &str, right: &str) -> (out: String)
    ensures
        out@ == common_ancestor(left@, right@),
{
    let l = chars_of(left);
    let r = chars_of(right);
    let ls = split_segments(&l);
    let rs = split_segments(&r);
    let mut n: usize = 0;
    while n < ls.len() && n < rs.len()
        invariant
            n <= ls.len(),
            n <= rs.len(),
            forall|j: int| 0 <= j < n ==> views(ls@)[j] == views(rs@)[j],
        ensures
            n == ls.len() || n == rs.len() || views(ls@)[n as int] != views(rs@)[n as int],
        decreases ls.len() - n,
    {
        if !chars_eq(&ls[n], &rs[n]) {
            break;
        }
        n = n + 1;
    }
    proof {
        lemma_common_prefix_len(views(ls@), views(rs@), n as int);
    }
    let joined = join_with_separator(&ls, n);
    string_from_chars(&joined)
}

/// Whether `caller` names `scope` itself or a module nested inside it.
pub fn def_path_is_descendant(caller: &str, scope: &str) -> (r: bool)
    ensures
        r == is_descendant(caller@, scope@),
{
    let c = chars_of(caller);
    let s = chars_of(scope);
    if chars_eq(&c, &s) {
        return true;
    }
    if !chars_start_with(&c, &s) {
        return false;
    }
    let n = s.len();
    n < c.len() && n + 1 < c.len() && c[n] == ':' && c[n + 1] == ':'
}

/// A def-path lies in a scope exactly when it is the scope itself, or the
/// scope's text followed by `::` and the rest of the path.
pub proof fn lemma_descendant_is_scope_or_below(caller: Seq<char>, scope: Seq<char>)
    ensures
        is_descendant(caller, scope) <==> (caller == scope || exists|rest: Seq<char>|
            caller == scope + seq![':', ':'] + rest),
{
    let n = scope.len() as int;
    if is_descendant(caller, scope) && caller != scope {
        let rest = caller.skip(n + 2);
        assert(caller =~= scope + seq![':', ':'] + rest) by {
            assert(caller.take(n) == scope);
            assert forall|k: int| 0 <= k < caller.len() implies caller[k] == (scope + seq![':', ':']
                + rest)[k] by {
                if k < n {
                    assert(caller.take(n)[k] == caller[k]);
                }
            }
        }
    }
    if caller != scope && exists|rest: Seq<char>| caller == scope + seq![':', ':'] + rest {
        let rest = choose|rest: Seq<char>| caller == scope + seq![':', ':'] + rest;
        assert(caller.take(n) =~= scope);
        assert(caller[n] == ':' && caller[n + 1] == ':');
    }
}

/// A def-path that only shares the scope's text as a prefix, with no `::`
/// right after it (`crate::module_extra` against `crate::module`), lies
/// outside the scope.
pub proof fn lemma_shared_text_is_not_nesting(caller: Seq<char>, scope: Seq<char>)
    requires
        scope.len() < caller.len(),
        caller.take(scope.len() as int) == scope,
        caller[scope.len() as int] != ':',
    ensures
        !is_descendant(caller, scope),
{
    lemma_descendant_is_scope_or_below(caller, scope);
    if exists|rest: Seq<char>| caller == scope + seq![':', ':'] + rest {
        let rest = choose|rest: Seq<char>| caller == scope + seq![':', ':'] + rest;
        assert(caller[scope.len() as int] == (scope + seq![':', ':'] + rest)[scope.len() as int]);
    }
}

/// Every def-path lies in itself, and a scope's nested modules lie in it.
pub proof fn lemma_nested_paths_lie_inside(scope: Seq<char>, rest: Seq<char>)
    ensures
        is_descendant(scope, scope),
        is_descendant(scope + seq![':', ':'] + rest, scope),
{
    lemma_descendant_is_scope_or_below(scope + seq![':', ':'] + rest, scope);
}

} // verus!
