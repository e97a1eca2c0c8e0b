//! Resolving the paths a source file writes against the module it is in,
//! and deciding which of a parent facade's exported names such a path names.
//!
//! A path is a list of segments. Its first segment anchors it: `crate`
//! starts at the crate root, `self` at the current module, each leading
//! `super` one module further up, and any other name may resolve against
//! every ancestor of the current module.

use vstd::prelude::*;
use crate::ordered::{TextOrder, compare_text, texts};
use crate::text::{chars_of, copy_range, string_from_chars};

verus! {

/// What the first segment of a path anchors it to.
#[derive(Debug, Clone, Copy, PartialEq, Eq, Structural)]
pub enum PathAnchor {
    Crate,
    SelfMod,
    Super,
    SelfType,
    Name,
}

/// Whether a path starts at the crate root.
#[derive(Debug, Clone, Copy, PartialEq, Eq, Structural)]
pub enum PathOrigin {
    Relative,
    Crate,
}

/// The anchor a segment spells: the path keywords `crate`, `self`, `super`
/// and `Self`, or a plain name.
pub open spec fn anchor_of(segment: Seq<char>) -> PathAnchor {
    if segment == "crate"@ {
        PathAnchor::Crate
    } else if segment == "self"@ {
        PathAnchor::SelfMod
    } else if segment == "super"@ {
        PathAnchor::Super
    } else if segment == "Self"@ {
        PathAnchor::SelfType
    } else {
        PathAnchor::Name
    }
}

/// The anchor a segment spells.
pub fn path_anchor(segment: &str) -> (a: PathAnchor)
    ensures
        a == anchor_of(segment@),
{
    proof {
        reveal_strlit("crate");
        reveal_strlit("self");
        reveal_strlit("super");
        reveal_strlit("Self");
    }
    if compare_text(segment, "crate") == TextOrder::Equal {
        PathAnchor::Crate
    } else if compare_text(segment, "self") == TextOrder::Equal {
        PathAnchor::SelfMod
    } else if compare_text(segment, "super") == TextOrder::Equal {
        PathAnchor::Super
    } else if compare_text(segment, "Self") == TextOrder::Equal {
        PathAnchor::SelfType
    } else {
        PathAnchor::Name
    }
}

/// A path starts at the crate root exactly when its first segment is
/// `crate`.
pub open spec fn origin_of(raw: Seq<Seq<char>>) -> PathOrigin {
    if raw.len() > 0 && anchor_of(raw[0]) == PathAnchor::Crate {
        PathOrigin::Crate
    } else {
        PathOrigin::Relative
    }
}

/// Where a path starts.
pub fn path_origin(raw: &Vec<String>) -> (o: PathOrigin)
    ensures
        o == origin_of(texts(raw@)),
{
    if raw.len() > 0 && path_anchor(raw[0].as_str()) == PathAnchor::Crate {
        PathOrigin::Crate
    } else {
        PathOrigin::Relative
    }
}

/// A name with any raw-identifier `r#` prefix removed, so that `r#type` and
/// `type` compare as the same name.
pub open spec fn normalized(name: Seq<char>) -> Seq<char> {
    if name.len() >= 2 && name[0] == 'r' && name[1] == '#' {
        name.skip(2)
    } else {
        name
    }
}

/// `name` without its `r#` prefix, if it has one.
pub fn normalized_name(name: &str) -> (r: String)
    ensures
        r@ == normalized(name@),
{
    let v = chars_of(name);
    if v.len() >= 2 && v[0] == 'r' && v[1] == '#' {
        let tail = copy_range(&v, 2, v.len());
        proof {
            assert(tail@ =~= v@.skip(2));
        }
        string_from_chars(&tail)
    } else {
        string_from_chars(&v)
    }
}

/// How many `super` segments `raw` starts with, from position `i` on.
pub open spec fn supers_from(raw: Seq<Seq<char>>, i: int) -> int
    decreases raw.len() - i,
{
    if 0 <= i < raw.len() && anchor_of(raw[i]) == PathAnchor::Super {
        supers_from(raw, i + 1)
    } else {
        i
    }
}

/// Where the rest of a `super`-anchored path starts: after its leading
/// `super` segments and one `self` that may follow them.
pub open spec fn after_supers(raw: Seq<Seq<char>>) -> int {
    let n = supers_from(raw, 0);
    if n < raw.len() && anchor_of(raw[n]) == PathAnchor::SelfMod {
        n + 1
    } else {
        n
    }
}

/// Every module-absolute path `raw` can mean when written in module `cur`
/// (both without the leading `crate`).
pub open spec fn resolutions(raw: Seq<Seq<char>>, cur: Seq<Seq<char>>) -> Seq<Seq<Seq<char>>> {
    if raw.len() == 0 {
        Seq::empty()
    } else {
        match anchor_of(raw[0]) {
            PathAnchor::Crate => seq![raw.skip(1)],
            PathAnchor::SelfMod => seq![cur + raw.skip(1)],
            PathAnchor::Super => {
                let n = supers_from(raw, 0);
                if n > cur.len() {
                    Seq::empty()
                } else {
                    seq![cur.take(cur.len() - n) + raw.skip(after_supers(raw))]
                }
            },
            _ => Seq::new((cur.len() + 1) as nat, |p: int| cur.take(p) + raw),
        }
    }
}

/// The resolution of `raw` that has `n` segments, if one has.
pub open spec fn resolution_of_len(
    raw: Seq<Seq<char>>,
    cur: Seq<Seq<char>>,
    n: int,
) -> Option<Seq<Seq<char>>> {
    if raw.len() == 0 {
        None
    } else {
        match anchor_of(raw[0]) {
            PathAnchor::Crate | PathAnchor::SelfMod | PathAnchor::Super => {
                let r = resolutions(raw, cur);
                if r.len() == 1 && r[0].len() == n {
                    Some(r[0])
                } else {
                    None
                }
            },
            _ => {
                if raw.len() <= n <= raw.len() + cur.len() {
                    Some(cur.take(n - raw.len()) + raw)
                } else {
                    None
                }
            },
        }
    }
}

proof fn lemma_supers_from(raw: Seq<Seq<char>>, i: int)
    requires
        0 <= i <= raw.len(),
    ensures
        i <= supers_from(raw, i) <= raw.len(),
        forall|j: int| i <= j < supers_from(raw, i) ==> anchor_of(#[trigger] raw[j]) == PathAnchor::Super,
        supers_from(raw, i) < raw.len() ==> anchor_of(raw[supers_from(raw, i)]) != PathAnchor::Super,
    decreases raw.len() - i,
{
    if i < raw.len() && anchor_of(raw[i]) == PathAnchor::Super {
        lemma_supers_from(raw, i + 1);
    }
}

/// The resolution of a given length is the one resolution with that
/// length: whatever `resolved_path_of_len` finds is among the resolutions,
/// and it finds one whenever a resolution has that length.
pub proof fn lemma_resolution_of_len(raw: Seq<Seq<char>>, cur: Seq<Seq<char>>, n: int)
    ensures
        resolution_of_len(raw, cur, n) matches Some(p) ==> resolutions(raw, cur).contains(p)
            && p.len() == n,
        forall|k: int|
            0 <= k < resolutions(raw, cur).len() && (#[trigger] resolutions(raw, cur)[k]).len() == n
                ==> resolution_of_len(raw, cur, n) == Some(resolutions(raw, cur)[k]),
{
    if raw.len() > 0 {
        let r = resolutions(raw, cur);
        match anchor_of(raw[0]) {
            PathAnchor::Crate | PathAnchor::SelfMod | PathAnchor::Super => {
                if let Some(p) = resolution_of_len(raw, cur, n) {
                    assert(r[0] == p);
                }
            },
            _ => {
                if let Some(p) = resolution_of_len(raw, cur, n) {
                    assert(r[n - raw.len()] == p);
                }
            },
        }
    }
}

pub open spec fn paths_view(v: Seq<Vec<String>>) -> Seq<Seq<Seq<char>>> {
    v.map_values(|p: Vec<String>| texts(p@))
}

/// A copy of `v[lo..hi]`.
pub fn strings_range(v: &Vec<String>, lo: usize, hi: usize) -> (out: Vec<String>)
    requires
        lo <= hi <= v.len(),
    ensures
        texts(out@) == texts(v@).subrange(lo as int, hi as int),
{
    let mut out: Vec<String> = Vec::new();
    let mut i = lo;
    while i < hi
        invariant
            lo <= i <= hi <= v.len(),
            texts(out@) == texts(v@).subrange(lo as int, i as int),
        decreases hi - i,
    {
        let ghost before = out@;
        out.push(v[i].clone());
        proof {
            assert(texts(out@) =~= texts(before).push(v@[i as int]@));
            assert(texts(v@).subrange(lo as int, i + 1) =~= texts(v@).subrange(lo as int, i as int).push(
                v@[i as int]@,
            ));
        }
        i = i + 1;
    }
    out
}

/// Appends a copy of `v[lo..]` to `out`.
fn extend_strings(out: &mut Vec<String>, v: &Vec<String>, lo: usize)
    requires
        lo <= v.len(),
    ensures
        texts(final(out)@) == texts(old(out)@) + texts(v@).skip(lo as int),
{
    let ghost start = texts(out@);
    let mut i = lo;
    while i < v.len()
        invariant
            lo <= i <= v.len(),
            texts(out@) == start + texts(v@).subrange(lo as int, i as int),
        decreases v.len() - i,
    {
        let ghost before = out@;
        out.push(v[i].clone());
        proof {
            assert(texts(out@) =~= texts(before).push(v@[i as int]@));
            assert(texts(v@).subrange(lo as int, i + 1) =~= texts(v@).subrange(lo as int, i as int).push(
                v@[i as int]@,
            ));
        }
        i = i + 1;
    }
    proof {
        assert(texts(v@).subrange(lo as int, v.len() as int) =~= texts(v@).skip(lo as int));
    }
}

/// How many `super` segments `raw` starts with.
fn count_supers(raw: &Vec<String>) -> (n: usize)
    ensures
        n == supers_from(texts(raw@), 0),
{
    let ghost r = texts(raw@);
    let mut i: usize = 0;
    while i < raw.len() && path_anchor(raw[i].as_str()) == PathAnchor::Super
        invariant
            i <= raw.len(),
            r == texts(raw@),
            supers_from(r, i as int) == supers_from(r, 0),
        decreases raw.len() - i,
    {
        proof {
            assert(r[i as int] == raw@[i as int]@);
        }
        i = i + 1;
    }
    proof {
        if i < raw.len() {
            assert(r[i as int] == raw@[i as int]@);
        }
    }
    i
}

/// Every module-absolute path `raw` can mean when written in module
/// `current_module_path`.
pub fn resolve_module_relative_paths(raw: &Vec<String>, current_module_path: &Vec<String>) -> (out:
    Vec<Vec<String>>)
    ensures
        paths_view(out@) == resolutions(texts(raw@), texts(current_module_path@)),
{
    let ghost rs = texts(raw@);
    let ghost cs = texts(current_module_path@);
    let mut out: Vec<Vec<String>> = Vec::new();
    if raw.len() == 0 {
        proof {
            assert(paths_view(out@) =~= resolutions(rs, cs));
        }
        return out;
    }
    proof {
        assert(rs[0] == raw@[0]@);
    }
    match path_anchor(raw[0].as_str()) {
        PathAnchor::Crate => {
            let resolved = strings_range(raw, 1, raw.len());
            out.push(resolved);
            proof {
                assert(rs.subrange(1, rs.len() as int) =~= rs.skip(1));
                assert(paths_view(out@) =~= resolutions(rs, cs));
            }
        },
        PathAnchor::SelfMod => {
            let mut resolved = strings_range(current_module_path, 0, current_module_path.len());
            extend_strings(&mut resolved, raw, 1);
            out.push(resolved);
            proof {
                assert(cs.subrange(0, cs.len() as int) =~= cs);
                assert(paths_view(out@) =~= resolutions(rs, cs));
            }
        },
        PathAnchor::Super => {
            let n = count_supers(raw);
            proof {
                lemma_supers_from(rs, 0);
            }
            if n > current_module_path.len() {
                proof {
                    assert(paths_view(out@) =~= resolutions(rs, cs));
                }
                return out;
            }
            let index = if n < raw.len() && path_anchor(raw[n].as_str()) == PathAnchor::SelfMod {
                n + 1
            } else {
                n
            };
            proof {
                if n < raw.len() {
                    assert(rs[n as int] == raw@[n as int]@);
                }
                assert(index == after_supers(rs));
            }
            let mut resolved = strings_range(
                current_module_path,
                0,
                current_module_path.len() - n,
            );
            extend_strings(&mut resolved, raw, index);
            out.push(resolved);
            proof {
                assert(cs.subrange(0, cs.len() - n) =~= cs.take(cs.len() - n));
                assert(paths_view(out@) =~= resolutions(rs, cs));
            }
        },
        _ => {
            let mut p: usize = 0;
            while p <= current_module_path.len()
                invariant
                    p <= current_module_path.len() + 1,
                    rs == texts(raw@),
                    cs == texts(current_module_path@),
                    paths_view(out@) == Seq::new(p as nat, |q: int| cs.take(q) + rs),
                decreases current_module_path.len() + 1 - p,
            {
                let mut resolved = strings_range(current_module_path, 0, p);
                extend_strings(&mut resolved, raw, 0);
                let ghost before = out@;
                let ghost rv = texts(resolved@);
                out.push(resolved);
                proof {
                    assert(cs.subrange(0, p as int) =~= cs.take(p as int));
                    assert(rs.skip(0) =~= rs);
                    assert(paths_view(out@) =~= paths_view(before).push(rv));
                    assert(paths_view(out@) =~= Seq::new((p + 1) as nat, |q: int| cs.take(q) + rs));
                }
                assert(out.len() == p + 1);
                p = p + 1;
            }
            proof {
                assert(paths_view(out@) =~= resolutions(rs, cs));
            }
        },
    }
    out
}

/// The resolution of `raw` that has `candidate_len` segments, if one has.
pub fn resolved_path_of_len(
    raw: &Vec<String>,
    current_module_path: &Vec<String>,
    candidate_len: usize,
) -> (r: Option<Vec<String>>)
    ensures
        match r {
            Some(p) => resolution_of_len(
                texts(raw@),
                texts(current_module_path@),
                candidate_len as int,
            ) == Some(texts(p@)),
            None => resolution_of_len(
                texts(raw@),
                texts(current_module_path@),
                candidate_len as int,
            ) is None,
        },
{
    let ghost rs = texts(raw@);
    let ghost cs = texts(current_module_path@);
    if raw.len() == 0 {
        return None;
    }
    proof {
        assert(rs[0] == raw@[0]@);
    }
    match path_anchor(raw[0].as_str()) {
        PathAnchor::Crate => {
            if raw.len() - 1 != candidate_len {
                return None;
            }
            let resolved = strings_range(raw, 1, raw.len());
            proof {
                assert(rs.subrange(1, rs.len() as int) =~= rs.skip(1));
            }
            Some(resolved)
        },
        PathAnchor::SelfMod => {
            if current_module_path.len() > candidate_len || candidate_len - current_module_path.len()
                != raw.len() - 1 {
                return None;
            }
            let mut resolved = strings_range(current_module_path, 0, current_module_path.len());
            extend_strings(&mut resolved, raw, 1);
            proof {
                assert(cs.subrange(0, cs.len() as int) =~= cs);
            }
            Some(resolved)
        },
        PathAnchor::Super => {
            let n = count_supers(raw);
            proof {
                lemma_supers_from(rs, 0);
            }
            if n > current_module_path.len() {
                return None;
            }
            let index = if n < raw.len() && path_anchor(raw[n].as_str()) == PathAnchor::SelfMod {
                n + 1
            } else {
                n
            };
            proof {
                if n < raw.len() {
                    assert(rs[n as int] == raw@[n as int]@);
                }
                assert(index == after_supers(rs));
            }
            let retained = current_module_path.len() - n;
            if retained > candidate_len || candidate_len - retained != raw.len() - index {
                return None;
            }
            let mut resolved = strings_range(current_module_path, 0, retained);
            extend_strings(&mut resolved, raw, index);
            proof {
                assert(cs.subrange(0, retained as int) =~= cs.take(retained as int));
            }
            Some(resolved)
        },
        _ => {
            if candidate_len < raw.len() || candidate_len - raw.len() > current_module_path.len() {
                return None;
            }
            let mut resolved = strings_range(current_module_path, 0, candidate_len - raw.len());
            extend_strings(&mut resolved, raw, 0);
            proof {
                assert(cs.subrange(0, candidate_len - raw.len()) =~= cs.take(
                    candidate_len - raw.len(),
                ));
                assert(rs.skip(0) =~= rs);
            }
            Some(resolved)
        },
    }
}

// ---------------------------------------------------------------------
// Matching a path against a facade's exported names.

/// The exported names of one facade, each without its `r#` prefix.
pub struct ExportNameIndex {
    normalized: Vec<String>,
}

impl View for ExportNameIndex {
    type V = Set<Seq<char>>;

    closed spec fn view(&self) -> Set<Seq<char>> {
        texts(self.normalized@).to_set()
    }
}

/// Some path's last segment is a plain name that no export has, so none of
/// its resolutions can name an export.
pub open spec fn could_match(raw: Seq<Seq<char>>, names: Set<Seq<char>>) -> bool {
    raw.len() == 0 || anchor_of(raw.last()) != PathAnchor::Name || names.contains(
        normalized(raw.last()),
    )
}

/// Each segment of `module` is spelled, up to `r#`, by the same position of
/// `c`.
pub open spec fn prefix_matches(c: Seq<Seq<char>>, module: Seq<Seq<char>>) -> bool {
    forall|i: int| 0 <= i < module.len() ==> normalized(#[trigger] c[i]) == normalized(module[i])
}

/// The export a path written in module `cur` names inside module `module`:
/// its resolution one segment longer than `module` must run through
/// `module` and end in an exported name.
pub open spec fn resolved_export(
    raw: Seq<Seq<char>>,
    cur: Seq<Seq<char>>,
    module: Seq<Seq<char>>,
    names: Set<Seq<char>>,
) -> Option<Seq<char>> {
    match resolution_of_len(raw, cur, module.len() + 1int) {
        Some(c) => {
            if prefix_matches(c, module) && names.contains(normalized(c[module.len() as int])) {
                Some(normalized(c[module.len() as int]))
            } else {
                None
            }
        },
        None => None,
    }
}

/// The export `raw` names, rejected early when its last segment rules every
/// match out.
pub open spec fn export_match(
    raw: Seq<Seq<char>>,
    cur: Seq<Seq<char>>,
    module: Seq<Seq<char>>,
    names: Set<Seq<char>>,
) -> Option<Seq<char>> {
    if !could_match(raw, names) {
        None
    } else {
        resolved_export(raw, cur, module, names)
    }
}

/// A resolution ends in the path's own last segment whenever that segment
/// is a plain name.
proof fn lemma_resolution_keeps_last(raw: Seq<Seq<char>>, cur: Seq<Seq<char>>, n: int)
    requires
        raw.len() > 0,
        anchor_of(raw.last()) == PathAnchor::Name,
        resolution_of_len(raw, cur, n) is Some,
    ensures
        resolution_of_len(raw, cur, n)->0.len() > 0,
        resolution_of_len(raw, cur, n)->0.last() == raw.last(),
{
    let c = resolution_of_len(raw, cur, n)->0;
    match anchor_of(raw[0]) {
        PathAnchor::Crate | PathAnchor::SelfMod => {
            assert(raw.len() >= 2);
        },
        PathAnchor::Super => {
            lemma_supers_from(raw, 0);
            let k = supers_from(raw, 0);
            assert(k < raw.len());
            assert(after_supers(raw) < raw.len());
        },
        _ => {},
    }
}

/// Rejecting a path by its last segment never loses a match.
pub proof fn lemma_export_prefilter_sound(
    raw: Seq<Seq<char>>,
    cur: Seq<Seq<char>>,
    module: Seq<Seq<char>>,
    names: Set<Seq<char>>,
)
    ensures
        export_match(raw, cur, module, names) == resolved_export(raw, cur, module, names),
{
    if !could_match(raw, names) {
        if resolution_of_len(raw, cur, module.len() + 1int) is Some {
            lemma_resolution_keeps_last(raw, cur, module.len() + 1int);
            lemma_resolution_of_len(raw, cur, module.len() + 1int);
            let c = resolution_of_len(raw, cur, module.len() + 1int)->0;
            assert(c[module.len() as int] == c.last());
        }
    }
}

impl ExportNameIndex {
    /// Indexes the exported names of one facade.
    pub fn new(exported_names: &Vec<String>) -> (r: Self)
        ensures
            r@ == texts(exported_names@).map_values(|n: Seq<char>| normalized(n)).to_set(),
    {
        let mut normalized_names: Vec<String> = Vec::new();
        let mut i: usize = 0;
        while i < exported_names.len()
            invariant
                i <= exported_names.len(),
                texts(normalized_names@) == texts(exported_names@).take(i as int).map_values(
                    |n: Seq<char>| normalized(n),
                ),
            decreases exported_names.len() - i,
        {
            let name = normalized_name(exported_names[i].as_str());
            let ghost before = normalized_names@;
            let ghost nv = name@;
            normalized_names.push(name);
            proof {
                assert(texts(normalized_names@) =~= texts(before).push(nv));
                assert(texts(exported_names@).take(i + 1) =~= texts(exported_names@).take(i as int).push(
                    exported_names@[i as int]@,
                ));
                assert(texts(exported_names@).take(i + 1).map_values(|n: Seq<char>| normalized(n))
                    =~= texts(exported_names@).take(i as int).map_values(|n: Seq<char>| normalized(n)).push(
                    nv,
                ));
            }
            i = i + 1;
        }
        proof {
            assert(texts(exported_names@).take(i as int) =~= texts(exported_names@));
        }
        ExportNameIndex { normalized: normalized_names }
    }

    /// The exported name `segment` spells, ignoring any `r#` prefix.
    pub fn matching(&self, segment: &str) -> (r: Option<String>)
        ensures
            r is Some <==> self@.contains(normalized(segment@)),
            r matches Some(n) ==> n@ == normalized(segment@),
    {
        let wanted = normalized_name(segment);
        let mut i: usize = 0;
        while i < self.normalized.len()
            invariant
                i <= self.normalized.len(),
                wanted@ == normalized(segment@),
                forall|j: int| 0 <= j < i ==> (#[trigger] self.normalized@[j])@ != wanted@,
            decreases self.normalized.len() - i,
        {
            if compare_text(self.normalized[i].as_str(), wanted.as_str()) == TextOrder::Equal {
                proof {
                    assert(texts(self.normalized@)[i as int] == wanted@);
                    assert(texts(self.normalized@).contains(wanted@));
                }
                return Some(wanted);
            }
            i = i + 1;
        }
        proof {
            if texts(self.normalized@).contains(wanted@) {
                let j = choose|j: int|
                    0 <= j < texts(self.normalized@).len() && texts(self.normalized@)[j] == wanted@;
                assert(self.normalized@[j]@ == wanted@);
            }
        }
        None
    }

    /// Whether some resolution of `raw` could name an export: false only
    /// when its last segment is a plain name no export has.
    pub fn could_match_final_segment(&self, raw: &Vec<String>) -> (b: bool)
        ensures
            b == could_match(texts(raw@), self@),
    {
        if raw.len() == 0 {
            return true;
        }
        let last = &raw[raw.len() - 1];
        proof {
            assert(texts(raw@).last() == last@);
        }
        path_anchor(last.as_str()) != PathAnchor::Name || self.matching(last.as_str()).is_some()
    }
}

/// The exported name `raw`, written in module `current_module_path`, names
/// inside `facade_module`, if any.
pub fn matching_export_name_indexed(
    raw: &Vec<String>,
    current_module_path: &Vec<String>,
    facade_module: &Vec<String>,
    exported_names: &ExportNameIndex,
) -> (r: Option<String>)
    requires
        facade_module.len() < usize::MAX,
    ensures
        option_text_of(r) == export_match(
            texts(raw@),
            texts(current_module_path@),
            texts(facade_module@),
            exported_names@,
        ),
{
    if !exported_names.could_match_final_segment(raw) {
        return None;
    }
    let candidate = match resolved_path_of_len(raw, current_module_path, facade_module.len() + 1) {
        Some(c) => c,
        None => {
            return None;
        },
    };
    let ghost c = texts(candidate@);
    let ghost m = texts(facade_module@);
    proof {
        lemma_resolution_of_len(texts(raw@), texts(current_module_path@), facade_module.len() + 1int);
    }
    let mut i: usize = 0;
    while i < facade_module.len()
        invariant
            i <= facade_module.len(),
            candidate.len() == facade_module.len() + 1int,
            c == texts(candidate@),
            resolution_of_len(texts(raw@), texts(current_module_path@), facade_module.len() + 1int)
                == Some(c),
            could_match(texts(raw@), exported_names@),
            m == texts(facade_module@),
            forall|j: int| 0 <= j < i ==> normalized(#[trigger] c[j]) == normalized(m[j]),
        decreases facade_module.len() - i,
    {
        let source_segment = normalized_name(candidate[i].as_str());
        let compiler_segment = normalized_name(facade_module[i].as_str());
        if compare_text(source_segment.as_str(), compiler_segment.as_str()) != TextOrder::Equal {
            proof {
                assert(c[i as int] == candidate@[i as int]@);
                assert(m[i as int] == facade_module@[i as int]@);
                assert(!prefix_matches(c, m));
            }
            return None;
        }
        proof {
            assert(c[i as int] == candidate@[i as int]@);
            assert(m[i as int] == facade_module@[i as int]@);
        }
        i = i + 1;
    }
    proof {
        assert(c[facade_module.len() as int] == candidate@[facade_module.len() as int]@);
    }
    exported_names.matching(candidate[facade_module.len()].as_str())
}

pub open spec fn option_text_of(o: Option<String>) -> Option<Seq<char>> {
    match o {
        Some(s) => Some(s@),
        None => None,
    }
}

// ---------------------------------------------------------------------
// How a facade's exports are used.

/// How one module refers to an exported name.
#[derive(Debug, Clone, Copy, PartialEq, Eq, Structural)]
pub enum ParentFacadeReferenceUsage {
    Unreferenced,
    Import(PathOrigin),
    DirectPath(PathOrigin),
}

/// How an exported name of a parent facade is used across the crate.
#[derive(Debug, Clone, Copy, PartialEq, Eq, Structural)]
pub enum ParentFacadeUsage {
    Unused,
    UsedInsideSubtreeByRelativeImport,
    UsedInsideSubtreeByRelativePath,
    UsedInsideSubtreeByCrateImport,
    UsedInsideSubtreeByCratePath,
    UsedOutsideSubtree,
}

/// How strongly a reference ties a name to its facade: a relative path
/// outranks a relative import, which outranks a crate path, then a crate
/// import, then no reference.
pub open spec fn reference_rank(u: ParentFacadeReferenceUsage) -> int {
    match u {
        ParentFacadeReferenceUsage::DirectPath(PathOrigin::Relative) => 4,
        ParentFacadeReferenceUsage::Import(PathOrigin::Relative) => 3,
        ParentFacadeReferenceUsage::DirectPath(PathOrigin::Crate) => 2,
        ParentFacadeReferenceUsage::Import(PathOrigin::Crate) => 1,
        ParentFacadeReferenceUsage::Unreferenced => 0,
    }
}

/// How far a use reaches: outside the subtree outranks every use inside it,
/// where a relative path outranks a relative import, then a crate path,
/// then a crate import, then no use.
pub open spec fn usage_rank(u: ParentFacadeUsage) -> int {
    match u {
        ParentFacadeUsage::UsedOutsideSubtree => 5,
        ParentFacadeUsage::UsedInsideSubtreeByRelativePath => 4,
        ParentFacadeUsage::UsedInsideSubtreeByRelativeImport => 3,
        ParentFacadeUsage::UsedInsideSubtreeByCratePath => 2,
        ParentFacadeUsage::UsedInsideSubtreeByCrateImport => 1,
        ParentFacadeUsage::Unused => 0,
    }
}

/// The stronger of two references.
pub open spec fn merge_reference_spec(
    a: ParentFacadeReferenceUsage,
    b: ParentFacadeReferenceUsage,
) -> ParentFacadeReferenceUsage {
    if reference_rank(a) >= reference_rank(b) {
        a
    } else {
        b
    }
}

/// The farther-reaching of two uses.
pub open spec fn merge_usage_spec(a: ParentFacadeUsage, b: ParentFacadeUsage) -> ParentFacadeUsage {
    if usage_rank(a) >= usage_rank(b) {
        a
    } else {
        b
    }
}

/// Combines two references to the same name into the stronger one.
pub fn merge_reference_usage(
    current: ParentFacadeReferenceUsage,
    next: ParentFacadeReferenceUsage,
) -> (r: ParentFacadeReferenceUsage)
    ensures
        r == merge_reference_spec(current, next),
{
    match (current, next) {
        (ParentFacadeReferenceUsage::DirectPath(PathOrigin::Relative), _)
        | (_, ParentFacadeReferenceUsage::DirectPath(PathOrigin::Relative)) => {
            ParentFacadeReferenceUsage::DirectPath(PathOrigin::Relative)
        },
        (ParentFacadeReferenceUsage::Import(PathOrigin::Relative), _)
        | (_, ParentFacadeReferenceUsage::Import(PathOrigin::Relative)) => {
            ParentFacadeReferenceUsage::Import(PathOrigin::Relative)
        },
        (ParentFacadeReferenceUsage::DirectPath(PathOrigin::Crate), _)
        | (_, ParentFacadeReferenceUsage::DirectPath(PathOrigin::Crate)) => {
            ParentFacadeReferenceUsage::DirectPath(PathOrigin::Crate)
        },
        (ParentFacadeReferenceUsage::Import(PathOrigin::Crate), _)
        | (_, ParentFacadeReferenceUsage::Import(PathOrigin::Crate)) => {
            ParentFacadeReferenceUsage::Import(PathOrigin::Crate)
        },
        _ => ParentFacadeReferenceUsage::Unreferenced,
    }
}

/// Combines two uses of the same name into the farther-reaching one.
pub fn merge_parent_facade_usage(current: ParentFacadeUsage, next: ParentFacadeUsage) -> (r:
    ParentFacadeUsage)
    ensures
        r == merge_usage_spec(current, next),
{
    match (current, next) {
        (ParentFacadeUsage::UsedOutsideSubtree, _) | (_, ParentFacadeUsage::UsedOutsideSubtree) => {
            ParentFacadeUsage::UsedOutsideSubtree
        },
        (ParentFacadeUsage::UsedInsideSubtreeByRelativePath, _)
        | (_, ParentFacadeUsage::UsedInsideSubtreeByRelativePath) => {
            ParentFacadeUsage::UsedInsideSubtreeByRelativePath
        },
        (ParentFacadeUsage::UsedInsideSubtreeByRelativeImport, _)
        | (_, ParentFacadeUsage::UsedInsideSubtreeByRelativeImport) => {
            ParentFacadeUsage::UsedInsideSubtreeByRelativeImport
        },
        (ParentFacadeUsage::UsedInsideSubtreeByCratePath, _)
        | (_, ParentFacadeUsage::UsedInsideSubtreeByCratePath) => {
            ParentFacadeUsage::UsedInsideSubtreeByCratePath
        },
        (ParentFacadeUsage::UsedInsideSubtreeByCrateImport, _)
        | (_, ParentFacadeUsage::UsedInsideSubtreeByCrateImport) => {
            ParentFacadeUsage::UsedInsideSubtreeByCrateImport
        },
        _ => ParentFacadeUsage::Unused,
    }
}

/// Merging references is order-blind and absorbs a repeat, and no
/// reference is its unit: the scan can visit paths in any order, and visit
/// one twice, without changing what it reports.
pub proof fn lemma_merge_reference_usage_laws(
    a: ParentFacadeReferenceUsage,
    b: ParentFacadeReferenceUsage,
    c: ParentFacadeReferenceUsage,
)
    ensures
        merge_reference_spec(a, b) == merge_reference_spec(b, a),
        merge_reference_spec(merge_reference_spec(a, b), c) == merge_reference_spec(
            a,
            merge_reference_spec(b, c),
        ),
        merge_reference_spec(a, a) == a,
        merge_reference_spec(ParentFacadeReferenceUsage::Unreferenced, a) == a,
{
}

/// Merging uses is order-blind and absorbs a repeat, and an unused name is
/// its unit.
pub proof fn lemma_merge_parent_facade_usage_laws(
    a: ParentFacadeUsage,
    b: ParentFacadeUsage,
    c: ParentFacadeUsage,
)
    ensures
        merge_usage_spec(a, b) == merge_usage_spec(b, a),
        merge_usage_spec(merge_usage_spec(a, b), c) == merge_usage_spec(a, merge_usage_spec(b, c)),
        merge_usage_spec(a, a) == a,
        merge_usage_spec(ParentFacadeUsage::Unused, a) == a,
{
}

/// The use a module's reference makes of an exported name: any reference
/// from outside the facade's subtree is an outside use; inside it, the kind
/// of reference is kept.
pub open spec fn usage_for_reference_spec(
    r: ParentFacadeReferenceUsage,
    inside_subtree: bool,
) -> ParentFacadeUsage {
    match r {
        ParentFacadeReferenceUsage::Unreferenced => ParentFacadeUsage::Unused,
        _ => if !inside_subtree {
            ParentFacadeUsage::UsedOutsideSubtree
        } else {
            match r {
                ParentFacadeReferenceUsage::Import(PathOrigin::Relative) => {
                    ParentFacadeUsage::UsedInsideSubtreeByRelativeImport
                },
                ParentFacadeReferenceUsage::Import(PathOrigin::Crate) => {
                    ParentFacadeUsage::UsedInsideSubtreeByCrateImport
                },
                ParentFacadeReferenceUsage::DirectPath(PathOrigin::Relative) => {
                    ParentFacadeUsage::UsedInsideSubtreeByRelativePath
                },
                _ => ParentFacadeUsage::UsedInsideSubtreeByCratePath,
            }
        },
    }
}

/// The use one module's reference makes of an exported name.
pub fn usage_for_reference(r: ParentFacadeReferenceUsage, inside_subtree: bool) -> (u:
    ParentFacadeUsage)
    ensures
        u == usage_for_reference_spec(r, inside_subtree),
{
    match r {
        ParentFacadeReferenceUsage::Unreferenced => ParentFacadeUsage::Unused,
        ParentFacadeReferenceUsage::Import(PathOrigin::Relative) => {
            if inside_subtree {
                ParentFacadeUsage::UsedInsideSubtreeByRelativeImport
            } else {
                ParentFacadeUsage::UsedOutsideSubtree
            }
        },
        ParentFacadeReferenceUsage::Import(PathOrigin::Crate) => {
            if inside_subtree {
                ParentFacadeUsage::UsedInsideSubtreeByCrateImport
            } else {
                ParentFacadeUsage::UsedOutsideSubtree
            }
        },
        ParentFacadeReferenceUsage::DirectPath(PathOrigin::Relative) => {
            if inside_subtree {
                ParentFacadeUsage::UsedInsideSubtreeByRelativePath
            } else {
                ParentFacadeUsage::UsedOutsideSubtree
            }
        },
        ParentFacadeReferenceUsage::DirectPath(PathOrigin::Crate) => {
            if inside_subtree {
                ParentFacadeUsage::UsedInsideSubtreeByCratePath
            } else {
                ParentFacadeUsage::UsedOutsideSubtree
            }
        },
    }
}

// ---------------------------------------------------------------------
// Module paths as segment lists.

/// `candidate` is `parent` or lies inside it.
pub open spec fn module_descendant(candidate: Seq<Seq<char>>, parent: Seq<Seq<char>>) -> bool {
    candidate.len() >= parent.len() && candidate.take(parent.len() as int) == parent
}

fn strings_equal_at(a: &Vec<String>, b: &Vec<String>, n: usize) -> (r: bool)
    requires
        n <= a.len(),
        n <= b.len(),
    ensures
        r == (texts(a@).take(n as int) == texts(b@).take(n as int)),
{
    let mut i: usize = 0;
    while i < n
        invariant
            i <= n <= a.len(),
            n <= b.len(),
            forall|j: int| 0 <= j < i ==> a@[j]@ == b@[j]@,
        decreases n - i,
    {
        if compare_text(a[i].as_str(), b[i].as_str()) != TextOrder::Equal {
            proof {
                assert(texts(a@).take(n as int)[i as int] != texts(b@).take(n as int)[i as int]);
            }
            return false;
        }
        i = i + 1;
    }
    proof {
        assert(texts(a@).take(n as int) =~= texts(b@).take(n as int));
    }
    true
}

/// Whether module `candidate` is `parent` or nested inside it.
pub fn module_path_is_descendant(candidate: &Vec<String>, parent: &Vec<String>) -> (r: bool)
    ensures
        r == module_descendant(texts(candidate@), texts(parent@)),
{
    proof {
        assert(texts(parent@).take(parent.len() as int) =~= texts(parent@));
    }
    if candidate.len() < parent.len() {
        return false;
    }
    strings_equal_at(candidate, parent, parent.len())
}

/// The path runs through the child module and then names the item, or
/// globs everything in it.
pub open spec fn mentions_child_item(
    path: Seq<Seq<char>>,
    child: Seq<Seq<char>>,
    item: Seq<char>,
) -> bool {
    path.len() > child.len() && path.take(child.len() as int) == child && (path[child.len() as int]
        == item || path[child.len() as int] == "*"@)
}

/// Whether `path` names `item_name` in the child module, or globs it.
pub fn path_mentions_child_item(path: &Vec<String>, child_module: &Vec<String>, item_name: &str) -> (r:
    bool)
    ensures
        r == mentions_child_item(texts(path@), texts(child_module@), item_name@),
{
    if path.len() <= child_module.len() {
        return false;
    }
    if !strings_equal_at(path, child_module, child_module.len()) {
        proof {
            assert(texts(child_module@).take(child_module.len() as int) =~= texts(child_module@));
        }
        return false;
    }
    proof {
        assert(texts(child_module@).take(child_module.len() as int) =~= texts(child_module@));
        assert(texts(path@)[child_module.len() as int] == path@[child_module.len() as int]@);
        reveal_strlit("*");
    }
    let segment = path[child_module.len()].as_str();
    compare_text(segment, item_name) == TextOrder::Equal || compare_text(segment, "*")
        == TextOrder::Equal
}

/// Some resolution of `path`, written in module `cur`, mentions the item.
pub open spec fn resolution_mentions_child_item(
    path: Seq<Seq<char>>,
    cur: Seq<Seq<char>>,
    child: Seq<Seq<char>>,
    item: Seq<char>,
) -> bool {
    exists|k: int|
        0 <= k < resolutions(path, cur).len() && mentions_child_item(
            #[trigger] resolutions(path, cur)[k],
            child,
            item,
        )
}

/// Whether some resolution of `path` names the item in the child module.
pub fn resolved_path_mentions_child_item(
    path: &Vec<String>,
    current_module_path: &Vec<String>,
    child_module: &Vec<String>,
    item_name: &str,
) -> (r: bool)
    ensures
        r == resolution_mentions_child_item(
            texts(path@),
            texts(current_module_path@),
            texts(child_module@),
            item_name@,
        ),
{
    let resolved = resolve_module_relative_paths(path, current_module_path);
    let ghost rs = resolutions(texts(path@), texts(current_module_path@));
    let mut k: usize = 0;
    while k < resolved.len()
        invariant
            k <= resolved.len(),
            paths_view(resolved@) == rs,
            rs == resolutions(texts(path@), texts(current_module_path@)),
            forall|j: int|
                0 <= j < k ==> !mentions_child_item(
                    #[trigger] rs[j],
                    texts(child_module@),
                    item_name@,
                ),
        decreases resolved.len() - k,
    {
        if path_mentions_child_item(&resolved[k], child_module, item_name) {
            proof {
                assert(rs[k as int] == texts(resolved@[k as int]@));
                assert(mentions_child_item(rs[k as int], texts(child_module@), item_name@));
            }
            return true;
        }
        proof {
            assert(rs[k as int] == texts(resolved@[k as int]@));
        }
        k = k + 1;
    }
    false
}

/// A module-level `use path::to::module as alias`.
pub struct UseRename {
    pub alias: String,
    pub original_path: Vec<String>,
    pub module_suffix: Vec<String>,
}

/// The first rename, if any, that `raw`'s first segment refers to in the
/// inline module `suffix`.
pub open spec fn rename_applies(r: UseRename, first: Seq<char>, suffix: Seq<Seq<char>>) -> bool {
    texts(r.module_suffix@) == suffix && r.alias@ == first
}

/// `raw` with its first segment replaced by the path the first matching
/// rename stands for.
pub open spec fn alias_resolution(
    raw: Seq<Seq<char>>,
    suffix: Seq<Seq<char>>,
    renames: Seq<UseRename>,
) -> Option<Seq<Seq<char>>> {
    if raw.len() == 0 {
        None
    } else if exists|i: int| 0 <= i < renames.len() && rename_applies(#[trigger] renames[i], raw[0], suffix) {
        let i = choose|i: int|
            0 <= i < renames.len() && rename_applies(renames[i], raw[0], suffix) && forall|j: int|
                0 <= j < i ==> !rename_applies(#[trigger] renames[j], raw[0], suffix);
        Some(texts(renames[i].original_path@) + raw.skip(1))
    } else {
        None
    }
}

/// Resolves the first segment of an expression path through the module's
/// `use ... as` renames.
pub fn resolve_alias_expr_path(
    raw: &Vec<String>,
    module_suffix: &Vec<String>,
    renames: &Vec<UseRename>,
) -> (r: Option<Vec<String>>)
    ensures
        match r {
            Some(p) => alias_resolution(texts(raw@), texts(module_suffix@), renames@) == Some(texts(p@)),
            None => alias_resolution(texts(raw@), texts(module_suffix@), renames@) is None,
        },
{
    if raw.len() == 0 {
        return None;
    }
    let ghost first = texts(raw@)[0];
    proof {
        assert(first == raw@[0]@);
    }
    let mut i: usize = 0;
    while i < renames.len()
        invariant
            i <= renames.len(),
            raw.len() > 0,
            first == texts(raw@)[0],
            forall|j: int|
                0 <= j < i ==> !rename_applies(#[trigger] renames@[j], first, texts(module_suffix@)),
        decreases renames.len() - i,
    {
        let rename = &renames[i];
        if rename.module_suffix.len() == module_suffix.len() && strings_equal_at(
            &rename.module_suffix,
            module_suffix,
            module_suffix.len(),
        ) && compare_text(rename.alias.as_str(), raw[0].as_str()) == TextOrder::Equal {
            proof {
                assert(texts(rename.module_suffix@).take(module_suffix.len() as int) =~= texts(
                    rename.module_suffix@,
                ));
                assert(texts(module_suffix@).take(module_suffix.len() as int) =~= texts(
                    module_suffix@,
                ));
                assert(rename_applies(renames@[i as int], first, texts(module_suffix@)));
                let c = choose|c: int|
                    0 <= c < renames@.len() && rename_applies(renames@[c], first, texts(module_suffix@))
                        && forall|j: int|
                        0 <= j < c ==> !rename_applies(#[trigger] renames@[j], first, texts(module_suffix@));
                if c < i {
                } else if c > i {
                    assert(!rename_applies(renames@[i as int], first, texts(module_suffix@)));
                }
            }
            let mut resolved = strings_range(&rename.original_path, 0, rename.original_path.len());
            extend_strings(&mut resolved, raw, 1);
            proof {
                assert(texts(rename.original_path@).subrange(0, rename.original_path.len() as int)
                    =~= texts(rename.original_path@));
            }
            return Some(resolved);
        }
        proof {
            if rename_applies(renames@[i as int], first, texts(module_suffix@)) {
                assert(texts(rename.module_suffix@).len() == rename.module_suffix.len());
                assert(texts(rename.module_suffix@).take(module_suffix.len() as int) =~= texts(
                    rename.module_suffix@,
                ));
                assert(texts(module_suffix@).take(module_suffix.len() as int) =~= texts(
                    module_suffix@,
                ));
            }
        }
        i = i + 1;
    }
    None
}

/// Whether two segment lists are equal.
pub fn same_segments(a: &Vec<String>, b: &Vec<String>) -> (r: bool)
    ensures
        r == (texts(a@) == texts(b@)),
{
    if a.len() != b.len() {
        return false;
    }
    proof {
        assert(texts(a@).take(a.len() as int) =~= texts(a@));
        assert(texts(b@).take(b.len() as int) =~= texts(b@));
    }
    strings_equal_at(a, b, a.len())
}

} // verus!
