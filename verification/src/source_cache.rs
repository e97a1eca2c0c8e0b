//! The source files of a crate as the analysis reads them: each file's
//! text, what the scans take from its syntax tree, and the names that can
//! occur in it at all.
//!
//! Reading the files and walking their syntax trees is the caller's part;
//! the cache keeps one entry per file, indexes its paths, and answers the
//! lookups the scans make.

use vstd::prelude::*;

use crate::facade_scan::ExtractedPaths;
use crate::feature_gates::GateSite;
use crate::feature_gates::coverage_of;
use crate::feature_gates::sites_keep;
use crate::feature_gates::source_all_features_coverage;
use crate::findings::AllFeaturesCoverage;
use crate::findings::option_text;
use crate::load::strip_path_prefix;
use crate::load::stripped_path;
use crate::path_index::PathsByFinalSegment;
use crate::path_index::index_entries;
use crate::pub_use::UseItem;
use crate::surface::trim_matches;
use crate::surface::trim_matches_char;
use crate::text::chars_eq;
use crate::text::chars_of;
use crate::text::concat_chars;
use crate::text::string_from_chars;
use crate::text::copy_range;

verus! {

/// What `char::is_alphanumeric` answers: whether a character is alphabetic
/// or numeric in Unicode's sense.
pub uninterp spec fn char_is_alphanumeric(c: char) -> bool;

/// Whether `c` is alphanumeric.
///
/// Wraps `char::is_alphanumeric`; the contract only names its result.
#[verifier::external_body]
fn is_alphanumeric(c: char) -> (r: bool)
    ensures
        r == char_is_alphanumeric(c),
{
    c.is_alphanumeric()
}

/// A character that can be part of a name: alphanumeric, or `_`.
pub open spec fn word_char(c: char) -> bool {
    char_is_alphanumeric(c) || c == '_'
}

/// `s[i..j]` is a whole word: a non-empty run of name characters with none
/// on either side.
pub open spec fn word_at(s: Seq<char>, i: int, j: int) -> bool {
    &&& 0 <= i < j <= s.len()
    &&& forall|k: int| i <= k < j ==> word_char(#[trigger] s[k])
    &&& (i == 0 || !word_char(s[i - 1]))
    &&& (j == s.len() || !word_char(s[j]))
}

/// The forms under which the word `w` can be compared against a name: as
/// written, and with `r` trimmed from both ends (the trim a literal goes
/// through before it is compared).
pub open spec fn word_form(w: Seq<char>, name: Seq<char>) -> bool {
    w == name || trim_matches_char(w, 'r') == name
}

/// `name` is a form of some whole word of `s` that ends at or before `end`.
pub open spec fn mentioned_before(s: Seq<char>, name: Seq<char>, end: int) -> bool {
    exists|i: int, j: int| #[trigger] word_at(s, i, j) && j <= end && word_form(s.subrange(i, j), name)
}

/// `name` is a form of some whole word of `s`.
pub open spec fn mentionable(s: Seq<char>, name: Seq<char>) -> bool {
    mentioned_before(s, name, s.len() as int)
}

/// Whether some element of `names` is `name`.
pub open spec fn listed(names: Seq<Vec<char>>, name: Seq<char>) -> bool {
    exists|k: int| 0 <= k < names.len() && (#[trigger] names[k])@ == name
}

/// The word `s[start..i]`, found whole, adds exactly its two forms to what is
/// mentioned before `start`.
proof fn lemma_word_closes(s: Seq<char>, start: int, i: int, name: Seq<char>)
    requires
        0 <= start < i <= s.len(),
        forall|k: int| start <= k < i ==> word_char(#[trigger] s[k]),
        start == 0 || !word_char(s[start - 1]),
        i == s.len() || !word_char(s[i]),
    ensures
        word_at(s, start, i),
        mentioned_before(s, name, i) <==> (mentioned_before(s, name, start) || word_form(
            s.subrange(start, i),
            name,
        )),
{
    if mentioned_before(s, name, i) {
        let (a, b) = choose|a: int, b: int| #[trigger] word_at(s, a, b) && b <= i && word_form(s.subrange(a, b), name);
        if b > start {
            if a < start {
                assert(word_char(s[start - 1]));
            }
            if a > start {
                assert(word_char(s[a - 1]));
            }
            if b < i {
                assert(word_char(s[b]));
            }
        }
    }
    if word_form(s.subrange(start, i), name) {
        assert(word_at(s, start, i));
    }
}

/// Every form under which a name of `text` can be compared: each whole word,
/// and each word with `r` trimmed from both ends.
pub fn mentionable_names_in(text: &str) -> (r: Vec<Vec<char>>)
    ensures
        forall|name: Seq<char>| listed(r@, name) <==> mentionable(text@, name),
{
    let s = chars_of(text);
    let ghost sv = s@;
    let mut names: Vec<Vec<char>> = Vec::new();
    let mut start: usize = 0;
    let mut i: usize = 0;
    while i < s.len()
        invariant
            sv == s@,
            sv == text@,
            start <= i <= s.len(),
            forall|k: int| start <= k < i ==> word_char(#[trigger] sv[k]),
            start == 0 || !word_char(sv[start - 1]),
            forall|name: Seq<char>| listed(names@, name) <==> mentioned_before(sv, name, start as int),
        decreases s.len() - i,
    {
        let c = s[i];
        let is_word = is_alphanumeric(c) || c == '_';
        if is_word {
            i = i + 1;
        } else {
            if start < i {
                let word = copy_range(&s, start, i);
                let trimmed = trim_matches(&word, 'r');
                let ghost before = names@;
                names.push(word);
                names.push(trimmed);
                assert forall|name: Seq<char>| listed(names@, name) <==> mentioned_before(sv, name, (i + 1) as int) by {
                    lemma_word_closes(sv, start as int, i as int, name);
                    if listed(names@, name) {
                        let k = choose|k: int| 0 <= k < names@.len() && (#[trigger] names@[k])@ == name;
                        if k < before.len() {
                            assert(listed(before, name));
                        }
                    }
                    if listed(before, name) {
                        let k = choose|k: int| 0 <= k < before.len() && (#[trigger] before[k])@ == name;
                        assert(names@[k] == before[k]);
                    }
                    if word_form(sv.subrange(start as int, i as int), name) {
                        if sv.subrange(start as int, i as int) == name {
                            assert(names@[before.len() as int]@ == name);
                        } else {
                            assert(names@[before.len() + 1int]@ == name);
                        }
                    }
                    no_word_spans(sv, start as int, i as int, name);
                }
            } else {
                assert forall|name: Seq<char>| listed(names@, name) <==> mentioned_before(sv, name, (i + 1) as int) by {
                    no_word_spans(sv, start as int, i as int, name);
                }
            }
            i = i + 1;
            start = i;
        }
    }
    if start < i {
        let word = copy_range(&s, start, i);
        let trimmed = trim_matches(&word, 'r');
        let ghost before = names@;
        names.push(word);
        names.push(trimmed);
        assert forall|name: Seq<char>| listed(names@, name) <==> mentionable(sv, name) by {
            lemma_word_closes(sv, start as int, i as int, name);
            if listed(names@, name) {
                let k = choose|k: int| 0 <= k < names@.len() && (#[trigger] names@[k])@ == name;
                if k < before.len() {
                    assert(listed(before, name));
                }
            }
            if listed(before, name) {
                let k = choose|k: int| 0 <= k < before.len() && (#[trigger] before[k])@ == name;
                assert(names@[k] == before[k]);
            }
            if word_form(sv.subrange(start as int, i as int), name) {
                if sv.subrange(start as int, i as int) == name {
                    assert(names@[before.len() as int]@ == name);
                } else {
                    assert(names@[before.len() + 1int]@ == name);
                }
            }
        }
    }
    names
}

/// Past a character that is not part of a name, at `i`, the words that end by
/// `i + 1` are those that end by `i`.
proof fn no_word_spans(s: Seq<char>, start: int, i: int, name: Seq<char>)
    requires
        0 <= start <= i < s.len(),
        forall|k: int| start <= k < i ==> word_char(#[trigger] s[k]),
        start == 0 || !word_char(s[start - 1]),
        !word_char(s[i]),
    ensures
        mentioned_before(s, name, i + 1) <==> mentioned_before(s, name, i),
        start == i ==> (mentioned_before(s, name, i) <==> mentioned_before(s, name, start)),
{
    if mentioned_before(s, name, i + 1) {
        let (a, b) = choose|a: int, b: int| #[trigger] word_at(s, a, b) && b <= i + 1 && word_form(s.subrange(a, b), name);
        if b == i + 1 {
            assert(word_char(s[i]));
        }
        assert(word_at(s, a, b) && b <= i);
    }
    if mentioned_before(s, name, i) {
        let (a, b) = choose|a: int, b: int| #[trigger] word_at(s, a, b) && b <= i && word_form(s.subrange(a, b), name);
        assert(word_at(s, a, b) && b <= i + 1);
    }
}

/// What `std::path::Path::parent` gives for a path, as text.
pub uninterp spec fn parent_of(path: Seq<char>) -> Option<Seq<char>>;

/// The directory `path` stands in, if it has one.
///
/// Wraps `Path::parent` (and `to_string_lossy`, lossless on text input); the
/// contract only names its result.
#[verifier::external_body]
fn parent_path(path: &str) -> (r: Option<String>)
    ensures
        option_text(r) == parent_of(path@),
{
    std::path::Path::new(path).parent().map(|parent| parent.to_string_lossy().into_owned())
}

/// What a walk of one file's syntax tree found: its paths and renames, its
/// top-level `use` items, and the attributes and macro bodies that can
/// gate code on features.
pub struct ParsedSource {
    pub extracted: ExtractedPaths,
    pub use_items: Vec<UseItem>,
    pub gate_sites: Vec<GateSite>,
}

/// One file as read: its path, its text, and what its syntax tree gave,
/// `None` when the text does not parse.
pub struct SourceInput {
    pub path: String,
    pub text: String,
    pub parsed: Option<ParsedSource>,
}

/// A file's paths grouped by the name each one could resolve to.
pub struct ExportCandidateIndex {
    pub use_paths: PathsByFinalSegment,
    pub expr_paths: PathsByFinalSegment,
}

/// A parsed file with its paths indexed.
pub struct IndexedSource {
    pub source: ParsedSource,
    pub export_candidates: ExportCandidateIndex,
}

/// One cached file.
pub struct SourceEntry {
    pub path: String,
    pub text: String,
    pub parsed: Option<IndexedSource>,
    /// Every form under which a name of the text can be compared.
    pub mentionable_names: Vec<Vec<char>>,
}

/// Whether a name can occur in a file: `Absent` when it occurs nowhere in
/// the file's text, so no scan of that file can match it.
#[derive(Debug, Clone, Copy, PartialEq, Eq, Structural)]
pub enum NameMention {
    Present,
    Absent,
}

/// The indices of the paths `paths` indexes, grouped as
/// `PathsByFinalSegment::index_by_final_segment` groups them.
pub open spec fn indexes(source: ParsedSource, index: ExportCandidateIndex) -> bool {
    &&& index.use_paths.holds(
        index_entries(source.extracted.use_paths@, seq![], source.extracted.use_paths@.len() as int),
    )
    &&& index.expr_paths.holds(
        index_entries(
            source.extracted.expr_paths@,
            source.extracted.use_renames@,
            source.extracted.expr_paths@.len() as int,
        ),
    )
}

/// What a parsed entry holds of its syntax walk.
pub open spec fn parsed_of(e: SourceEntry) -> Option<ParsedSource> {
    match e.parsed {
        Some(indexed) => Some(indexed.source),
        None => None,
    }
}

/// An entry's names are those of its text, and a parsed entry's index
/// groups its paths.
pub open spec fn entry_sound(e: SourceEntry) -> bool {
    &&& forall|name: Seq<char>| listed(e.mentionable_names@, name) <==> mentionable(e.text@, name)
    &&& match e.parsed {
        Some(indexed) => indexes(indexed.source, indexed.export_candidates),
        None => true,
    }
}

/// `e` is the cache entry made of `input`.
pub open spec fn entry_of(e: SourceEntry, input: SourceInput) -> bool {
    &&& e.path == input.path
    &&& e.text == input.text
    &&& parsed_of(e) == input.parsed
    &&& entry_sound(e)
}

/// `path` lies in `dir` or below it: the directory it stands in begins,
/// component by component, with `dir`.
pub open spec fn lies_under(path: Seq<char>, dir: Seq<char>) -> bool {
    match parent_of(path) {
        Some(parent) => stripped_path(parent, dir) is Some,
        None => false,
    }
}

/// The paths of `entries` that lie under `dir`, in order.
pub open spec fn paths_under(entries: Seq<SourceEntry>, dir: Seq<char>) -> Seq<Seq<char>>
    decreases entries.len(),
{
    if entries.len() == 0 {
        seq![]
    } else {
        let before = paths_under(entries.drop_last(), dir);
        if lies_under(entries.last().path@, dir) {
            before.push(entries.last().path@)
        } else {
            before
        }
    }
}

/// The text the cache answers with for a path it does not hold.
pub open spec fn not_cached_message(path: Seq<char>) -> Seq<char> {
    "source file not in cache: "@ + path
}

/// Some entry of `entries` is for `path`.
pub open spec fn has_path(entries: Seq<SourceEntry>, path: Seq<char>) -> bool {
    exists|k: int| 0 <= k < entries.len() && #[trigger] entries[k].path@ == path
}

/// The paths of `inputs`, as text.
pub open spec fn input_paths(inputs: Seq<SourceInput>) -> Seq<Seq<char>> {
    inputs.map_values(|input: SourceInput| input.path@)
}

/// No earlier path is `paths[i]`.
pub open spec fn first_seen(paths: Seq<Seq<char>>, i: int) -> bool {
    forall|j: int| 0 <= j < i ==> paths[j] != paths[i]
}

/// The positions among the first `n` paths that are the first of their
/// path, in order.
pub open spec fn kept_positions(paths: Seq<Seq<char>>, n: nat) -> Seq<int>
    decreases n,
{
    if n == 0 {
        seq![]
    } else {
        let before = kept_positions(paths, (n - 1) as nat);
        if first_seen(paths, n - 1) {
            before.push(n - 1)
        } else {
            before
        }
    }
}

/// The kept positions are exactly the first occurrences among the first `n`
/// paths.
proof fn lemma_kept_positions(paths: Seq<Seq<char>>, n: nat)
    ensures
        forall|k: int|
            0 <= k < kept_positions(paths, n).len() ==> 0 <= #[trigger] kept_positions(paths, n)[k] < n
                && first_seen(paths, kept_positions(paths, n)[k]),
        forall|i: int|
            0 <= i < n && #[trigger] first_seen(paths, i) ==> kept_positions(paths, n).contains(i),
    decreases n,
{
    if n > 0 {
        lemma_kept_positions(paths, (n - 1) as nat);
        let before = kept_positions(paths, (n - 1) as nat);
        if first_seen(paths, n - 1) {
            let after = before.push(n - 1);
            assert forall|i: int| 0 <= i < n && #[trigger] first_seen(paths, i) implies after.contains(i) by {
                if i < n - 1 {
                    let k = choose|k: int| 0 <= k < before.len() && before[k] == i;
                    assert(after[k] == i);
                } else {
                    assert(after[before.len() as int] == i);
                }
            }
        }
    }
}

/// Every path given to `SourceCache::build_files` is cached, under the
/// text first given for it, and every cached entry is the first given for
/// its path.
pub proof fn lemma_first_text_kept(inputs: Seq<SourceInput>, cache: SourceCache)
    requires
        cache.entries().len() == kept_positions(input_paths(inputs), inputs.len()).len(),
        forall|k: int|
            0 <= k < cache.entries().len() ==> entry_of(
                #[trigger] cache.entries()[k],
                inputs[kept_positions(input_paths(inputs), inputs.len())[k]],
            ),
    ensures
        forall|i: int|
            0 <= i < inputs.len() && #[trigger] first_seen(input_paths(inputs), i) ==> exists|k: int|
                0 <= k < cache.entries().len() && #[trigger] cache.entries()[k].path == inputs[i].path
                    && cache.entries()[k].text == inputs[i].text,
        forall|k: int|
            #![trigger cache.entries()[k]]
            0 <= k < cache.entries().len() ==> exists|i: int|
                0 <= i < inputs.len() && first_seen(input_paths(inputs), i) && #[trigger] inputs[i].path
                    == cache.entries()[k].path && inputs[i].text == cache.entries()[k].text,
{
    let paths = input_paths(inputs);
    let kept = kept_positions(paths, inputs.len());
    lemma_kept_positions(paths, inputs.len());
    assert forall|i: int| 0 <= i < inputs.len() && #[trigger] first_seen(paths, i) implies exists|k: int|
        0 <= k < cache.entries().len() && #[trigger] cache.entries()[k].path == inputs[i].path
            && cache.entries()[k].text == inputs[i].text by {
        assert(kept.contains(i));
        let k = choose|k: int| 0 <= k < kept.len() && kept[k] == i;
        assert(entry_of(cache.entries()[k], inputs[kept[k]]));
    }
    assert forall|k: int| #![trigger cache.entries()[k]] 0 <= k < cache.entries().len() implies exists|i: int|
        0 <= i < inputs.len() && first_seen(paths, i) && #[trigger] inputs[i].path == cache.entries()[k].path
            && inputs[i].text == cache.entries()[k].text by {
        assert(entry_of(cache.entries()[k], inputs[kept[k]]));
        assert(0 <= kept[k] < inputs.len() && first_seen(paths, kept[k]));
    }
}

/// One file keeps feature coverage: it parsed, and none of its gate sites
/// loses it.
pub open spec fn input_keeps(input: SourceInput) -> bool {
    match input.parsed {
        Some(source) => sites_keep(source.gate_sites@),
        None => false,
    }
}

/// The files at `kept` keep feature coverage, every one.
pub open spec fn inputs_keep_coverage(inputs: Seq<SourceInput>, kept: Seq<int>) -> bool {
    forall|k: int| 0 <= k < kept.len() ==> input_keeps(#[trigger] inputs[kept[k]])
}

/// Adding one file to those kept adds its own coverage to theirs.
proof fn lemma_keeps_step(inputs: Seq<SourceInput>, kept: Seq<int>, i: int)
    ensures
        inputs_keep_coverage(inputs, kept.push(i)) == (inputs_keep_coverage(inputs, kept) && input_keeps(
            inputs[i],
        )),
{
    let after = kept.push(i);
    if inputs_keep_coverage(inputs, after) {
        assert(after[kept.len() as int] == i);
        assert forall|k: int| 0 <= k < kept.len() implies input_keeps(#[trigger] inputs[kept[k]]) by {
            assert(after[k] == kept[k]);
        }
    }
    if inputs_keep_coverage(inputs, kept) && input_keeps(inputs[i]) {
        assert forall|k: int| 0 <= k < after.len() implies input_keeps(#[trigger] inputs[after[k]]) by {
            if k < kept.len() {
                assert(after[k] == kept[k]);
            }
        }
    }
}

/// The entry for one file: its paths indexed and its names listed; and
/// whether it keeps feature coverage.
fn entry_from(input: SourceInput) -> (r: (SourceEntry, bool))
    ensures
        entry_of(r.0, input),
        r.1 == input_keeps(input),
{
    let SourceInput { path, text, parsed } = input;
    let keeps = match &parsed {
        Some(source) => source_all_features_coverage(1, 1, &source.gate_sites) == AllFeaturesCoverage::Superset,
        None => false,
    };
    let indexed = match parsed {
        Some(source) => {
            let use_paths = PathsByFinalSegment::index_by_final_segment(&source.extracted.use_paths, &Vec::new());
            let expr_paths = PathsByFinalSegment::index_by_final_segment(
                &source.extracted.expr_paths,
                &source.extracted.use_renames,
            );
            Some(IndexedSource { source, export_candidates: ExportCandidateIndex { use_paths, expr_paths } })
        },
        None => None,
    };
    let mentionable_names = mentionable_names_in(text.as_str());
    (SourceEntry { path, text, parsed: indexed, mentionable_names }, keeps)
}

/// The source files of a crate, each read once, keyed by path.
pub struct SourceCache {
    entries: Vec<SourceEntry>,
    all_features_coverage: AllFeaturesCoverage,
}

impl SourceCache {
    /// No path has two entries, and every entry is sound.
    #[verifier::type_invariant]
    spec fn well_formed(&self) -> bool {
        &&& forall|a: int, b: int|
            0 <= a < b < self.entries@.len() ==> #[trigger] self.entries@[a].path@
                != #[trigger] self.entries@[b].path@
        &&& forall|k: int| 0 <= k < self.entries@.len() ==> entry_sound(#[trigger] self.entries@[k])
    }

    /// The cached files, in the order they were first given.
    pub closed spec fn entries(&self) -> Seq<SourceEntry> {
        self.entries@
    }

    /// The coverage the files leave.
    pub closed spec fn coverage(&self) -> AllFeaturesCoverage {
        self.all_features_coverage
    }

    /// The cache of `inputs`: one entry per path, the first given for it,
    /// in order; each parsed file's paths indexed; and the feature coverage
    /// the files leave, lost when a file does not parse or a gate site of a
    /// parsed file loses it.
    #[verifier::rlimit(30)]
    pub fn build_files(inputs: Vec<SourceInput>) -> (c: Self)
        ensures
            c.entries().len() == kept_positions(input_paths(inputs@), inputs@.len()).len(),
            forall|k: int|
                0 <= k < c.entries().len() ==> entry_of(
                    #[trigger] c.entries()[k],
                    inputs@[kept_positions(input_paths(inputs@), inputs@.len())[k]],
                ),
            c.coverage() == coverage_of(
                inputs_keep_coverage(inputs@, kept_positions(input_paths(inputs@), inputs@.len())),
            ),
    {
        let ghost all = inputs@;
        let n = inputs.len();
        assert(all.len() <= usize::MAX);
        let ghost paths = input_paths(all);
        let mut rest = inputs;
        let mut entries: Vec<SourceEntry> = Vec::new();
        let mut keeps = true;
        let mut i: usize = 0;
        while rest.len() > 0
            invariant
                i <= all.len(),
                all.len() <= usize::MAX,
                rest@ == all.skip(i as int),
                paths == input_paths(all),
                entries@.len() == kept_positions(paths, i as nat).len(),
                forall|k: int|
                    0 <= k < entries@.len() ==> entry_of(
                        #[trigger] entries@[k],
                        all[kept_positions(paths, i as nat)[k]],
                    ),
                forall|k: int|
                    0 <= k < entries@.len() ==> 0 <= #[trigger] kept_positions(paths, i as nat)[k]
                        < i,
                forall|j: int| 0 <= j < i ==> has_path(entries@, #[trigger] paths[j]),
                forall|a: int, b: int|
                    0 <= a < b < entries@.len() ==> #[trigger] entries@[a].path@
                        != #[trigger] entries@[b].path@,
                keeps == inputs_keep_coverage(all, kept_positions(paths, i as nat)),
            decreases rest.len(),
        {
            assert(i < all.len());
            let ghost old_entries = entries@;
            let input = rest.remove(0);
            assert(input == all[i as int]);
            assert(paths[i as int] == input.path@);
            let mut seen = false;
            let mut k: usize = 0;
            while k < entries.len()
                invariant
                    k <= entries.len(),
                    seen <==> has_path(entries@.take(k as int), input.path@),
                decreases entries.len() - k,
            {
                let same = entries[k].path == input.path;
                proof {
                    let next = entries@.take(k + 1);
                    assert(next =~= entries@.take(k as int).push(entries@[k as int]));
                    if same {
                        assert(next[k as int].path@ == input.path@);
                    }
                    if has_path(next, input.path@) && !same {
                        let m = choose|m: int| 0 <= m < next.len() && #[trigger] next[m].path@ == input.path@;
                        assert(entries@.take(k as int)[m].path@ == input.path@);
                    }
                    if has_path(entries@.take(k as int), input.path@) {
                        let m = choose|m: int| 0 <= m < k && #[trigger] entries@.take(k as int)[m].path@ == input.path@;
                        assert(next[m].path@ == input.path@);
                    }
                }
                if same {
                    seen = true;
                }
                k = k + 1;
            }
            let ghost before = kept_positions(paths, i as nat);
            if seen {
                assert(!first_seen(paths, i as int)) by {
                    assert(entries@.take(entries@.len() as int) =~= entries@);
                    let m = choose|m: int| 0 <= m < entries@.len() && #[trigger] entries@[m].path@ == input.path@;
                    assert(entry_of(entries@[m], all[before[m]]));
                    assert(paths[before[m]] == all[before[m]].path@);
                }
                assert(kept_positions(paths, (i + 1) as nat) == before);
            } else {
                assert(first_seen(paths, i as int)) by {
                    assert(entries@.take(entries@.len() as int) =~= entries@);
                    assert forall|j: int| 0 <= j < i implies paths[j] != paths[i as int] by {
                        assert(has_path(entries@, paths[j]));
                    }
                }
                assert(kept_positions(paths, (i + 1) as nat) == before.push(i as int));
                let (entry, entry_keeps) = entry_from(input);
                keeps = keeps && entry_keeps;
                proof {
                    assert(!has_path(old_entries, entry.path@)) by {
                        assert(old_entries.take(old_entries.len() as int) =~= old_entries);
                    }
                }
                entries.push(entry);
                proof {
                    assert forall|x: int, y: int|
                        0 <= x < y < entries@.len() implies #[trigger] entries@[x].path@
                            != #[trigger] entries@[y].path@ by {
                        assert(entries@[x] == old_entries[x] || x == old_entries.len());
                        if y == old_entries.len() {
                            assert(entries@[x] == old_entries[x]);
                            if entries@[x].path@ == entries@[y].path@ {
                                assert(has_path(old_entries, entry.path@));
                            }
                        } else {
                            assert(entries@[x] == old_entries[x]);
                            assert(entries@[y] == old_entries[y]);
                        }
                    }
                    lemma_keeps_step(all, before, i as int);
                }
            }
            assert forall|j: int| 0 <= j < i + 1 implies has_path(entries@, #[trigger] paths[j]) by {
                if j < i {
                    assert(has_path(old_entries, paths[j]));
                    let m = choose|m: int| 0 <= m < old_entries.len() && #[trigger] old_entries[m].path@ == paths[j];
                    assert(entries@[m] == old_entries[m]);
                } else if !seen {
                    assert(entries@[entries@.len() - 1].path@ == paths[j]);
                } else {
                    assert(entries@.take(entries@.len() as int) =~= entries@);
                }
            }
            i = i + 1;
        }
        assert(all.skip(i as int).len() == 0);
        let all_features_coverage = if keeps {
            AllFeaturesCoverage::Superset
        } else {
            AllFeaturesCoverage::NotGuaranteed
        };
        SourceCache { entries, all_features_coverage }
    }

    /// The position of the entry for `path`, if there is one.
    fn find(&self, path: &str) -> (r: Option<usize>)
        ensures
            match r {
                Some(k) => k < self.entries().len() && self.entries()[k as int].path@ == path@,
                None => !has_path(self.entries(), path@),
            },
    {
        let wanted = path.to_owned();
        let mut k: usize = 0;
        while k < self.entries.len()
            invariant
                k <= self.entries@.len(),
                wanted@ == path@,
                !has_path(self.entries@.take(k as int), path@),
            decreases self.entries@.len() - k,
        {
            if self.entries[k].path == wanted {
                return Some(k);
            }
            proof {
                let next = self.entries@.take(k + 1);
                assert(next =~= self.entries@.take(k as int).push(self.entries@[k as int]));
                if has_path(next, path@) {
                    let m = choose|m: int| 0 <= m < next.len() && #[trigger] next[m].path@ == path@;
                    assert(self.entries@.take(k as int)[m].path@ == path@);
                }
            }
            k = k + 1;
        }
        assert(self.entries@.take(k as int) =~= self.entries@);
        None
    }

    /// The cached paths, in order.
    pub fn source_files(&self) -> (r: Vec<String>)
        ensures
            r@.len() == self.entries().len(),
            forall|k: int| 0 <= k < r@.len() ==> #[trigger] r@[k] == self.entries()[k].path,
    {
        let mut out: Vec<String> = Vec::new();
        let mut k: usize = 0;
        while k < self.entries.len()
            invariant
                k <= self.entries@.len(),
                out@.len() == k,
                forall|m: int| 0 <= m < k ==> #[trigger] out@[m] == self.entries@[m].path,
            decreases self.entries@.len() - k,
        {
            out.push(self.entries[k].path.clone());
            k = k + 1;
        }
        out
    }

    /// The cached paths that lie in `dir` or below it, in order.
    pub fn source_files_under(&self, dir: &str) -> (r: Vec<String>)
        ensures
            r@.map_values(|p: String| p@) == paths_under(self.entries(), dir@),
    {
        let mut out: Vec<String> = Vec::new();
        let mut k: usize = 0;
        while k < self.entries.len()
            invariant
                k <= self.entries@.len(),
                out@.map_values(|p: String| p@) == paths_under(self.entries@.take(k as int), dir@),
            decreases self.entries@.len() - k,
        {
            let path = &self.entries[k].path;
            let under = match parent_path(path.as_str()) {
                Some(parent) => strip_path_prefix(parent.as_str(), dir).is_some(),
                None => false,
            };
            let ghost before = out@;
            assert(self.entries@.take(k + 1).drop_last() =~= self.entries@.take(k as int));
            if under {
                out.push(path.clone());
                assert(out@.map_values(|p: String| p@) =~= before.map_values(|p: String| p@).push(path@));
            }
            k = k + 1;
        }
        assert(self.entries@.take(k as int) =~= self.entries@);
        out
    }

    /// The text of `path`; an error naming the path when it is not cached.
    pub fn read_source(&self, path: &str) -> (r: Result<&str, String>)
        ensures
            r is Ok <==> has_path(self.entries(), path@),
            match r {
                Ok(text) => exists|k: int|
                    0 <= k < self.entries().len() && #[trigger] self.entries()[k].path@ == path@
                        && self.entries()[k].text@ == text@,
                Err(message) => message@ == not_cached_message(path@),
            },
    {
        match self.find(path) {
            Some(k) => Ok(self.entries[k].text.as_str()),
            None => {
                let message = concat_chars(&chars_of("source file not in cache: "), &chars_of(path));
                Err(string_from_chars(&message))
            },
        }
    }

    /// What the syntax walk of `path` found, when it is cached and parsed.
    pub fn parsed_file(&self, path: &str) -> (r: Option<&ParsedSource>)
        ensures
            match r {
                Some(source) => exists|k: int|
                    0 <= k < self.entries().len() && #[trigger] self.entries()[k].path@ == path@
                        && parsed_of(self.entries()[k]) == Some(*source),
                None => forall|k: int|
                    0 <= k < self.entries().len() && #[trigger] self.entries()[k].path@ == path@
                        ==> parsed_of(self.entries()[k]) is None,
            },
    {
        match self.find(path) {
            Some(k) => match &self.entries[k].parsed {
                Some(indexed) => Some(&indexed.source),
                None => {
                    proof {
                        use_type_invariant(self);
                    }
                    None
                },
            },
            None => None,
        }
    }

    /// The paths and renames of `path`, when it is cached and parsed.
    pub fn extracted_paths(&self, path: &str) -> (r: Option<&ExtractedPaths>)
        ensures
            match r {
                Some(extracted) => exists|k: int|
                    0 <= k < self.entries().len() && #[trigger] self.entries()[k].path@ == path@
                        && parsed_of(self.entries()[k]) is Some
                        && parsed_of(self.entries()[k])->0.extracted == *extracted,
                None => forall|k: int|
                    0 <= k < self.entries().len() && #[trigger] self.entries()[k].path@ == path@
                        ==> parsed_of(self.entries()[k]) is None,
            },
    {
        match self.parsed_file(path) {
            Some(source) => Some(&source.extracted),
            None => None,
        }
    }

    /// The paths of `path` grouped by the name each could resolve to, when
    /// it is cached and parsed.
    pub fn export_candidates(&self, path: &str) -> (r: Option<&ExportCandidateIndex>)
        ensures
            match r {
                Some(index) => exists|k: int|
                    0 <= k < self.entries().len() && #[trigger] self.entries()[k].path@ == path@
                        && parsed_of(self.entries()[k]) is Some
                        && indexes(parsed_of(self.entries()[k])->0, *index),
                None => forall|k: int|
                    0 <= k < self.entries().len() && #[trigger] self.entries()[k].path@ == path@
                        ==> parsed_of(self.entries()[k]) is None,
            },
    {
        proof {
            use_type_invariant(self);
        }
        match self.find(path) {
            Some(k) => match &self.entries[k].parsed {
                Some(indexed) => {
                    assert(entry_sound(self.entries@[k as int]));
                    Some(&indexed.export_candidates)
                },
                None => None,
            },
            None => None,
        }
    }

    /// Whether `name` can occur in `path`: `Absent` exactly when `path` is
    /// cached and no word of its text is `name`, as written or with `r`
    /// trimmed from both ends. A path the cache does not hold answers
    /// `Present`, so the caller still scans it.
    pub fn name_mention(&self, path: &str, name: &str) -> (r: NameMention)
        ensures
            r == NameMention::Absent <==> exists|k: int|
                0 <= k < self.entries().len() && #[trigger] self.entries()[k].path@ == path@
                    && !mentionable(self.entries()[k].text@, name@),
    {
        proof {
            use_type_invariant(self);
        }
        match self.find(path) {
            Some(k) => {
                let names = &self.entries[k].mentionable_names;
                let wanted = chars_of(name);
                let mut found = false;
                let mut m: usize = 0;
                while m < names.len()
                    invariant
                        m <= names@.len(),
                        wanted@ == name@,
                        found <==> listed(names@.take(m as int), name@),
                    decreases names@.len() - m,
                {
                    let same = chars_eq(&names[m], &wanted);
                    proof {
                        let next = names@.take(m + 1);
                        assert(next =~= names@.take(m as int).push(names@[m as int]));
                        if same {
                            assert(next[m as int]@ == name@);
                        }
                        if listed(next, name@) && !same {
                            let j = choose|j: int| 0 <= j < next.len() && (#[trigger] next[j])@ == name@;
                            assert(names@.take(m as int)[j]@ == name@);
                        }
                        if listed(names@.take(m as int), name@) {
                            let j = choose|j: int| 0 <= j < m && (#[trigger] names@.take(m as int)[j])@ == name@;
                            assert(next[j]@ == name@);
                        }
                    }
                    found = found || same;
                    m = m + 1;
                }
                assert(names@.take(m as int) =~= names@);
                assert(entry_sound(self.entries@[k as int]));
                assert forall|j: int|
                    0 <= j < self.entries@.len() && #[trigger] self.entries@[j].path@ == path@ implies j == k by {
                    if j < k {
                        assert(self.entries@[j].path@ != self.entries@[k as int].path@);
                    } else if j > k {
                        assert(self.entries@[k as int].path@ != self.entries@[j].path@);
                    }
                }
                if found {
                    NameMention::Present
                } else {
                    NameMention::Absent
                }
            },
            None => NameMention::Present,
        }
    }

    /// The feature coverage the cached files leave.
    pub fn all_features_coverage(&self) -> (r: AllFeaturesCoverage)
        ensures
            r == self.coverage(),
    {
        self.all_features_coverage
    }
}

} // verus!
