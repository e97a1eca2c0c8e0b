//! Classifying what `cargo check` writes to stderr: progress lines, the
//! warning summary, unused-import warnings that the `--fix-pub-use` discovery
//! pass hides, and everything else, which is forwarded.
//!
//! The reading loop itself performs I/O; here it is a state machine that
//! takes one line at a time and answers with the output to produce.

use vstd::prelude::*;
use crate::constants::{
    CARGO_PROGRESS_PREFIX_BLOCKING, CARGO_PROGRESS_PREFIX_BUILDING,
    CARGO_PROGRESS_PREFIX_CHECKING, CARGO_PROGRESS_PREFIX_COMPILING,
    CARGO_PROGRESS_PREFIX_FINISHED, CARGO_PROGRESS_PREFIX_FRESH, CARGO_UNUSED_IMPORTS_WARNING,
    CARGO_UNUSED_IMPORT_WARNING, CARGO_WARNING_SUMMARY_PREFIX,
    CARGO_WARNING_SUMMARY_TOKEN_GENERATED, CARGO_WARNING_SUMMARY_TOKEN_TO_APPLY,
    DIAGNOSTIC_SEVERITY_ERROR_PREFIX, DIAGNOSTIC_SEVERITY_WARNING_PREFIX, SUPPRESSION_NOTICE,
};
use crate::scan::{
    first_token, first_token_of, is_whitespace, is_ws, parse_usize, parse_usize_chars,
    second_piece, second_piece_of, trim_start, trim_start_chars,
};
use crate::text::{chars_contain, chars_of, chars_start_with, contains, starts_with};

verus! {

/// How much of cargo's output mend passes through.
#[derive(Debug, Clone, Copy, PartialEq, Eq, Structural)]
pub enum BuildOutputMode {
    Full,
    Json,
    SuppressUnusedImportWarnings,
    Quiet,
}

/// Whether a cargo run printed unused-import warnings.
#[derive(Debug, Clone, Copy, Default, PartialEq, Eq, Structural)]
pub enum CompilerWarningFacts {
    #[default]
    Absent,
    UnusedImportWarnings,
}

#[derive(Debug, Clone, Copy, PartialEq, Eq, Structural)]
pub enum DiagnosticBlockKind {
    SuppressedUnusedImport,
    CompilerWarningSummary { warning_count: usize, fixable_count: usize },
    Forwarded,
}

#[derive(Debug, Clone, Copy, Default, PartialEq, Eq, Structural)]
pub enum SuppressionNotice {
    #[default]
    Pending,
    Printed,
}

#[derive(Debug, Clone, Copy, Default, PartialEq, Eq, Structural)]
pub enum ProgressStatus {
    Active,
    #[default]
    Inactive,
}

pub open spec fn is_escape(c: char) -> bool {
    c == '\u{1b}'
}

pub open spec fn is_csi_final(c: char) -> bool {
    '@' <= c && c <= '~'
}

/// The position of the first control-sequence final character at or after `j`,
/// or the length when there is none.
pub open spec fn csi_end(s: Seq<char>, j: int) -> int
    decreases s.len() - j,
{
    if j < 0 || j >= s.len() {
        s.len() as int
    } else if is_csi_final(s[j]) {
        j
    } else {
        csi_end(s, j + 1)
    }
}

/// `s` from position `i` on, with ANSI escape sequences removed.
pub open spec fn sanitize_from(s: Seq<char>, i: int) -> Seq<char>
    decreases s.len() - i,
{
    if i < 0 || i >= s.len() {
        Seq::empty()
    } else if is_escape(s[i]) {
        if i + 1 < s.len() && s[i + 1] == '[' {
            let e = csi_end(s, i + 2);
            if e <= i || e >= s.len() {
                Seq::empty()
            } else {
                sanitize_from(s, e + 1)
            }
        } else {
            sanitize_from(s, i + 1)
        }
    } else {
        seq![s[i]] + sanitize_from(s, i + 1)
    }
}

/// A line with its escape sequences (`ESC [ ... final`) and lone escapes removed.
pub open spec fn sanitize(s: Seq<char>) -> Seq<char> {
    sanitize_from(s, 0)
}

proof fn lemma_csi_end(s: Seq<char>, j: int)
    requires
        0 <= j,
    ensures
        j <= csi_end(s, j) <= s.len() || (j > s.len() && csi_end(s, j) == s.len()),
        forall|k: int| j <= k < csi_end(s, j) ==> !is_csi_final(#[trigger] s[k]),
        csi_end(s, j) < s.len() ==> is_csi_final(s[csi_end(s, j)]),
    decreases s.len() - j,
{
    if j < s.len() && !is_csi_final(s[j]) {
        lemma_csi_end(s, j + 1);
    }
}

proof fn lemma_csi_end_is(s: Seq<char>, j: int, e: int)
    requires
        0 <= j <= e <= s.len(),
        forall|k: int| j <= k < e ==> !is_csi_final(#[trigger] s[k]),
        e < s.len() ==> is_csi_final(s[e]),
    ensures
        csi_end(s, j) == e,
    decreases s.len() - j,
{
    if j < e {
        lemma_csi_end_is(s, j + 1, e);
    }
}

/// Removes ANSI escape sequences from a line before it is matched.
pub fn sanitize_for_match(line: &str) -> (out: Vec<char>)
    ensures
        out@ == sanitize(line@),
{
    let v = chars_of(line);
    let n = v.len();
    let mut out: Vec<char> = Vec::new();
    let mut i: usize = 0;
    assert(out@ + sanitize_from(v@, 0) =~= sanitize(v@));
    while i < n
        invariant
            n == v.len(),
            i <= n,
            sanitize(v@) == out@ + sanitize_from(v@, i as int),
        decreases n - i,
    {
        let c = v[i];
        if c == '\u{1b}' {
            if i + 1 < n && v[i + 1] == '[' {
                let mut j = i + 2;
                while j < n && !('@' <= v[j] && v[j] <= '~')
                    invariant
                        i + 2 <= j <= n,
                        n == v.len(),
                        forall|k: int| i + 2 <= k < j ==> !is_csi_final(#[trigger] v@[k]),
                    decreases n - j,
                {
                    j = j + 1;
                }
                proof {
                    lemma_csi_end_is(v@, i + 2, j as int);
                }
                if j >= n {
                    assert(sanitize_from(v@, i as int) == Seq::<char>::empty());
                    assert(sanitize_from(v@, n as int) == Seq::<char>::empty());
                    i = n;
                } else {
                    i = j + 1;
                }
            } else {
                i = i + 1;
            }
        } else {
            out.push(c);
            assert(sanitize_from(v@, i as int) == seq![c] + sanitize_from(v@, i + 1));
            assert(out@ + sanitize_from(v@, i + 1) =~= (out@.drop_last() + seq![c])
                + sanitize_from(v@, i + 1));
            i = i + 1;
        }
    }
    assert(out@ + sanitize_from(v@, n as int) =~= out@);
    out
}

/// The text cargo's line reads as once escapes and leading whitespace go.
pub open spec fn matched_text(line: Seq<char>) -> Seq<char> {
    trim_start(sanitize(line))
}

pub open spec fn is_progress_text(t: Seq<char>) -> bool {
    !contains(t, DIAGNOSTIC_SEVERITY_WARNING_PREFIX@) && !contains(
        t,
        DIAGNOSTIC_SEVERITY_ERROR_PREFIX@,
    ) && (starts_with(t, CARGO_PROGRESS_PREFIX_BLOCKING@) || starts_with(
        t,
        CARGO_PROGRESS_PREFIX_BUILDING@,
    ) || starts_with(t, CARGO_PROGRESS_PREFIX_CHECKING@) || starts_with(
        t,
        CARGO_PROGRESS_PREFIX_COMPILING@,
    ) || starts_with(t, CARGO_PROGRESS_PREFIX_FINISHED@) || starts_with(
        t,
        CARGO_PROGRESS_PREFIX_FRESH@,
    ))
}

/// A cargo status line (`Checking`, `Finished`, ...) that carries no
/// diagnostic text.
pub open spec fn is_progress_line_spec(line: Seq<char>) -> bool {
    is_progress_text(matched_text(line))
}

pub open spec fn is_finished_line_spec(line: Seq<char>) -> bool {
    starts_with(matched_text(line), CARGO_PROGRESS_PREFIX_FINISHED@)
}

fn matched_chars(line: &str) -> (t: Vec<char>)
    ensures
        t@ == matched_text(line@),
{
    let sanitized = sanitize_for_match(line);
    trim_start_chars(&sanitized)
}

fn text_starts_with(t: &Vec<char>, prefix: &str) -> (r: bool)
    ensures
        r == starts_with(t@, prefix@),
{
    let p = chars_of(prefix);
    chars_start_with(t, &p)
}

fn text_contains(t: &Vec<char>, needle: &str) -> (r: bool)
    ensures
        r == contains(t@, needle@),
{
    let p = chars_of(needle);
    chars_contain(t, &p)
}

fn progress_text(t: &Vec<char>) -> (r: bool)
    ensures
        r == is_progress_text(t@),
{
    if text_contains(t, DIAGNOSTIC_SEVERITY_WARNING_PREFIX) || text_contains(
        t,
        DIAGNOSTIC_SEVERITY_ERROR_PREFIX,
    ) {
        return false;
    }
    text_starts_with(t, CARGO_PROGRESS_PREFIX_BLOCKING) || text_starts_with(
        t,
        CARGO_PROGRESS_PREFIX_BUILDING,
    ) || text_starts_with(t, CARGO_PROGRESS_PREFIX_CHECKING) || text_starts_with(
        t,
        CARGO_PROGRESS_PREFIX_COMPILING,
    ) || text_starts_with(t, CARGO_PROGRESS_PREFIX_FINISHED) || text_starts_with(
        t,
        CARGO_PROGRESS_PREFIX_FRESH,
    )
}

/// Whether `line` is one of cargo's own status lines.
pub fn is_progress_line(line: &str) -> (r: bool)
    ensures
        r == is_progress_line_spec(line@),
{
    let t = matched_chars(line);
    progress_text(&t)
}

/// Whether `line` is cargo's closing `Finished` line.
pub fn is_finished_line(line: &str) -> (r: bool)
    ensures
        r == is_finished_line_spec(line@),
{
    let t = matched_chars(line);
    text_starts_with(&t, CARGO_PROGRESS_PREFIX_FINISHED)
}

/// The first number after `pat`, or 0.
pub open spec fn count_after(t: Seq<char>, pat: Seq<char>) -> Option<int> {
    match second_piece(t, pat) {
        None => None,
        Some(after) => match first_token(after) {
            None => None,
            Some(tok) => parse_usize(tok),
        },
    }
}

/// Cargo's `warning: `pkg` (lib) generated N warnings ... to apply M
/// suggestions` line, read as `(N, M)`; `M` is 0 when absent or unreadable.
pub open spec fn warning_summary(line: Seq<char>) -> Option<(int, int)> {
    let t = matched_text(line);
    if !starts_with(t, CARGO_WARNING_SUMMARY_PREFIX@) || !contains(
        t,
        CARGO_WARNING_SUMMARY_TOKEN_GENERATED@,
    ) {
        None
    } else {
        match count_after(t, CARGO_WARNING_SUMMARY_TOKEN_GENERATED@) {
            None => None,
            Some(warnings) => Some(
                (
                    warnings,
                    match count_after(t, CARGO_WARNING_SUMMARY_TOKEN_TO_APPLY@) {
                        Some(fixable) => fixable,
                        None => 0,
                    },
                ),
            ),
        }
    }
}

fn count_after_chars(t: &Vec<char>, pat: &str) -> (r: Option<usize>)
    requires
        pat@.len() > 0,
    ensures
        r is None <==> count_after(t@, pat@) is None,
        r is Some ==> r->0 == count_after(t@, pat@)->0,
{
    let p = chars_of(pat);
    match second_piece_of(t, &p) {
        None => None,
        Some(after) => match first_token_of(&after) {
            None => None,
            Some(tok) => parse_usize_chars(&tok),
        },
    }
}

/// Parses cargo's "generated N warnings" summary line into
/// `(warning_count, fixable_count)`.
pub fn parse_compiler_warning_summary(line: &str) -> (r: Option<(usize, usize)>)
    ensures
        r is None <==> warning_summary(line@) is None,
        r is Some ==> (r->0).0 == (warning_summary(line@)->0).0 && (r->0).1 == (warning_summary(
            line@,
        )->0).1,
{
    let t = matched_chars(line);
    if !text_starts_with(&t, CARGO_WARNING_SUMMARY_PREFIX) || !text_contains(
        &t,
        CARGO_WARNING_SUMMARY_TOKEN_GENERATED,
    ) {
        return None;
    }
    proof {
        reveal_strlit(" generated ");
        reveal_strlit("to apply ");
    }
    let warning_count = match count_after_chars(&t, CARGO_WARNING_SUMMARY_TOKEN_GENERATED) {
        None => return None,
        Some(count) => count,
    };
    let fixable_count = match count_after_chars(&t, CARGO_WARNING_SUMMARY_TOKEN_TO_APPLY) {
        None => 0,
        Some(count) => count,
    };
    Some((warning_count, fixable_count))
}

pub open spec fn is_blank(s: Seq<char>) -> bool {
    forall|j: int| 0 <= j < s.len() ==> is_ws(#[trigger] s[j])
}

pub open spec fn strings_view(v: Seq<String>) -> Seq<Seq<char>> {
    v.map_values(|s: String| s@)
}

/// The index of the first line at or after `from` holding something other
/// than whitespace, or the length.
pub open spec fn first_non_blank(b: Seq<Seq<char>>, from: int) -> int
    decreases b.len() - from,
{
    if from < 0 || from >= b.len() {
        b.len() as int
    } else if !is_blank(b[from]) {
        from
    } else {
        first_non_blank(b, from + 1)
    }
}

pub open spec fn classify_text(t: Seq<char>) -> DiagnosticBlockKind {
    match warning_summary(t) {
        Some((w, f)) => DiagnosticBlockKind::CompilerWarningSummary {
            warning_count: w as usize,
            fixable_count: f as usize,
        },
        None => if contains(t, CARGO_UNUSED_IMPORT_WARNING@) || contains(
            t,
            CARGO_UNUSED_IMPORTS_WARNING@,
        ) {
            DiagnosticBlockKind::SuppressedUnusedImport
        } else {
            DiagnosticBlockKind::Forwarded
        },
    }
}

/// What a block of stderr lines is, judged by its first non-blank line.
pub open spec fn classify_block(b: Seq<Seq<char>>) -> DiagnosticBlockKind {
    let k = first_non_blank(b, 0);
    if k >= b.len() {
        DiagnosticBlockKind::Forwarded
    } else {
        classify_text(matched_text(b[k]))
    }
}

fn line_is_blank(line: &str) -> (r: bool)
    ensures
        r == is_blank(line@),
{
    let v = chars_of(line);
    let mut i: usize = 0;
    while i < v.len()
        invariant
            i <= v.len(),
            v@ == line@,
            forall|j: int| 0 <= j < i ==> is_ws(#[trigger] v@[j]),
        decreases v.len() - i,
    {
        if !is_whitespace(v[i]) {
            assert(!is_ws(line@[i as int]));
            assert(!is_blank(line@));
            return false;
        }
        i = i + 1;
    }
    true
}

proof fn lemma_first_non_blank_is(b: Seq<Seq<char>>, from: int, k: int)
    requires
        0 <= from <= k <= b.len(),
        forall|j: int| from <= j < k ==> is_blank(#[trigger] b[j]),
        k < b.len() ==> !is_blank(b[k]),
    ensures
        first_non_blank(b, from) == k,
    decreases b.len() - from,
{
    if from < k {
        lemma_first_non_blank_is(b, from + 1, k);
    }
}

/// Classifies a diagnostic block by its first non-blank line.
pub fn classify_diagnostic_block(block: &Vec<String>) -> (kind: DiagnosticBlockKind)
    ensures
        kind == classify_block(strings_view(block@)),
{
    let ghost b = strings_view(block@);
    let mut k: usize = 0;
    while k < block.len() && line_is_blank(block[k].as_str())
        invariant
            k <= block.len(),
            b == strings_view(block@),
            forall|j: int| 0 <= j < k ==> is_blank(#[trigger] b[j]),
        decreases block.len() - k,
    {
        k = k + 1;
    }
    proof {
        lemma_first_non_blank_is(b, 0, k as int);
    }
    if k == block.len() {
        return DiagnosticBlockKind::Forwarded;
    }
    let t = matched_chars(block[k].as_str());
    let trimmed = crate::text::string_from_chars(&t);
    match parse_compiler_warning_summary(trimmed.as_str()) {
        Some((warning_count, fixable_count)) => DiagnosticBlockKind::CompilerWarningSummary {
            warning_count,
            fixable_count,
        },
        None => {
            if text_contains(&t, CARGO_UNUSED_IMPORT_WARNING) || text_contains(
                &t,
                CARGO_UNUSED_IMPORTS_WARNING,
            ) {
                DiagnosticBlockKind::SuppressedUnusedImport
            } else {
                DiagnosticBlockKind::Forwarded
            }
        },
    }
}

/// Whether a progress line should be echoed to the terminal.
pub open spec fn forwards_progress_line(
    line: Seq<char>,
    output_mode: BuildOutputMode,
    progress_status: ProgressStatus,
) -> bool {
    progress_status == ProgressStatus::Inactive && !is_finished_line_spec(line) && !(output_mode
        == BuildOutputMode::Json || output_mode == BuildOutputMode::Quiet)
}

/// Whether cargo's progress line is echoed: never while mend's own spinner
/// is drawing, never the closing `Finished` line, and never in JSON or quiet
/// mode.
pub fn should_forward_progress_line(
    line: &str,
    output_mode: BuildOutputMode,
    progress_status: ProgressStatus,
) -> (r: bool)
    ensures
        r == forwards_progress_line(line@, output_mode, progress_status),
{
    matches!(progress_status, ProgressStatus::Inactive) && !is_finished_line(line) && !matches!(
        output_mode,
        BuildOutputMode::Json | BuildOutputMode::Quiet
    )
}

/// One piece of terminal output the stderr reader must produce.
#[derive(Debug, PartialEq, Eq)]
pub enum StderrEffect {
    /// Write a notice through the progress display (clearing the spinner
    /// line first when one is drawn).
    StatusNotice(String),
    /// Stop the spinner and clear its line.
    StopProgress,
    /// Echo a line of cargo's output verbatim.
    Echo(String),
}

pub enum EffectView {
    StatusNotice(Seq<char>),
    StopProgress,
    Echo(Seq<char>),
}

impl View for StderrEffect {
    type V = EffectView;

    open spec fn view(&self) -> EffectView {
        match self {
            StderrEffect::StatusNotice(s) => EffectView::StatusNotice(s@),
            StderrEffect::StopProgress => EffectView::StopProgress,
            StderrEffect::Echo(s) => EffectView::Echo(s@),
        }
    }
}

pub open spec fn effects_view(v: Seq<StderrEffect>) -> Seq<EffectView> {
    v.map_values(|e: StderrEffect| e@)
}

pub open spec fn echo_all(lines: Seq<Seq<char>>) -> Seq<EffectView> {
    lines.map_values(|l: Seq<char>| EffectView::Echo(l))
}

/// The counters and flags the stderr reader carries between blocks.
#[derive(Debug, Clone, Copy, PartialEq, Eq, Structural)]
pub struct StderrTally {
    pub suppression_notice: SuppressionNotice,
    pub compiler_warning_facts: CompilerWarningFacts,
    pub warning_count: usize,
    pub fixable_count: usize,
}

/// `usize` addition that wraps around on overflow.
pub open spec fn wrap_add(x: usize, y: usize) -> usize {
    if x + y > usize::MAX {
        (x + y - (usize::MAX + 1)) as usize
    } else {
        (x + y) as usize
    }
}

/// The output a block produces, given the mode and whether the notice was
/// already printed.
pub open spec fn flush_effects(
    b: Seq<Seq<char>>,
    notice: SuppressionNotice,
    output_mode: BuildOutputMode,
) -> Seq<EffectView> {
    if b.len() == 0 {
        Seq::empty()
    } else {
        match classify_block(b) {
            DiagnosticBlockKind::SuppressedUnusedImport => {
                if output_mode == BuildOutputMode::SuppressUnusedImportWarnings && notice
                    == SuppressionNotice::Pending {
                    seq![EffectView::StatusNotice(SUPPRESSION_NOTICE@)]
                } else if output_mode == BuildOutputMode::Full {
                    echo_all(b)
                } else {
                    Seq::empty()
                }
            },
            DiagnosticBlockKind::CompilerWarningSummary { .. } => Seq::empty(),
            DiagnosticBlockKind::Forwarded => {
                if output_mode != BuildOutputMode::Json {
                    seq![EffectView::StopProgress] + echo_all(b)
                } else {
                    Seq::empty()
                }
            },
        }
    }
}

/// The tally after a block: the unused-import fact and notice flag, and the
/// summary counts (added with wrap-around, as a release build adds them),
/// which quiet mode does not accumulate.
pub open spec fn flush_tally(
    b: Seq<Seq<char>>,
    tally: StderrTally,
    output_mode: BuildOutputMode,
) -> StderrTally {
    if b.len() == 0 {
        tally
    } else {
        match classify_block(b) {
            DiagnosticBlockKind::SuppressedUnusedImport => StderrTally {
                compiler_warning_facts: CompilerWarningFacts::UnusedImportWarnings,
                suppression_notice: if output_mode == BuildOutputMode::SuppressUnusedImportWarnings {
                    SuppressionNotice::Printed
                } else {
                    tally.suppression_notice
                },
                ..tally
            },
            DiagnosticBlockKind::CompilerWarningSummary { warning_count, fixable_count } => {
                if output_mode != BuildOutputMode::Quiet {
                    StderrTally {
                        warning_count: wrap_add(tally.warning_count, warning_count),
                        fixable_count: wrap_add(tally.fixable_count, fixable_count),
                        ..tally
                    }
                } else {
                    tally
                }
            },
            DiagnosticBlockKind::Forwarded => tally,
        }
    }
}

fn echo_lines(block: &Vec<String>, effects: &mut Vec<StderrEffect>)
    ensures
        effects_view(final(effects)@) == effects_view(old(effects)@) + echo_all(
            strings_view(block@),
        ),
{
    let ghost start = effects_view(effects@);
    let mut i: usize = 0;
    while i < block.len()
        invariant
            i <= block.len(),
            effects_view(effects@) == start + echo_all(strings_view(block@).take(i as int)),
        decreases block.len() - i,
    {
        let line = block[i].clone();
        let ghost before = effects@;
        effects.push(StderrEffect::Echo(line));
        proof {
            assert(effects@ == before.push(StderrEffect::Echo(line)));
            assert(effects_view(effects@) =~= effects_view(before).push(EffectView::Echo(line@)));
            assert(strings_view(block@).take(i + 1) =~= strings_view(block@).take(i as int).push(
                line@,
            ));
            assert(echo_all(strings_view(block@).take(i + 1)) =~= echo_all(
                strings_view(block@).take(i as int),
            ).push(EffectView::Echo(line@)));
        }
        i = i + 1;
    }
    assert(strings_view(block@).take(i as int) =~= strings_view(block@));
}

/// Settles a finished block: updates the tally, empties the block, and
/// returns the output it calls for.
pub fn flush_diagnostic_block(
    block: &mut Vec<String>,
    tally: &mut StderrTally,
    output_mode: BuildOutputMode,
) -> (effects: Vec<StderrEffect>)
    ensures
        final(block)@.len() == 0,
        *final(tally) == flush_tally(strings_view(old(block)@), *old(tally), output_mode),
        effects_view(effects@) == flush_effects(
            strings_view(old(block)@),
            old(tally).suppression_notice,
            output_mode,
        ),
{
    let mut effects: Vec<StderrEffect> = Vec::new();
    if block.len() == 0 {
        assert(effects_view(effects@) =~= Seq::<EffectView>::empty());
        return effects;
    }
    assert(strings_view(block@).len() > 0);
    match classify_diagnostic_block(block) {
        DiagnosticBlockKind::SuppressedUnusedImport => {
            tally.compiler_warning_facts = CompilerWarningFacts::UnusedImportWarnings;
            match output_mode {
                BuildOutputMode::SuppressUnusedImportWarnings => {
                    if tally.suppression_notice == SuppressionNotice::Pending {
                        effects.push(StderrEffect::StatusNotice(String::from_str(SUPPRESSION_NOTICE)));
                        assert(effects_view(effects@) =~= seq![EffectView::StatusNotice(SUPPRESSION_NOTICE@)]);
                    } else {
                        assert(effects_view(effects@) =~= Seq::<EffectView>::empty());
                    }
                    tally.suppression_notice = SuppressionNotice::Printed;
                },
                BuildOutputMode::Full => {
                    assert(effects_view(effects@) =~= Seq::<EffectView>::empty());
                    echo_lines(block, &mut effects);
                },
                _ => {
                    assert(effects_view(effects@) =~= Seq::<EffectView>::empty());
                },
            }
        },
        DiagnosticBlockKind::CompilerWarningSummary { warning_count, fixable_count } => {
            if output_mode != BuildOutputMode::Quiet {
                tally.warning_count = tally.warning_count.wrapping_add(warning_count);
                tally.fixable_count = tally.fixable_count.wrapping_add(fixable_count);
            }
            assert(effects_view(effects@) =~= Seq::<EffectView>::empty());
        },
        DiagnosticBlockKind::Forwarded => {
            if output_mode != BuildOutputMode::Json {
                effects.push(StderrEffect::StopProgress);
                assert(effects_view(effects@) =~= seq![EffectView::StopProgress]);
                echo_lines(block, &mut effects);
            } else {
                assert(effects_view(effects@) =~= Seq::<EffectView>::empty());
            }
        },
    }
    block.clear();
    effects
}

/// Whether settling the block stops the spinner.
pub open spec fn flush_stops_progress(b: Seq<Seq<char>>, output_mode: BuildOutputMode) -> bool {
    b.len() > 0 && classify_block(b) == DiagnosticBlockKind::Forwarded && output_mode
        != BuildOutputMode::Json
}

/// The reader of one cargo command's stderr, between lines.
pub struct StderrObserver {
    pub block: Vec<String>,
    pub tally: StderrTally,
    pub output_mode: BuildOutputMode,
    pub progress_active: bool,
}

impl StderrObserver {
    /// A reader that has seen nothing yet; `progress_active` says whether
    /// the spinner was started.
    pub fn new(output_mode: BuildOutputMode, progress_active: bool) -> (r: Self)
        ensures
            r.block@.len() == 0,
            r.tally == (StderrTally {
                suppression_notice: SuppressionNotice::Pending,
                compiler_warning_facts: CompilerWarningFacts::Absent,
                warning_count: 0,
                fixable_count: 0,
            }),
            r.output_mode == output_mode,
            r.progress_active == progress_active,
    {
        StderrObserver {
            block: Vec::new(),
            tally: StderrTally {
                suppression_notice: SuppressionNotice::Pending,
                compiler_warning_facts: CompilerWarningFacts::Absent,
                warning_count: 0,
                fixable_count: 0,
            },
            output_mode,
            progress_active,
        }
    }

    fn flush(&mut self) -> (effects: Vec<StderrEffect>)
        ensures
            final(self).block@.len() == 0,
            final(self).tally == flush_tally(
                strings_view(old(self).block@),
                old(self).tally,
                old(self).output_mode,
            ),
            final(self).output_mode == old(self).output_mode,
            final(self).progress_active == (old(self).progress_active && !flush_stops_progress(
                strings_view(old(self).block@),
                old(self).output_mode,
            )),
            effects_view(effects@) == flush_effects(
                strings_view(old(self).block@),
                old(self).tally.suppression_notice,
                old(self).output_mode,
            ),
    {
        let stops = self.block.len() > 0 && self.output_mode != BuildOutputMode::Json
            && classify_diagnostic_block(&self.block) == DiagnosticBlockKind::Forwarded;
        let effects = flush_diagnostic_block(&mut self.block, &mut self.tally, self.output_mode);
        if stops {
            self.progress_active = false;
        }
        effects
    }

    /// Takes one line of cargo's stderr and returns the output it calls for.
    ///
    /// A progress line settles the pending block and is echoed when
    /// [`should_forward_progress_line`] allows; a blank line ends the block
    /// and settles it; any other line joins the block.
    pub fn observe_line(&mut self, line: String) -> (effects: Vec<StderrEffect>)
        ensures
            final(self).output_mode == old(self).output_mode,
            ({
                let b = strings_view(old(self).block@);
                let mode = old(self).output_mode;
                if is_progress_line_spec(line@) {
                    let active = old(self).progress_active && !flush_stops_progress(b, mode);
                    let status = if active {
                        ProgressStatus::Active
                    } else {
                        ProgressStatus::Inactive
                    };
                    &&& final(self).block@.len() == 0
                    &&& final(self).tally == flush_tally(b, old(self).tally, mode)
                    &&& final(self).progress_active == active
                    &&& effects_view(effects@) == flush_effects(
                        b,
                        old(self).tally.suppression_notice,
                        mode,
                    ) + (if forwards_progress_line(line@, mode, status) {
                        seq![EffectView::Echo(line@)]
                    } else {
                        Seq::empty()
                    })
                } else if is_blank(line@) {
                    let b2 = b.push(line@);
                    &&& final(self).block@.len() == 0
                    &&& final(self).tally == flush_tally(b2, old(self).tally, mode)
                    &&& final(self).progress_active == (old(self).progress_active
                        && !flush_stops_progress(b2, mode))
                    &&& effects_view(effects@) == flush_effects(
                        b2,
                        old(self).tally.suppression_notice,
                        mode,
                    )
                } else {
                    &&& strings_view(final(self).block@) == b.push(line@)
                    &&& final(self).tally == old(self).tally
                    &&& final(self).progress_active == old(self).progress_active
                    &&& effects@.len() == 0
                }
            }),
    {
        if is_progress_line(line.as_str()) {
            let mut effects = self.flush();
            let status = if self.progress_active {
                ProgressStatus::Active
            } else {
                ProgressStatus::Inactive
            };
            if should_forward_progress_line(line.as_str(), self.output_mode, status) {
                let ghost before = effects@;
                let ghost v = line@;
                effects.push(StderrEffect::Echo(line));
                assert(effects_view(effects@) =~= effects_view(before) + seq![EffectView::Echo(v)]);
            } else {
                assert(effects_view(effects@) =~= effects_view(effects@) + Seq::<EffectView>::empty());
            }
            effects
        } else if line_is_blank(line.as_str()) {
            let ghost v = line@;
            let ghost b = self.block@;
            self.block.push(line);
            assert(strings_view(self.block@) =~= strings_view(b).push(v));
            self.flush()
        } else {
            let ghost v = line@;
            let ghost b = self.block@;
            self.block.push(line);
            assert(strings_view(self.block@) =~= strings_view(b).push(v));
            Vec::new()
        }
    }

    /// Settles whatever block is still pending when cargo's stderr closes.
    pub fn finish(&mut self) -> (effects: Vec<StderrEffect>)
        ensures
            final(self).block@.len() == 0,
            final(self).tally == flush_tally(
                strings_view(old(self).block@),
                old(self).tally,
                old(self).output_mode,
            ),
            effects_view(effects@) == flush_effects(
                strings_view(old(self).block@),
                old(self).tally.suppression_notice,
                old(self).output_mode,
            ),
    {
        self.flush()
    }
}

} // verus!
