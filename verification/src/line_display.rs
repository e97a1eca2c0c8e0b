//! The source line a finding shows, and where on it the highlight starts
//! and how long it is.
//!
//! Columns and lengths count bytes of the line's UTF-8 text, as the
//! terminal report lines them up.

use vstd::prelude::*;

use crate::text::byte_len;
use crate::text::char_width;
use crate::text::chars_of;
use crate::text::copy_range;
use crate::text::leading_lines_len;
use crate::text::string_from_chars;
use crate::text::utf8_len;
use crate::text::utf8_width;

verus! {

/// Where a finding stands on its source line.
#[derive(Debug, Clone, PartialEq, Eq)]
pub struct LineDisplay {
    /// 1-based.
    pub line: usize,
    /// 1-based.
    pub column: usize,
    pub highlight_len: usize,
    pub source_line: String,
}

/// Where the line that starts at `p` ends: at the next line feed, or at the
/// end of the text.
pub open spec fn line_end(s: Seq<char>, p: int) -> int
    decreases s.len() - p,
{
    if p < 0 || p >= s.len() || s[p] == '\n' {
        p
    } else {
        line_end(s, p + 1)
    }
}

/// What `str::lines` yields at position `k`: the line's text without its
/// line feed, and without the carriage return of a `\r\n` ending; none past
/// the last line.
pub open spec fn nth_line(s: Seq<char>, k: nat) -> Option<Seq<char>> {
    let p = leading_lines_len(s, k) as int;
    if p >= s.len() {
        None
    } else {
        let e = line_end(s, p);
        let raw = s.subrange(p, e);
        if e < s.len() && raw.len() > 0 && raw.last() == '\r' {
            Some(raw.drop_last())
        } else {
            Some(raw)
        }
    }
}

/// The text of the 1-based `line`, or nothing when the text has no such
/// line.
pub open spec fn source_line_spec(s: Seq<char>, line: nat) -> Seq<char> {
    let k: nat = if line >= 1 {
        (line - 1) as nat
    } else {
        0
    };
    match nth_line(s, k) {
        Some(text) => text,
        None => seq![],
    }
}

/// The characters with Unicode's `White_Space` property, those
/// `char::is_whitespace` accepts.
pub open spec fn is_white_space(c: char) -> bool {
    let u = c as u32;
    ||| 0x9 <= u <= 0xD
    ||| u == 0x20
    ||| u == 0x85
    ||| u == 0xA0
    ||| u == 0x1680
    ||| 0x2000 <= u <= 0x200A
    ||| u == 0x2028
    ||| u == 0x2029
    ||| u == 0x202F
    ||| u == 0x205F
    ||| u == 0x3000
}

/// The first position at or after `i` that does (`white` true) or does not
/// (`white` false) hold whitespace, or the end.
pub open spec fn first_where(s: Seq<char>, i: int, white: bool) -> int
    decreases s.len() - i,
{
    if i < 0 || i >= s.len() || is_white_space(s[i]) == white {
        i
    } else {
        first_where(s, i + 1, white)
    }
}

/// Where a finding on `line` of `text` is shown when only its line is
/// known: at the line's first non-blank character, highlighting the word
/// that starts there (at least one column).
pub open spec fn line_finding_display(s: Seq<char>, line: nat) -> (Seq<char>, nat, nat) {
    let source_line = source_line_spec(s, line);
    let lead = first_where(source_line, 0, false);
    let trimmed = source_line.skip(lead);
    let word = utf8_len(trimmed.take(first_where(trimmed, 0, true)));
    (source_line, utf8_len(source_line.take(lead)) + 1, if word >= 1 {
        word
    } else {
        1
    })
}

pub proof fn lemma_utf8_len_concat(a: Seq<char>, b: Seq<char>)
    ensures
        utf8_len(a + b) == utf8_len(a) + utf8_len(b),
    decreases b.len(),
{
    if b.len() > 0 {
        lemma_utf8_len_concat(a, b.drop_last());
        assert((a + b).drop_last() =~= a + b.drop_last());
    } else {
        assert(a + b =~= a);
    }
}

pub proof fn lemma_utf8_len_subrange(s: Seq<char>, lo: int, hi: int)
    requires
        0 <= lo <= hi <= s.len(),
    ensures
        utf8_len(s.subrange(lo, hi)) <= utf8_len(s),
{
    lemma_utf8_len_concat(s.take(lo), s.subrange(lo, hi));
    lemma_utf8_len_concat(s.take(lo) + s.subrange(lo, hi), s.skip(hi));
    assert(s.take(lo) + s.subrange(lo, hi) + s.skip(hi) =~= s);
}

/// The text of the 1-based `line` of `text`, empty when there is no such
/// line.
pub fn source_line_at(text: &str, line: usize) -> (r: String)
    ensures
        r@ == source_line_spec(text@, line as nat),
{
    let v = chars_of(text);
    let ghost s = text@;
    let lines_before: usize = if line >= 1 {
        line - 1
    } else {
        0
    };
    let mut remaining: usize = lines_before;
    let mut i: usize = 0;
    assert(s.skip(0) =~= s);
    while i < v.len() && remaining > 0
        invariant
            v@ == s,
            i <= v.len(),
            i + leading_lines_len(s.skip(i as int), remaining as nat) == leading_lines_len(
                s,
                lines_before as nat,
            ),
        decreases v.len() - i,
    {
        assert(s.skip(i as int).drop_first() =~= s.skip(i + 1));
        assert(s.skip(i as int)[0] == v[i as int]);
        if v[i] == '\n' {
            remaining = remaining - 1;
        }
        i = i + 1;
    }
    proof {
        if i == v.len() {
            assert(s.skip(i as int).len() == 0);
        }
    }
    if i >= v.len() {
        return String::new();
    }
    let start = i;
    let mut end = i;
    while end < v.len() && v[end] != '\n'
        invariant
            v@ == s,
            start <= end <= v.len(),
            line_end(s, start as int) == line_end(s, end as int),
        decreases v.len() - end,
    {
        end = end + 1;
    }
    let cut = if end < v.len() && end > start && v[end - 1] == '\r' {
        end - 1
    } else {
        end
    };
    let out = copy_range(&v, start, cut);
    proof {
        let raw = s.subrange(start as int, end as int);
        if cut < end {
            assert(raw.drop_last() =~= s.subrange(start as int, cut as int));
        }
    }
    string_from_chars(&out)
}

/// Where a finding on `line` of `text` is shown when only its line is
/// known: the line, the column of its first non-blank character, and the
/// length of the word that starts there (at least one).
pub fn build_line_display(text: &str, line: usize) -> (r: LineDisplay)
    requires
        utf8_len(text@) < usize::MAX,
    ensures
        r.line == line,
        (r.source_line@, r.column as nat, r.highlight_len as nat) == line_finding_display(
            text@,
            line as nat,
        ),
{
    let total = byte_len(text);
    let source_line = source_line_at(text, line);
    let v = chars_of(source_line.as_str());
    let ghost s = source_line@;
    proof {
        let k: nat = if line >= 1 {
            (line - 1) as nat
        } else {
            0
        };
        let p = leading_lines_len(text@, k) as int;
        if p < text@.len() {
            let e = line_end(text@, p);
            lemma_line_end_bounds(text@, p);
            lemma_utf8_len_subrange(text@, p, e);
            if e < text@.len() && e > p && text@[e - 1] == '\r' {
                assert(text@.subrange(p, e).drop_last() =~= text@.subrange(p, e - 1));
                lemma_utf8_len_subrange(text@, p, e - 1);
            }
        } else {
            assert(utf8_len(seq![]) == 0);
        }
    }
    let mut lead: usize = 0;
    let mut lead_bytes: usize = 0;
    assert(s.take(0) =~= seq![]);
    while lead < v.len() && is_whitespace_char(v[lead])
        invariant
            v@ == s,
            lead <= v.len(),
            first_where(s, 0, false) == first_where(s, lead as int, false),
            lead_bytes == utf8_len(s.take(lead as int)),
            utf8_len(s) < usize::MAX,
        decreases v.len() - lead,
    {
        proof {
            assert(s.take(lead + 1).drop_last() =~= s.take(lead as int));
            lemma_utf8_len_subrange(s, 0, lead + 1);
            assert(s.subrange(0, lead + 1) =~= s.take(lead + 1));
        }
        lead_bytes = lead_bytes + char_width(v[lead]);
        lead = lead + 1;
    }
    proof {
        lemma_utf8_len_subrange(s, 0, lead as int);
        assert(s.subrange(0, lead as int) =~= s.take(lead as int));
    }
    let ghost trimmed = s.skip(lead as int);
    let mut cut: usize = lead;
    let mut word_bytes: usize = 0;
    assert(trimmed.take(0) =~= seq![]);
    assert(trimmed =~= s.subrange(lead as int, s.len() as int));
    while cut < v.len() && !is_whitespace_char(v[cut])
        invariant
            v@ == s,
            lead <= cut <= v.len(),
            trimmed == s.skip(lead as int),
            lead_bytes == utf8_len(s.take(lead as int)),
            lead_bytes < usize::MAX,
            first_where(trimmed, 0, true) == first_where(trimmed, cut - lead, true),
            word_bytes == utf8_len(trimmed.take(cut - lead)),
            utf8_len(s) < usize::MAX,
        decreases v.len() - cut,
    {
        proof {
            assert(trimmed[cut - lead] == v[cut as int]);
            assert(trimmed.take(cut - lead + 1).drop_last() =~= trimmed.take(cut - lead));
            assert(trimmed.take(cut - lead + 1) =~= s.subrange(lead as int, cut + 1));
            lemma_utf8_len_subrange(s, lead as int, cut + 1);
        }
        word_bytes = word_bytes + char_width(v[cut]);
        cut = cut + 1;
    }
    proof {
        if cut < v.len() {
            assert(trimmed[cut - lead] == v[cut as int]);
        }
    }
    let highlight_len = if word_bytes >= 1 {
        word_bytes
    } else {
        1
    };
    LineDisplay { line, column: lead_bytes + 1, highlight_len, source_line }
}

proof fn lemma_line_end_bounds(s: Seq<char>, p: int)
    requires
        0 <= p <= s.len(),
    ensures
        p <= line_end(s, p) <= s.len(),
    decreases s.len() - p,
{
    if p < s.len() && s[p] != '\n' {
        lemma_line_end_bounds(s, p + 1);
    }
}

/// Whether `c` is whitespace, as `char::is_whitespace` answers.
pub fn is_whitespace_char(c: char) -> (r: bool)
    ensures
        r == is_white_space(c),
{
    let u = c as u32;
    (0x9 <= u && u <= 0xD) || u == 0x20 || u == 0x85 || u == 0xA0 || u == 0x1680 || (0x2000 <= u
        && u <= 0x200A) || u == 0x2028 || u == 0x2029 || u == 0x202F || u == 0x205F || u == 0x3000
}

/// Where a finding is shown when the compiler gives its span: the line and
/// display column the span starts at, and as many columns as the span
/// covers on that line (at least one; one when it runs onto another line).
pub fn line_display(
    text: &str,
    start_line: usize,
    start_column: usize,
    end_line: usize,
    end_column: usize,
) -> (r: LineDisplay)
    requires
        start_column < usize::MAX,
    ensures
        r.line == start_line,
        r.column == start_column + 1,
        r.highlight_len == (if start_line == end_line {
            if end_column > start_column {
                end_column - start_column
            } else {
                1
            }
        } else {
            1
        }),
        r.source_line@ == source_line_spec(text@, start_line as nat),
{
    let highlight_len = if start_line == end_line {
        if end_column > start_column {
            end_column - start_column
        } else {
            1
        }
    } else {
        1
    };
    LineDisplay {
        line: start_line,
        column: start_column + 1,
        highlight_len,
        source_line: source_line_at(text, start_line),
    }
}

} // verus!
