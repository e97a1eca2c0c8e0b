//! The spinner line mend draws on stderr while cargo runs.
//!
//! Drawing happens on a background thread in the application; here are the
//! texts it draws and the choice of whether to draw at all.

use vstd::prelude::*;

use crate::ordered::ascending;
use crate::ordered::insert_text;
use crate::ordered::text_set;
use crate::ordered::texts;
use crate::cargo_output::BuildOutputMode;
use crate::text::string_from_chars;

verus! {

/// The status text for a mode, or `None` when no spinner is drawn.
pub open spec fn progress_message_spec(output_mode: BuildOutputMode) -> Option<Seq<char>> {
    match output_mode {
        BuildOutputMode::SuppressUnusedImportWarnings => Some("checking for fix candidates"@),
        BuildOutputMode::Quiet => Some("validating applied fixes"@),
        BuildOutputMode::Full => Some("analyzing"@),
        BuildOutputMode::Json => None,
    }
}

/// The spinner's status text for an output mode; JSON output draws none.
pub fn progress_message_for(output_mode: BuildOutputMode) -> (r: Option<&'static str>)
    ensures
        r is None <==> progress_message_spec(output_mode) is None,
        r is Some ==> r->0@ == progress_message_spec(output_mode)->0,
{
    match output_mode {
        BuildOutputMode::SuppressUnusedImportWarnings => Some("checking for fix candidates"),
        BuildOutputMode::Quiet => Some("validating applied fixes"),
        BuildOutputMode::Full => Some("analyzing"),
        BuildOutputMode::Json => None,
    }
}

/// The spinner glyph of a frame.
pub open spec fn frame_glyph(frame_index: int) -> char {
    let i = frame_index % 4;
    if i == 0 {
        '|'
    } else if i == 1 {
        '/'
    } else if i == 2 {
        '-'
    } else {
        '\\'
    }
}

pub open spec fn progress_frame_spec(message: Seq<char>, frame_index: int) -> Seq<char> {
    seq!['\r', 'm', 'e', 'n', 'd', ':', ' ', frame_glyph(frame_index), ' '] + message
}

/// One frame of the spinner line: a carriage return, `mend:`, the glyph,
/// and the message.
pub fn progress_frame(message: &str, frame_index: usize) -> (r: String)
    ensures
        r@ == progress_frame_spec(message@, frame_index as int),
{
    let glyph = match frame_index % 4 {
        0 => '|',
        1 => '/',
        2 => '-',
        _ => '\\',
    };
    let mut v: Vec<char> = Vec::new();
    v.push('\r');
    v.push('m');
    v.push('e');
    v.push('n');
    v.push('d');
    v.push(':');
    v.push(' ');
    v.push(glyph);
    v.push(' ');
    let mut s = string_from_chars(&v);
    s.append(message);
    assert(v@ =~= seq!['\r', 'm', 'e', 'n', 'd', ':', ' ', frame_glyph(frame_index as int), ' ']);
    s
}

/// The visible width of the spinner line: the frame without its leading
/// carriage return.
pub fn progress_line_width(message: &str) -> (w: usize)
    requires
        message@.len() + 9 <= usize::MAX,
    ensures
        w == progress_frame_spec(message@, 0).len() - 1,
{
    let n = message.unicode_len();
    n + 8
}

pub open spec fn clear_line_spec(width: nat) -> Seq<char> {
    seq!['\r'] + Seq::new(width, |i: int| ' ') + seq!['\r']
}

/// Blanks `width` columns of the spinner line and returns to its start.
pub fn clear_progress_line(width: usize) -> (r: String)
    requires
        width < usize::MAX,
    ensures
        r@ == clear_line_spec(width as nat),
{
    let mut v: Vec<char> = Vec::new();
    v.push('\r');
    let mut i: usize = 0;
    while i < width
        invariant
            i <= width,
            v@ == seq!['\r'] + Seq::new(i as nat, |k: int| ' '),
        decreases width - i,
    {
        v.push(' ');
        i = i + 1;
        assert(v@ =~= seq!['\r'] + Seq::new(i as nat, |k: int| ' '));
    }
    v.push('\r');
    assert(v@ =~= clear_line_spec(width as nat));
    string_from_chars(&v)
}

pub open spec fn join_names(names: Seq<Seq<char>>) -> Seq<char>
    decreases names.len(),
{
    if names.len() == 0 {
        Seq::empty()
    } else if names.len() == 1 {
        names[0]
    } else {
        names[0] + ", "@ + join_names(names.drop_first())
    }
}

pub open spec fn analyzing_status_spec(targets: Seq<Seq<char>>, fallback: Seq<char>) -> Seq<char> {
    if targets.len() == 0 {
        fallback
    } else {
        "analyzing "@ + join_names(targets)
    }
}

proof fn lemma_join_names_push(p: Seq<Seq<char>>, x: Seq<char>)
    requires
        p.len() >= 1,
    ensures
        join_names(p.push(x)) == join_names(p) + ", "@ + x,
    decreases p.len(),
{
    let q = p.push(x);
    if p.len() == 1 {
        assert(q.drop_first() =~= seq![x]);
        assert(join_names(q) == q[0] + ", "@ + join_names(q.drop_first()));
    } else {
        lemma_join_names_push(p.drop_first(), x);
        assert(q.drop_first() =~= p.drop_first().push(x));
        assert(join_names(q) == q[0] + ", "@ + join_names(q.drop_first()));
        assert(join_names(p) == p[0] + ", "@ + join_names(p.drop_first()));
        assert(join_names(q) =~= join_names(p) + ", "@ + x);
    }
}

/// The spinner text for one frame: the crates under analysis right now, or
/// `fallback` when none is.
pub fn analyzing_status(targets: &Vec<String>, fallback: &str) -> (r: String)
    ensures
        r@ == analyzing_status_spec(crate::cargo_output::strings_view(targets@), fallback@),
{
    let ghost names = crate::cargo_output::strings_view(targets@);
    if targets.len() == 0 {
        return String::from_str(fallback);
    }
    let mut joined = targets[0].clone();
    assert(names.take(1) =~= seq![names[0]]);
    let mut i: usize = 1;
    while i < targets.len()
        invariant
            1 <= i <= targets.len(),
            names == crate::cargo_output::strings_view(targets@),
            joined@ == join_names(names.take(i as int)),
        decreases targets.len() - i,
    {
        joined.append(", ");
        joined.append(targets[i].as_str());
        proof {
            reveal_strlit(", ");
            lemma_join_names_push(names.take(i as int), names[i as int]);
            assert(names.take(i + 1) =~= names.take(i as int).push(names[i as int]));
        }
        i = i + 1;
    }
    assert(names.take(i as int) =~= names);
    let mut status = String::from_str("analyzing ");
    status.append(joined.as_str());
    proof {
        reveal_strlit("analyzing ");
    }
    status
}

/// The crate names under analysis right now, from the contents of the
/// markers the analyzing wrappers left: each non-empty name once, sorted so
/// the progress line does not reorder itself between frames.
pub fn targets_in_flight(marker_contents: &Vec<String>) -> (names: Vec<String>)
    ensures
        ascending(texts(names@)),
        text_set(names@) == Set::new(
            |n: Seq<char>| n.len() > 0 && text_set(marker_contents@).contains(n),
        ),
{
    let mut names: Vec<String> = Vec::new();
    let mut i: usize = 0;
    while i < marker_contents.len()
        invariant
            i <= marker_contents.len(),
            ascending(texts(names@)),
            text_set(names@) == Set::new(
                |n: Seq<char>| n.len() > 0 && texts(marker_contents@).take(i as int).contains(n),
            ),
        decreases marker_contents.len() - i,
    {
        let ghost before = text_set(names@);
        let name = &marker_contents[i];
        if !name.as_str().is_empty() {
            insert_text(&mut names, name.clone());
        }
        i = i + 1;
        proof {
            let t = texts(marker_contents@);
            let prev = t.take(i - 1);
            let cur = t.take(i as int);
            assert(cur =~= prev.push(t[i - 1]));
            assert(t[i - 1] == marker_contents@[i - 1]@);
            assert forall|n: Seq<char>| cur.contains(n) <==> (prev.contains(n) || n == t[i - 1]) by {
                if cur.contains(n) {
                    let k = choose|k: int| 0 <= k < cur.len() && cur[k] == n;
                    if k < prev.len() {
                        assert(prev[k] == n);
                    }
                }
                if prev.contains(n) {
                    let k = choose|k: int| 0 <= k < prev.len() && prev[k] == n;
                    assert(cur[k] == n);
                }
                if n == t[i - 1] {
                    assert(cur[i - 1] == n);
                }
            }
            assert(text_set(names@) =~= Set::new(
                |n: Seq<char>| n.len() > 0 && t.take(i as int).contains(n),
            ));
        }
    }
    proof {
        let t = texts(marker_contents@);
        assert(t.take(marker_contents@.len() as int) =~= t);
        assert(text_set(names@) =~= Set::new(
            |n: Seq<char>| n.len() > 0 && text_set(marker_contents@).contains(n),
        ));
    }
    names
}

} // verus!
