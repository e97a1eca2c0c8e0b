//! Whether the public surface of an item (its attributes and the types its
//! signature, fields or variants write) mentions a name.
//!
//! An item's surface is held as what the check reads of it: whether the
//! item is `pub` and of a kind with a surface, the tokens of each of its
//! attributes, and every path its surface types write, nested ones
//! included. The application builds it from the parsed item.

use vstd::prelude::*;

use crate::text::chars_of;
use crate::text::chars_eq;
use crate::text::copy_range;

verus! {

/// A token of an attribute.
#[derive(Debug)]
pub enum SurfaceToken {
    /// A delimited group and its tokens.
    Group { tokens: Vec<SurfaceToken> },
    /// An identifier, as written.
    Ident { text: String },
    /// A literal, as written (a string literal with its quotes).
    Literal { text: String },
    Punct,
}

/// What the check reads of an item.
#[derive(Debug)]
pub struct ItemSurface {
    /// The item is `pub` and is a constant, enum, function, static, struct,
    /// trait or type alias.
    pub public_with_surface: bool,
    /// The tokens of each attribute of the item.
    pub attributes: Vec<Vec<SurfaceToken>>,
    /// The segments of every path the surface types write, in visiting
    /// order, nested paths included.
    pub surface_paths: Vec<Vec<String>>,
}

/// `s` with every leading `c` dropped.
pub open spec fn trim_start_char(s: Seq<char>, c: char) -> Seq<char>
    decreases s.len(),
{
    if s.len() > 0 && s[0] == c {
        trim_start_char(s.drop_first(), c)
    } else {
        s
    }
}

/// `s` with every trailing `c` dropped.
pub open spec fn trim_end_char(s: Seq<char>, c: char) -> Seq<char>
    decreases s.len(),
{
    if s.len() > 0 && s.last() == c {
        trim_end_char(s.drop_last(), c)
    } else {
        s
    }
}

/// What `str::trim_matches(c)` leaves of `s`.
pub open spec fn trim_matches_char(s: Seq<char>, c: char) -> Seq<char> {
    trim_end_char(trim_start_char(s, c), c)
}

/// A literal compared as a name: its quotes, then `r`s, then `#`s trimmed
/// from both ends.
pub open spec fn literal_as_name(text: Seq<char>) -> Seq<char> {
    trim_matches_char(trim_matches_char(trim_matches_char(text, '"'), 'r'), '#')
}

/// A token mentions `name`: an identifier spelled `name`, a literal that
/// reads as `name`, or a group holding such a token.
pub open spec fn token_mentions(t: SurfaceToken, name: Seq<char>) -> bool
    decreases t,
{
    match t {
        SurfaceToken::Group { tokens } => tokens_mention(tokens@, name),
        SurfaceToken::Ident { text } => text@ == name,
        SurfaceToken::Literal { text } => literal_as_name(text@) == name,
        SurfaceToken::Punct => false,
    }
}

/// Some token of the list mentions `name`.
pub open spec fn tokens_mention(s: Seq<SurfaceToken>, name: Seq<char>) -> bool
    decreases s,
{
    if s.len() == 0 {
        false
    } else {
        tokens_mention(s.drop_last(), name) || token_mentions(s.last(), name)
    }
}

/// Some path of the surface ends in `name`.
pub open spec fn path_mentions(paths: Seq<Vec<String>>, name: Seq<char>) -> bool {
    exists|i: int|
        0 <= i < paths.len() && paths[i]@.len() > 0 && (#[trigger] paths[i])@.last()@ == name
}

/// Some attribute mentions `name`.
pub open spec fn attributes_mention(attributes: Seq<Vec<SurfaceToken>>, name: Seq<char>) -> bool {
    exists|i: int| 0 <= i < attributes.len() && tokens_mention((#[trigger] attributes[i])@, name)
}

/// The public surface of the item mentions `name`, in an attribute or as
/// the last segment of a path its surface types write.
pub open spec fn surface_mentions_name(item: ItemSurface, name: Seq<char>) -> bool {
    item.public_with_surface && (attributes_mention(item.attributes@, name) || path_mentions(
        item.surface_paths@,
        name,
    ))
}

/// What `text.trim_matches(c)` leaves.
pub fn trim_matches(text: &Vec<char>, c: char) -> (r: Vec<char>)
    ensures
        r@ == trim_matches_char(text@, c),
{
    let ghost s = text@;
    let mut start: usize = 0;
    assert(s.skip(0) =~= s);
    while start < text.len() && text[start] == c
        invariant
            start <= text.len(),
            s == text@,
            trim_start_char(s, c) == trim_start_char(s.skip(start as int), c),
        decreases text.len() - start,
    {
        assert(s.skip(start as int).drop_first() =~= s.skip(start + 1));
        start = start + 1;
    }
    let ghost after_start = s.skip(start as int);
    let mut end: usize = text.len();
    assert(after_start.take(after_start.len() as int) =~= after_start);
    while end > start && text[end - 1] == c
        invariant
            start <= end <= text.len(),
            s == text@,
            after_start == s.skip(start as int),
            trim_end_char(after_start, c) == trim_end_char(s.subrange(start as int, end as int), c),
        decreases end,
    {
        assert(s.subrange(start as int, end as int).drop_last() =~= s.subrange(
            start as int,
            end - 1,
        ));
        end = end - 1;
    }
    copy_range(text, start, end)
}

fn text_equals(a: &Vec<char>, b: &str) -> (r: bool)
    ensures
        r == (a@ == b@),
{
    chars_eq(a, &chars_of(b))
}

/// Whether a token mentions `name`.
pub fn token_mentions_name(token: &SurfaceToken, name: &str) -> (r: bool)
    ensures
        r == token_mentions(*token, name@),
    decreases token,
{
    match token {
        SurfaceToken::Group { tokens } => {
            let mut i: usize = 0;
            let mut found = false;
            assert(tokens@.take(0) =~= seq![]);
            while i < tokens.len()
                invariant
                    i <= tokens.len(),
                    *token == (SurfaceToken::Group { tokens: *tokens }),
                    found == tokens_mention(tokens@.take(i as int), name@),
                decreases tokens.len() - i,
            {
                proof {
                    assert(decreases_to!(*token => token->tokens));
                    assert(decreases_to!(token->tokens => token->tokens[i as int]));
                }
                let here = token_mentions_name(&tokens[i], name);
                assert(tokens@.take(i + 1).drop_last() =~= tokens@.take(i as int));
                assert(tokens@.take(i + 1).last() == tokens@[i as int]);
                found = found || here;
                i = i + 1;
            }
            assert(tokens@.take(tokens.len() as int) =~= tokens@);
            found
        },
        SurfaceToken::Ident { text } => text_equals(&chars_of(text.as_str()), name),
        SurfaceToken::Literal { text } => {
            let unquoted = trim_matches(&chars_of(text.as_str()), '"');
            let unraw = trim_matches(&unquoted, 'r');
            let bare = trim_matches(&unraw, '#');
            text_equals(&bare, name)
        },
        SurfaceToken::Punct => false,
    }
}

/// Whether an attribute's tokens mention `name`.
pub fn attribute_tokens_mention_name(tokens: &Vec<SurfaceToken>, name: &str) -> (r: bool)
    ensures
        r == tokens_mention(tokens@, name@),
{
    let mut i: usize = 0;
    let mut found = false;
    assert(tokens@.take(0) =~= seq![]);
    while i < tokens.len()
        invariant
            i <= tokens.len(),
            found == tokens_mention(tokens@.take(i as int), name@),
        decreases tokens.len() - i,
    {
        let here = token_mentions_name(&tokens[i], name);
        assert(tokens@.take(i + 1).drop_last() =~= tokens@.take(i as int));
        assert(tokens@.take(i + 1).last() == tokens@[i as int]);
        found = found || here;
        i = i + 1;
    }
    assert(tokens@.take(tokens.len() as int) =~= tokens@);
    found
}

/// Whether some attribute mentions `name`.
pub fn attributes_mention_name(attributes: &Vec<Vec<SurfaceToken>>, name: &str) -> (r: bool)
    ensures
        r == attributes_mention(attributes@, name@),
{
    let mut i: usize = 0;
    while i < attributes.len()
        invariant
            i <= attributes.len(),
            forall|j: int| 0 <= j < i ==> !tokens_mention((#[trigger] attributes@[j])@, name@),
        decreases attributes.len() - i,
    {
        if attribute_tokens_mention_name(&attributes[i], name) {
            return true;
        }
        i = i + 1;
    }
    false
}

/// Whether the public surface of `item` mentions `item_name`: in one of
/// its attributes, or as the last segment of a path its surface types
/// write.
pub fn public_item_surface_mentions_name(item: &ItemSurface, item_name: &str) -> (r: bool)
    ensures
        r == surface_mentions_name(*item, item_name@),
{
    if !item.public_with_surface {
        return false;
    }
    if attributes_mention_name(&item.attributes, item_name) {
        return true;
    }
    let mut i: usize = 0;
    while i < item.surface_paths.len()
        invariant
            i <= item.surface_paths.len(),
            item.public_with_surface,
            !attributes_mention(item.attributes@, item_name@),
            forall|j: int|
                0 <= j < i ==> !((#[trigger] item.surface_paths@[j])@.len() > 0
                    && item.surface_paths@[j]@.last()@ == item_name@),
        decreases item.surface_paths.len() - i,
    {
        let path = &item.surface_paths[i];
        if path.len() > 0 && text_equals(&chars_of(path[path.len() - 1].as_str()), item_name) {
            assert(item.surface_paths@[i as int]@.last()@ == item_name@);
            return true;
        }
        i = i + 1;
    }
    false
}

} // verus!
