//! Whether analyzing with every feature enabled sees every item of the
//! sources: it does not when some item is compiled only while a feature is
//! off (`#[cfg(not(feature = ..))]`), or when an attribute's predicate
//! cannot be read.
//!
//! Attributes are held as meta items and macro bodies as token trees, as
//! much of them as this scan reads; the application builds them from the
//! parsed sources.

use vstd::prelude::*;

use crate::boundary::text_is;
use crate::findings::AllFeaturesCoverage;

verus! {

/// An attribute's meta item. `ident` is the path's identifier when the path
/// is a single plain identifier (`cfg`, `not`, `feature`, ...).
#[derive(Debug)]
pub enum MetaItem {
    /// `path`
    Path { ident: Option<String> },
    /// `path = value`: `value` holds the text of a string literal value.
    NameValue { ident: Option<String>, value: Option<String> },
    /// `path(...)`: the arguments as a comma-separated list of meta items,
    /// or none when they do not read as one.
    List { ident: Option<String>, nested: Option<Vec<MetaItem>> },
}

/// A token of a macro body.
#[derive(Debug)]
pub enum TokenItem {
    /// A delimited group. `meta` is its contents read as one meta item, for
    /// a bracketed group whose contents read as one.
    Group { bracketed: bool, stream: Vec<TokenItem>, meta: Option<MetaItem> },
    Punct { ch: char },
    Ident,
    Literal,
}

/// A place in a source file where the scan looks: an attribute, or the
/// token body of a macro invocation or definition.
#[derive(Debug)]
pub enum GateSite {
    Attribute { meta: MetaItem },
    Macro { tokens: Vec<TokenItem> },
}

/// Whether a cfg predicate stands inside a `not`.
#[derive(Debug, Clone, Copy, PartialEq, Eq, Structural)]
pub enum PredicatePolarity {
    Positive,
    Negated,
}

/// The coverage that a yes-or-no answer stands for.
pub open spec fn coverage_of(keeps: bool) -> AllFeaturesCoverage {
    if keeps {
        AllFeaturesCoverage::Superset
    } else {
        AllFeaturesCoverage::NotGuaranteed
    }
}

/// The identifier of a meta item's path, if it is a plain one.
pub open spec fn ident_of(m: MetaItem) -> Option<Seq<char>> {
    match m {
        MetaItem::Path { ident } => ident_text(ident),
        MetaItem::NameValue { ident, .. } => ident_text(ident),
        MetaItem::List { ident, .. } => ident_text(ident),
    }
}

pub open spec fn ident_text(ident: Option<String>) -> Option<Seq<char>> {
    match ident {
        Some(s) => Some(s@),
        None => None,
    }
}

/// A cfg predicate keeps all-features coverage: no `feature` predicate in
/// it stands under a `not` (counting `negated` for the enclosing ones), and
/// every argument list in it reads as meta items.
pub open spec fn predicate_keeps(m: MetaItem, negated: bool) -> bool
    decreases m,
{
    if ident_of(m) == Some("feature"@) {
        !negated
    } else {
        match m {
            MetaItem::List { ident, nested } => match nested {
                Some(v) => predicates_keep(v@, negated || ident_of(m) == Some("not"@)),
                None => false,
            },
            _ => true,
        }
    }
}

/// Every predicate of a list keeps coverage.
pub open spec fn predicates_keep(s: Seq<MetaItem>, negated: bool) -> bool
    decreases s,
{
    if s.len() == 0 {
        true
    } else {
        predicates_keep(s.drop_last(), negated) && predicate_keeps(s.last(), negated)
    }
}

/// An attribute keeps coverage: a `cfg(...)` whose predicates all keep it,
/// a `cfg_attr(predicate, attributes...)` whose predicate and attributes
/// keep it, or any other attribute.
pub open spec fn attribute_keeps(m: MetaItem) -> bool
    decreases m,
{
    match m {
        MetaItem::List { ident, nested } => if ident_of(m) == Some("cfg"@) {
            match nested {
                Some(v) => predicates_keep(v@, false),
                None => false,
            }
        } else if ident_of(m) == Some("cfg_attr"@) {
            match nested {
                Some(v) => v@.len() > 0 && predicate_keeps(v@[0], false) && attributes_keep(
                    v@.drop_first(),
                ),
                None => false,
            }
        } else {
            true
        },
        _ => true,
    }
}

/// Every attribute of a list keeps coverage.
pub open spec fn attributes_keep(s: Seq<MetaItem>) -> bool
    decreases s,
{
    if s.len() == 0 {
        true
    } else {
        attributes_keep(s.drop_last()) && attribute_keeps(s.last())
    }
}

/// The token at `i`, if it is a `#` followed by a bracketed group that reads
/// as a meta item, is an attribute that keeps coverage.
pub open spec fn attribute_token_keeps(s: Seq<TokenItem>, i: int) -> bool {
    match s[i] {
        TokenItem::Punct { ch } => ch != '#' || i + 1 >= s.len() || match s[i + 1] {
            TokenItem::Group { bracketed, meta, .. } => !bracketed || match meta {
                Some(m) => attribute_keeps(m),
                None => true,
            },
            _ => true,
        },
        _ => true,
    }
}

/// Every group of a token list, at any depth, keeps coverage.
pub open spec fn groups_keep(s: Seq<TokenItem>) -> bool
    decreases s,
{
    if s.len() == 0 {
        true
    } else {
        groups_keep(s.drop_last()) && group_keeps(s.last())
    }
}

/// A token keeps coverage: a group does when its tokens do.
pub open spec fn group_keeps(t: TokenItem) -> bool
    decreases t,
{
    match t {
        TokenItem::Group { stream, .. } => attribute_tokens_keep(stream@) && groups_keep(stream@),
        _ => true,
    }
}

/// Every attribute written in a token list, at its own level, keeps
/// coverage.
pub open spec fn attribute_tokens_keep(s: Seq<TokenItem>) -> bool {
    forall|i: int| 0 <= i < s.len() ==> #[trigger] attribute_token_keeps(s, i)
}

/// A token list keeps coverage: its attributes do, and its groups do.
pub open spec fn tokens_keep(s: Seq<TokenItem>) -> bool {
    attribute_tokens_keep(s) && groups_keep(s)
}

/// A place the scan looks at keeps coverage.
pub open spec fn site_keeps(site: GateSite) -> bool {
    match site {
        GateSite::Attribute { meta } => attribute_keeps(meta),
        GateSite::Macro { tokens } => tokens_keep(tokens@),
    }
}

/// Every place the scan looked at keeps coverage.
pub open spec fn sites_keep(sites: Seq<GateSite>) -> bool {
    forall|i: int| 0 <= i < sites.len() ==> #[trigger] site_keeps(sites[i])
}

/// Whether a meta item's path is the plain identifier `name`.
pub(crate) fn meta_ident_is(m: &MetaItem, name: &str) -> (r: bool)
    ensures
        r == (ident_of(*m) == Some(name@)),
{
    let ident = match m {
        MetaItem::Path { ident } => ident,
        MetaItem::NameValue { ident, .. } => ident,
        MetaItem::List { ident, .. } => ident,
    };
    match ident {
        Some(text) => text_is(text, name),
        None => false,
    }
}

/// The coverage a cfg predicate leaves: lost when a `feature` predicate
/// stands under `not`, or an argument list does not read as meta items.
pub fn cfg_predicate_all_features_coverage(meta: &MetaItem, polarity: PredicatePolarity) -> (r:
    AllFeaturesCoverage)
    ensures
        r == coverage_of(predicate_keeps(*meta, polarity == PredicatePolarity::Negated)),
    decreases meta,
{
    if meta_ident_is(meta, "feature") {
        return match polarity {
            PredicatePolarity::Positive => AllFeaturesCoverage::Superset,
            PredicatePolarity::Negated => AllFeaturesCoverage::NotGuaranteed,
        };
    }
    match meta {
        MetaItem::List { nested, .. } => match nested {
            Some(items) => {
                let nested_polarity = if meta_ident_is(meta, "not") {
                    PredicatePolarity::Negated
                } else {
                    polarity
                };
                let ghost negated = nested_polarity == PredicatePolarity::Negated;
                let mut coverage = AllFeaturesCoverage::Superset;
                let mut i: usize = 0;
                while i < items.len()
                    invariant
                        i <= items.len(),
                        *nested == Some(*items),
                        *meta is List,
                        meta->nested == *nested,
                        negated == (nested_polarity == PredicatePolarity::Negated),
                        coverage == coverage_of(predicates_keep(items@.take(i as int), negated)),
                    decreases items.len() - i,
                {
                    proof {
                        assert(decreases_to!(*meta => meta->nested));
                        assert(decreases_to!(meta->nested => meta->nested->0));
                        assert(decreases_to!(meta->nested->0 => meta->nested->0[i as int]));
                    }
                    let here = cfg_predicate_all_features_coverage(&items[i], nested_polarity);
                    assert(items@.take(i + 1).drop_last() =~= items@.take(i as int));
                    assert(items@.take(i + 1).last() == items@[i as int]);
                    coverage = coverage.merge(here);
                    i = i + 1;
                }
                assert(items@.take(items.len() as int) =~= items@);
                coverage
            },
            None => AllFeaturesCoverage::NotGuaranteed,
        },
        _ => AllFeaturesCoverage::Superset,
    }
}

/// The coverage the predicates of a `cfg(...)` leave; lost when its
/// arguments do not read as meta items.
pub fn cfg_predicates_all_features_coverage(nested: &Option<Vec<MetaItem>>) -> (r:
    AllFeaturesCoverage)
    ensures
        r == coverage_of(
            match nested {
                Some(v) => predicates_keep(v@, false),
                None => false,
            },
        ),
{
    match nested {
        Some(items) => {
            let mut coverage = AllFeaturesCoverage::Superset;
            let mut i: usize = 0;
            while i < items.len()
                invariant
                    i <= items.len(),
                    coverage == coverage_of(predicates_keep(items@.take(i as int), false)),
                decreases items.len() - i,
            {
                let here = cfg_predicate_all_features_coverage(
                    &items[i],
                    PredicatePolarity::Positive,
                );
                assert(items@.take(i + 1).drop_last() =~= items@.take(i as int));
                assert(items@.take(i + 1).last() == items@[i as int]);
                coverage = coverage.merge(here);
                i = i + 1;
            }
            assert(items@.take(items.len() as int) =~= items@);
            coverage
        },
        None => AllFeaturesCoverage::NotGuaranteed,
    }
}

/// The coverage an attribute leaves: a `cfg(...)` by its predicates, a
/// `cfg_attr(...)` by its predicate and the attributes it applies; any
/// other attribute keeps it.
pub fn attribute_meta_all_features_coverage(meta: &MetaItem) -> (r: AllFeaturesCoverage)
    ensures
        r == coverage_of(attribute_keeps(*meta)),
    decreases meta, 0nat,
{
    match meta {
        MetaItem::List { nested, .. } => {
            if meta_ident_is(meta, "cfg") {
                return cfg_predicates_all_features_coverage(nested);
            }
            if meta_ident_is(meta, "cfg_attr") {
                proof {
                    assert(decreases_to!(*meta => meta->nested));
                }
                return cfg_attr_all_features_coverage(nested);
            }
            AllFeaturesCoverage::Superset
        },
        _ => AllFeaturesCoverage::Superset,
    }
}

/// The coverage a `cfg_attr(predicate, attributes...)` leaves; lost when
/// its arguments do not read as meta items or it has no predicate.
pub fn cfg_attr_all_features_coverage(nested: &Option<Vec<MetaItem>>) -> (r: AllFeaturesCoverage)
    ensures
        r == coverage_of(
            match nested {
                Some(v) => v@.len() > 0 && predicate_keeps(v@[0], false) && attributes_keep(
                    v@.drop_first(),
                ),
                None => false,
            },
        ),
    decreases nested, 1nat,
{
    let items = match nested {
        Some(items) => items,
        None => return AllFeaturesCoverage::NotGuaranteed,
    };
    if items.len() == 0 {
        return AllFeaturesCoverage::NotGuaranteed;
    }
    let mut coverage = cfg_predicate_all_features_coverage(&items[0], PredicatePolarity::Positive);
    let ghost rest = items@.drop_first();
    assert(items@.subrange(1, 1) =~= seq![]);
    let mut i: usize = 1;
    while i < items.len()
        invariant
            1 <= i <= items.len(),
            *nested == Some(*items),
            rest == items@.drop_first(),
            coverage == coverage_of(
                predicate_keeps(items@[0], false) && attributes_keep(
                    items@.subrange(1, i as int),
                ),
            ),
        decreases items.len() - i,
    {
        proof {
            assert(decreases_to!(*nested => nested->0));
            assert(decreases_to!(nested->0 => nested->0[i as int]));
        }
        let here = attribute_meta_all_features_coverage(&items[i]);
        assert(items@.subrange(1, i + 1).drop_last() =~= items@.subrange(1, i as int));
        assert(items@.subrange(1, i + 1).last() == items@[i as int]);
        coverage = coverage.merge(here);
        i = i + 1;
    }
    assert(items@.subrange(1, items.len() as int) =~= rest);
    coverage
}

/// The coverage of an attribute written as `#` and a token group: the
/// group's meta item's, for a bracketed group that reads as one.
pub fn token_attribute_all_features_coverage(next: &TokenItem) -> (r: AllFeaturesCoverage)
    ensures
        r == coverage_of(
            match *next {
                TokenItem::Group { bracketed, meta, .. } => !bracketed || match meta {
                    Some(m) => attribute_keeps(m),
                    None => true,
                },
                _ => true,
            },
        ),
{
    match next {
        TokenItem::Group { bracketed, meta, .. } => {
            if !*bracketed {
                return AllFeaturesCoverage::Superset;
            }
            match meta {
                Some(m) => attribute_meta_all_features_coverage(m),
                None => AllFeaturesCoverage::Superset,
            }
        },
        _ => AllFeaturesCoverage::Superset,
    }
}

/// The coverage a macro body leaves: that of every attribute written in it,
/// at any depth of its groups.
pub fn macro_tokens_all_features_coverage(tokens: &Vec<TokenItem>) -> (r: AllFeaturesCoverage)
    ensures
        r == coverage_of(tokens_keep(tokens@)),
    decreases tokens,
{
    let ghost s = tokens@;
    let mut coverage = AllFeaturesCoverage::Superset;
    let mut i: usize = 0;
    while i < tokens.len()
        invariant
            i <= tokens.len(),
            s == tokens@,
            coverage == coverage_of(
                (forall|j: int| 0 <= j < i ==> #[trigger] attribute_token_keeps(s, j)) && groups_keep(
                    s.take(i as int),
                ),
            ),
        decreases tokens.len() - i,
    {
        let here = match &tokens[i] {
            TokenItem::Group { stream, .. } => {
                proof {
                    assert(decreases_to!(*tokens => tokens[i as int]));
                    assert(decreases_to!(tokens[i as int] => tokens[i as int]->stream));
                }
                macro_tokens_all_features_coverage(stream)
            },
            TokenItem::Punct { ch } => {
                if *ch == '#' && i + 1 < tokens.len() {
                    token_attribute_all_features_coverage(&tokens[i + 1])
                } else {
                    AllFeaturesCoverage::Superset
                }
            },
            _ => AllFeaturesCoverage::Superset,
        };
        assert(s.take(i + 1).drop_last() =~= s.take(i as int));
        assert(s.take(i + 1).last() == s[i as int]);
        assert(here == coverage_of(attribute_token_keeps(s, i as int) && group_keeps(s[i as int])));
        coverage = coverage.merge(here);
        i = i + 1;
        assert((forall|j: int| 0 <= j < i ==> #[trigger] attribute_token_keeps(s, j)) == ((forall|
            j: int,
        |
            0 <= j < i - 1 ==> #[trigger] attribute_token_keeps(s, j)) && attribute_token_keeps(
            s,
            i - 1,
        )));
    }
    assert(s.take(tokens.len() as int) =~= s);
    coverage
}

/// The coverage the sources leave: lost when some file read did not parse,
/// or some place the scan looked at loses it.
pub fn source_all_features_coverage(files_read: usize, files_parsed: usize, sites: &Vec<GateSite>) -> (r:
    AllFeaturesCoverage)
    ensures
        r == coverage_of(files_read == files_parsed && sites_keep(sites@)),
{
    if files_read != files_parsed {
        return AllFeaturesCoverage::NotGuaranteed;
    }
    let mut coverage = AllFeaturesCoverage::Superset;
    let mut i: usize = 0;
    while i < sites.len()
        invariant
            i <= sites.len(),
            coverage == coverage_of(forall|j: int| 0 <= j < i ==> #[trigger] site_keeps(sites@[j])),
        decreases sites.len() - i,
    {
        let here = match &sites[i] {
            GateSite::Attribute { meta } => attribute_meta_all_features_coverage(meta),
            GateSite::Macro { tokens } => macro_tokens_all_features_coverage(tokens),
        };
        coverage = coverage.merge(here);
        i = i + 1;
        assert((forall|j: int| 0 <= j < i ==> #[trigger] site_keeps(sites@[j])) == ((forall|j: int|
            0 <= j < i - 1 ==> #[trigger] site_keeps(sites@[j])) && site_keeps(sites@[i - 1])));
    }
    coverage
}

} // verus!
