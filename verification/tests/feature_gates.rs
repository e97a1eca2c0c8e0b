use cargo_mend::feature_gates::GateSite;
use cargo_mend::feature_gates::MetaItem;
use cargo_mend::feature_gates::PredicatePolarity;
use cargo_mend::feature_gates::TokenItem;
use cargo_mend::feature_gates::attribute_meta_all_features_coverage;
use cargo_mend::feature_gates::cfg_attr_all_features_coverage;
use cargo_mend::feature_gates::cfg_predicate_all_features_coverage;
use cargo_mend::feature_gates::cfg_predicates_all_features_coverage;
use cargo_mend::feature_gates::macro_tokens_all_features_coverage;
use cargo_mend::feature_gates::source_all_features_coverage;
use cargo_mend::feature_gates::token_attribute_all_features_coverage;
use cargo_mend::findings::AllFeaturesCoverage;

fn word(ident: &str) -> MetaItem { MetaItem::Path { ident: Some(ident.to_string()) } }

fn assign(ident: &str) -> MetaItem {
    MetaItem::NameValue { ident: Some(ident.to_string()), value: Some("hidden".to_string()) }
}

fn list(ident: &str, nested: Vec<MetaItem>) -> MetaItem {
    MetaItem::List { ident: Some(ident.to_string()), nested: Some(nested) }
}

fn unreadable(ident: &str) -> MetaItem { MetaItem::List { ident: Some(ident.to_string()), nested: None } }

fn group(bracketed: bool, stream: Vec<TokenItem>, meta: Option<MetaItem>) -> TokenItem {
    TokenItem::Group { bracketed, stream, meta }
}

fn punct(ch: char) -> TokenItem { TokenItem::Punct { ch } }

/// The body of
/// ```text
/// macro_rules! emit {
///     () => {
///         #[cfg(not(<predicate>))]
///         fn generated() {}
///     };
/// }
/// ```
/// with the attribute's predicate given.
fn emit_macro_body(predicate: MetaItem) -> Vec<TokenItem> {
    let attribute = list("cfg", vec![list("not", vec![predicate])]);
    let attribute_tokens = vec![TokenItem::Ident, group(false, vec![group(false, vec![TokenItem::Literal], None)], None)];
    let rule_body = vec![
        punct('#'),
        group(true, attribute_tokens, Some(attribute)),
        TokenItem::Ident,
        TokenItem::Ident,
        group(false, Vec::new(), None),
        group(false, Vec::new(), None),
    ];
    vec![group(false, Vec::new(), None), punct('='), punct('>'), group(false, rule_body, None), punct(';')]
}

fn crate_root_sites(predicate: MetaItem) -> Vec<GateSite> {
    vec![
        GateSite::Macro { tokens: emit_macro_body(predicate) },
        // emit!();
        GateSite::Macro { tokens: Vec::new() },
    ]
}

#[test]
fn macro_body_negated_feature_prevents_all_features_coverage() {
    let sites = crate_root_sites(assign("feature"));
    assert_eq!(source_all_features_coverage(1, 1, &sites), AllFeaturesCoverage::NotGuaranteed);
}

#[test]
fn macro_body_non_feature_negation_preserves_all_features_coverage() {
    let sites = crate_root_sites(word("unix"));
    assert_eq!(source_all_features_coverage(1, 1, &sites), AllFeaturesCoverage::Superset);
}

#[test]
fn positive_feature_gates_keep_coverage() {
    let cfg = list("cfg", vec![assign("feature")]);
    assert_eq!(attribute_meta_all_features_coverage(&cfg), AllFeaturesCoverage::Superset);
    let any = list("cfg", vec![list("any", vec![assign("feature"), word("test")])]);
    assert_eq!(attribute_meta_all_features_coverage(&any), AllFeaturesCoverage::Superset);
}

#[test]
fn negation_anywhere_above_a_feature_loses_coverage() {
    let double = list("not", vec![list("not", vec![assign("feature")])]);
    assert_eq!(
        cfg_predicate_all_features_coverage(&double, PredicatePolarity::Positive),
        AllFeaturesCoverage::NotGuaranteed
    );
    let nested = list("all", vec![word("unix"), list("not", vec![list("any", vec![assign("feature")])])]);
    assert_eq!(
        cfg_predicate_all_features_coverage(&nested, PredicatePolarity::Positive),
        AllFeaturesCoverage::NotGuaranteed
    );
    assert_eq!(
        cfg_predicate_all_features_coverage(&assign("feature"), PredicatePolarity::Negated),
        AllFeaturesCoverage::NotGuaranteed
    );
}

#[test]
fn unreadable_predicates_lose_coverage() {
    assert_eq!(cfg_predicates_all_features_coverage(&None), AllFeaturesCoverage::NotGuaranteed);
    let inner = list("cfg", vec![unreadable("all")]);
    assert_eq!(attribute_meta_all_features_coverage(&inner), AllFeaturesCoverage::NotGuaranteed);
    // An unreadable list under another attribute is not a cfg.
    assert_eq!(attribute_meta_all_features_coverage(&unreadable("derive")), AllFeaturesCoverage::Superset);
}

#[test]
fn cfg_attr_checks_its_predicate_and_its_attributes() {
    let plain = Some(vec![word("test"), word("inline")]);
    assert_eq!(cfg_attr_all_features_coverage(&plain), AllFeaturesCoverage::Superset);
    let negated = Some(vec![list("not", vec![assign("feature")]), word("inline")]);
    assert_eq!(cfg_attr_all_features_coverage(&negated), AllFeaturesCoverage::NotGuaranteed);
    let applied = Some(vec![word("test"), list("cfg", vec![list("not", vec![assign("feature")])])]);
    assert_eq!(cfg_attr_all_features_coverage(&applied), AllFeaturesCoverage::NotGuaranteed);
    assert_eq!(cfg_attr_all_features_coverage(&Some(Vec::new())), AllFeaturesCoverage::NotGuaranteed);
    assert_eq!(cfg_attr_all_features_coverage(&None), AllFeaturesCoverage::NotGuaranteed);
}

#[test]
fn only_bracketed_groups_after_a_hash_are_attributes() {
    let negated = list("cfg", vec![list("not", vec![assign("feature")])]);
    let braced = vec![punct('#'), group(false, Vec::new(), Some(negated))];
    assert_eq!(macro_tokens_all_features_coverage(&braced), AllFeaturesCoverage::Superset);
    let no_meta = group(true, Vec::new(), None);
    assert_eq!(token_attribute_all_features_coverage(&no_meta), AllFeaturesCoverage::Superset);
    let trailing_hash = vec![TokenItem::Ident, punct('#')];
    assert_eq!(macro_tokens_all_features_coverage(&trailing_hash), AllFeaturesCoverage::Superset);
}

#[test]
fn an_unparsed_file_loses_coverage() {
    assert_eq!(source_all_features_coverage(2, 1, &Vec::new()), AllFeaturesCoverage::NotGuaranteed);
    assert_eq!(source_all_features_coverage(2, 2, &Vec::new()), AllFeaturesCoverage::Superset);
    let sites = vec![GateSite::Attribute { meta: list("cfg", vec![list("not", vec![assign("feature")])]) }];
    assert_eq!(source_all_features_coverage(1, 1, &sites), AllFeaturesCoverage::NotGuaranteed);
}
