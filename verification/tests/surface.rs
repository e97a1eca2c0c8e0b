use cargo_mend::surface::ItemSurface;
use cargo_mend::surface::SurfaceToken;
use cargo_mend::surface::attribute_tokens_mention_name;
use cargo_mend::surface::public_item_surface_mentions_name;
use cargo_mend::surface::trim_matches;

fn segments(text: &str) -> Vec<String> { text.split("::").map(str::to_string).collect() }

fn ident(text: &str) -> SurfaceToken { SurfaceToken::Ident { text: text.to_string() } }

fn literal(text: &str) -> SurfaceToken { SurfaceToken::Literal { text: text.to_string() } }

#[test]
fn surface_paths_mention_by_their_last_segment() {
    // pub fn make(config: crate::cfg::Config) -> Vec<Widget>
    let item = ItemSurface {
        public_with_surface: true,
        attributes:          Vec::new(),
        surface_paths:       vec![segments("crate::cfg::Config"), segments("Vec"), segments("Widget")],
    };
    assert!(public_item_surface_mentions_name(&item, "Widget"));
    assert!(public_item_surface_mentions_name(&item, "Config"));
    assert!(!public_item_surface_mentions_name(&item, "cfg"));
    let private = ItemSurface { public_with_surface: false, ..item };
    assert!(!public_item_surface_mentions_name(&private, "Widget"));
}

#[test]
fn attributes_mention_by_identifier_or_literal() {
    // #[doc(alias = "Widget")], #[serde(with = r#"Widget"#)], #[cfg(test)]
    let by_literal = vec![ident("doc"), SurfaceToken::Group { tokens: vec![ident("alias"), SurfaceToken::Punct, literal("\"Widget\"")] }];
    let by_raw_literal = vec![ident("serde"), SurfaceToken::Group { tokens: vec![ident("with"), SurfaceToken::Punct, literal("r#\"Widget\"#")] }];
    let unrelated = vec![ident("cfg"), SurfaceToken::Group { tokens: vec![ident("test")] }];
    assert!(attribute_tokens_mention_name(&by_literal, "Widget"));
    assert!(attribute_tokens_mention_name(&unrelated, "test"));
    assert!(!attribute_tokens_mention_name(&unrelated, "Widget"));
    // Quotes are trimmed before the raw-string markers, so a raw literal keeps its quotes.
    assert!(!attribute_tokens_mention_name(&by_raw_literal, "Widget"));
    assert!(attribute_tokens_mention_name(&by_raw_literal, "\"Widget\""));
    let item = ItemSurface { public_with_surface: true, attributes: vec![unrelated, by_literal], surface_paths: Vec::new() };
    assert!(public_item_surface_mentions_name(&item, "Widget"));
}

#[test]
fn trimming_strips_both_ends_only() {
    let chars = |s: &str| s.chars().collect::<Vec<char>>();
    assert_eq!(trim_matches(&chars("rrerrorr"), 'r'), chars("erro"));
    assert_eq!(trim_matches(&chars("\"\""), '"'), chars(""));
    assert_eq!(trim_matches(&chars("abc"), 'x'), chars("abc"));
}
