use cargo_mend::facade_paths::PathOrigin;
use cargo_mend::facade_scan::ExtractedPath;
use cargo_mend::facade_scan::ExtractedPaths;
use cargo_mend::feature_gates::GateSite;
use cargo_mend::feature_gates::MetaItem;
use cargo_mend::findings::AllFeaturesCoverage;
use cargo_mend::source_cache::NameMention;
use cargo_mend::source_cache::ParsedSource;
use cargo_mend::source_cache::SourceCache;
use cargo_mend::source_cache::SourceInput;
use cargo_mend::source_cache::mentionable_names_in;

fn empty_parse() -> ParsedSource {
    ParsedSource {
        extracted:  ExtractedPaths { use_paths: Vec::new(), expr_paths: Vec::new(), use_renames: Vec::new() },
        use_items:  Vec::new(),
        gate_sites: Vec::new(),
    }
}

fn input(path: &str, text: &str, parsed: Option<ParsedSource>) -> SourceInput {
    SourceInput { path: path.to_string(), text: text.to_string(), parsed }
}

fn words(text: &str) -> Vec<String> {
    let mut names: Vec<String> = mentionable_names_in(text).into_iter().map(|name| name.into_iter().collect()).collect();
    names.sort();
    names.dedup();
    names
}

#[test]
fn names_are_whole_words_and_their_r_trims() {
    assert_eq!(words("fn error(x_1: u8) {}"), vec!["erro", "error", "fn", "u8", "x_1"]);
    assert_eq!(words("::"), Vec::<String>::new());
    assert_eq!(words("r#\"raw\"#"), vec!["", "aw", "r", "raw"]);
}

#[test]
fn a_path_named_twice_is_kept_once_with_its_first_text() {
    let cache = SourceCache::build_files(vec![
        input("/w/src/lib.rs", "mod a;", Some(empty_parse())),
        input("/w/src/a.rs", "fn f() {}", Some(empty_parse())),
        input("/w/src/lib.rs", "fn other() {}", Some(empty_parse())),
    ]);
    assert_eq!(cache.source_files(), vec!["/w/src/lib.rs".to_string(), "/w/src/a.rs".to_string()]);
    assert_eq!(cache.read_source("/w/src/lib.rs"), Ok("mod a;"));
    assert_eq!(cache.read_source("/w/src/b.rs"), Err("source file not in cache: /w/src/b.rs".to_string()));
}

#[test]
fn a_name_absent_from_a_cached_text_is_reported_absent() {
    let cache = SourceCache::build_files(vec![input("/w/src/lib.rs", "pub fn error() {}", None)]);
    assert_eq!(cache.name_mention("/w/src/lib.rs", "error"), NameMention::Present);
    assert_eq!(cache.name_mention("/w/src/lib.rs", "erro"), NameMention::Present);
    assert_eq!(cache.name_mention("/w/src/lib.rs", "Widget"), NameMention::Absent);
    assert_eq!(cache.name_mention("/w/src/other.rs", "Widget"), NameMention::Present);
}

#[test]
fn files_under_a_directory_compare_by_component() {
    let cache = SourceCache::build_files(vec![
        input("/w/src/lib.rs", "", None),
        input("/w/srcx/lib.rs", "", None),
        input("/w/src/m/x.rs", "", None),
        input("/w/tests/t.rs", "", None),
    ]);
    assert_eq!(cache.source_files_under("/w/src"), vec!["/w/src/lib.rs".to_string(), "/w/src/m/x.rs".to_string()]);
    assert_eq!(cache.source_files_under("/w").len(), 4);
    assert!(cache.source_files_under("/elsewhere").is_empty());
}

#[test]
fn coverage_is_lost_by_an_unparsed_file_or_a_negated_feature() {
    let parsed = SourceCache::build_files(vec![input("/w/src/lib.rs", "", Some(empty_parse()))]);
    assert_eq!(parsed.all_features_coverage(), AllFeaturesCoverage::Superset);
    let unparsed = SourceCache::build_files(vec![
        input("/w/src/lib.rs", "", Some(empty_parse())),
        input("/w/src/bad.rs", "fn (", None),
    ]);
    assert_eq!(unparsed.all_features_coverage(), AllFeaturesCoverage::NotGuaranteed);
    let feature = MetaItem::NameValue { ident: Some("feature".to_string()), value: Some("x".to_string()) };
    let not = MetaItem::List { ident: Some("not".to_string()), nested: Some(vec![feature]) };
    let cfg = MetaItem::List { ident: Some("cfg".to_string()), nested: Some(vec![not]) };
    let mut gated = empty_parse();
    gated.gate_sites.push(GateSite::Attribute { meta: cfg });
    let negated = SourceCache::build_files(vec![input("/w/src/lib.rs", "", Some(gated))]);
    assert_eq!(negated.all_features_coverage(), AllFeaturesCoverage::NotGuaranteed);
}

#[test]
fn parsed_files_have_their_paths_indexed() {
    let mut parsed = empty_parse();
    parsed.extracted.expr_paths.push(ExtractedPath {
        segments:      vec!["crate".to_string(), "widgets".to_string(), "Widget".to_string()],
        origin:        PathOrigin::Crate,
        module_suffix: Vec::new(),
    });
    let cache = SourceCache::build_files(vec![input("/w/src/lib.rs", "", Some(parsed)), input("/w/src/bad.rs", "", None)]);
    let extracted = cache.extracted_paths("/w/src/lib.rs").expect("parsed");
    assert_eq!(extracted.expr_paths.len(), 1);
    let index = cache.export_candidates("/w/src/lib.rs").expect("parsed");
    assert_eq!(index.expr_paths.candidates(&vec!["Widget".to_string()]), vec![0]);
    assert!(index.expr_paths.candidates(&vec!["Gadget".to_string()]).is_empty());
    assert!(cache.extracted_paths("/w/src/bad.rs").is_none());
    assert!(cache.parsed_file("/w/src/missing.rs").is_none());
}
