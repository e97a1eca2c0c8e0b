use cargo_mend::counters::FacadePerformanceCounters;
use cargo_mend::counters::facade_resolution_count;
use cargo_mend::counters::facade_resolution_request_count;
use cargo_mend::counters::facade_usage_scan_count;
use cargo_mend::counters::record_facade_resolution;
use cargo_mend::counters::record_facade_resolution_request;
use cargo_mend::counters::record_facade_usage_scan;
use cargo_mend::counters::reset_performance_counters;
use cargo_mend::findings::UseSiteReference;
use cargo_mend::findings::item_name;
use cargo_mend::findings::render_item;
use cargo_mend::sink::FindingsSink;
use cargo_mend::sink::UseSiteIndex;

#[test]
fn use_site_index_keeps_one_record_per_pair_in_order() {
    let mut index = UseSiteIndex::new();
    index.insert("crate::b::item".to_string(), "crate::z".to_string());
    index.insert("crate::a::item".to_string(), "crate::y".to_string());
    index.insert("crate::b::item".to_string(), "crate::x".to_string());
    index.insert("crate::b::item".to_string(), "crate::z".to_string());

    assert_eq!(
        index.callers("crate::b::item"),
        Some(&vec!["crate::x".to_string(), "crate::z".to_string()])
    );
    assert_eq!(index.callers("crate::c::item"), None);

    let sites = index.into_use_sites();
    let pairs: Vec<(String, String)> = sites
        .iter()
        .map(|site| (site.target_def_path.clone(), site.caller_module_def_path.clone()))
        .collect();
    assert_eq!(
        pairs,
        vec![
            ("crate::a::item".to_string(), "crate::y".to_string()),
            ("crate::b::item".to_string(), "crate::x".to_string()),
            ("crate::b::item".to_string(), "crate::z".to_string()),
        ]
    );
    assert!(sites.iter().all(|site| site.reference == UseSiteReference::Named));
}

#[test]
fn empty_sink_holds_nothing() {
    let sink = FindingsSink::default();
    assert!(sink.findings.is_empty());
    assert!(sink.visibility_constraints.is_empty());
    assert!(sink.pub_use_fix_facts.is_empty());
    assert!(sink.use_sites.into_use_sites().is_empty());
}

#[test]
fn item_name_reads_back_what_render_item_wrote() {
    let item = render_item("struct", "Widget");
    assert_eq!(item, "struct Widget");
    assert_eq!(item_name(&item), "Widget");
    assert_eq!(item_name("enum variant Kind"), "Kind");
    assert_eq!(item_name("bare"), "bare");
}

#[test]
fn performance_counters_count_per_item_and_reset() {
    let mut counters = FacadePerformanceCounters::default();
    record_facade_resolution(&mut counters, 7);
    record_facade_resolution(&mut counters, 7);
    record_facade_resolution_request(&mut counters, 7);
    record_facade_usage_scan(&mut counters, 9);
    assert_eq!(facade_resolution_count(&counters, 7), 2);
    assert_eq!(facade_resolution_count(&counters, 9), 0);
    assert_eq!(facade_resolution_request_count(&counters, 7), 1);
    assert_eq!(facade_usage_scan_count(&counters, 9), 1);

    reset_performance_counters(&mut counters);
    assert_eq!(facade_resolution_count(&counters, 7), 0);
    assert_eq!(facade_resolution_request_count(&counters, 7), 0);
    assert_eq!(facade_usage_scan_count(&counters, 9), 0);
}
