use cargo_mend::sweep_counters::report_line;
use cargo_mend::sweep_counters::SweepCounters;

#[test]
fn counters_start_at_zero_and_report_every_total() {
    let counters = SweepCounters::new();
    assert_eq!(
        report_line("demo", 0, &counters),
        "mend-sweep-counters crate=demo analysis_ms=0 sweeps=0 files_enumerated=0 files_scanned=0 \
         scopes_enumerated=0 scopes_analyzed=0 file_list_requests=0 file_list_builds=0 \
         file_list_entries=0 signature_hits=0 signature_misses=0 signature_refused=0\n"
    );
}

#[test]
fn each_record_adds_to_its_own_totals() {
    let mut counters = SweepCounters::new();
    counters.record_sweep(12);
    counters.record_sweep(30);
    counters.record_file_scanned(4);
    counters.record_scope_analyzed();
    counters.record_file_list_request();
    counters.record_file_list_request();
    counters.record_file_list_build(105);
    counters.record_signature_hit();
    counters.record_signature_miss();
    counters.record_signature_miss();
    counters.record_signature_refused();
    assert_eq!(counters.sweeps, 2);
    assert_eq!(counters.files_enumerated, 42);
    assert_eq!(counters.files_scanned, 1);
    assert_eq!(counters.scopes_enumerated, 4);
    assert_eq!(
        report_line("cargo_mend", 1234, &counters),
        "mend-sweep-counters crate=cargo_mend analysis_ms=1234 sweeps=2 files_enumerated=42 files_scanned=1 \
         scopes_enumerated=4 scopes_analyzed=1 file_list_requests=2 file_list_builds=1 \
         file_list_entries=105 signature_hits=1 signature_misses=2 signature_refused=1\n"
    );
}

#[test]
fn totals_wrap_like_atomic_counters() {
    let mut counters = SweepCounters::new();
    counters.files_enumerated = u64::MAX;
    counters.record_sweep(2);
    assert_eq!(counters.files_enumerated, 1);
    assert_eq!(counters.sweeps, 1);
}
