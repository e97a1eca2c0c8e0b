use cargo_mend::cargo_output::BuildOutputMode;
use cargo_mend::cargo_output::CompilerWarningFacts;
use cargo_mend::cargo_output::DiagnosticBlockKind;
use cargo_mend::cargo_output::ProgressStatus;
use cargo_mend::cargo_output::StderrEffect;
use cargo_mend::cargo_output::StderrObserver;
use cargo_mend::cargo_output::StderrTally;
use cargo_mend::cargo_output::SuppressionNotice;
use cargo_mend::cargo_output::classify_diagnostic_block;
use cargo_mend::cargo_output::flush_diagnostic_block;
use cargo_mend::cargo_output::is_finished_line;
use cargo_mend::cargo_output::is_progress_line;
use cargo_mend::cargo_output::parse_compiler_warning_summary;
use cargo_mend::cargo_output::should_forward_progress_line;

/// Plays the effects the library asks for against a recording spinner.
#[derive(Debug)]
struct ProgressRecorder {
    progress_status: ProgressStatus,
    notices:         Vec<String>,
    stops:           usize,
    echoed:          Vec<String>,
}

impl Default for ProgressRecorder {
    fn default() -> Self {
        Self {
            progress_status: ProgressStatus::Inactive,
            notices:         Vec::new(),
            stops:           0,
            echoed:          Vec::new(),
        }
    }
}

impl ProgressRecorder {
    fn active() -> Self {
        Self {
            progress_status: ProgressStatus::Active,
            ..Self::default()
        }
    }

    fn apply(&mut self, effects: Vec<StderrEffect>) {
        for effect in effects {
            match effect {
                StderrEffect::StatusNotice(notice) => self.notices.push(notice),
                StderrEffect::StopProgress => {
                    self.stops += 1;
                    self.progress_status = ProgressStatus::Inactive;
                },
                StderrEffect::Echo(line) => self.echoed.push(line),
            }
        }
    }
}

fn pending_tally() -> StderrTally {
    StderrTally {
        suppression_notice:     SuppressionNotice::Pending,
        compiler_warning_facts: CompilerWarningFacts::Absent,
        warning_count:          0,
        fixable_count:          0,
    }
}

#[test]
fn compiler_plain_building_progress_line_is_treated_as_progress() {
    let line = "    Building [                             ] 0/1: cli_json_clean_fixture      \r    Finished `dev` profile [unoptimized + debuginfo] target(s) in 0.16s\n";
    assert!(is_progress_line(line));
}

#[test]
fn compiler_progress_line_with_embedded_warning_is_not_treated_as_progress() {
    let line = "    Building [                             ] 0/1: fixture...warning: unused import: `child::SpawnStats`\n";
    assert!(!is_progress_line(line));
}

#[test]
fn compiler_classify_suppresses_unused_import_when_warning_follows_progress_prefix() {
    let block = vec![
        "    Building [                             ] 0/1: fixture...warning: unused import: `child::SpawnStats`\n"
            .to_string(),
        " --> src/actor/mod.rs:2:9\n".to_string(),
        "  |\n".to_string(),
        "2 | pub use child::SpawnStats;\n".to_string(),
        "  |         ^^^^^^^^^^^^^^^^^\n".to_string(),
        "\n".to_string(),
    ];

    assert!(matches!(
        classify_diagnostic_block(&block),
        DiagnosticBlockKind::SuppressedUnusedImport
    ));
}

#[test]
fn compiler_quiet_builds_do_not_accumulate_compiler_warning_summary_counts() {
    let mut block = vec![
        "warning: `fixture` (lib) generated 3 warnings (1 duplicate) (run `cargo fix --lib -p fixture` to apply 1 suggestion)\n"
            .to_string(),
        "\n".to_string(),
    ];
    let mut tally = pending_tally();
    let mut progress = ProgressRecorder::default();

    let effects = flush_diagnostic_block(&mut block, &mut tally, BuildOutputMode::Quiet);
    progress.apply(effects);

    assert_eq!(tally.warning_count, 0);
    assert_eq!(tally.fixable_count, 0);
}

#[test]
fn build_plain_building_progress_line_is_treated_as_progress() {
    let line = "    Building [                             ] 0/1: cli_json_clean_fixture      \r    Finished `dev` profile [unoptimized + debuginfo] target(s) in 0.16s\n";
    assert!(is_progress_line(line));
}

#[test]
fn build_progress_line_with_embedded_warning_is_not_treated_as_progress() {
    let line = "    Building [                             ] 0/1: fixture...warning: unused import: `child::SpawnStats`\n";
    assert!(!is_progress_line(line));
}

#[test]
fn build_classify_suppresses_unused_import_when_warning_follows_progress_prefix() {
    let block = vec![
        "    Building [                             ] 0/1: fixture...warning: unused import: `child::SpawnStats`\n"
            .to_string(),
        " --> src/actor/mod.rs:2:9\n".to_string(),
        "  |\n".to_string(),
        "2 | pub use child::SpawnStats;\n".to_string(),
        "  |         ^^^^^^^^^^^^^^^^^\n".to_string(),
        "\n".to_string(),
    ];

    assert!(matches!(
        classify_diagnostic_block(&block),
        DiagnosticBlockKind::SuppressedUnusedImport
    ));
}

#[test]
fn build_quiet_builds_do_not_accumulate_compiler_warning_summary_counts() {
    let mut block = vec![
        "warning: `fixture` (lib) generated 3 warnings (1 duplicate) (run `cargo fix --lib -p fixture` to apply 1 suggestion)\n"
            .to_string(),
        "\n".to_string(),
    ];
    let mut tally = pending_tally();
    let mut progress = ProgressRecorder::default();

    let effects = flush_diagnostic_block(&mut block, &mut tally, BuildOutputMode::Quiet);
    progress.apply(effects);

    assert_eq!(tally.warning_count, 0);
    assert_eq!(tally.fixable_count, 0);
}

#[test]
fn stderr_plain_building_progress_line_is_treated_as_progress() {
    let line = "    Building [                             ] 0/1: cli_json_clean_fixture      \r    Finished `dev` profile [unoptimized + debuginfo] target(s) in 0.16s\n";
    assert!(is_progress_line(line));
}

#[test]
fn stderr_progress_line_with_embedded_warning_is_not_treated_as_progress() {
    let line = "    Building [                             ] 0/1: fixture...warning: unused import: `child::SpawnStats`\n";
    assert!(!is_progress_line(line));
}

#[test]
fn stderr_classify_suppresses_unused_import_when_warning_follows_progress_prefix() {
    let block = vec![
        "    Building [                             ] 0/1: fixture...warning: unused import: `child::SpawnStats`\n"
            .to_string(),
        " --> src/actor/mod.rs:2:9\n".to_string(),
        "  |\n".to_string(),
        "2 | pub use child::SpawnStats;\n".to_string(),
        "  |         ^^^^^^^^^^^^^^^^^\n".to_string(),
        "\n".to_string(),
    ];

    assert!(matches!(
        classify_diagnostic_block(&block),
        DiagnosticBlockKind::SuppressedUnusedImport
    ));
}

#[test]
fn stderr_quiet_builds_do_not_accumulate_compiler_warning_summary_counts() {
    let mut block = vec![
        "warning: `fixture` (lib) generated 3 warnings (1 duplicate) (run `cargo fix --lib -p fixture` to apply 1 suggestion)\n"
            .to_string(),
        "\n".to_string(),
    ];
    let mut tally = pending_tally();
    let mut progress = ProgressRecorder::default();

    let effects = flush_diagnostic_block(&mut block, &mut tally, BuildOutputMode::Quiet);
    progress.apply(effects);

    assert_eq!(tally.warning_count, 0);
    assert_eq!(tally.fixable_count, 0);
}

#[test]
fn build_progress_lines_are_hidden_while_progress_status_is_active() {
    let line = "    Checking fixture v0.1.0\n";

    assert!(!should_forward_progress_line(
        line,
        BuildOutputMode::SuppressUnusedImportWarnings,
        ProgressStatus::Active
    ));
    assert!(should_forward_progress_line(
        line,
        BuildOutputMode::SuppressUnusedImportWarnings,
        ProgressStatus::Inactive
    ));
}

#[test]
fn build_forwarded_diagnostic_stops_progress_before_printing() {
    let mut block = vec!["error: expected item\n".to_string(), "\n".to_string()];
    let mut tally = pending_tally();
    let mut progress = ProgressRecorder::active();

    let effects = flush_diagnostic_block(&mut block, &mut tally, BuildOutputMode::Quiet);
    progress.apply(effects);

    assert_eq!(progress.stops, 1);
    assert!(progress.notices.is_empty());
    assert_eq!(progress.progress_status, ProgressStatus::Inactive);
}

#[test]
fn build_suppression_notice_writes_progress_status_notice_without_stopping() {
    let mut block = vec![
        "warning: unused import: `child::SpawnStats`\n".to_string(),
        "\n".to_string(),
    ];
    let mut tally = pending_tally();
    let mut progress = ProgressRecorder::active();

    let effects = flush_diagnostic_block(
        &mut block,
        &mut tally,
        BuildOutputMode::SuppressUnusedImportWarnings,
    );
    progress.apply(effects);

    assert_eq!(
        progress.notices,
        vec![
            "mend: suppressing `unused import` warning during `--fix-pub-use` discovery"
                .to_string()
        ]
    );
    assert_eq!(progress.stops, 0);
    assert_eq!(progress.progress_status, ProgressStatus::Active);
}

#[test]
fn stderr_progress_lines_are_hidden_while_progress_status_is_active() {
    let line = "    Checking fixture v0.1.0\n";

    assert!(!should_forward_progress_line(
        line,
        BuildOutputMode::SuppressUnusedImportWarnings,
        ProgressStatus::Active
    ));
    assert!(should_forward_progress_line(
        line,
        BuildOutputMode::SuppressUnusedImportWarnings,
        ProgressStatus::Inactive
    ));
}

#[test]
fn stderr_forwarded_diagnostic_stops_progress_before_printing() {
    let mut block = vec!["error: expected item\n".to_string(), "\n".to_string()];
    let mut tally = pending_tally();
    let mut progress = ProgressRecorder::active();

    let effects = flush_diagnostic_block(&mut block, &mut tally, BuildOutputMode::Quiet);
    progress.apply(effects);

    assert_eq!(progress.stops, 1);
    assert!(progress.notices.is_empty());
    assert_eq!(progress.progress_status, ProgressStatus::Inactive);
}

#[test]
fn stderr_suppression_notice_writes_progress_status_notice_without_stopping() {
    let mut block = vec![
        "warning: unused import: `child::SpawnStats`\n".to_string(),
        "\n".to_string(),
    ];
    let mut tally = pending_tally();
    let mut progress = ProgressRecorder::active();

    let effects = flush_diagnostic_block(
        &mut block,
        &mut tally,
        BuildOutputMode::SuppressUnusedImportWarnings,
    );
    progress.apply(effects);

    assert_eq!(
        progress.notices,
        vec![
            "mend: suppressing `unused import` warning during `--fix-pub-use` discovery"
                .to_string()
        ]
    );
    assert_eq!(progress.stops, 0);
    assert_eq!(progress.progress_status, ProgressStatus::Active);
}

#[test]
fn warning_summary_counts_warnings_and_fixable_suggestions() {
    assert_eq!(
        parse_compiler_warning_summary(
            "warning: `fixture` (lib) generated 3 warnings (1 duplicate) (run `cargo fix --lib -p fixture` to apply 1 suggestion)\n"
        ),
        Some((3, 1))
    );
    assert_eq!(
        parse_compiler_warning_summary("warning: `fixture` (lib) generated 1 warning\n"),
        Some((1, 0))
    );
    assert_eq!(parse_compiler_warning_summary("warning: unused import: `a`\n"), None);
}

#[test]
fn full_builds_accumulate_warning_summary_counts() {
    let mut block = vec![
        "warning: `fixture` (lib) generated 3 warnings (run `cargo fix --lib -p fixture` to apply 2 suggestions)\n"
            .to_string(),
    ];
    let mut tally = pending_tally();
    let effects = flush_diagnostic_block(&mut block, &mut tally, BuildOutputMode::Full);
    assert!(effects.is_empty());
    assert!(block.is_empty());
    assert_eq!(tally.warning_count, 3);
    assert_eq!(tally.fixable_count, 2);
}

#[test]
fn suppression_notice_is_written_once() {
    let mut tally = pending_tally();
    let mut progress = ProgressRecorder::active();
    for _ in 0..2 {
        let mut block = vec!["warning: unused import: `a::B`\n".to_string()];
        let effects = flush_diagnostic_block(
            &mut block,
            &mut tally,
            BuildOutputMode::SuppressUnusedImportWarnings,
        );
        progress.apply(effects);
    }
    assert_eq!(progress.notices.len(), 1);
    assert_eq!(tally.suppression_notice, SuppressionNotice::Printed);
    assert_eq!(
        tally.compiler_warning_facts,
        CompilerWarningFacts::UnusedImportWarnings
    );
}

#[test]
fn full_mode_echoes_a_suppressed_block_and_forwarded_blocks() {
    let mut block = vec!["warning: unused import: `a::B`\n".to_string(), "\n".to_string()];
    let mut tally = pending_tally();
    let mut progress = ProgressRecorder::active();
    progress.apply(flush_diagnostic_block(&mut block, &mut tally, BuildOutputMode::Full));
    assert_eq!(progress.echoed.len(), 2);
    assert_eq!(progress.stops, 0);

    let mut block = vec!["error: expected item\n".to_string()];
    progress.apply(flush_diagnostic_block(&mut block, &mut tally, BuildOutputMode::Json));
    assert_eq!(progress.echoed.len(), 2);
    assert_eq!(progress.stops, 0);
}

#[test]
fn finished_line_is_recognized() {
    assert!(is_finished_line("    Finished `dev` profile [unoptimized] target(s) in 0.1s\n"));
    assert!(!is_finished_line("    Checking fixture v0.1.0\n"));
    assert!(!should_forward_progress_line(
        "    Finished `dev` profile\n",
        BuildOutputMode::Full,
        ProgressStatus::Inactive
    ));
}

#[test]
fn observer_forwards_a_diagnostic_block_at_its_blank_line() {
    let mut observer = StderrObserver::new(BuildOutputMode::Full, true);
    let mut progress = ProgressRecorder::active();
    progress.apply(observer.observe_line("error: expected item\n".to_string()));
    assert_eq!(progress.stops, 0);
    progress.apply(observer.observe_line("\n".to_string()));
    progress.apply(observer.finish());
    assert_eq!(progress.stops, 1);
    assert_eq!(progress.echoed, vec!["error: expected item\n".to_string(), "\n".to_string()]);
}
