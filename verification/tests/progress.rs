use cargo_mend::cargo_output::BuildOutputMode;
use cargo_mend::progress::analyzing_status;
use cargo_mend::progress::clear_progress_line;
use cargo_mend::progress::progress_frame;
use cargo_mend::progress::progress_line_width;
use cargo_mend::progress::progress_message_for;

fn quiet_mode_message() {
    assert_eq!(
        progress_message_for(BuildOutputMode::Quiet),
        Some("validating applied fixes")
    );
}

fn json_mode_message() {
    assert_eq!(progress_message_for(BuildOutputMode::Json), None);
}

fn frame_and_clear_line() {
    let frame = progress_frame("validating applied fixes", 1);
    let width = progress_line_width("validating applied fixes");

    assert_eq!(frame, "\rmend: / validating applied fixes");
    assert_eq!(
        clear_progress_line(width),
        format!("\r{}\r", " ".repeat(width))
    );
}

#[test]
fn build_quiet_mode_uses_validation_status_message() {
    quiet_mode_message();
}

#[test]
fn progress_quiet_mode_uses_validation_status_message() {
    quiet_mode_message();
}

#[test]
fn build_json_mode_has_no_progress_status() {
    json_mode_message();
}

#[test]
fn progress_json_mode_has_no_progress_status() {
    json_mode_message();
}

#[test]
fn build_progress_frame_and_clear_line_use_carriage_return() {
    frame_and_clear_line();
}

#[test]
fn progress_progress_frame_and_clear_line_use_carriage_return() {
    frame_and_clear_line();
}

#[test]
fn spinner_glyphs_cycle_every_four_frames() {
    assert_eq!(progress_frame("x", 0), "\rmend: | x");
    assert_eq!(progress_frame("x", 2), "\rmend: - x");
    assert_eq!(progress_frame("x", 3), "\rmend: \\ x");
    assert_eq!(progress_frame("x", 4), "\rmend: | x");
    assert_eq!(progress_line_width("x"), 9);
}

#[test]
fn analyzing_status_lists_targets_or_falls_back() {
    assert_eq!(analyzing_status(&Vec::new(), "analyzing"), "analyzing");
    assert_eq!(
        analyzing_status(&vec!["a".to_string(), "b".to_string()], "analyzing"),
        "analyzing a, b"
    );
    assert_eq!(
        progress_message_for(BuildOutputMode::SuppressUnusedImportWarnings),
        Some("checking for fix candidates")
    );
    assert_eq!(progress_message_for(BuildOutputMode::Full), Some("analyzing"));
}

#[test]
fn targets_in_flight_are_sorted_distinct_and_non_empty() {
    let contents = vec![
        String::from("zeta"),
        String::new(),
        String::from("alpha"),
        String::from("zeta"),
        String::from("mid"),
    ];
    assert_eq!(
        cargo_mend::progress::targets_in_flight(&contents),
        vec![String::from("alpha"), String::from("mid"), String::from("zeta")]
    );
    assert!(cargo_mend::progress::targets_in_flight(&Vec::new()).is_empty());
}
