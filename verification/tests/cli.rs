use cargo_mend::cli::FixCli;
use cargo_mend::cli::FixExecution;
use cargo_mend::cli::FixRequest;
use cargo_mend::cli::RawFixCli;

fn parse_fix_flags(raw: RawFixCli) -> FixCli {
    FixCli::from_raw(raw)
}

#[test]
fn runs_compiler_fix_false_for_read_only() {
    let fix = FixCli::default();
    assert!(!fix.runs_compiler_fix());
}

#[test]
fn runs_compiler_fix_false_for_preview_all() {
    let fix = FixCli {
        execution: FixExecution::PreviewAll,
        ..FixCli::default()
    };
    assert!(!fix.runs_compiler_fix());
}

#[test]
fn runs_compiler_fix_false_for_preview_requested_with_compiler() {
    let fix = FixCli {
        execution: FixExecution::PreviewRequested,
        requested_fixes: vec![FixRequest::Compiler],
    };
    assert!(!fix.runs_compiler_fix());
}

#[test]
fn runs_compiler_fix_true_for_apply_all() {
    let fix = FixCli {
        execution: FixExecution::ApplyAll,
        ..FixCli::default()
    };
    assert!(fix.runs_compiler_fix());
}

#[test]
fn runs_compiler_fix_true_for_apply_requested_with_compiler() {
    let fix = FixCli {
        execution: FixExecution::ApplyRequested,
        requested_fixes: vec![FixRequest::Compiler],
    };
    assert!(fix.runs_compiler_fix());
}

#[test]
fn runs_compiler_fix_false_for_apply_requested_without_compiler() {
    let fix = FixCli {
        execution: FixExecution::ApplyRequested,
        requested_fixes: vec![FixRequest::Mend],
    };
    assert!(!fix.runs_compiler_fix());
}

#[test]
fn dry_run_with_fix_compiler_does_not_mutate() {
    let fix = parse_fix_flags(RawFixCli {
        dry_run: true,
        fix_compiler: true,
        ..RawFixCli::default()
    });
    assert_eq!(fix.execution, FixExecution::PreviewRequested);
    assert!(fix.includes(FixRequest::Compiler));
    assert!(!fix.runs_compiler_fix());
}

#[test]
fn dry_run_with_fix_all_does_not_mutate() {
    let fix = parse_fix_flags(RawFixCli {
        dry_run: true,
        fix_all: true,
        ..RawFixCli::default()
    });
    assert_eq!(fix.execution, FixExecution::PreviewAll);
    assert!(!fix.runs_compiler_fix());
}

#[test]
fn fix_compiler_alone_does_mutate() {
    let fix = parse_fix_flags(RawFixCli {
        fix_compiler: true,
        ..RawFixCli::default()
    });
    assert_eq!(fix.execution, FixExecution::ApplyRequested);
    assert!(fix.runs_compiler_fix());
}

#[test]
fn fix_all_alone_does_mutate() {
    let fix = parse_fix_flags(RawFixCli {
        fix_all: true,
        ..RawFixCli::default()
    });
    assert_eq!(fix.execution, FixExecution::ApplyAll);
    assert!(fix.runs_compiler_fix());
}

#[test]
fn no_fix_flags_is_read_only() {
    let fix = parse_fix_flags(RawFixCli::default());
    assert_eq!(fix.execution, FixExecution::ReadOnly);
    assert!(fix.requested_fixes.is_empty());
    assert!(!fix.runs_compiler_fix());
}

#[test]
fn dry_run_alone_previews_everything() {
    let fix = parse_fix_flags(RawFixCli {
        dry_run: true,
        ..RawFixCli::default()
    });
    assert_eq!(fix.execution, FixExecution::PreviewAll);
}

#[test]
fn each_fix_flag_requests_its_fix_once() {
    let fix = parse_fix_flags(RawFixCli {
        fix: true,
        fix_pub_use: true,
        fix_compiler: true,
        ..RawFixCli::default()
    });
    assert_eq!(fix.execution, FixExecution::ApplyRequested);
    assert_eq!(
        fix.requested_fixes,
        vec![FixRequest::Compiler, FixRequest::Mend, FixRequest::PubUse]
    );
    assert!(fix.includes(FixRequest::Mend));
    assert!(fix.includes(FixRequest::PubUse));
}
