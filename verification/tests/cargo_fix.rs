use cargo_mend::cache::scope_fingerprint_for;
use cargo_mend::cargo_fix::cargo_fix_features_for;
use cargo_mend::cargo_fix::cargo_fix_next;
use cargo_mend::cargo_fix::cargo_fix_start;
use cargo_mend::cargo_fix::fix_command_args;
use cargo_mend::cargo_fix::has_explicit_feature_selection;
use cargo_mend::cargo_fix::validation_command_args;
use cargo_mend::cargo_fix::CargoFixAction;
use cargo_mend::cargo_fix::CargoFixFailure;
use cargo_mend::cargo_fix::CargoFixFeatures;
use cargo_mend::cargo_fix::CargoFixPhase;
use cargo_mend::cargo_fix::CommandArg;
use cargo_mend::cargo_fix::CommandResult;
use cargo_mend::constants::CARGO_FLAG_ALL_FEATURES;
use cargo_mend::constants::CARGO_FLAG_FEATURES;
use cargo_mend::constants::CARGO_FLAG_NO_DEFAULT_FEATURES;
use cargo_mend::findings::AllFeaturesCoverage;

const CARGO_FLAG_MANIFEST_PATH: &str = "--manifest-path";

fn args(items: &[&str]) -> Vec<String> {
    items.iter().map(|s| s.to_string()).collect()
}

fn text(s: &str) -> CommandArg {
    CommandArg::Text(s.to_string())
}

#[test]
fn detects_explicit_cargo_feature_selections() {
    let selections = [
        vec![String::from(CARGO_FLAG_FEATURES), String::from("hidden")],
        vec![format!("{CARGO_FLAG_FEATURES}=hidden")],
        vec![String::from(CARGO_FLAG_ALL_FEATURES)],
        vec![String::from(CARGO_FLAG_NO_DEFAULT_FEATURES)],
    ];
    for cargo_args in selections {
        assert!(has_explicit_feature_selection(&cargo_args));
    }
}

#[test]
fn ignores_cargo_arguments_without_feature_selection() {
    let cargo_args = vec![String::from(CARGO_FLAG_MANIFEST_PATH), String::from("Cargo.toml")];

    assert!(!has_explicit_feature_selection(&cargo_args));
}

#[test]
fn feature_like_arguments_that_are_not_selections_are_ignored() {
    assert!(!has_explicit_feature_selection(&args(&["--featuresx"])));
    assert!(!has_explicit_feature_selection(&args(&["--feature"])));
    assert!(!has_explicit_feature_selection(&args(&[""])));
    assert!(has_explicit_feature_selection(&args(&["--workspace", "--features="])));
}

#[test]
fn all_features_only_without_selection_and_with_superset_coverage() {
    let plain = args(&["--workspace"]);
    let selected = args(&["--features", "x"]);
    assert_eq!(cargo_fix_features_for(&plain, AllFeaturesCoverage::Superset), CargoFixFeatures::All);
    assert_eq!(cargo_fix_features_for(&plain, AllFeaturesCoverage::NotGuaranteed), CargoFixFeatures::Plan);
    assert_eq!(cargo_fix_features_for(&selected, AllFeaturesCoverage::Superset), CargoFixFeatures::Plan);
    assert_eq!(cargo_fix_features_for(&selected, AllFeaturesCoverage::NotGuaranteed), CargoFixFeatures::Plan);
}

#[test]
fn fix_pass_replaces_all_targets_with_tests() {
    let plan = args(&["--workspace", "--all-targets", "--manifest-path", "Cargo.toml"]);
    assert_eq!(
        fix_command_args(&plan, CargoFixFeatures::All),
        vec![
            text("fix"),
            text("--allow-dirty"),
            text("--allow-staged"),
            CommandArg::Passthrough(0),
            text("--tests"),
            CommandArg::Passthrough(2),
            CommandArg::Passthrough(3),
            text("--all-features"),
        ]
    );
    assert_eq!(
        fix_command_args(&plan, CargoFixFeatures::Plan),
        vec![
            text("fix"),
            text("--allow-dirty"),
            text("--allow-staged"),
            CommandArg::Passthrough(0),
            text("--tests"),
            CommandArg::Passthrough(2),
            CommandArg::Passthrough(3),
        ]
    );
}

#[test]
fn validation_checks_the_plan_with_the_applied_features() {
    let plan = args(&["--workspace", "--all-targets"]);
    assert_eq!(
        validation_command_args(&plan, CargoFixFeatures::All),
        vec![text("check"), CommandArg::Passthrough(0), CommandArg::Passthrough(1), text("--all-features")]
    );
    assert_eq!(
        validation_command_args(&plan, CargoFixFeatures::Plan),
        vec![text("check"), CommandArg::Passthrough(0), CommandArg::Passthrough(1)]
    );
}

#[test]
fn failed_all_features_fix_is_retried_once_with_the_plan_features() {
    let plan = args(&["--workspace"]);
    let start = cargo_fix_start(&plan, AllFeaturesCoverage::Superset);
    assert_eq!(start, CargoFixPhase::Fixing(CargoFixFeatures::All));
    assert_eq!(cargo_fix_next(start, CommandResult::ExitedWithFailure), CargoFixAction::RetryWithPlanFeatures);
    let retry = CargoFixPhase::Fixing(CargoFixFeatures::Plan);
    assert_eq!(
        cargo_fix_next(retry, CommandResult::ExitedWithFailure),
        CargoFixAction::RollBack(CargoFixFailure::FixFailed)
    );
    assert_eq!(
        cargo_fix_next(retry, CommandResult::Succeeded),
        CargoFixAction::Run(CargoFixPhase::Validating(CargoFixFeatures::Plan))
    );
}

#[test]
fn validation_outcomes_finish_or_roll_back() {
    let validating = CargoFixPhase::Validating(CargoFixFeatures::All);
    assert_eq!(cargo_fix_next(validating, CommandResult::Succeeded), CargoFixAction::Finish);
    assert_eq!(
        cargo_fix_next(validating, CommandResult::ExitedWithFailure),
        CargoFixAction::RollBack(CargoFixFailure::ValidationFailed)
    );
    assert_eq!(
        cargo_fix_next(validating, CommandResult::CouldNotRun),
        CargoFixAction::RollBack(CargoFixFailure::ValidationCouldNotRun)
    );
    assert_eq!(
        cargo_fix_next(CargoFixPhase::Fixing(CargoFixFeatures::All), CommandResult::CouldNotRun),
        CargoFixAction::RollBack(CargoFixFailure::FixCouldNotRun)
    );
    assert_eq!(
        cargo_fix_next(CargoFixPhase::Fixing(CargoFixFeatures::All), CommandResult::Succeeded),
        CargoFixAction::Run(CargoFixPhase::Validating(CargoFixFeatures::All))
    );
}

#[test]
fn explicit_selection_starts_with_the_plan_features() {
    let plan = args(&["--no-default-features"]);
    assert_eq!(
        cargo_fix_start(&plan, AllFeaturesCoverage::Superset),
        CargoFixPhase::Fixing(CargoFixFeatures::Plan)
    );
}

#[test]
fn scope_fingerprint_is_sixteen_hex_digits_and_depends_on_the_arguments() {
    let a = scope_fingerprint_for("/w/Cargo.toml", &vec![b"--workspace".to_vec()]);
    let b = scope_fingerprint_for("/w/Cargo.toml", &vec![b"--workspace".to_vec()]);
    let c = scope_fingerprint_for("/w/Cargo.toml", &vec![b"--all-targets".to_vec()]);
    assert_eq!(a.len(), 16);
    assert!(a.chars().all(|ch| ch.is_ascii_hexdigit() && !ch.is_ascii_uppercase()));
    assert_eq!(a, b);
    assert_ne!(a, c);
}
