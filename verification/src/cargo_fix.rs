//! The decisions around `cargo fix`: which features the fix pass enables,
//! the argument lists of the fix and validation commands, and what follows
//! each command's outcome.
//!
//! Running the commands and restoring the sources belong to the application,
//! which reports each outcome back and performs the action chosen here.

use vstd::prelude::*;

use crate::constants::CARGO_FLAG_ALL_FEATURES;
use crate::constants::CARGO_FLAG_ALL_TARGETS;
use crate::constants::CARGO_FLAG_ALLOW_DIRTY;
use crate::constants::CARGO_FLAG_ALLOW_STAGED;
use crate::constants::CARGO_FLAG_FEATURES;
use crate::constants::CARGO_FLAG_NO_DEFAULT_FEATURES;
use crate::constants::CARGO_FLAG_TESTS;
use crate::constants::CARGO_SUBCOMMAND_CHECK;
use crate::constants::CARGO_SUBCOMMAND_FIX;
use crate::findings::AllFeaturesCoverage;
use crate::text::chars_eq;
use crate::text::chars_of;
use crate::text::chars_start_with;
use crate::text::starts_with;

verus! {

/// Whether one cargo argument selects features: `--all-features`,
/// `--features`, `--no-default-features`, or `--features=<list>`.
pub open spec fn is_feature_selection(arg: Seq<char>) -> bool {
    ||| arg == CARGO_FLAG_ALL_FEATURES@
    ||| arg == CARGO_FLAG_FEATURES@
    ||| arg == CARGO_FLAG_NO_DEFAULT_FEATURES@
    ||| (starts_with(arg, CARGO_FLAG_FEATURES@) && arg.len() > CARGO_FLAG_FEATURES@.len()
        && arg[CARGO_FLAG_FEATURES@.len() as int] == '=')
}

/// Whether any argument of the plan selects features.
pub open spec fn selects_features(args: Seq<Seq<char>>) -> bool {
    exists|i: int| 0 <= i < args.len() && #[trigger] is_feature_selection(args[i])
}

/// The texts of a list of strings.
pub open spec fn texts_of(args: Seq<String>) -> Seq<Seq<char>> {
    args.map_values(|a: String| a@)
}

fn arg_selects_features(arg: &String) -> (r: bool)
    ensures
        r == is_feature_selection(arg@),
{
    let a = chars_of(arg.as_str());
    let all = chars_of(CARGO_FLAG_ALL_FEATURES);
    let features = chars_of(CARGO_FLAG_FEATURES);
    let no_default = chars_of(CARGO_FLAG_NO_DEFAULT_FEATURES);
    if chars_eq(&a, &all) || chars_eq(&a, &features) || chars_eq(&a, &no_default) {
        return true;
    }
    chars_start_with(&a, &features) && a.len() > features.len() && a[features.len()] == '='
}

/// Whether the cargo arguments already choose which features to build.
///
/// An arguments list that is not valid text is handed over as an empty
/// string, which selects nothing.
pub fn has_explicit_feature_selection(cargo_args: &Vec<String>) -> (r: bool)
    ensures
        r == selects_features(texts_of(cargo_args@)),
{
    let mut i: usize = 0;
    while i < cargo_args.len()
        invariant
            i <= cargo_args.len(),
            forall|j: int| 0 <= j < i ==> !is_feature_selection(#[trigger] cargo_args@[j]@),
        decreases cargo_args.len() - i,
    {
        if arg_selects_features(&cargo_args[i]) {
            assert(is_feature_selection(texts_of(cargo_args@)[i as int]));
            return true;
        }
        i = i + 1;
    }
    assert forall|j: int| 0 <= j < texts_of(cargo_args@).len() implies !is_feature_selection(
        #[trigger] texts_of(cargo_args@)[j],
    ) by {
        assert(texts_of(cargo_args@)[j] == cargo_args@[j]@);
    }
    false
}

/// Which features the fix pass and its validation build.
#[derive(Debug, Clone, Copy, PartialEq, Eq, Structural)]
pub enum CargoFixFeatures {
    /// `--all-features` is added to the plan's arguments.
    All,
    /// The plan's own feature configuration.
    Plan,
}

/// `All` exactly when the plan selects no features and every analysed
/// configuration is covered by an all-features build.
pub open spec fn cargo_fix_features_spec(
    args: Seq<Seq<char>>,
    coverage: AllFeaturesCoverage,
) -> CargoFixFeatures {
    if !selects_features(args) && coverage == AllFeaturesCoverage::Superset {
        CargoFixFeatures::All
    } else {
        CargoFixFeatures::Plan
    }
}

/// The features the fix pass starts with.
pub fn cargo_fix_features_for(
    cargo_args: &Vec<String>,
    all_features_coverage: AllFeaturesCoverage,
) -> (r: CargoFixFeatures)
    ensures
        r == cargo_fix_features_spec(texts_of(cargo_args@), all_features_coverage),
{
    match (has_explicit_feature_selection(cargo_args), all_features_coverage) {
        (false, AllFeaturesCoverage::Superset) => CargoFixFeatures::All,
        _ => CargoFixFeatures::Plan,
    }
}

/// One argument of a cargo command line.
#[derive(Debug, Clone, PartialEq, Eq)]
pub enum CommandArg {
    /// An argument mend adds itself.
    Text(String),
    /// The plan's cargo argument at this index, passed on unchanged.
    Passthrough(usize),
}

/// The specification view of a [`CommandArg`].
pub enum CommandArgView {
    Text(Seq<char>),
    Passthrough(int),
}

impl View for CommandArg {
    type V = CommandArgView;

    open spec fn view(&self) -> CommandArgView {
        match self {
            CommandArg::Text(t) => CommandArgView::Text(t@),
            CommandArg::Passthrough(i) => CommandArgView::Passthrough(*i as int),
        }
    }
}

/// The views of a command line.
pub open spec fn arg_views(v: Seq<CommandArg>) -> Seq<CommandArgView> {
    v.map_values(|a: CommandArg| a@)
}

/// `--all-features` when the features are `All`, nothing otherwise.
pub open spec fn feature_suffix(features: CargoFixFeatures) -> Seq<CommandArgView> {
    if features == CargoFixFeatures::All {
        seq![CommandArgView::Text(CARGO_FLAG_ALL_FEATURES@)]
    } else {
        Seq::empty()
    }
}

/// The fix pass forwards each plan argument, except that `--all-targets`
/// becomes `--tests`, so that every target compiles in test mode and imports
/// used only by test code are never removed.
pub open spec fn fix_pass_arg(args: Seq<Seq<char>>, i: int) -> CommandArgView {
    if args[i] == CARGO_FLAG_ALL_TARGETS@ {
        CommandArgView::Text(CARGO_FLAG_TESTS@)
    } else {
        CommandArgView::Passthrough(i)
    }
}

/// `cargo fix --allow-dirty --allow-staged <plan arguments> [--all-features]`.
pub open spec fn fix_command_spec(
    args: Seq<Seq<char>>,
    features: CargoFixFeatures,
) -> Seq<CommandArgView> {
    seq![
        CommandArgView::Text(CARGO_SUBCOMMAND_FIX@),
        CommandArgView::Text(CARGO_FLAG_ALLOW_DIRTY@),
        CommandArgView::Text(CARGO_FLAG_ALLOW_STAGED@),
    ] + Seq::new(args.len(), |i: int| fix_pass_arg(args, i)) + feature_suffix(features)
}

/// `cargo check <plan arguments> [--all-features]`.
pub open spec fn validation_command_spec(
    args: Seq<Seq<char>>,
    features: CargoFixFeatures,
) -> Seq<CommandArgView> {
    seq![CommandArgView::Text(CARGO_SUBCOMMAND_CHECK@)] + Seq::new(
        args.len(),
        |i: int| CommandArgView::Passthrough(i),
    ) + feature_suffix(features)
}

fn text_arg(s: &str) -> (a: CommandArg)
    ensures
        a@ == CommandArgView::Text(s@),
{
    CommandArg::Text(s.to_owned())
}

fn push_feature_suffix(out: &mut Vec<CommandArg>, features: CargoFixFeatures)
    ensures
        arg_views(final(out)@) == arg_views(old(out)@) + feature_suffix(features),
{
    let ghost before = out@;
    if features == CargoFixFeatures::All {
        out.push(text_arg(CARGO_FLAG_ALL_FEATURES));
        assert(arg_views(out@) =~= arg_views(before) + feature_suffix(features));
    } else {
        assert(arg_views(out@) =~= arg_views(before) + feature_suffix(features));
    }
}

fn is_all_targets(arg: &String) -> (r: bool)
    ensures
        r == (arg@ == CARGO_FLAG_ALL_TARGETS@),
{
    let a = chars_of(arg.as_str());
    let t = chars_of(CARGO_FLAG_ALL_TARGETS);
    chars_eq(&a, &t)
}

/// The argument list of the `cargo fix` pass.
pub fn fix_command_args(cargo_args: &Vec<String>, features: CargoFixFeatures) -> (out: Vec<
    CommandArg,
>)
    ensures
        arg_views(out@) == fix_command_spec(texts_of(cargo_args@), features),
{
    let ghost args = texts_of(cargo_args@);
    let mut out: Vec<CommandArg> = Vec::new();
    out.push(text_arg(CARGO_SUBCOMMAND_FIX));
    out.push(text_arg(CARGO_FLAG_ALLOW_DIRTY));
    out.push(text_arg(CARGO_FLAG_ALLOW_STAGED));
    let ghost head = seq![
        CommandArgView::Text(CARGO_SUBCOMMAND_FIX@),
        CommandArgView::Text(CARGO_FLAG_ALLOW_DIRTY@),
        CommandArgView::Text(CARGO_FLAG_ALLOW_STAGED@),
    ];
    assert(arg_views(out@) =~= head);
    let mut i: usize = 0;
    while i < cargo_args.len()
        invariant
            i <= cargo_args.len(),
            args == texts_of(cargo_args@),
            arg_views(out@) =~= head + Seq::new(i as nat, |k: int| fix_pass_arg(args, k)),
        decreases cargo_args.len() - i,
    {
        let ghost before = out@;
        assert(args[i as int] == cargo_args@[i as int]@);
        if is_all_targets(&cargo_args[i]) {
            out.push(text_arg(CARGO_FLAG_TESTS));
        } else {
            out.push(CommandArg::Passthrough(i));
        }
        i = i + 1;
        assert(arg_views(out@) =~= arg_views(before).push(fix_pass_arg(args, i - 1)));
        assert(arg_views(out@) =~= head + Seq::new(i as nat, |k: int| fix_pass_arg(args, k)));
    }
    push_feature_suffix(&mut out, features);
    assert(arg_views(out@) =~= fix_command_spec(args, features));
    out
}

/// The argument list of the `cargo check` that validates the fixed sources.
pub fn validation_command_args(cargo_args: &Vec<String>, features: CargoFixFeatures) -> (out: Vec<
    CommandArg,
>)
    ensures
        arg_views(out@) == validation_command_spec(texts_of(cargo_args@), features),
{
    let ghost args = texts_of(cargo_args@);
    let mut out: Vec<CommandArg> = Vec::new();
    out.push(text_arg(CARGO_SUBCOMMAND_CHECK));
    let ghost head = seq![CommandArgView::Text(CARGO_SUBCOMMAND_CHECK@)];
    assert(arg_views(out@) =~= head);
    let mut i: usize = 0;
    while i < cargo_args.len()
        invariant
            i <= cargo_args.len(),
            args == texts_of(cargo_args@),
            arg_views(out@) =~= head + Seq::new(
                i as nat,
                |k: int| CommandArgView::Passthrough(k),
            ),
        decreases cargo_args.len() - i,
    {
        let ghost before = out@;
        out.push(CommandArg::Passthrough(i));
        i = i + 1;
        assert(arg_views(out@) =~= arg_views(before).push(CommandArgView::Passthrough(i - 1)));
        assert(arg_views(out@) =~= head + Seq::new(
            i as nat,
            |k: int| CommandArgView::Passthrough(k),
        ));
    }
    push_feature_suffix(&mut out, features);
    assert(arg_views(out@) =~= validation_command_spec(args, features));
    out
}

/// The command a `cargo fix` run is waiting on.
#[derive(Debug, Clone, Copy, PartialEq, Eq, Structural)]
pub enum CargoFixPhase {
    /// The fix pass with these features.
    Fixing(CargoFixFeatures),
    /// The validating `cargo check` after a fix pass applied with these
    /// features.
    Validating(CargoFixFeatures),
}

/// How a command ended.
#[derive(Debug, Clone, Copy, PartialEq, Eq, Structural)]
pub enum CommandResult {
    /// It ran and exited successfully.
    Succeeded,
    /// It ran and exited with a failure status.
    ExitedWithFailure,
    /// It could not be run.
    CouldNotRun,
}

/// Why a `cargo fix` run is rolled back.
#[derive(Debug, Clone, Copy, PartialEq, Eq, Structural)]
pub enum CargoFixFailure {
    /// The fix pass failed with every feature configuration it tried.
    FixFailed,
    /// The fix pass could not be run.
    FixCouldNotRun,
    /// The fixed sources do not pass `cargo check`.
    ValidationFailed,
    /// The validating `cargo check` could not be run.
    ValidationCouldNotRun,
}

/// What the application does next.
#[derive(Debug, Clone, Copy, PartialEq, Eq, Structural)]
pub enum CargoFixAction {
    /// Run the command of this phase.
    Run(CargoFixPhase),
    /// Report that the all-features fix pass failed, then run the fix pass
    /// again with the plan's features.
    RetryWithPlanFeatures,
    /// The fixes are applied and validated.
    Finish,
    /// Restore the captured sources and fail for this reason.
    RollBack(CargoFixFailure),
}

/// The first phase of a run.
pub open spec fn cargo_fix_start_spec(
    args: Seq<Seq<char>>,
    coverage: AllFeaturesCoverage,
) -> CargoFixPhase {
    CargoFixPhase::Fixing(cargo_fix_features_spec(args, coverage))
}

/// The action that follows `result` in `phase`.
pub open spec fn cargo_fix_next_spec(phase: CargoFixPhase, result: CommandResult) -> CargoFixAction {
    match phase {
        CargoFixPhase::Fixing(features) => match result {
            CommandResult::Succeeded => CargoFixAction::Run(CargoFixPhase::Validating(features)),
            CommandResult::ExitedWithFailure => if features == CargoFixFeatures::All {
                CargoFixAction::RetryWithPlanFeatures
            } else {
                CargoFixAction::RollBack(CargoFixFailure::FixFailed)
            },
            CommandResult::CouldNotRun => CargoFixAction::RollBack(CargoFixFailure::FixCouldNotRun),
        },
        CargoFixPhase::Validating(_) => match result {
            CommandResult::Succeeded => CargoFixAction::Finish,
            CommandResult::ExitedWithFailure => CargoFixAction::RollBack(
                CargoFixFailure::ValidationFailed,
            ),
            CommandResult::CouldNotRun => CargoFixAction::RollBack(
                CargoFixFailure::ValidationCouldNotRun,
            ),
        },
    }
}

/// The phase a run enters after `action`, if it goes on.
pub open spec fn phase_after(action: CargoFixAction) -> Option<CargoFixPhase> {
    match action {
        CargoFixAction::Run(phase) => Some(phase),
        CargoFixAction::RetryWithPlanFeatures => Some(
            CargoFixPhase::Fixing(CargoFixFeatures::Plan),
        ),
        _ => None,
    }
}

/// The phase a `cargo fix` run starts in.
pub fn cargo_fix_start(
    cargo_args: &Vec<String>,
    all_features_coverage: AllFeaturesCoverage,
) -> (phase: CargoFixPhase)
    ensures
        phase == cargo_fix_start_spec(texts_of(cargo_args@), all_features_coverage),
{
    CargoFixPhase::Fixing(cargo_fix_features_for(cargo_args, all_features_coverage))
}

/// What follows a finished command.
///
/// A fix pass that succeeds is validated with the features it was applied
/// with. An all-features fix pass that fails is retried once with the plan's
/// features; any other failure rolls the sources back.
pub fn cargo_fix_next(phase: CargoFixPhase, result: CommandResult) -> (action: CargoFixAction)
    ensures
        action == cargo_fix_next_spec(phase, result),
{
    match phase {
        CargoFixPhase::Fixing(features) => match result {
            CommandResult::Succeeded => CargoFixAction::Run(CargoFixPhase::Validating(features)),
            CommandResult::ExitedWithFailure => match features {
                CargoFixFeatures::All => CargoFixAction::RetryWithPlanFeatures,
                CargoFixFeatures::Plan => CargoFixAction::RollBack(CargoFixFailure::FixFailed),
            },
            CommandResult::CouldNotRun => CargoFixAction::RollBack(CargoFixFailure::FixCouldNotRun),
        },
        CargoFixPhase::Validating(_) => match result {
            CommandResult::Succeeded => CargoFixAction::Finish,
            CommandResult::ExitedWithFailure => CargoFixAction::RollBack(
                CargoFixFailure::ValidationFailed,
            ),
            CommandResult::CouldNotRun => CargoFixAction::RollBack(
                CargoFixFailure::ValidationCouldNotRun,
            ),
        },
    }
}

/// How many more commands a run in `phase` can start, this one included.
pub open spec fn commands_left(phase: CargoFixPhase) -> nat {
    match phase {
        CargoFixPhase::Fixing(CargoFixFeatures::All) => 3,
        CargoFixPhase::Fixing(CargoFixFeatures::Plan) => 2,
        CargoFixPhase::Validating(_) => 1,
    }
}

/// A run ends after at most three commands: every step that goes on enters
/// a phase with fewer commands left, and a run starts with at most three.
pub proof fn lemma_cargo_fix_runs_at_most_three_commands(
    phase: CargoFixPhase,
    result: CommandResult,
)
    ensures
        commands_left(phase) <= 3,
        phase_after(cargo_fix_next_spec(phase, result)) matches Some(next) ==> commands_left(next)
            < commands_left(phase),
{
}

/// The validating check builds exactly the features the applied fix pass
/// built, and a run only finishes after a validation succeeded.
pub proof fn lemma_validation_matches_applied_fix(phase: CargoFixPhase, result: CommandResult)
    ensures
        result == CommandResult::Succeeded ==> (phase matches CargoFixPhase::Fixing(f)
            ==> cargo_fix_next_spec(phase, result) == CargoFixAction::Run(
            CargoFixPhase::Validating(f),
        )),
        cargo_fix_next_spec(phase, result) == CargoFixAction::Finish ==> (phase is Validating
            && result == CommandResult::Succeeded),
{
}

/// The fix pass is retried only after an all-features pass exited with a
/// failure, and the retry never adds `--all-features`.
pub proof fn lemma_retry_only_drops_all_features(phase: CargoFixPhase, result: CommandResult)
    ensures
        cargo_fix_next_spec(phase, result) == CargoFixAction::RetryWithPlanFeatures <==> (phase
            == CargoFixPhase::Fixing(CargoFixFeatures::All) && result
            == CommandResult::ExitedWithFailure),
{
}

/// A plan that selects its own features keeps them: the fix pass and its
/// validation never add `--all-features` to it.
pub proof fn lemma_explicit_feature_selection_stays_intact(
    args: Seq<Seq<char>>,
    coverage: AllFeaturesCoverage,
)
    requires
        selects_features(args),
    ensures
        cargo_fix_start_spec(args, coverage) == CargoFixPhase::Fixing(CargoFixFeatures::Plan),
        !fix_command_spec(args, CargoFixFeatures::Plan).contains(
            CommandArgView::Text(CARGO_FLAG_ALL_FEATURES@),
        ),
        !validation_command_spec(args, CargoFixFeatures::Plan).contains(
            CommandArgView::Text(CARGO_FLAG_ALL_FEATURES@),
        ),
{
    reveal_strlit("--all-features");
    reveal_strlit("--tests");
    reveal_strlit("fix");
    reveal_strlit("check");
    reveal_strlit("--allow-dirty");
    reveal_strlit("--allow-staged");
    let all = CommandArgView::Text(CARGO_FLAG_ALL_FEATURES@);
    assert(CARGO_FLAG_ALL_FEATURES@ != CARGO_FLAG_TESTS@) by {
        assert(CARGO_FLAG_ALL_FEATURES@.len() != CARGO_FLAG_TESTS@.len());
    }
    assert(CARGO_FLAG_ALL_FEATURES@ != CARGO_SUBCOMMAND_FIX@) by {
        assert(CARGO_FLAG_ALL_FEATURES@.len() != CARGO_SUBCOMMAND_FIX@.len());
    }
    assert(CARGO_FLAG_ALL_FEATURES@ != CARGO_SUBCOMMAND_CHECK@) by {
        assert(CARGO_FLAG_ALL_FEATURES@.len() != CARGO_SUBCOMMAND_CHECK@.len());
    }
    assert(CARGO_FLAG_ALL_FEATURES@ != CARGO_FLAG_ALLOW_DIRTY@) by {
        assert(CARGO_FLAG_ALL_FEATURES@.len() != CARGO_FLAG_ALLOW_DIRTY@.len());
    }
    assert(CARGO_FLAG_ALL_FEATURES@ != CARGO_FLAG_ALLOW_STAGED@) by {
        assert(CARGO_FLAG_ALL_FEATURES@[5] != CARGO_FLAG_ALLOW_STAGED@[5]);
    }
    let fix = fix_command_spec(args, CargoFixFeatures::Plan);
    assert forall|k: int| 0 <= k < fix.len() implies fix[k] != all by {
        if k >= 3 {
            assert(fix[k] == fix_pass_arg(args, k - 3));
        }
    }
    let check = validation_command_spec(args, CargoFixFeatures::Plan);
    assert forall|k: int| 0 <= k < check.len() implies check[k] != all by {}
}

/// The fix pass never forwards `--all-targets`: it compiles each target in
/// test mode with `--tests` in its place.
pub proof fn lemma_fix_pass_never_forwards_all_targets(
    args: Seq<Seq<char>>,
    features: CargoFixFeatures,
    k: int,
)
    requires
        0 <= k < fix_command_spec(args, features).len(),
    ensures
        fix_command_spec(args, features)[k] matches CommandArgView::Passthrough(i) ==> args[i]
            != CARGO_FLAG_ALL_TARGETS@,
{
    let fix = fix_command_spec(args, features);
    if 3 <= k < 3 + args.len() {
        assert(fix[k] == fix_pass_arg(args, k - 3));
    }
}

} // verus!
