//! Fixed strings of cargo's output protocol and of mend's own output.

use vstd::prelude::*;

verus! {

// cargo output protocol
pub const CARGO_PROGRESS_PREFIX_BLOCKING: &'static str = "Blocking waiting for file lock";
pub const CARGO_PROGRESS_PREFIX_BUILDING: &'static str = "Building ";
pub const CARGO_PROGRESS_PREFIX_CHECKING: &'static str = "Checking ";
pub const CARGO_PROGRESS_PREFIX_COMPILING: &'static str = "Compiling ";
pub const CARGO_PROGRESS_PREFIX_FINISHED: &'static str = "Finished ";
pub const CARGO_PROGRESS_PREFIX_FRESH: &'static str = "Fresh ";
pub const CARGO_UNUSED_IMPORT_WARNING: &'static str = "warning: unused import:";
pub const CARGO_UNUSED_IMPORTS_WARNING: &'static str = "warning: unused imports:";
pub const CARGO_WARNING_SUMMARY_PREFIX: &'static str = "warning: `";
pub const CARGO_WARNING_SUMMARY_TOKEN_GENERATED: &'static str = " generated ";
pub const CARGO_WARNING_SUMMARY_TOKEN_TO_APPLY: &'static str = "to apply ";

// diagnostic severity prefixes
pub const DIAGNOSTIC_SEVERITY_ERROR_PREFIX: &'static str = "error:";
pub const DIAGNOSTIC_SEVERITY_WARNING_PREFIX: &'static str = "warning:";

// cargo cli flags
pub const CARGO_FLAG_ALL_FEATURES: &'static str = "--all-features";
pub const CARGO_FLAG_ALL_TARGETS: &'static str = "--all-targets";
pub const CARGO_FLAG_FEATURES: &'static str = "--features";
pub const CARGO_FLAG_NO_DEFAULT_FEATURES: &'static str = "--no-default-features";
pub const CARGO_FLAG_TESTS: &'static str = "--tests";
pub const CARGO_FLAG_ALLOW_DIRTY: &'static str = "--allow-dirty";
pub const CARGO_FLAG_ALLOW_STAGED: &'static str = "--allow-staged";
pub const CARGO_SUBCOMMAND_CHECK: &'static str = "check";
pub const CARGO_SUBCOMMAND_FIX: &'static str = "fix";

// findings
pub const FINDINGS_DIR_NAME: &'static str = "mend-findings";
pub const FINDINGS_SCHEMA_VERSION: u32 = 16;
pub const FINGERPRINT_HEX_WIDTH: usize = 16;
pub const JSON_FILE_EXTENSION: &'static str = "json";

// suppression notice printed once per run
pub const SUPPRESSION_NOTICE: &'static str =
    "mend: suppressing `unused import` warning during `--fix-pub-use` discovery";

} // verus!
