//! Cross-target reconciliation of visibility findings, cargo output
//! classification, the visibility checks an item goes through, and the path,
//! module and policy rules behind them.
//!
//! Reports are reconciled in three passes: cross-target intersection,
//! caller-aware suppression, and narrowing priority. Reconciling the
//! stored visibility constraints (the pass that renders a constraint group
//! into a rewritten finding) is not part of this library, nor is the
//! compiler-side analysis that feeds it, nor the walk of a file's syntax
//! tree: the source cache takes what that walk found as plain values.

pub mod boundary;
pub mod cache;
pub mod caller_aware;
pub mod cargo_fix;
pub mod cargo_output;
pub mod cli;
pub mod constants;
pub mod constraint;
pub mod constraint_set;
pub mod counters;
pub mod def_path;
pub mod driver;
pub mod facade_exports;
pub mod feature_gates;
pub mod facade_paths;
pub mod facade_usage;
pub mod facade_scan;
pub mod findings;
pub mod item_findings;
pub mod keys;
pub mod line_display;
pub mod load;
pub mod module_files;
pub mod module_sources;
pub mod ordered;
pub mod ordering;
pub mod path_index;
pub mod policy;
pub mod progress;
pub mod pub_use;
pub mod reach;
pub mod reconcile;
pub mod rewrite;
pub mod scan;
pub mod settings;
pub mod source_cache;
pub mod sink;
pub mod surface;
pub mod sweep_counters;
pub mod text;
