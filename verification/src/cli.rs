//! What the command-line flags ask mend to do.
//!
//! Argument parsing itself belongs to the application; it hands over the
//! flags as plain booleans and lists, and these functions decide what they
//! mean.

use vstd::prelude::*;

verus! {

/// Which packages of a workspace are checked.
#[derive(Debug, Clone, Copy, Default, PartialEq, Eq, Structural)]
pub enum WorkspaceSelection {
    #[default]
    Auto,
    Workspace,
}

/// Which targets' findings are displayed.
#[derive(Debug, Clone, Copy, PartialEq, Eq, Structural)]
pub enum TargetSelection {
    All,
    Benches,
    Binaries,
    Examples,
    Library,
    Tests,
}

/// Whether and how fixes are applied.
#[derive(Debug, Clone, Copy, Default, PartialEq, Eq, Structural)]
pub enum FixExecution {
    #[default]
    ReadOnly,
    ApplyRequested,
    ApplyAll,
    PreviewRequested,
    PreviewAll,
}

/// One kind of fix the user can request.
#[derive(Debug, Clone, Copy, PartialEq, Eq, Structural)]
pub enum FixRequest {
    Compiler,
    Mend,
    PubUse,
}

/// The fix flags as given on the command line.
#[derive(Debug, Clone, Copy, Default, PartialEq, Eq, Structural)]
pub struct RawFixCli {
    pub fix: bool,
    pub fix_pub_use: bool,
    pub fix_compiler: bool,
    pub fix_all: bool,
    pub dry_run: bool,
}

/// The fixes requested and whether they are applied or previewed.
///
/// `requested_fixes` holds each request at most once, in the order
/// `Compiler`, `Mend`, `PubUse`.
#[derive(Debug, Clone, PartialEq, Eq)]
pub struct FixCli {
    pub execution: FixExecution,
    pub requested_fixes: Vec<FixRequest>,
}

impl Default for FixCli {
    fn default() -> (r: Self)
        ensures
            r.execution == FixExecution::ReadOnly,
            r.requested_fixes@.len() == 0,
    {
        FixCli { execution: FixExecution::ReadOnly, requested_fixes: Vec::new() }
    }
}

/// The execution mode the flags select.
pub open spec fn execution_for(raw: RawFixCli, nothing_requested: bool) -> FixExecution {
    if raw.dry_run && (raw.fix_all || nothing_requested) {
        FixExecution::PreviewAll
    } else if raw.fix_all {
        FixExecution::ApplyAll
    } else if raw.dry_run {
        FixExecution::PreviewRequested
    } else if nothing_requested {
        FixExecution::ReadOnly
    } else {
        FixExecution::ApplyRequested
    }
}

/// Whether the fix settings run `cargo fix`.
pub open spec fn runs_compiler_fix_spec(execution: FixExecution, requests: Seq<FixRequest>) -> bool {
    match execution {
        FixExecution::ApplyAll => true,
        FixExecution::ApplyRequested => requests.contains(FixRequest::Compiler),
        _ => false,
    }
}

impl FixCli {
    /// Reads the fix flags: each of `--fix`, `--fix-pub-use` and
    /// `--fix-compiler` requests one kind of fix, `--fix-all` applies every
    /// kind, and `--dry-run` previews instead of applying.
    pub fn from_raw(raw: RawFixCli) -> (r: FixCli)
        ensures
            r.requested_fixes@.contains(FixRequest::Mend) == raw.fix,
            r.requested_fixes@.contains(FixRequest::PubUse) == raw.fix_pub_use,
            r.requested_fixes@.contains(FixRequest::Compiler) == raw.fix_compiler,
            r.requested_fixes@.no_duplicates(),
            r.execution == execution_for(
                raw,
                !raw.fix && !raw.fix_pub_use && !raw.fix_compiler,
            ),
    {
        let mut requested_fixes: Vec<FixRequest> = Vec::new();
        if raw.fix_compiler {
            requested_fixes.push(FixRequest::Compiler);
        }
        if raw.fix {
            requested_fixes.push(FixRequest::Mend);
        }
        if raw.fix_pub_use {
            requested_fixes.push(FixRequest::PubUse);
        }
        let nothing_requested = requested_fixes.len() == 0;
        let execution = if raw.dry_run && (raw.fix_all || nothing_requested) {
            FixExecution::PreviewAll
        } else if raw.fix_all {
            FixExecution::ApplyAll
        } else if raw.dry_run {
            FixExecution::PreviewRequested
        } else if nothing_requested {
            FixExecution::ReadOnly
        } else {
            FixExecution::ApplyRequested
        };
        let r = FixCli { execution, requested_fixes };
        assert(r.requested_fixes@.contains(FixRequest::Mend) == raw.fix) by {
            if raw.fix {
                let k = if raw.fix_compiler {
                    1int
                } else {
                    0int
                };
                assert(r.requested_fixes@[k] == FixRequest::Mend);
            }
        }
        assert(r.requested_fixes@.contains(FixRequest::PubUse) == raw.fix_pub_use) by {
            if raw.fix_pub_use {
                assert(r.requested_fixes@[r.requested_fixes@.len() - 1] == FixRequest::PubUse);
            }
        }
        assert(r.requested_fixes@.contains(FixRequest::Compiler) == raw.fix_compiler) by {
            if raw.fix_compiler {
                assert(r.requested_fixes@[0] == FixRequest::Compiler);
            }
        }
        r
    }

    /// Whether `requested_fix` was requested.
    pub fn includes(&self, requested_fix: FixRequest) -> (r: bool)
        ensures
            r == self.requested_fixes@.contains(requested_fix),
    {
        let mut i: usize = 0;
        while i < self.requested_fixes.len()
            invariant
                i <= self.requested_fixes.len(),
                forall|j: int| 0 <= j < i ==> self.requested_fixes@[j] != requested_fix,
            decreases self.requested_fixes.len() - i,
        {
            if self.requested_fixes[i] == requested_fix {
                return true;
            }
            i = i + 1;
        }
        false
    }

    /// Whether `cargo fix` runs: when every fix is applied, or when the
    /// compiler fix is requested and fixes are applied.
    pub fn runs_compiler_fix(&self) -> (r: bool)
        ensures
            r == runs_compiler_fix_spec(self.execution, self.requested_fixes@),
    {
        match self.execution {
            FixExecution::ApplyAll => true,
            FixExecution::ApplyRequested => self.includes(FixRequest::Compiler),
            FixExecution::ReadOnly | FixExecution::PreviewAll | FixExecution::PreviewRequested => {
                false
            },
        }
    }
}

/// `--dry-run` never lets `cargo fix` touch the sources, whatever else is
/// requested.
pub proof fn lemma_dry_run_never_runs_compiler_fix(raw: RawFixCli, requests: Seq<FixRequest>)
    requires
        raw.dry_run,
    ensures
        !runs_compiler_fix_spec(execution_for(raw, requests.len() == 0), requests),
{
}

/// Without `--dry-run`, `--fix-all` and `--fix-compiler` each run `cargo fix`.
pub proof fn lemma_applied_compiler_fix_runs(raw: RawFixCli, requests: Seq<FixRequest>)
    requires
        !raw.dry_run,
        raw.fix_all || raw.fix_compiler,
        raw.fix_compiler ==> requests.contains(FixRequest::Compiler),
        requests.contains(FixRequest::Compiler) ==> requests.len() > 0,
    ensures
        runs_compiler_fix_spec(execution_for(raw, requests.len() == 0), requests),
{
}

/// The package-selection flags as given on the command line.
#[derive(Debug, Clone, Default, PartialEq, Eq)]
pub struct RawCargoCheckCli {
    pub workspace: bool,
    pub package: Vec<String>,
    pub exclude: Vec<String>,
    pub manifest_path: Option<String>,
    pub positional_manifest_path: Option<String>,
    pub all_targets: bool,
    pub lib: bool,
    pub bins: bool,
    pub examples: bool,
    pub tests: bool,
    pub benches: bool,
    pub bin: Vec<String>,
    pub example: Vec<String>,
    pub test: Vec<String>,
    pub bench: Vec<String>,
}

/// Which packages and targets are checked and displayed.
///
/// `target_selections` holds each selection at most once, in the order the
/// `TargetSelection` variants are declared.
#[derive(Debug, Clone, Default, PartialEq, Eq)]
pub struct CargoCheckCli {
    pub workspace_selection: WorkspaceSelection,
    pub package: Vec<String>,
    pub exclude: Vec<String>,
    pub manifest_path: Option<String>,
    pub positional_manifest_path: Option<String>,
    pub target_selections: Vec<TargetSelection>,
    pub bin: Vec<String>,
    pub example: Vec<String>,
    pub test: Vec<String>,
    pub bench: Vec<String>,
}

fn push_selection(v: &mut Vec<TargetSelection>, flag: bool, item: TargetSelection)
    requires
        !old(v)@.contains(item),
        old(v)@.no_duplicates(),
    ensures
        final(v)@.contains(item) == flag,
        forall|x: TargetSelection| x != item ==> final(v)@.contains(x) == old(v)@.contains(x),
        final(v)@.no_duplicates(),
{
    if flag {
        let ghost before = v@;
        v.push(item);
        assert(v@[v@.len() - 1] == item);
        assert forall|x: TargetSelection| x != item implies v@.contains(x) == before.contains(x) by {
            if v@.contains(x) {
                let k = choose|k: int| 0 <= k < v@.len() && v@[k] == x;
                assert(k < before.len());
                assert(before[k] == x);
            }
            if before.contains(x) {
                let k = choose|k: int| 0 <= k < before.len() && before[k] == x;
                assert(v@[k] == x);
            }
        }
    }
}

impl CargoCheckCli {
    /// Reads the package and target flags.
    pub fn from_raw(raw: RawCargoCheckCli) -> (r: CargoCheckCli)
        ensures
            r.workspace_selection == (if raw.workspace {
                WorkspaceSelection::Workspace
            } else {
                WorkspaceSelection::Auto
            }),
            r.target_selections@.contains(TargetSelection::All) == raw.all_targets,
            r.target_selections@.contains(TargetSelection::Library) == raw.lib,
            r.target_selections@.contains(TargetSelection::Binaries) == raw.bins,
            r.target_selections@.contains(TargetSelection::Examples) == raw.examples,
            r.target_selections@.contains(TargetSelection::Tests) == raw.tests,
            r.target_selections@.contains(TargetSelection::Benches) == raw.benches,
            r.target_selections@.no_duplicates(),
            r.package@ == raw.package@,
            r.exclude@ == raw.exclude@,
            r.manifest_path == raw.manifest_path,
            r.positional_manifest_path == raw.positional_manifest_path,
            r.bin@ == raw.bin@,
            r.example@ == raw.example@,
            r.test@ == raw.test@,
            r.bench@ == raw.bench@,
    {
        let mut target_selections: Vec<TargetSelection> = Vec::new();
        push_selection(&mut target_selections, raw.all_targets, TargetSelection::All);
        push_selection(&mut target_selections, raw.benches, TargetSelection::Benches);
        push_selection(&mut target_selections, raw.bins, TargetSelection::Binaries);
        push_selection(&mut target_selections, raw.examples, TargetSelection::Examples);
        push_selection(&mut target_selections, raw.lib, TargetSelection::Library);
        push_selection(&mut target_selections, raw.tests, TargetSelection::Tests);
        CargoCheckCli {
            workspace_selection: if raw.workspace {
                WorkspaceSelection::Workspace
            } else {
                WorkspaceSelection::Auto
            },
            package: raw.package,
            exclude: raw.exclude,
            manifest_path: raw.manifest_path,
            positional_manifest_path: raw.positional_manifest_path,
            target_selections,
            bin: raw.bin,
            example: raw.example,
            test: raw.test,
            bench: raw.bench,
        }
    }

    /// The manifest path given with `--manifest-path`, else the positional one.
    pub fn explicit_manifest_path(&self) -> (r: Option<&str>)
        ensures
            r is Some <==> (self.manifest_path is Some || self.positional_manifest_path is Some),
            self.manifest_path is Some ==> r->0@ == self.manifest_path->0@,
            self.manifest_path is None && self.positional_manifest_path is Some ==> r->0@
                == self.positional_manifest_path->0@,
    {
        match &self.manifest_path {
            Some(path) => Some(path.as_str()),
            None => match &self.positional_manifest_path {
                Some(path) => Some(path.as_str()),
                None => None,
            },
        }
    }
}

} // verus!
