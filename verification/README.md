# cargo-mend

`cargo mend` audits the visibility annotations of a Rust workspace: `pub`
items that nothing outside their parent module needs, `pub(crate)` where the
house rules forbid it, parent `pub use` facades that went stale, and the
fixes that narrow them.

## Layout

- `src/` is the verified library, written in Verus. It holds the rules and
  the reconciliation logic: how findings from several compilation targets are
  intersected, prioritized and suppressed for callers that need a wider
  reach; how stored reports are selected and loaded; how cargo's output is
  classified; the `cargo fix` state machine; module boundaries on file paths;
  facade usage scans; the visibility checks an item goes through; the
  feature-gate scan behind the all-features coverage claim; and the source
  cache (one entry per file, its paths indexed by the name each could
  resolve to, and the names that can occur in its text).
- `tests/` exercise the library on concrete inputs.
- `app/` is the command-line program around the library: argument parsing,
  running cargo, reading and writing the findings directory, progress
  output, JSON rendering, and reading source files and walking their `syn`
  syntax trees for the source cache.

Outside the verified library:

- the compiler-side analysis (walking the HIR of a crate under a rustc
  driver), which this crate does not hold; the library takes the facts it
  produces as plain values;
- the walk of a syntax tree that yields each file's paths, `use` items and
  attribute and macro sites follows `syn`'s `Visit` traversal, so it stands
  in `app/`; the library takes what it yields as plain values
  (`ParsedSource`);
- the lexical scan of comments and literals, and the literal crate-path
  usage scan built on it, which this crate does not hold;
- the reconciliation pass over stored visibility constraints and the
  rendering of a constraint group into a rewritten finding, which this crate
  does not hold: findings that a constraint records are kept as the targets
  stored them.
