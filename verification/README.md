# bv — verified command-line front end

The command-line surface of `bv`, the beads issue-tracker viewer, as a Verus
library: every executable function carries a `requires`/`ensures` contract
over mathematical models (`Seq<char>` views of strings and argv) and is
proved by Verus.

## Layout

- `src/text.rs` — string views, trimming, lowercasing, joining, decimal and
  hexadecimal digits; the three standard-library wrappers the rest relies on.
- `src/registry.rs` — the flag registry: robot primaries with their exclusive
  groups, modifier flags, the `--help` table, the modifier-requires rules and
  their recovery examples.
- `src/flags.rs` — registry lookups, help rows, recovery-example text.
- `src/argv.rs` — argv normalization: single-dash spellings, short aliases,
  agent-intent subcommands (`triage`, `search login oauth`, `upgrade --check`,
  ...), structured-output aliases and the `--robot-triage` auto-promote, the
  unknown-positional check, boolean and string flag reads.
- `src/enums.rs` — enum-valued flags, byte-wise edit distance, "did you mean"
  suggestions and the quoted spelling of rejected values.
- `src/validation.rs` — flag presence, the ordered modifier-requires rules,
  exclusive primary groups, the `--watch-export`/`--as-of` conflict.
- `src/help.rs` — the root `--help` page with column layout and wrapping.
- `src/robot.rs` — output escaping, track labels, the output-format switch,
  embedder settings, search errors and timestamp rendering (through `jiff`).
- `src/cli.rs` — what an invocation asks for before any command runs: help,
  version, usage errors, validation failures, or the rewritten argv.
- `src/dispatch.rs` — which command an accepted invocation runs, in the
  fixed order of checks around the `--format` check.
- `src/recipes.rs` — the built-in recipe listing, sorted by name, and its
  JSON payload.
- `src/analysis.rs` — the analysis-configuration and feature-status JSON
  fragments of the robot outputs.
- `src/agents.rs` — the agent-file commands: from the detected agent file
  and the flags, what to print, which file action to take (after an
  optional confirmation) and what to report afterwards.
- `src/next.rs` — `--robot-next`: the claimability reasons of each
  recommendation, the first claim-safe pick and the degradation message.
- `src/plan.rs` — `--robot-plan`: union-find components over blocking and
  parent-child links, tracks of actionable issues in (priority, id) order,
  freed dependents and the impact summary.
- `src/insights.rs` — advanced insights over the open blocking graph: the
  greedy top-k set, the greedy coverage set, the k-paths (representative
  longest paths), the parallel cut and the cycle-break suggestions.
- `src/laws.rs` — properties over all inputs (idempotent spelling
  normalization, HTML-safe quoting, injective track labels, exclusive-group
  conflicts, enum acceptance, robot invocations never reaching the
  interactive viewer, leading aliases rewritten as the alias pass rewrites
  them, the enum suggestion being a nearest allowed value, ...).
- `app/main.rs` — the program: reads argv, the environment and the clock,
  and performs what `cli` and `dispatch` decide.
- `tests/` — behaviour tests on concrete values.

## What the program serves

`app/main.rs` answers `--help`, `--version`, usage and validation errors,
`--robot-help` and `--robot-recipes` itself. Every other command exits 2
with "no handler": those commands read the issue store, the agent file or
the analysis results through the project's workspace crates (issue loading,
graph analysis, search, tracker routes), which are not part of this
repository. Their decisions are nevertheless in the library — `agents`,
`next`, `plan` and `insights` take the loaded data as plain values — so a
front end that loads the data can call them directly.
