# tschecker

Runs TypeScript code-quality stages (prettier, eslint, tsc, vitest) on the
files that each GitButler branch changed, asks a command-line fixing
assistant to fix what the tools could not, and commits clean results back
with `but commit`.

## Layout

- `src/` — the library, verified with Verus:
  - `pipeline.rs`: the four-stage pipeline as a state machine (`Pipeline::new`,
    `Pipeline::step`) with its invariant, the dry-run preview, and the laws the
    pipeline keeps (it commits only after every stage is cleared, fix attempts
    stay within `max_retries`, prettier is never sent to the fixer, a dry run
    runs nothing).
  - `checks/`: the command each stage runs and how its output becomes a
    `CheckResult` (eslint output, tsc diagnostics narrowed to changed files,
    vitest's JSON report).
  - `files.rs`: extension filters, test-file candidates and lookup, snapshot
    paths. Each lookup on disk (`find_test_file`, `find_snapshot_files`,
    `collect_test_files`, and `workflow::expand_with_test_files`) asks whether
    paths under the project root exist and hands the answers to a function
    with an exact contract over them (`find_test_file_in`,
    `find_snapshot_files_in`, `collect_test_files_from`,
    `workflow::expand_from_lookups`).
  - `gitbutler.rs`: the workspace status and the questions asked of it.
  - `workflow.rs`, `ui.rs`, `update.rs`, `fixer.rs`, `cli.rs`: the decisions of
    the command's modes, the key selector, version comparison, the fix prompt,
    and the options.
  - `text.rs`, `paths.rs`, `json.rs`: models of the `std` string and path
    operations and of `serde_json` documents, with the calls that perform them.
- `app/` — the command-line program: argument parsing, running processes,
  the terminal, and the loop that performs each action the pipeline asks for.
  Files given on the command line (`tschecker a.ts b.tsx`) are checked with
  their related tests under the branch `direct`, without fixes or a commit.
- `tests/` — tests of the library on concrete values.

## The fixing assistant

The program started for fix attempts is named by the environment variable
`TSCHECKER_FIX_COMMAND`; it is called as `<program> -p <prompt>
--dangerously-skip-permissions` in the project directory, with a 120-second
limit. When the variable is unset, the attempt is reported as failed and the
stage is checked again.
