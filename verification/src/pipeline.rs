//! The four-stage pipeline as a state machine: prettier, eslint, tsc and
//! vitest in turn on the targets of each, fix attempts for the stages
//! that allow them, then the commit.
//!
//! The machine makes no outside call itself. Each step takes what the last
//! action produced (an [`Event`]) and gives the next [`Action`] to perform.

use vstd::prelude::*;
use crate::checks::{CheckResult, CheckStage, ProcessOutput};
use crate::files::{filter_by_extensions, has_extension_in, spec_filter_by_extensions};
use crate::gitbutler::Branch;
use crate::text::{contains, join, push_string, seq_contains_infix, spec_decimal, spec_join, spec_trim, to_owned_strings, trim, usize_to_decimal, views};

verus! {

/// How the pipeline runs for one branch.
#[derive(Debug)]
pub struct PipelineConfig {
    pub project_dir: String,
    pub repo_path: String,
    pub max_retries: u32,
    pub but_path: String,
    pub no_commit: bool,
    pub dry_run: bool,
    pub verbose: bool,
}

/// How a pipeline run ended.
#[derive(Debug)]
pub enum Outcome {
    /// Every stage passed (and the commit, when asked for, succeeded).
    Passed,
    /// This stage still failed after the fix attempts it allows.
    Failed(CheckStage),
    /// `but commit` failed; the message says how.
    CommitError(String),
}

/// Where the pipeline stands.
#[derive(Debug)]
pub enum Phase {
    /// Not started.
    Ready,
    /// Waiting for a check of `stage`, run after `attempt` fix attempts.
    Checking { stage: CheckStage, attempt: u32 },
    /// Waiting for fix attempt number `attempt` of `stage` to end.
    Fixing { stage: CheckStage, attempt: u32 },
    /// Waiting for the test files of the vitest stage.
    CollectingTests,
    /// Dry run: waiting for the test files to show in the preview.
    Previewing,
    /// Dry run: waiting for the preview to be shown.
    ShowingPreview,
    /// Waiting for `but commit`.
    Committing,
    /// Finished.
    Done(Outcome),
}

/// What the last action produced.
#[derive(Debug)]
pub enum Event {
    /// Begin the run.
    Start,
    /// A check finished with this result.
    Checked(CheckResult),
    /// A fix attempt ended (whatever it achieved).
    Fixed,
    /// The test files related to the changed files, and their snapshots.
    TestsFound { tests: Vec<String>, snapshots: Vec<String> },
    /// The preview was shown.
    Shown,
    /// `but commit` finished.
    Committed(ProcessOutput),
}

/// A command to run in a directory.
#[derive(Debug)]
pub struct CommitCommand {
    pub program: String,
    pub args: Vec<String>,
    pub cwd: String,
}

/// What to do next.
#[derive(Debug)]
pub enum Action {
    /// Run the check of `stage` on `files`, then report [`Event::Checked`].
    RunCheck { stage: CheckStage, files: Vec<String>, cwd: String },
    /// Ask the fixing assistant to fix `errors` in `files` (attempt number `attempt`), then
    /// report [`Event::Fixed`].
    Fix { stage: CheckStage, files: Vec<String>, errors: String, attempt: u32, cwd: String },
    /// Look up the test files of the changed files and their snapshots, then
    /// report [`Event::TestsFound`].
    FindTests { sources: Vec<String>, project_dir: String },
    /// Print these lines, then report [`Event::Shown`].
    ShowPreview(Vec<String>),
    /// Run `but commit`, then report [`Event::Committed`].
    Commit(CommitCommand),
    /// The run is over.
    Finish(Outcome),
}

/// The extensions prettier formats.
pub open spec fn prettier_extensions() -> Seq<Seq<char>> {
    seq!["js"@, "jsx"@, "ts"@, "tsx"@]
}

/// The extensions eslint lints.
pub open spec fn eslint_extensions() -> Seq<Seq<char>> {
    seq!["ts"@, "tsx"@]
}

/// The extensions whose errors tsc reports.
pub open spec fn typescript_extensions() -> Seq<Seq<char>> {
    seq!["ts"@, "tsx"@, "js"@, "jsx"@]
}

/// The message of the commit that records the fixes.
pub open spec fn commit_message() -> Seq<char> {
    "tschecker: auto-fix prettier/lint/type/test issues"@
}

/// The position of a stage in the pipeline.
pub open spec fn stage_index(stage: CheckStage) -> int {
    match stage {
        CheckStage::Prettier => 0,
        CheckStage::Eslint => 1,
        CheckStage::Typescript => 2,
        CheckStage::Vitest => 3,
    }
}

/// The stage at a position of the pipeline.
pub open spec fn stage_at(k: int) -> CheckStage {
    if k <= 0 {
        CheckStage::Prettier
    } else if k == 1 {
        CheckStage::Eslint
    } else if k == 2 {
        CheckStage::Typescript
    } else {
        CheckStage::Vitest
    }
}

/// How many times `stage` was checked.
pub open spec fn check_count(log: Seq<(CheckStage, bool)>, stage: CheckStage) -> nat
    decreases log.len(),
{
    if log.len() == 0 {
        0
    } else {
        check_count(log.drop_last(), stage) + if log.last().0 == stage {
            1nat
        } else {
            0nat
        }
    }
}

/// Whether the last check of `stage` passed; nothing if it was never checked.
pub open spec fn last_result(log: Seq<(CheckStage, bool)>, stage: CheckStage) -> Option<bool>
    decreases log.len(),
{
    if log.len() == 0 {
        None
    } else if log.last().0 == stage {
        Some(log.last().1)
    } else {
        last_result(log.drop_last(), stage)
    }
}

/// The number of checks of every stage, and the last result of every stage,
/// once one more check is logged.
pub proof fn lemma_log_push(log: Seq<(CheckStage, bool)>, entry: (CheckStage, bool))
    ensures
        forall|st: CheckStage| #[trigger] check_count(log.push(entry), st) == check_count(log, st) + if entry.0 == st {
            1nat
        } else {
            0nat
        },
        forall|st: CheckStage| #[trigger] last_result(log.push(entry), st) == if entry.0 == st {
            Some(entry.1)
        } else {
            last_result(log, st)
        },
{
    assert(log.push(entry).drop_last() == log);
}

/// The lines of the preview of a dry run.
pub open spec fn spec_dry_run_report(
    branch_name: Seq<char>,
    cli_id: Seq<char>,
    changed: Seq<String>,
    tests: Seq<Seq<char>>,
    snapshots: Seq<Seq<char>>,
) -> Seq<Seq<char>> {
    let prettier = views(spec_filter_by_extensions(changed, prettier_extensions()));
    let eslint = views(spec_filter_by_extensions(changed, eslint_extensions()));
    let ts = views(spec_filter_by_extensions(changed, typescript_extensions()));
    seq![
        "Branch: "@ + branch_name + " ("@ + cli_id + ")"@,
        spec_count_line("Changed files"@, changed.len()),
    ] + indented(views(changed)) + seq![
        spec_count_line("Prettier targets"@, prettier.len()),
        "  $ ./node_modules/.bin/prettier --write "@ + spec_join(prettier, " "@),
        spec_count_line("ESLint targets"@, eslint.len()),
        "  $ ./node_modules/.bin/eslint --fix --cache --cache-location .cache/eslint/ --quiet "@ + spec_join(eslint, " "@),
        spec_count_line("TypeScript targets"@, ts.len()),
        "  $ ./node_modules/.bin/tsc --noEmit --pretty false"@,
        "  (errors filtered to changed files only)"@,
        spec_count_line("Vitest targets"@, tests.len()),
        "  $ ./node_modules/.bin/vitest run --reporter=json -u "@ + spec_join(tests, " "@),
    ] + if snapshots.len() > 0 {
        seq![spec_count_line("Snapshots to update"@, snapshots.len())] + indented(snapshots)
    } else {
        Seq::empty()
    } + seq![Seq::<char>::empty()]
}

/// `label (n):`.
pub open spec fn spec_count_line(label: Seq<char>, n: nat) -> Seq<char> {
    label + " ("@ + spec_decimal(n) + "):"@
}

/// Each line with two spaces in front.
pub open spec fn indented(lines: Seq<Seq<char>>) -> Seq<Seq<char>> {
    lines.map_values(|l: Seq<char>| "  "@ + l)
}

/// A state of the pipeline for one branch.
pub struct Pipeline {
    pub branch_name: String,
    pub cli_id: String,
    pub changed_files: Vec<String>,
    pub config: PipelineConfig,
    pub phase: Phase,
    /// The files the current stage runs on.
    pub targets: Vec<String>,
    /// The test files of the vitest stage, once looked up.
    pub tests: Vec<String>,
    /// Every check result received, in order: the stage and whether it passed.
    pub log: Ghost<Seq<(CheckStage, bool)>>,
}

impl Pipeline {
    /// The files a stage runs on: the changed files with its extensions, or,
    /// for vitest, the test files looked up.
    pub open spec fn stage_targets(&self, stage: CheckStage) -> Seq<Seq<char>> {
        match stage {
            CheckStage::Prettier => views(spec_filter_by_extensions(self.changed_files@, prettier_extensions())),
            CheckStage::Eslint => views(spec_filter_by_extensions(self.changed_files@, eslint_extensions())),
            CheckStage::Typescript => views(spec_filter_by_extensions(self.changed_files@, typescript_extensions())),
            CheckStage::Vitest => views(self.tests@),
        }
    }

    /// The stage has nothing to run on, or its last check passed.
    pub open spec fn cleared(&self, stage: CheckStage) -> bool {
        self.stage_targets(stage).len() == 0 || last_result(self.log@, stage) == Some(true)
    }

    /// Every stage is cleared.
    pub open spec fn all_cleared(&self) -> bool {
        forall|st: CheckStage| #[trigger] self.cleared(st)
    }

    /// Every stage before `stage` is cleared.
    pub open spec fn cleared_before(&self, stage: CheckStage) -> bool {
        forall|st: CheckStage| stage_index(st) < stage_index(stage) ==> #[trigger] self.cleared(st)
    }

    /// No stage after `stage` was checked.
    pub open spec fn none_checked_after(&self, stage: CheckStage) -> bool {
        forall|st: CheckStage| stage_index(st) > stage_index(stage) ==> #[trigger] check_count(self.log@, st) == 0
    }

    /// The position of the first stage from position `k` on that has
    /// something to run on; vitest's position when none before it has.
    pub open spec fn entry_index(&self, k: int) -> int
        decreases 3 - k,
    {
        if k >= 3 {
            3
        } else if self.stage_targets(stage_at(k)).len() > 0 {
            k
        } else {
            self.entry_index(k + 1)
        }
    }

    /// An upper bound on the steps left once a stage is entered: its own
    /// checks and fixes (at most one check, then a fix and a check per
    /// allowed attempt), the stages after it, and the commit.
    pub open spec fn stage_budget(&self, stage: CheckStage) -> int {
        let m = self.config.max_retries as int;
        let collecting = 2 * m + 5;
        match stage {
            CheckStage::Prettier => collecting + 3 * (2 * m + 3),
            CheckStage::Eslint => collecting + 2 * (2 * m + 3),
            CheckStage::Typescript => collecting + (2 * m + 3),
            CheckStage::Vitest => 2 * m + 4,
        }
    }

    /// An upper bound on the steps left before the run finishes.
    pub open spec fn steps_left(&self) -> int {
        match self.phase {
            Phase::Ready => self.stage_budget(CheckStage::Prettier) + 1,
            Phase::Checking { stage, attempt } => self.stage_budget(stage) - 2 * attempt,
            Phase::Fixing { stage, attempt } => self.stage_budget(stage) - 2 * attempt + 1,
            Phase::CollectingTests => 2 * self.config.max_retries + 5,
            Phase::Previewing => 2,
            Phase::ShowingPreview => 1,
            Phase::Committing => 1,
            Phase::Done(_) => 0,
        }
    }

    /// The state is one the pipeline can reach.
    pub open spec fn wf(&self) -> bool {
        &&& forall|st: CheckStage| #[trigger] check_count(self.log@, st) <= self.config.max_retries + 1
        &&& check_count(self.log@, CheckStage::Prettier) <= 1
        &&& match self.phase {
            Phase::Ready => self.log@.len() == 0 && self.tests@.len() == 0,
            Phase::Checking { stage, attempt } => {
                &&& self.stage_targets(stage).len() > 0
                &&& views(self.targets@) == self.stage_targets(stage)
                &&& attempt <= self.config.max_retries
                &&& check_count(self.log@, stage) == attempt
                &&& (stage == CheckStage::Prettier ==> attempt == 0)
                &&& (attempt > 0 ==> last_result(self.log@, stage) == Some(false))
                &&& (stage != CheckStage::Vitest ==> self.tests@.len() == 0)
                &&& self.cleared_before(stage)
                &&& self.none_checked_after(stage)
                &&& !self.config.dry_run
            },
            Phase::Fixing { stage, attempt } => {
                &&& stage != CheckStage::Prettier
                &&& self.stage_targets(stage).len() > 0
                &&& views(self.targets@) == self.stage_targets(stage)
                &&& 1 <= attempt <= self.config.max_retries
                &&& check_count(self.log@, stage) == attempt
                &&& last_result(self.log@, stage) == Some(false)
                &&& (stage != CheckStage::Vitest ==> self.tests@.len() == 0)
                &&& self.cleared_before(stage)
                &&& self.none_checked_after(stage)
                &&& !self.config.dry_run
            },
            Phase::CollectingTests => {
                &&& self.cleared_before(CheckStage::Vitest)
                &&& check_count(self.log@, CheckStage::Vitest) == 0
                &&& self.tests@.len() == 0
                &&& !self.config.dry_run
            },
            Phase::Previewing | Phase::ShowingPreview => {
                &&& self.config.dry_run
                &&& self.log@.len() == 0
                &&& self.changed_files@.len() > 0
            },
            Phase::Committing => self.all_cleared() && !self.config.no_commit && !self.config.dry_run,
            Phase::Done(Outcome::Passed) => {
                ||| self.changed_files@.len() == 0 && self.log@.len() == 0
                ||| self.config.dry_run && self.log@.len() == 0
                ||| self.all_cleared() && !self.config.dry_run
            },
            Phase::Done(Outcome::Failed(stage)) => {
                &&& !self.config.dry_run
                &&& last_result(self.log@, stage) == Some(false)
                &&& check_count(self.log@, stage) == if stage == CheckStage::Prettier {
                    1
                } else {
                    self.config.max_retries + 1
                }
            },
            Phase::Done(Outcome::CommitError(_)) => self.all_cleared() && !self.config.dry_run,
        }
    }

    /// The event is the one the current phase waits for.
    pub open spec fn accepts(&self, event: Event) -> bool {
        match (self.phase, event) {
            (Phase::Ready, Event::Start) => true,
            (Phase::Checking { .. }, Event::Checked(_)) => true,
            (Phase::Fixing { .. }, Event::Fixed) => true,
            (Phase::CollectingTests, Event::TestsFound { .. }) => true,
            (Phase::Previewing, Event::TestsFound { .. }) => true,
            (Phase::ShowingPreview, Event::Shown) => true,
            (Phase::Committing, Event::Committed(_)) => true,
            _ => false,
        }
    }

    /// `next` differs from `self` at most in phase, targets, tests and log.
    pub open spec fn same_run(&self, next: &Pipeline) -> bool {
        &&& next.branch_name@ == self.branch_name@
        &&& next.cli_id@ == self.cli_id@
        &&& next.changed_files@ == self.changed_files@
        &&& next.config == self.config
    }

    /// `next` entered the first stage from position `k` on that has something
    /// to run on, with `action` to run it, or went on to look up test files.
    pub open spec fn is_entry(&self, k: int, next: &Pipeline, action: Action) -> bool {
        let e = self.entry_index(k);
        if e < 3 {
            &&& next.phase == Phase::Checking { stage: stage_at(e), attempt: 0 }
            &&& views(next.targets@) == self.stage_targets(stage_at(e))
            &&& action matches Action::RunCheck { stage, files, cwd } && stage == stage_at(e) && views(files@) == self.stage_targets(stage_at(e))
                && cwd@ == self.config.project_dir@
        } else {
            next.phase == Phase::CollectingTests && self.is_find_tests(action)
        }
    }

    /// The action looks up the test files of the changed files under the
    /// project directory.
    pub open spec fn is_find_tests(&self, action: Action) -> bool {
        action matches Action::FindTests { sources, project_dir } && sources@ == self.changed_files@
            && project_dir@ == self.config.project_dir@
    }

    /// After the last stage: commit, unless asked not to.
    pub open spec fn is_after_checks(&self, next: &Pipeline, action: Action) -> bool {
        if self.config.no_commit {
            next.phase == Phase::Done(Outcome::Passed) && action == Action::Finish(Outcome::Passed)
        } else {
            &&& next.phase == Phase::Committing
            &&& action matches Action::Commit(c) && c.program@ == self.config.but_path@ && c.cwd@ == self.config.repo_path@
                && views(c.args@) == seq!["commit"@, self.cli_id@, "-m"@, commit_message()]
        }
    }

    /// `next` and `action` are what the pipeline does in state `self` on `event`.
    pub open spec fn is_step(&self, event: Event, next: &Pipeline, action: Action) -> bool {
        &&& self.same_run(next)
        &&& match event {
            Event::Checked(r) => next.log@ == self.log@.push((self.phase->Checking_stage, r.success)),
            _ => next.log@ == self.log@,
        }
        &&& match event {
            Event::TestsFound { tests, .. } => self.phase is CollectingTests ==> next.tests@ == tests@,
            _ => next.tests@ == self.tests@,
        }
        &&& (self.phase is Previewing ==> next.tests@ == self.tests@)
        &&& match (self.phase, event) {
            (Phase::Ready, Event::Start) => {
                if self.changed_files@.len() == 0 {
                    next.phase == Phase::Done(Outcome::Passed) && action == Action::Finish(Outcome::Passed)
                } else if self.config.dry_run {
                    next.phase == Phase::Previewing && self.is_find_tests(action)
                } else {
                    self.is_entry(0, next, action)
                }
            },
            (Phase::Checking { stage, attempt }, Event::Checked(r)) => {
                if r.success {
                    if stage == CheckStage::Vitest {
                        self.is_after_checks(next, action)
                    } else {
                        self.is_entry(stage_index(stage) + 1, next, action)
                    }
                } else if stage == CheckStage::Prettier {
                    next.phase == Phase::Done(Outcome::Failed(stage)) && action == Action::Finish(Outcome::Failed(stage))
                } else if attempt < self.config.max_retries {
                    &&& next.phase == Phase::Fixing { stage, attempt: (attempt + 1) as u32 }
                    &&& next.targets@ == self.targets@
                    &&& action matches Action::Fix { stage: s, files, errors, attempt: a, cwd } && cwd@ == self.config.project_dir@
                        && s == stage && a == attempt + 1 && files@ == self.targets@
                        && errors@ == spec_join(views(r.errors@), "\n"@)
                } else {
                    next.phase == Phase::Done(Outcome::Failed(stage)) && action == Action::Finish(Outcome::Failed(stage))
                }
            },
            (Phase::Fixing { stage, attempt }, Event::Fixed) => {
                &&& next.phase == Phase::Checking { stage, attempt }
                &&& next.targets@ == self.targets@
                &&& action matches Action::RunCheck { stage: s, files, cwd } && s == stage && files@ == self.targets@
                    && cwd@ == self.config.project_dir@
            },
            (Phase::CollectingTests, Event::TestsFound { tests, .. }) => {
                if tests@.len() == 0 {
                    self.is_after_checks(next, action)
                } else {
                    &&& next.phase == Phase::Checking { stage: CheckStage::Vitest, attempt: 0 }
                    &&& next.targets@ == tests@
                    &&& action matches Action::RunCheck { stage, files, cwd } && stage == CheckStage::Vitest && files@ == tests@
                        && cwd@ == self.config.project_dir@
                }
            },
            (Phase::Previewing, Event::TestsFound { tests, snapshots }) => {
                &&& next.phase == Phase::ShowingPreview
                &&& action matches Action::ShowPreview(lines) && views(lines@) == spec_dry_run_report(
                    self.branch_name@,
                    self.cli_id@,
                    self.changed_files@,
                    views(tests@),
                    views(snapshots@),
                )
            },
            (Phase::ShowingPreview, Event::Shown) => {
                next.phase == Phase::Done(Outcome::Passed) && action == Action::Finish(Outcome::Passed)
            },
            (Phase::Committing, Event::Committed(out)) => {
                if out.exit_code == 0 || seq_contains_infix(spec_trim(out.stderr@), "No changes to commit"@) {
                    next.phase == Phase::Done(Outcome::Passed) && action == Action::Finish(Outcome::Passed)
                } else {
                    &&& next.phase matches Phase::Done(Outcome::CommitError(m)) && m@ == "but commit failed: "@ + spec_trim(out.stderr@)
                    &&& action matches Action::Finish(Outcome::CommitError(m)) && m@ == "but commit failed: "@ + spec_trim(out.stderr@)
                }
            },
            _ => false,
        }
    }
}

/// Where the entry from position `k` lands, and that every stage passed over
/// on the way has nothing to run on.
pub proof fn lemma_entry_index(p: &Pipeline, k: int)
    requires
        0 <= k <= 3,
    ensures
        k <= p.entry_index(k) <= 3,
        forall|j: int| k <= j < p.entry_index(k) ==> #[trigger] p.stage_targets(stage_at(j)).len() == 0,
        p.entry_index(k) < 3 ==> p.stage_targets(stage_at(p.entry_index(k))).len() > 0,
    decreases 3 - k,
{
    if k < 3 && p.stage_targets(stage_at(k)).len() == 0 {
        lemma_entry_index(p, k + 1);
    }
}

/// Two states with the same changed files, test files and log agree on what
/// each stage runs on and on which stages are cleared.
pub proof fn lemma_same_checks(a: &Pipeline, b: &Pipeline)
    requires
        a.changed_files@ == b.changed_files@,
        a.tests@ == b.tests@,
        a.log@ == b.log@,
    ensures
        forall|st: CheckStage|
            #![trigger a.cleared(st)]
            #![trigger b.cleared(st)]
            a.cleared(st) == b.cleared(st) && a.stage_targets(st) == b.stage_targets(st),
{
}

/// Two states with the same changed files and test files enter the same stage.
pub proof fn lemma_same_entry(a: &Pipeline, b: &Pipeline, k: int)
    requires
        a.changed_files@ == b.changed_files@,
        a.tests@ == b.tests@,
    ensures
        a.entry_index(k) == b.entry_index(k),
    decreases 3 - k,
{
    if k < 3 {
        lemma_same_entry(a, b, k + 1);
    }
}

/// Position and stage agree.
pub proof fn lemma_stage_positions()
    ensures
        forall|st: CheckStage| #[trigger] stage_at(stage_index(st)) == st,
        forall|k: int| 0 <= k <= 3 ==> #[trigger] stage_index(stage_at(k)) == k,
{
}

fn stage_at_exec(k: usize) -> (r: CheckStage)
    ensures
        r == stage_at(k as int),
{
    if k == 0 {
        CheckStage::Prettier
    } else if k == 1 {
        CheckStage::Eslint
    } else if k == 2 {
        CheckStage::Typescript
    } else {
        CheckStage::Vitest
    }
}

fn stage_index_exec(stage: CheckStage) -> (r: usize)
    ensures
        r == stage_index(stage),
{
    match stage {
        CheckStage::Prettier => 0,
        CheckStage::Eslint => 1,
        CheckStage::Typescript => 2,
        CheckStage::Vitest => 3,
    }
}

/// The changed files that prettier formats.
pub fn prettier_targets(changed_files: &[String]) -> (r: Vec<String>)
    ensures
        r@ == spec_filter_by_extensions(changed_files@, prettier_extensions()),
{
    let exts: [&str; 4] = ["js", "jsx", "ts", "tsx"];
    assert(exts@.map_values(|e: &str| e@) =~= prettier_extensions());
    filter_by_extensions(changed_files, exts.as_slice())
}

/// The changed files that eslint lints.
pub fn eslint_targets(changed_files: &[String]) -> (r: Vec<String>)
    ensures
        r@ == spec_filter_by_extensions(changed_files@, eslint_extensions()),
{
    let exts: [&str; 2] = ["ts", "tsx"];
    assert(exts@.map_values(|e: &str| e@) =~= eslint_extensions());
    filter_by_extensions(changed_files, exts.as_slice())
}

/// The changed files whose type errors are reported.
pub fn typescript_targets(changed_files: &[String]) -> (r: Vec<String>)
    ensures
        r@ == spec_filter_by_extensions(changed_files@, typescript_extensions()),
{
    let exts: [&str; 4] = ["ts", "tsx", "js", "jsx"];
    assert(exts@.map_values(|e: &str| e@) =~= typescript_extensions());
    filter_by_extensions(changed_files, exts.as_slice())
}

impl Pipeline {
    /// Whether `event` is the one the current phase waits for, which is what
    /// [`Pipeline::step`] requires of it.
    pub fn waits_for(&self, event: &Event) -> (r: bool)
        ensures
            r == self.accepts(*event),
    {
        match (&self.phase, event) {
            (Phase::Ready, Event::Start) => true,
            (Phase::Checking { .. }, Event::Checked(_)) => true,
            (Phase::Fixing { .. }, Event::Fixed) => true,
            (Phase::CollectingTests, Event::TestsFound { .. }) => true,
            (Phase::Previewing, Event::TestsFound { .. }) => true,
            (Phase::ShowingPreview, Event::Shown) => true,
            (Phase::Committing, Event::Committed(_)) => true,
            _ => false,
        }
    }

    /// A pipeline for `branch` over its changed files, not yet started.
    pub fn new(branch: &Branch, changed_files: &[String], config: PipelineConfig) -> (p: Pipeline)
        ensures
            p.wf(),
            p.phase == Phase::Ready,
            p.branch_name@ == branch.name@,
            p.cli_id@ == branch.cli_id@,
            p.changed_files@ == changed_files@,
            p.config == config,
    {
        Pipeline {
            branch_name: branch.name.clone(),
            cli_id: branch.cli_id.clone(),
            changed_files: to_owned_strings(changed_files),
            config,
            phase: Phase::Ready,
            targets: Vec::new(),
            tests: Vec::new(),
            log: Ghost(Seq::empty()),
        }
    }

    fn stage_files(&self, stage: CheckStage) -> (r: Vec<String>)
        ensures
            views(r@) == self.stage_targets(stage),
    {
        match stage {
            CheckStage::Prettier => prettier_targets(self.changed_files.as_slice()),
            CheckStage::Eslint => eslint_targets(self.changed_files.as_slice()),
            CheckStage::Typescript => typescript_targets(self.changed_files.as_slice()),
            CheckStage::Vitest => to_owned_strings(self.tests.as_slice()),
        }
    }

    fn find_tests(&self) -> (action: Action)
        ensures
            self.is_find_tests(action),
    {
        Action::FindTests {
            sources: to_owned_strings(self.changed_files.as_slice()),
            project_dir: self.config.project_dir.clone(),
        }
    }

    fn first_entry(&self, k: usize) -> (e: usize)
        requires
            k <= 3,
        ensures
            e == self.entry_index(k as int),
        decreases 3 - k,
    {
        if k >= 3 {
            3
        } else if self.stage_files(stage_at_exec(k)).len() > 0 {
            k
        } else {
            self.first_entry(k + 1)
        }
    }

    fn enter(&mut self, k: usize) -> (action: Action)
        requires
            k <= 3,
            !old(self).config.dry_run,
            old(self).tests@.len() == 0,
            forall|st: CheckStage| #[trigger] check_count(old(self).log@, st) <= old(self).config.max_retries + 1,
            check_count(old(self).log@, CheckStage::Prettier) <= 1,
            forall|st: CheckStage| stage_index(st) < k ==> #[trigger] old(self).cleared(st),
            forall|st: CheckStage| stage_index(st) >= k ==> #[trigger] check_count(old(self).log@, st) == 0,
        ensures
            old(self).is_entry(k as int, final(self), action),
            old(self).same_run(final(self)),
            final(self).log@ == old(self).log@,
            final(self).tests@ == old(self).tests@,
            final(self).wf(),
    {
        let ghost s0 = *self;
        proof {
            lemma_entry_index(&s0, k as int);
            lemma_stage_positions();
        }
        let e = self.first_entry(k);
        if e < 3 {
            let stage = stage_at_exec(e);
            let files = self.stage_files(stage);
            self.targets = to_owned_strings(files.as_slice());
            self.phase = Phase::Checking { stage, attempt: 0 };
            proof {
                assert forall|st: CheckStage| stage_index(st) < stage_index(stage) implies #[trigger] self.cleared(st) by {
                    if stage_index(st) >= k {
                        assert(s0.stage_targets(stage_at(stage_index(st))).len() == 0);
                    } else {
                        assert(s0.cleared(st));
                    }
                }
                assert forall|st: CheckStage| stage_index(st) > stage_index(stage) implies #[trigger] check_count(self.log@, st) == 0 by {
                    assert(check_count(s0.log@, st) == 0);
                }
            }
            Action::RunCheck { stage, files, cwd: self.config.project_dir.clone() }
        } else {
            self.phase = Phase::CollectingTests;
            proof {
                assert forall|st: CheckStage| stage_index(st) < stage_index(CheckStage::Vitest) implies #[trigger] self.cleared(st) by {
                    if stage_index(st) >= k {
                        assert(s0.stage_targets(stage_at(stage_index(st))).len() == 0);
                    } else {
                        assert(s0.cleared(st));
                    }
                }
                assert(check_count(s0.log@, CheckStage::Vitest) == 0);
            }
            self.find_tests()
        }
    }

    fn after_checks(&mut self) -> (action: Action)
        requires
            old(self).all_cleared(),
            !old(self).config.dry_run,
            forall|st: CheckStage| #[trigger] check_count(old(self).log@, st) <= old(self).config.max_retries + 1,
            check_count(old(self).log@, CheckStage::Prettier) <= 1,
        ensures
            old(self).is_after_checks(final(self), action),
            old(self).same_run(final(self)),
            final(self).log@ == old(self).log@,
            final(self).tests@ == old(self).tests@,
            final(self).wf(),
    {
        let ghost s0 = *self;
        if self.config.no_commit {
            self.phase = Phase::Done(Outcome::Passed);
            assert forall|st: CheckStage| #[trigger] self.cleared(st) by {
                assert(s0.cleared(st));
            }
            Action::Finish(Outcome::Passed)
        } else {
            let mut args: Vec<String> = Vec::new();
            push_string(&mut args, String::from_str("commit"));
            push_string(&mut args, self.cli_id.clone());
            push_string(&mut args, String::from_str("-m"));
            push_string(&mut args, String::from_str("tschecker: auto-fix prettier/lint/type/test issues"));
            assert(views(args@) =~= seq!["commit"@, self.cli_id@, "-m"@, commit_message()]);
            self.phase = Phase::Committing;
            assert forall|st: CheckStage| #[trigger] self.cleared(st) by {
                assert(s0.cleared(st));
            }
            Action::Commit(CommitCommand {
                program: self.config.but_path.clone(),
                args,
                cwd: self.config.repo_path.clone(),
            })
        }
    }

    /// Take the event the current phase waits for and give the next action.
    pub fn step(&mut self, event: Event) -> (action: Action)
        requires
            old(self).wf(),
            old(self).accepts(event),
        ensures
            final(self).wf(),
            old(self).is_step(event, final(self), action),
    {
        let ghost s0 = *self;
        let ghost old_log = self.log@;
        match event {
            Event::Start => {
                if self.changed_files.len() == 0 {
                    self.phase = Phase::Done(Outcome::Passed);
                    Action::Finish(Outcome::Passed)
                } else if self.config.dry_run {
                    self.phase = Phase::Previewing;
                    self.find_tests()
                } else {
                    self.enter(0)
                }
            },
            Event::Checked(r) => {
                let (stage, attempt) = match self.phase {
                    Phase::Checking { stage, attempt } => (stage, attempt),
                    _ => {
                        assert(false);
                        (CheckStage::Prettier, 0)
                    },
                };
                self.log = Ghost(self.log@.push((stage, r.success)));
                let ghost s1 = *self;
                proof {
                    lemma_log_push(old_log, (stage, r.success));
                    lemma_stage_positions();
                }
                proof {
                    assert forall|st: CheckStage| st != stage implies #[trigger] self.cleared(st) == s0.cleared(st) by {
                        assert(last_result(self.log@, st) == last_result(old_log, st));
                    }
                    assert forall|st: CheckStage| #[trigger] check_count(self.log@, st) <= self.config.max_retries + 1 by {
                        assert(check_count(old_log, st) <= self.config.max_retries + 1);
                        if st == stage {
                            assert(check_count(old_log, st) == attempt);
                        }
                    }
                }
                if r.success {
                    proof {
                        assert(last_result(self.log@, stage) == Some(true));
                        assert(self.cleared(stage));
                        assert forall|st: CheckStage| stage_index(st) < stage_index(stage) + 1 implies #[trigger] self.cleared(st) by {
                            if st != stage {
                                assert(s0.cleared(st));
                            }
                        }
                        assert forall|st: CheckStage| stage_index(st) >= stage_index(stage) + 1 implies #[trigger] check_count(self.log@, st) == 0 by {
                            assert(check_count(old_log, st) == 0);
                        }
                    }
                    if stage == CheckStage::Vitest {
                        proof {
                            assert forall|st: CheckStage| #[trigger] self.cleared(st) by {
                                if st != stage {
                                    assert(stage_index(st) < stage_index(stage));
                                    assert(s0.cleared(st));
                                }
                            }
                        }
                        self.after_checks()
                    } else {
                        proof {
                            assert(self.tests@.len() == 0);
                        }
                        let next = stage_index_exec(stage) + 1;
                        let a = self.enter(next);
                        proof {
                            lemma_same_entry(&s0, &s1, next as int);
                        }
                        a
                    }
                } else if stage == CheckStage::Prettier {
                    self.phase = Phase::Done(Outcome::Failed(stage));
                    proof {
                        lemma_same_checks(&s1, self);
                    }
                    Action::Finish(Outcome::Failed(stage))
                } else if attempt < self.config.max_retries {
                    let errors = join(r.errors.as_slice(), "\n");
                    self.phase = Phase::Fixing { stage, attempt: attempt + 1 };
                    proof {
                        lemma_same_checks(&s1, self);
                    }
                    Action::Fix {
                        stage,
                        files: to_owned_strings(self.targets.as_slice()),
                        errors,
                        attempt: attempt + 1,
                        cwd: self.config.project_dir.clone(),
                    }
                } else {
                    self.phase = Phase::Done(Outcome::Failed(stage));
                    proof {
                        lemma_same_checks(&s1, self);
                    }
                    Action::Finish(Outcome::Failed(stage))
                }
            },
            Event::Fixed => {
                let (stage, attempt) = match self.phase {
                    Phase::Fixing { stage, attempt } => (stage, attempt),
                    _ => {
                        assert(false);
                        (CheckStage::Prettier, 0)
                    },
                };
                self.phase = Phase::Checking { stage, attempt };
                proof {
                    lemma_same_checks(&s0, self);
                }
                Action::RunCheck { stage, files: to_owned_strings(self.targets.as_slice()), cwd: self.config.project_dir.clone() }
            },
            Event::TestsFound { tests, snapshots } => {
                if let Phase::Previewing = self.phase {
                    let lines = dry_run_report(
                        self.branch_name.as_str(),
                        self.cli_id.as_str(),
                        self.changed_files.as_slice(),
                        tests.as_slice(),
                        snapshots.as_slice(),
                    );
                    self.phase = Phase::ShowingPreview;
                    proof {
                        lemma_same_checks(&s0, self);
                    }
                    Action::ShowPreview(lines)
                } else {
                    self.tests = tests;
                    let ghost s2 = *self;
                    proof {
                        assert forall|st: CheckStage| st != CheckStage::Vitest implies #[trigger] self.cleared(st) == s0.cleared(st) by {}
                    }
                    if self.tests.len() == 0 {
                        proof {
                            assert forall|st: CheckStage| #[trigger] self.cleared(st) by {
                                if st != CheckStage::Vitest {
                                    assert(stage_index(st) < stage_index(CheckStage::Vitest));
                                    assert(s0.cleared(st));
                                }
                            }
                        }
                        self.after_checks()
                    } else {
                        self.targets = to_owned_strings(self.tests.as_slice());
                        self.phase = Phase::Checking { stage: CheckStage::Vitest, attempt: 0 };
                        proof {
                            lemma_same_checks(&s2, self);
                        }
                        Action::RunCheck {
                            stage: CheckStage::Vitest,
                            files: to_owned_strings(self.tests.as_slice()),
                            cwd: self.config.project_dir.clone(),
                        }
                    }
                }
            },
            Event::Shown => {
                self.phase = Phase::Done(Outcome::Passed);
                proof {
                    lemma_same_checks(&s0, self);
                }
                Action::Finish(Outcome::Passed)
            },
            Event::Committed(out) => {
                let stderr = trim(out.stderr.as_str());
                if out.exit_code == 0 || contains(stderr, "No changes to commit") {
                    self.phase = Phase::Done(Outcome::Passed);
                    proof {
                        lemma_same_checks(&s0, self);
                    }
                    Action::Finish(Outcome::Passed)
                } else {
                    let msg = String::from_str("but commit failed: ").concat(stderr);
                    let reported = msg.clone();
                    self.phase = Phase::Done(Outcome::CommitError(msg));
                    proof {
                        lemma_same_checks(&s0, self);
                    }
                    Action::Finish(Outcome::CommitError(reported))
                }
            },
        }
    }
}

fn push_indented(out: &mut Vec<String>, items: &[String])
    ensures
        views(final(out)@) == views(old(out)@) + indented(views(items@)),
{
    let ghost start = views(out@);
    let mut i: usize = 0;
    while i < items.len()
        invariant
            i <= items.len(),
            views(out@) == start + indented(views(items@.subrange(0, i as int))),
        decreases items.len() - i,
    {
        push_string(out, String::from_str("  ").concat(items[i].as_str()));
        assert(indented(views(items@.subrange(0, i + 1))) =~= indented(views(items@.subrange(0, i as int))).push("  "@ + items@[i as int]@));
        i += 1;
    }
    assert(items@.subrange(0, items@.len() as int) == items@);
}

fn count_line(label: &str, n: usize) -> (r: String)
    ensures
        r@ == spec_count_line(label@, n as nat),
{
    String::from_str(label).concat(" (").concat(usize_to_decimal(n).as_str()).concat("):")
}

/// The preview a dry run prints: the branch, its changed files, and what each
/// stage would run on.
pub fn dry_run_report(
    branch_name: &str,
    cli_id: &str,
    changed_files: &[String],
    tests: &[String],
    snapshots: &[String],
) -> (r: Vec<String>)
    ensures
        views(r@) == spec_dry_run_report(branch_name@, cli_id@, changed_files@, views(tests@), views(snapshots@)),
{
    let prettier = prettier_targets(changed_files);
    let eslint = eslint_targets(changed_files);
    let ts = typescript_targets(changed_files);
    let mut out: Vec<String> = Vec::new();
    push_string(&mut out, String::from_str("Branch: ").concat(branch_name).concat(" (").concat(cli_id).concat(")"));
    push_string(&mut out, count_line("Changed files", changed_files.len()));
    let ghost head = views(out@);
    push_indented(&mut out, changed_files);
    let ghost after_changed = views(out@);
    push_string(&mut out, count_line("Prettier targets", prettier.len()));
    push_string(&mut out, String::from_str("  $ ./node_modules/.bin/prettier --write ").concat(join(prettier.as_slice(), " ").as_str()));
    push_string(&mut out, count_line("ESLint targets", eslint.len()));
    push_string(&mut out, String::from_str("  $ ./node_modules/.bin/eslint --fix --cache --cache-location .cache/eslint/ --quiet ").concat(join(eslint.as_slice(), " ").as_str()));
    push_string(&mut out, count_line("TypeScript targets", ts.len()));
    push_string(&mut out, String::from_str("  $ ./node_modules/.bin/tsc --noEmit --pretty false"));
    push_string(&mut out, String::from_str("  (errors filtered to changed files only)"));
    push_string(&mut out, count_line("Vitest targets", tests.len()));
    push_string(&mut out, String::from_str("  $ ./node_modules/.bin/vitest run --reporter=json -u ").concat(join(tests, " ").as_str()));
    let ghost after_stages = views(out@);
    if snapshots.len() > 0 {
        push_string(&mut out, count_line("Snapshots to update", snapshots.len()));
        push_indented(&mut out, snapshots);
    }
    let ghost after_snaps = views(out@);
    push_string(&mut out, String::new());
    proof {
        let changed = changed_files@;
        let p = views(spec_filter_by_extensions(changed, prettier_extensions()));
        let e = views(spec_filter_by_extensions(changed, eslint_extensions()));
        let t = views(spec_filter_by_extensions(changed, typescript_extensions()));
        let stage_lines = seq![
            spec_count_line("Prettier targets"@, p.len()),
            "  $ ./node_modules/.bin/prettier --write "@ + spec_join(p, " "@),
            spec_count_line("ESLint targets"@, e.len()),
            "  $ ./node_modules/.bin/eslint --fix --cache --cache-location .cache/eslint/ --quiet "@ + spec_join(e, " "@),
            spec_count_line("TypeScript targets"@, t.len()),
            "  $ ./node_modules/.bin/tsc --noEmit --pretty false"@,
            "  (errors filtered to changed files only)"@,
            spec_count_line("Vitest targets"@, views(tests@).len()),
            "  $ ./node_modules/.bin/vitest run --reporter=json -u "@ + spec_join(views(tests@), " "@),
        ];
        assert(after_stages =~= after_changed + stage_lines);
        let snap_lines = if snapshots@.len() > 0 {
            seq![spec_count_line("Snapshots to update"@, views(snapshots@).len())] + indented(views(snapshots@))
        } else {
            Seq::<Seq<char>>::empty()
        };
        assert(after_snaps =~= after_stages + snap_lines);
        assert(head =~= seq![
            "Branch: "@ + branch_name@ + " ("@ + cli_id@ + ")"@,
            spec_count_line("Changed files"@, changed.len()),
        ]);
        assert(views(out@) =~= spec_dry_run_report(branch_name@, cli_id@, changed_files@, views(tests@), views(snapshots@)));
    }
    out
}

/// The command line a verbose run logs: `$ base`, then the files after a space.
pub open spec fn spec_command_line(base_cmd: Seq<char>, files: Seq<Seq<char>>) -> Seq<char> {
    if files.len() == 0 {
        "$ "@ + base_cmd
    } else {
        "$ "@ + base_cmd + " "@ + spec_join(files, " "@)
    }
}

/// The command line to log before a stage runs; nothing unless verbose.
pub fn log_cmd(verbose: bool, base_cmd: &str, files: &[String]) -> (r: Option<String>)
    ensures
        !verbose ==> r is None,
        verbose ==> r is Some && r->0@ == spec_command_line(base_cmd@, views(files@)),
{
    if !verbose {
        return None;
    }
    if files.len() == 0 {
        Some(String::from_str("$ ").concat(base_cmd))
    } else {
        Some(String::from_str("$ ").concat(base_cmd).concat(" ").concat(join(files, " ").as_str()))
    }
}

/// The file lines to log; none unless verbose.
pub fn log_files(verbose: bool, files: &[String]) -> (r: Vec<String>)
    ensures
        !verbose ==> r@.len() == 0,
        verbose ==> views(r@) == indented(views(files@)),
{
    let mut out: Vec<String> = Vec::new();
    if verbose {
        push_indented(&mut out, files);
        assert(views(out@) =~= indented(views(files@)));
    }
    out
}

// ---------------------------------------------------------------------------
// Laws
// ---------------------------------------------------------------------------

/// The pipeline commits only when every stage either had nothing to run on
/// or passed its last check.
pub proof fn law_commit_only_after_all_stages_pass(p: &Pipeline)
    requires
        p.wf(),
        p.phase is Committing,
    ensures
        forall|st: CheckStage| #[trigger] p.stage_targets(st).len() == 0 || last_result(p.log@, st) == Some(true),
{
    assert forall|st: CheckStage| #[trigger] p.stage_targets(st).len() == 0 || last_result(p.log@, st) == Some(true) by {
        assert(p.cleared(st));
    }
}

/// A run that checked anything and passed left every stage with nothing to
/// run on or with a passing last check.
pub proof fn law_passed_run_cleared_every_stage(p: &Pipeline)
    requires
        p.wf(),
        p.phase == Phase::Done(Outcome::Passed),
        p.log@.len() > 0,
    ensures
        forall|st: CheckStage| #[trigger] p.stage_targets(st).len() == 0 || last_result(p.log@, st) == Some(true),
{
    assert forall|st: CheckStage| #[trigger] p.stage_targets(st).len() == 0 || last_result(p.log@, st) == Some(true) by {
        assert(p.cleared(st));
    }
}

/// A failed stage failed its last check after every fix attempt allowed:
/// prettier after its single check, the others after `max_retries` fixes.
pub proof fn law_failed_stage_used_every_attempt(p: &Pipeline, stage: CheckStage)
    requires
        p.wf(),
        p.phase == Phase::Done(Outcome::Failed(stage)),
    ensures
        last_result(p.log@, stage) == Some(false),
        stage == CheckStage::Prettier ==> check_count(p.log@, stage) == 1,
        stage != CheckStage::Prettier ==> check_count(p.log@, stage) == p.config.max_retries + 1,
{
}

/// No stage is checked more than once plus one time per allowed fix attempt,
/// and prettier is checked at most once.
pub proof fn law_checks_per_stage_bounded(p: &Pipeline)
    requires
        p.wf(),
    ensures
        forall|st: CheckStage| #[trigger] check_count(p.log@, st) <= p.config.max_retries + 1,
        check_count(p.log@, CheckStage::Prettier) <= 1,
{
}

/// Fix attempts are numbered from one up to `max_retries`, never for
/// prettier, and each follows a failed check of its stage.
pub proof fn law_fix_attempts_bounded(p: &Pipeline, event: Event, next: &Pipeline, action: Action)
    requires
        p.wf(),
        p.accepts(event),
        p.is_step(event, next, action),
        (action is Fix),
    ensures
        action->Fix_stage != CheckStage::Prettier,
        1 <= action->Fix_attempt <= p.config.max_retries,
        (event matches Event::Checked(r) && !r.success),
        (p.phase == Phase::Checking { stage: action->Fix_stage, attempt: (action->Fix_attempt - 1) as u32 }),
{
}

/// Prettier, eslint and tsc run only on changed files.
pub proof fn law_stages_run_on_changed_files(p: &Pipeline, x: Seq<char>)
    requires
        p.wf(),
        p.phase matches Phase::Checking { stage, .. } && stage != CheckStage::Vitest,
        views(p.targets@).contains(x),
    ensures
        views(p.changed_files@).contains(x),
{
    let stage = p.phase->Checking_stage;
    let exts = if stage == CheckStage::Prettier {
        prettier_extensions()
    } else if stage == CheckStage::Eslint {
        eslint_extensions()
    } else {
        typescript_extensions()
    };
    let pred = |f: String| has_extension_in(f@, exts);
    let kept = p.changed_files@.filter(pred);
    assert(views(p.targets@) == views(kept));
    let k = choose|k: int| 0 <= k < views(kept).len() && views(kept)[k] == x;
    assert(kept.contains(kept[k]));
    p.changed_files@.lemma_filter_contains_rev(pred, kept[k]);
    let j = choose|j: int| 0 <= j < p.changed_files@.len() && p.changed_files@[j] == kept[k];
    assert(views(p.changed_files@)[j] == x);
}

/// A run for `max_retries` fix attempts per stage finishes within
/// `8 * max_retries + 15` steps: no state has more steps left than that.
pub proof fn law_steps_left_bounded(p: &Pipeline)
    requires
        p.wf(),
    ensures
        0 <= p.steps_left() <= 8 * p.config.max_retries + 15,
{
}

/// Every step brings the run closer to its end.
pub proof fn law_every_step_makes_progress(p: &Pipeline, event: Event, next: &Pipeline, action: Action)
    requires
        p.wf(),
        p.accepts(event),
        p.is_step(event, next, action),
    ensures
        next.steps_left() < p.steps_left(),
{
    lemma_stage_positions();
    match p.phase {
        Phase::Ready => {
            lemma_entry_index(p, 0);
        },
        Phase::Checking { stage, attempt } => {
            if stage != CheckStage::Vitest {
                lemma_entry_index(p, stage_index(stage) + 1);
            }
        },
        _ => {},
    }
}

/// A dry run checks, fixes and commits nothing.
pub proof fn law_dry_run_runs_nothing(p: &Pipeline)
    requires
        p.wf(),
        p.config.dry_run,
    ensures
        p.log@.len() == 0,
        !(p.phase is Checking),
        !(p.phase is Fixing),
        !(p.phase is Committing),
{
}

/// With no changed files the pipeline passes at once.
pub proof fn law_no_changes_pass_at_once(p: &Pipeline, next: &Pipeline, action: Action)
    requires
        p.wf(),
        p.phase is Ready,
        p.changed_files@.len() == 0,
        p.is_step(Event::Start, next, action),
    ensures
        action == Action::Finish(Outcome::Passed),
        next.phase == Phase::Done(Outcome::Passed),
{
}

/// When the last stage passes, the run commits its results to the branch,
/// unless asked not to, in which case it passes.
pub proof fn law_clean_run_commits(p: &Pipeline, result: CheckResult, next: &Pipeline, action: Action)
    requires
        p.wf(),
        p.phase matches Phase::Checking { stage, .. } && stage == CheckStage::Vitest,
        result.success,
        p.is_step(Event::Checked(result), next, action),
    ensures
        !p.config.no_commit ==> (action matches Action::Commit(c) && views(c.args@) == seq![
            "commit"@,
            p.cli_id@,
            "-m"@,
            commit_message(),
        ]),
        p.config.no_commit ==> action == Action::Finish(Outcome::Passed),
{
}

} // verus!
