use tschecker::checks::{CheckResult, CheckStage, ProcessOutput};
use tschecker::gitbutler::Branch;
use tschecker::pipeline::{dry_run_report, log_cmd, log_files, Action, Event, Outcome, Phase, Pipeline, PipelineConfig};

fn strings(v: &[&str]) -> Vec<String> {
    v.iter().map(|s| s.to_string()).collect()
}

fn config(max_retries: u32, no_commit: bool, dry_run: bool) -> PipelineConfig {
    PipelineConfig {
        project_dir: "/repo/ch-client".to_string(),
        repo_path: "/repo".to_string(),
        max_retries,
        but_path: "but".to_string(),
        no_commit,
        dry_run,
        verbose: false,
    }
}

fn feature() -> Branch {
    Branch { cli_id: "ar".to_string(), name: "my-feature".to_string(), commits: vec![] }
}

fn checked(stage: CheckStage, success: bool, errors: &[&str]) -> Event {
    Event::Checked(CheckResult {
        stage,
        success,
        files_checked: vec![],
        errors: strings(errors),
        files_modified: vec![],
    })
}

fn expect_run(a: Action, stage: CheckStage, files: &[&str]) {
    match a {
        Action::RunCheck { stage: s, files: f, cwd } => {
            assert_eq!(cwd, "/repo/ch-client");
            assert_eq!(s, stage);
            assert_eq!(f, strings(files));
        }
        other => panic!("expected a check of {:?}, got {:?}", stage, other),
    }
}

#[test]
fn all_stages_pass_then_commit() {
    let changed = strings(&["src/a.ts", "src/b.css", "src/c.js"]);
    let mut p = Pipeline::new(&feature(), &changed, config(3, false, false));
    assert!(p.waits_for(&Event::Start));
    assert!(!p.waits_for(&Event::Fixed));
    expect_run(p.step(Event::Start), CheckStage::Prettier, &["src/a.ts", "src/c.js"]);
    assert!(p.waits_for(&checked(CheckStage::Prettier, true, &[])));
    assert!(!p.waits_for(&Event::Start));
    expect_run(p.step(checked(CheckStage::Prettier, true, &[])), CheckStage::Eslint, &["src/a.ts"]);
    expect_run(p.step(checked(CheckStage::Eslint, true, &[])), CheckStage::Typescript, &["src/a.ts", "src/c.js"]);
    match p.step(checked(CheckStage::Typescript, true, &[])) {
        Action::FindTests { sources, project_dir } => {
            assert_eq!(sources, changed);
            assert_eq!(project_dir, "/repo/ch-client");
        }
        other => panic!("expected the test lookup, got {:?}", other),
    }
    expect_run(
        p.step(Event::TestsFound { tests: strings(&["src/a.test.ts"]), snapshots: vec![] }),
        CheckStage::Vitest,
        &["src/a.test.ts"],
    );
    match p.step(checked(CheckStage::Vitest, true, &[])) {
        Action::Commit(c) => {
            assert_eq!(c.program, "but");
            assert_eq!(c.cwd, "/repo");
            assert_eq!(c.args, strings(&["commit", "ar", "-m", "tschecker: auto-fix prettier/lint/type/test issues"]));
        }
        other => panic!("expected the commit, got {:?}", other),
    }
    let done = p.step(Event::Committed(ProcessOutput { stdout: String::new(), stderr: String::new(), exit_code: 0 }));
    assert!(matches!(done, Action::Finish(Outcome::Passed)));
    assert!(matches!(p.phase, Phase::Done(Outcome::Passed)));
}

#[test]
fn fix_loop_retries_then_fails() {
    let changed = strings(&["src/a.ts"]);
    let mut p = Pipeline::new(&feature(), &changed, config(2, false, false));
    expect_run(p.step(Event::Start), CheckStage::Prettier, &["src/a.ts"]);
    expect_run(p.step(checked(CheckStage::Prettier, true, &[])), CheckStage::Eslint, &["src/a.ts"]);
    match p.step(checked(CheckStage::Eslint, false, &["e1", "e2"])) {
        Action::Fix { stage, files, errors, attempt, cwd } => {
            assert_eq!(cwd, "/repo/ch-client");
            assert_eq!(stage, CheckStage::Eslint);
            assert_eq!(files, strings(&["src/a.ts"]));
            assert_eq!(errors, "e1\ne2");
            assert_eq!(attempt, 1);
        }
        other => panic!("expected a fix, got {:?}", other),
    }
    expect_run(p.step(Event::Fixed), CheckStage::Eslint, &["src/a.ts"]);
    match p.step(checked(CheckStage::Eslint, false, &["e3"])) {
        Action::Fix { errors, attempt, .. } => {
            assert_eq!(errors, "e3");
            assert_eq!(attempt, 2);
        }
        other => panic!("expected a fix, got {:?}", other),
    }
    expect_run(p.step(Event::Fixed), CheckStage::Eslint, &["src/a.ts"]);
    assert!(matches!(p.step(checked(CheckStage::Eslint, false, &["e3"])), Action::Finish(Outcome::Failed(CheckStage::Eslint))));
}

#[test]
fn a_fix_that_works_moves_on() {
    let changed = strings(&["src/a.tsx"]);
    let mut p = Pipeline::new(&feature(), &changed, config(3, true, false));
    p.step(Event::Start);
    p.step(checked(CheckStage::Prettier, true, &[]));
    p.step(checked(CheckStage::Eslint, true, &[]));
    assert!(matches!(p.step(checked(CheckStage::Typescript, false, &["t"])), Action::Fix { attempt: 1, .. }));
    expect_run(p.step(Event::Fixed), CheckStage::Typescript, &["src/a.tsx"]);
    assert!(matches!(p.step(checked(CheckStage::Typescript, true, &[])), Action::FindTests { .. }));
    assert!(matches!(
        p.step(Event::TestsFound { tests: vec![], snapshots: vec![] }),
        Action::Finish(Outcome::Passed)
    ));
}

#[test]
fn prettier_failure_is_not_fixed() {
    let changed = strings(&["src/a.ts"]);
    let mut p = Pipeline::new(&feature(), &changed, config(3, false, false));
    p.step(Event::Start);
    assert!(matches!(
        p.step(checked(CheckStage::Prettier, false, &["syntax"])),
        Action::Finish(Outcome::Failed(CheckStage::Prettier))
    ));
}

#[test]
fn no_retries_means_no_fixes() {
    let changed = strings(&["src/a.ts"]);
    let mut p = Pipeline::new(&feature(), &changed, config(0, false, false));
    p.step(Event::Start);
    p.step(checked(CheckStage::Prettier, true, &[]));
    assert!(matches!(
        p.step(checked(CheckStage::Eslint, false, &["x"])),
        Action::Finish(Outcome::Failed(CheckStage::Eslint))
    ));
}

#[test]
fn non_script_changes_go_straight_to_tests() {
    let changed = strings(&["src/style.css", "README.md"]);
    let mut p = Pipeline::new(&feature(), &changed, config(3, false, false));
    assert!(matches!(p.step(Event::Start), Action::FindTests { .. }));
}

#[test]
fn nothing_changed_passes_at_once() {
    let mut p = Pipeline::new(&feature(), &[], config(3, false, false));
    assert!(matches!(p.step(Event::Start), Action::Finish(Outcome::Passed)));
}

#[test]
fn commit_outcomes() {
    let run_to_commit = || {
        let changed = strings(&["notes.txt"]);
        let mut p = Pipeline::new(&feature(), &changed, config(3, false, false));
        p.step(Event::Start);
        assert!(matches!(p.step(Event::TestsFound { tests: vec![], snapshots: vec![] }), Action::Commit(_)));
        p
    };
    let mut p = run_to_commit();
    let nothing = ProcessOutput { stdout: String::new(), stderr: "  No changes to commit\n".to_string(), exit_code: 1 };
    assert!(matches!(p.step(Event::Committed(nothing)), Action::Finish(Outcome::Passed)));
    let mut p = run_to_commit();
    let failed = ProcessOutput { stdout: String::new(), stderr: " lock held \n".to_string(), exit_code: 1 };
    match p.step(Event::Committed(failed)) {
        Action::Finish(Outcome::CommitError(m)) => assert_eq!(m, "but commit failed: lock held"),
        other => panic!("expected a commit error, got {:?}", other),
    }
}

#[test]
fn dry_run_previews_without_running() {
    let changed = strings(&["src/a.ts", "src/b.css"]);
    let mut p = Pipeline::new(&feature(), &changed, config(3, false, true));
    assert!(matches!(p.step(Event::Start), Action::FindTests { .. }));
    match p.step(Event::TestsFound {
        tests: strings(&["src/a.test.ts"]),
        snapshots: strings(&["src/__snapshots__/a.test.ts.snap"]),
    }) {
        Action::ShowPreview(lines) => {
            assert_eq!(lines[0], "Branch: my-feature (ar)");
            assert_eq!(lines[1], "Changed files (2):");
            assert_eq!(lines[2], "  src/a.ts");
            assert_eq!(lines[4], "Prettier targets (1):");
            assert_eq!(lines[5], "  $ ./node_modules/.bin/prettier --write src/a.ts");
        }
        other => panic!("expected the preview, got {:?}", other),
    }
    assert!(matches!(p.step(Event::Shown), Action::Finish(Outcome::Passed)));
}

#[test]
fn dry_run_report_lines() {
    let changed = strings(&["src/a.ts", "src/b.jsx"]);
    let report = dry_run_report("my-feature", "ar", &changed, &strings(&["src/a.test.ts"]), &[]);
    assert_eq!(
        report,
        strings(&[
            "Branch: my-feature (ar)",
            "Changed files (2):",
            "  src/a.ts",
            "  src/b.jsx",
            "Prettier targets (2):",
            "  $ ./node_modules/.bin/prettier --write src/a.ts src/b.jsx",
            "ESLint targets (1):",
            "  $ ./node_modules/.bin/eslint --fix --cache --cache-location .cache/eslint/ --quiet src/a.ts",
            "TypeScript targets (2):",
            "  $ ./node_modules/.bin/tsc --noEmit --pretty false",
            "  (errors filtered to changed files only)",
            "Vitest targets (1):",
            "  $ ./node_modules/.bin/vitest run --reporter=json -u src/a.test.ts",
            "",
        ])
    );
    let with_snaps = dry_run_report("b", "c", &[], &[], &strings(&["x.snap"]));
    assert_eq!(with_snaps[with_snaps.len() - 3], "Snapshots to update (1):");
    assert_eq!(with_snaps[with_snaps.len() - 2], "  x.snap");
}

#[test]
fn verbose_logging_lines() {
    assert_eq!(log_cmd(false, "tsc", &[]), None);
    assert_eq!(log_cmd(true, "./node_modules/.bin/tsc --noEmit --pretty false", &[]), Some("$ ./node_modules/.bin/tsc --noEmit --pretty false".to_string()));
    assert_eq!(log_cmd(true, "prettier --write", &strings(&["a.ts", "b.ts"])), Some("$ prettier --write a.ts b.ts".to_string()));
    assert!(log_files(false, &strings(&["a"])).is_empty());
    assert_eq!(log_files(true, &strings(&["a", "b"])), strings(&["  a", "  b"]));
}

#[test]
fn longest_run_stays_within_its_step_bound() {
    let max_retries: u32 = 2;
    let changed = strings(&["src/a.ts"]);
    let mut p = Pipeline::new(&feature(), &changed, config(max_retries, false, false));
    let mut event = Event::Start;
    let mut steps: u32 = 0;
    loop {
        assert!(p.waits_for(&event));
        let action = p.step(event);
        steps += 1;
        event = match action {
            Action::RunCheck { stage, .. } => {
                let attempt = match p.phase {
                    Phase::Checking { attempt, .. } => attempt,
                    _ => panic!("a check runs only while checking"),
                };
                let passes = stage == CheckStage::Prettier || attempt == max_retries;
                checked(stage, passes, if passes { &[] } else { &["still wrong"] })
            }
            Action::Fix { .. } => Event::Fixed,
            Action::FindTests { .. } => Event::TestsFound { tests: strings(&["src/a.test.ts"]), snapshots: vec![] },
            Action::Commit(_) => Event::Committed(ProcessOutput { stdout: String::new(), stderr: String::new(), exit_code: 0 }),
            Action::ShowPreview(_) => Event::Shown,
            Action::Finish(outcome) => {
                assert!(matches!(outcome, Outcome::Passed));
                break;
            }
        };
    }
    assert_eq!(steps, 19);
    assert!(steps <= 8 * max_retries + 15);
}
