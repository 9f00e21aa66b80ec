//! The four check stages, what each one runs, and how its output becomes a
//! [`CheckResult`].

pub mod eslint;
pub mod prettier;
pub mod typescript;
pub mod vitest;

use vstd::prelude::*;
use crate::text::{all_ascii, ascii_lower_char, lemma_views_push, str_eq, to_lowercase, unicode_lowercase, views};

verus! {

/// What a finished external command reported.
#[derive(Debug)]
pub struct ProcessOutput {
    pub stdout: String,
    pub stderr: String,
    pub exit_code: i32,
}

/// The outcome of one run of a check stage.
#[derive(Debug)]
pub struct CheckResult {
    pub stage: CheckStage,
    pub success: bool,
    pub files_checked: Vec<String>,
    pub errors: Vec<String>,
    pub files_modified: Vec<String>,
}

/// The check stages, in the order in which the pipeline runs them.
#[derive(Debug, Clone, Copy, PartialEq, Eq, Structural)]
pub enum CheckStage {
    Prettier,
    Eslint,
    Typescript,
    Vitest,
}

/// A command to run inside the project directory.
#[derive(Debug)]
pub struct CheckCommand {
    pub program: String,
    pub args: Vec<String>,
}

/// The name a stage is shown and parsed under.
pub open spec fn spec_stage_name(stage: CheckStage) -> Seq<char> {
    match stage {
        CheckStage::Prettier => "prettier"@,
        CheckStage::Eslint => "eslint"@,
        CheckStage::Typescript => "tsc"@,
        CheckStage::Vitest => "vitest"@,
    }
}

/// The stage that a lower-case stage name selects.
pub open spec fn spec_stage_from_lower(name: Seq<char>) -> Option<CheckStage> {
    if name == "prettier"@ {
        Some(CheckStage::Prettier)
    } else if name == "eslint"@ {
        Some(CheckStage::Eslint)
    } else if name == "tsc"@ || name == "typescript"@ {
        Some(CheckStage::Typescript)
    } else if name == "vitest"@ || name == "test"@ {
        Some(CheckStage::Vitest)
    } else {
        None
    }
}

/// The message for a stage name that selects no stage.
pub open spec fn spec_unknown_stage_message(name: Seq<char>) -> Seq<char> {
    "unknown stage '"@ + name + "' (valid: prettier, eslint, tsc, vitest)"@
}

/// The result of a check that was given no files: it passes without running.
pub open spec fn is_empty_result(stage: CheckStage, r: CheckResult) -> bool {
    &&& r.stage == stage
    &&& r.success
    &&& r.files_checked@.len() == 0
    &&& r.errors@.len() == 0
    &&& r.files_modified@.len() == 0
}

impl CheckStage {
    /// Parse a stage name, case-insensitively: `prettier`, `eslint`,
    /// `tsc` or `typescript`, `vitest` or `test`.
    pub fn parse(s: &str) -> (r: Result<CheckStage, String>)
        ensures
            match spec_stage_from_lower(unicode_lowercase(s@)) {
                Some(stage) => r == Ok::<CheckStage, String>(stage),
                None => r is Err && r->Err_0@ == spec_unknown_stage_message(s@),
            },
            all_ascii(s@) ==> match spec_stage_from_lower(s@.map_values(|c: char| ascii_lower_char(c))) {
                Some(stage) => r == Ok::<CheckStage, String>(stage),
                None => r is Err,
            },
    {
        let lower = to_lowercase(s);
        let l = lower.as_str();
        if str_eq(l, "prettier") {
            Ok(CheckStage::Prettier)
        } else if str_eq(l, "eslint") {
            Ok(CheckStage::Eslint)
        } else if str_eq(l, "tsc") || str_eq(l, "typescript") {
            Ok(CheckStage::Typescript)
        } else if str_eq(l, "vitest") || str_eq(l, "test") {
            Ok(CheckStage::Vitest)
        } else {
            let msg = String::from_str("unknown stage '").concat(s).concat(
                "' (valid: prettier, eslint, tsc, vitest)",
            );
            Err(msg)
        }
    }

    /// The stage's display name: `prettier`, `eslint`, `tsc` or `vitest`.
    pub fn name(&self) -> (r: &'static str)
        ensures
            r@ == spec_stage_name(*self),
    {
        match self {
            CheckStage::Prettier => "prettier",
            CheckStage::Eslint => "eslint",
            CheckStage::Typescript => "tsc",
            CheckStage::Vitest => "vitest",
        }
    }

    /// The stage's display name as an owned string.
    pub fn to_string(&self) -> (r: String)
        ensures
            r@ == spec_stage_name(*self),
    {
        String::from_str(self.name())
    }
}

impl core::str::FromStr for CheckStage {
    type Err = String;

    fn from_str(s: &str) -> (r: Result<CheckStage, String>)
        ensures
            match spec_stage_from_lower(unicode_lowercase(s@)) {
                Some(stage) => r == Ok::<CheckStage, String>(stage),
                None => r is Err && r->Err_0@ == spec_unknown_stage_message(s@),
            },
            all_ascii(s@) ==> match spec_stage_from_lower(s@.map_values(|c: char| ascii_lower_char(c))) {
                Some(stage) => r == Ok::<CheckStage, String>(stage),
                None => r is Err,
            },
    {
        CheckStage::parse(s)
    }
}

/// Parsing the display name of a stage gives that stage back: the name is
/// ASCII and already lower case, and names the stage.
pub proof fn law_stage_name_round_trip(stage: CheckStage)
    ensures
        all_ascii(spec_stage_name(stage)),
        spec_stage_name(stage).map_values(|c: char| ascii_lower_char(c)) == spec_stage_name(stage),
        spec_stage_from_lower(spec_stage_name(stage)) == Some(stage),
{
    reveal_strlit("prettier");
    reveal_strlit("eslint");
    reveal_strlit("tsc");
    reveal_strlit("typescript");
    reveal_strlit("vitest");
    reveal_strlit("test");
    let n = spec_stage_name(stage);
    assert(n.map_values(|c: char| ascii_lower_char(c)) =~= n);
    match stage {
        CheckStage::Prettier => {},
        CheckStage::Eslint => {
            assert("eslint"@.len() != "prettier"@.len());
        },
        CheckStage::Typescript => {
            assert("tsc"@.len() != "prettier"@.len());
            assert("tsc"@.len() != "eslint"@.len());
        },
        CheckStage::Vitest => {
            assert("vitest"@.len() != "prettier"@.len());
            assert("vitest"@[0] != "eslint"@[0]);
            assert("vitest"@.len() != "tsc"@.len());
            assert("vitest"@.len() != "typescript"@.len());
        },
    }
}

/// The result a check stage reports when it is given no files.
pub fn empty_result(stage: CheckStage) -> (r: CheckResult)
    ensures
        is_empty_result(stage, r),
{
    CheckResult {
        stage,
        success: true,
        files_checked: Vec::new(),
        errors: Vec::new(),
        files_modified: Vec::new(),
    }
}

/// `stdout` and `stderr` joined by a newline, as the checks report raw output.
pub open spec fn spec_combined_output(stdout: Seq<char>, stderr: Seq<char>) -> Seq<char> {
    stdout + "\n"@ + stderr
}

/// `stdout`, a newline, then `stderr`.
pub fn combined_output(stdout: &str, stderr: &str) -> (r: String)
    ensures
        r@ == spec_combined_output(stdout@, stderr@),
{
    String::from_str(stdout).concat("\n").concat(stderr)
}

/// The fixed leading arguments followed by every file.
pub fn args_then_files(leading: &[&str], files: &[String]) -> (r: Vec<String>)
    ensures
        views(r@) == leading@.map_values(|a: &str| a@) + views(files@),
{
    let mut out: Vec<String> = Vec::new();
    let mut i: usize = 0;
    while i < leading.len()
        invariant
            i <= leading.len(),
            views(out@) == leading@.subrange(0, i as int).map_values(|a: &str| a@),
        decreases leading.len() - i,
    {
        let ghost prev = out@;
        let a = String::from_str(leading[i]);
        out.push(a);
        proof {
            lemma_views_push(prev, a);
            assert(leading@.subrange(0, i + 1).map_values(|a: &str| a@)
                =~= leading@.subrange(0, i as int).map_values(|a: &str| a@).push(leading@[i as int]@));
        }
        i += 1;
    }
    assert(leading@.subrange(0, leading@.len() as int) == leading@);
    let mut j: usize = 0;
    while j < files.len()
        invariant
            i == leading.len(),
            j <= files.len(),
            views(out@) == leading@.map_values(|a: &str| a@) + views(files@.subrange(0, j as int)),
        decreases files.len() - j,
    {
        let ghost prev = out@;
        let f = files[j].clone();
        out.push(f);
        proof {
            lemma_views_push(prev, f);
            assert(files@.subrange(0, j + 1) == files@.subrange(0, j as int).push(files@[j as int]));
            lemma_views_push(files@.subrange(0, j as int), files@[j as int]);
        }
        j += 1;
    }
    assert(files@.subrange(0, files@.len() as int) == files@);
    out
}

/// The program and arguments a stage runs for `files`.
pub open spec fn spec_command(stage: CheckStage, files: Seq<String>) -> (Seq<char>, Seq<Seq<char>>) {
    match stage {
        CheckStage::Prettier => (prettier::spec_program(), prettier::spec_leading_args() + views(files)),
        CheckStage::Eslint => (eslint::spec_program(), eslint::spec_leading_args() + views(files)),
        CheckStage::Typescript => (typescript::spec_program(), typescript::spec_args()),
        CheckStage::Vitest => (vitest::spec_program(), vitest::spec_leading_args() + views(files)),
    }
}

/// The result of running `stage` on `files` when the command reported `out`.
pub open spec fn is_stage_result(stage: CheckStage, files: Seq<String>, out: ProcessOutput, r: CheckResult) -> bool {
    match stage {
        CheckStage::Prettier => prettier::is_result(files, out, r),
        CheckStage::Eslint => eslint::is_result(files, out, r),
        CheckStage::Typescript => typescript::is_result(files, out, r),
        CheckStage::Vitest => vitest::is_result(files, out, r),
    }
}

/// The command a stage runs on `files`, to be run in the project directory;
/// nothing to run (the stage passes as it is) when there are no files.
pub fn command(stage: CheckStage, files: &[String]) -> (r: Option<CheckCommand>)
    ensures
        files@.len() == 0 ==> r is None,
        files@.len() > 0 ==> r is Some && r->0.program@ == spec_command(stage, files@).0
            && views(r->0.args@) == spec_command(stage, files@).1,
{
    match stage {
        CheckStage::Prettier => prettier::command(files),
        CheckStage::Eslint => eslint::command(files),
        CheckStage::Typescript => typescript::command(files),
        CheckStage::Vitest => vitest::command(files),
    }
}

/// Read what a stage's command reported as the result of checking `files`.
pub fn result_from_output(stage: CheckStage, files: &[String], output: &ProcessOutput) -> (r: CheckResult)
    ensures
        is_stage_result(stage, files@, *output, r),
{
    match stage {
        CheckStage::Prettier => prettier::result_from_output(files, output),
        CheckStage::Eslint => eslint::result_from_output(files, output),
        CheckStage::Typescript => typescript::result_from_output(files, output),
        CheckStage::Vitest => vitest::result_from_output(files, output),
    }
}

/// A prettier or tsc check fails exactly when it reports at least one error
/// (eslint and vitest can fail with blank output and so with no error line).
pub proof fn law_failed_check_reports_errors(stage: CheckStage, files: Seq<String>, out: ProcessOutput, r: CheckResult)
    requires
        is_stage_result(stage, files, out, r),
        stage == CheckStage::Prettier || stage == CheckStage::Typescript,
    ensures
        !r.success <==> r.errors@.len() > 0,
{
    if stage == CheckStage::Prettier && !r.success {
        assert(views(r.errors@).len() == 1);
    }
}

} // verus!
