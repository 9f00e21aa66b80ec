//! `prettier --write` on the changed files.

use vstd::prelude::*;
use crate::text::{to_owned_strings, views};
use super::{args_then_files, combined_output, spec_combined_output, CheckCommand, CheckResult, CheckStage, ProcessOutput};

verus! {

/// The program that formats files.
pub open spec fn spec_program() -> Seq<char> {
    "./node_modules/.bin/prettier"@
}

/// The arguments before the file names.
pub open spec fn spec_leading_args() -> Seq<Seq<char>> {
    seq!["--write"@]
}

/// What `prettier --write` reports, read as a check result: it passes when
/// prettier exits with 0, and then every file counts as rewritten; otherwise
/// the raw output is the one error.
pub open spec fn is_result(files: Seq<String>, out: ProcessOutput, r: CheckResult) -> bool {
    &&& r.stage == CheckStage::Prettier
    &&& r.success == (out.exit_code == 0)
    &&& r.files_checked@ == files
    &&& if out.exit_code == 0 {
        &&& r.errors@.len() == 0
        &&& r.files_modified@ == files
    } else {
        &&& views(r.errors@) == seq![spec_combined_output(out.stdout@, out.stderr@)]
        &&& r.files_modified@.len() == 0
    }
}

/// The command that formats `files`; nothing to run when there are none.
pub fn command(files: &[String]) -> (r: Option<CheckCommand>)
    ensures
        files@.len() == 0 ==> r is None,
        files@.len() > 0 ==> r is Some && r->0.program@ == spec_program()
            && views(r->0.args@) == spec_leading_args() + views(files@),
{
    if files.len() == 0 {
        return None;
    }
    let leading: [&str; 1] = ["--write"];
    let args = args_then_files(leading.as_slice(), files);
    assert(leading@.map_values(|a: &str| a@) =~= spec_leading_args());
    Some(CheckCommand { program: String::from_str("./node_modules/.bin/prettier"), args })
}

/// Read prettier's output as the result of checking `files`.
pub fn result_from_output(files: &[String], output: &ProcessOutput) -> (r: CheckResult)
    ensures
        is_result(files@, *output, r),
{
    let ok = output.exit_code == 0;
    let mut errors: Vec<String> = Vec::new();
    let mut modified: Vec<String> = Vec::new();
    if ok {
        modified = to_owned_strings(files);
    } else {
        errors.push(combined_output(output.stdout.as_str(), output.stderr.as_str()));
        assert(views(errors@) =~= seq![spec_combined_output(output.stdout@, output.stderr@)]);
    }
    CheckResult {
        stage: CheckStage::Prettier,
        success: ok,
        files_checked: to_owned_strings(files),
        errors,
        files_modified: modified,
    }
}

} // verus!
