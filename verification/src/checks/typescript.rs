//! `tsc --noEmit` on the whole project, its errors narrowed to the changed files.

use vstd::prelude::*;
use crate::text::{contains, lemma_views_push, lines, seq_contains_infix, spec_lines, starts_with, to_owned_strings, views};
use super::{CheckCommand, CheckResult, CheckStage, ProcessOutput};

verus! {

/// The type checker.
pub open spec fn spec_program() -> Seq<char> {
    "./node_modules/.bin/tsc"@
}

/// Its arguments: the whole project is checked, so no file names follow.
pub open spec fn spec_args() -> Seq<Seq<char>> {
    seq!["--noEmit"@, "--pretty"@, "false"@]
}

/// The diagnostic is about one of the files: the line begins with that
/// file's path followed by the `(` that opens the position.
pub open spec fn names_one_of(line: Seq<char>, files: Seq<Seq<char>>) -> bool {
    exists|k: int| 0 <= k < files.len() && (#[trigger] files[k] + "("@).is_prefix_of(line)
}

/// The lines of the compiler's output that begin with one of the changed files,
/// in their order.
pub open spec fn spec_tsc_errors(output: Seq<char>, files: Seq<Seq<char>>) -> Seq<Seq<char>> {
    spec_lines(output).filter(|l: Seq<char>| names_one_of(l, files))
}

/// The stream the compiler's diagnostics are read from: standard output when
/// it holds an `error TS` diagnostic, standard error otherwise.
pub open spec fn spec_diagnostics(out: ProcessOutput) -> Seq<char> {
    if seq_contains_infix(out.stdout@, "error TS"@) {
        out.stdout@
    } else {
        out.stderr@
    }
}

/// What `tsc` reports, read as a check result for the changed `files`: it
/// passes when tsc exits with 0, or when none of its diagnostics is about a
/// changed file; the diagnostics about changed files are the errors.
pub open spec fn is_result(files: Seq<String>, out: ProcessOutput, r: CheckResult) -> bool {
    &&& r.stage == CheckStage::Typescript
    &&& r.files_checked@ == files
    &&& r.files_modified@.len() == 0
    &&& if out.exit_code == 0 {
        r.success && r.errors@.len() == 0
    } else {
        &&& views(r.errors@) == spec_tsc_errors(spec_diagnostics(out), views(files))
        &&& r.success == (r.errors@.len() == 0)
    }
}

/// The command that type-checks the project; nothing to run when no
/// TypeScript file changed.
pub fn command(files: &[String]) -> (r: Option<CheckCommand>)
    ensures
        files@.len() == 0 ==> r is None,
        files@.len() > 0 ==> r is Some && r->0.program@ == spec_program()
            && views(r->0.args@) == spec_args(),
{
    if files.len() == 0 {
        return None;
    }
    let mut args: Vec<String> = Vec::new();
    args.push(String::from_str("--noEmit"));
    args.push(String::from_str("--pretty"));
    args.push(String::from_str("false"));
    assert(views(args@) =~= spec_args());
    Some(CheckCommand { program: String::from_str("./node_modules/.bin/tsc"), args })
}

fn names_changed_file(line: &str, changed_files: &[String]) -> (r: bool)
    ensures
        r == names_one_of(line@, views(changed_files@)),
{
    let mut k: usize = 0;
    while k < changed_files.len()
        invariant
            k <= changed_files.len(),
            forall|j: int| 0 <= j < k ==> !(#[trigger] views(changed_files@)[j] + "("@).is_prefix_of(line@),
        decreases changed_files.len() - k,
    {
        assert(views(changed_files@)[k as int] == changed_files@[k as int]@);
        let opening = String::from_str(changed_files[k].as_str()).concat("(");
        if starts_with(line, opening.as_str()) {
            return true;
        }
        k += 1;
    }
    false
}

/// Filter tsc error lines to only those referencing the changed files:
/// tsc writes `src/path/file.ts(line,col): error TS1234: message`, and a line
/// is kept when its path, up to the `(` of the position, is a changed file.
pub fn filter_tsc_errors(tsc_output: &str, changed_files: &[String]) -> (r: Vec<String>)
    ensures
        views(r@) == spec_tsc_errors(tsc_output@, views(changed_files@)),
{
    let ghost fs = views(changed_files@);
    let ghost pred = |l: Seq<char>| names_one_of(l, fs);
    let ls = lines(tsc_output);
    let ghost all = views(ls@);
    let mut out: Vec<String> = Vec::new();
    let mut i: usize = 0;
    while i < ls.len()
        invariant
            i <= ls.len(),
            all == views(ls@),
            all == spec_lines(tsc_output@),
            fs == views(changed_files@),
            pred == (|l: Seq<char>| names_one_of(l, fs)),
            views(out@) == all.subrange(0, i as int).filter(pred),
        decreases ls.len() - i,
    {
        proof {
            reveal_with_fuel(Seq::filter, 1);
            assert(all.subrange(0, i + 1).drop_last() == all.subrange(0, i as int));
            assert(all[i as int] == ls@[i as int]@);
        }
        if names_changed_file(ls[i].as_str(), changed_files) {
            let ghost prev = out@;
            let line = ls[i].clone();
            out.push(line);
            proof {
                lemma_views_push(prev, line);
            }
        }
        i += 1;
    }
    assert(all.subrange(0, all.len() as int) == all);
    out
}

/// Read the compiler's output as the result of checking the changed `files`.
pub fn result_from_output(files: &[String], output: &ProcessOutput) -> (r: CheckResult)
    ensures
        is_result(files@, *output, r),
{
    if output.exit_code == 0 {
        return CheckResult {
            stage: CheckStage::Typescript,
            success: true,
            files_checked: to_owned_strings(files),
            errors: Vec::new(),
            files_modified: Vec::new(),
        };
    }
    let diagnostics = if contains(output.stdout.as_str(), "error TS") {
        output.stdout.as_str()
    } else {
        output.stderr.as_str()
    };
    let relevant = filter_tsc_errors(diagnostics, files);
    CheckResult {
        stage: CheckStage::Typescript,
        success: relevant.len() == 0,
        files_checked: to_owned_strings(files),
        errors: relevant,
        files_modified: Vec::new(),
    }
}

/// Every error kept from the compiler's output is one of its lines, and begins
/// with the path of a changed file.
pub proof fn law_tsc_errors_name_changed_files(output: Seq<char>, files: Seq<Seq<char>>, e: Seq<char>)
    requires
        spec_tsc_errors(output, files).contains(e),
    ensures
        spec_lines(output).contains(e),
        names_one_of(e, files),
{
    let pred = |l: Seq<char>| names_one_of(l, files);
    spec_lines(output).lemma_filter_contains_rev(pred, e);
    let k = choose|k: int| 0 <= k < spec_lines(output).filter(pred).len() && spec_lines(output).filter(pred)[k] == e;
    spec_lines(output).lemma_filter_pred(pred, k);
}

} // verus!
