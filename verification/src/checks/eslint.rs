//! `eslint --fix` on the changed TypeScript files.

use vstd::prelude::*;
use crate::text::{is_whitespace, lemma_trim_start_unchanged, lemma_views_push, lines, spec_lines, spec_trim, str_eq, to_owned_strings, trim, trim_start, views};
use super::{args_then_files, combined_output, spec_combined_output, CheckCommand, CheckResult, CheckStage, ProcessOutput};

verus! {

/// The program that lints files.
pub open spec fn spec_program() -> Seq<char> {
    "./node_modules/.bin/eslint"@
}

/// The arguments before the file names.
pub open spec fn spec_leading_args() -> Seq<Seq<char>> {
    seq!["--fix"@, "--cache"@, "--cache-location"@, ".cache/eslint/"@, "--quiet"@]
}

/// One of the lines holds something other than white space.
pub open spec fn has_nonblank_line(ls: Seq<Seq<char>>) -> bool {
    exists|i: int| 0 <= i < ls.len() && spec_trim(#[trigger] ls[i]).len() > 0
}

/// The line begins with white space: in eslint's report the errors are
/// indented under the file they are in.
pub open spec fn is_indented(l: Seq<char>) -> bool {
    l.len() > 0 && is_whitespace(l[0])
}

/// An error line: indented and not blank.
pub open spec fn is_error_line(l: Seq<char>) -> bool {
    is_indented(l) && spec_trim(l).len() > 0
}

/// A file line: not indented and not blank.
pub open spec fn is_file_line(l: Seq<char>) -> bool {
    !is_indented(l) && spec_trim(l).len() > 0
}

/// The file named by the last file line among `ls`; empty before the first.
pub open spec fn current_file(ls: Seq<Seq<char>>) -> Seq<char>
    decreases ls.len(),
{
    if ls.len() == 0 {
        Seq::empty()
    } else if is_file_line(ls.last()) {
        spec_trim(ls.last())
    } else {
        current_file(ls.drop_last())
    }
}

/// One error: `file: error line`, the line trimmed (the line alone when no
/// file line came before it).
pub open spec fn error_entry(file: Seq<char>, line: Seq<char>) -> Seq<char> {
    if file.len() == 0 {
        spec_trim(line)
    } else {
        file + ": "@ + spec_trim(line)
    }
}

/// The errors of the lines, one per error line, in order.
pub open spec fn error_entries(ls: Seq<Seq<char>>) -> Seq<Seq<char>>
    decreases ls.len(),
{
    if ls.len() == 0 {
        Seq::empty()
    } else {
        let p = error_entries(ls.drop_last());
        if is_error_line(ls.last()) {
            p.push(error_entry(current_file(ls.drop_last()), ls.last()))
        } else {
            p
        }
    }
}

/// The errors read from eslint's output: one per indented error line, with
/// the file it is listed under; when no line has that form, the whole output
/// as one error, unless every line of it is blank.
pub open spec fn spec_eslint_errors(stdout: Seq<char>, stderr: Seq<char>) -> Seq<Seq<char>> {
    let combined = spec_combined_output(stdout, stderr);
    let ls = spec_lines(combined);
    if error_entries(ls).len() > 0 {
        error_entries(ls)
    } else if has_nonblank_line(ls) {
        seq![combined]
    } else {
        Seq::empty()
    }
}

/// What `eslint --fix` reports, read as a check result: it passes when eslint
/// exits with 0; otherwise its output is the error. Every file counts as
/// touched by the fixer.
pub open spec fn is_result(files: Seq<String>, out: ProcessOutput, r: CheckResult) -> bool {
    &&& r.stage == CheckStage::Eslint
    &&& r.success == (out.exit_code == 0)
    &&& r.files_checked@ == files
    &&& r.files_modified@ == files
    &&& if out.exit_code == 0 {
        r.errors@.len() == 0
    } else {
        views(r.errors@) == spec_eslint_errors(out.stdout@, out.stderr@)
    }
}

/// The command that lints and fixes `files`; nothing to run when there are none.
pub fn command(files: &[String]) -> (r: Option<CheckCommand>)
    ensures
        files@.len() == 0 ==> r is None,
        files@.len() > 0 ==> r is Some && r->0.program@ == spec_program()
            && views(r->0.args@) == spec_leading_args() + views(files@),
{
    if files.len() == 0 {
        return None;
    }
    let leading: [&str; 5] = ["--fix", "--cache", "--cache-location", ".cache/eslint/", "--quiet"];
    let args = args_then_files(leading.as_slice(), files);
    assert(leading@.map_values(|a: &str| a@) =~= spec_leading_args());
    Some(CheckCommand { program: String::from_str("./node_modules/.bin/eslint"), args })
}

fn indented(line: &str) -> (r: bool)
    ensures
        r == is_indented(line@),
{
    proof {
        lemma_trim_start_unchanged(line@);
    }
    !str_eq(trim_start(line), line)
}

/// Parse eslint output into individual error strings: eslint lists errors
/// grouped by file, one indented error per line after the file name, and
/// each becomes `file: error`. Output in no such form is reported whole,
/// unless it holds nothing but blank lines.
pub fn parse_eslint_errors(stdout: &str, stderr: &str) -> (r: Vec<String>)
    ensures
        views(r@) == spec_eslint_errors(stdout@, stderr@),
{
    let combined = combined_output(stdout, stderr);
    let ghost c = combined@;
    let ls = lines(combined.as_str());
    let ghost all = views(ls@);
    let mut out: Vec<String> = Vec::new();
    let mut file = String::new();
    let mut nonblank = false;
    let mut i: usize = 0;
    while i < ls.len()
        invariant
            i <= ls.len(),
            all == views(ls@),
            all == spec_lines(c),
            c == combined@,
            c == spec_combined_output(stdout@, stderr@),
            views(out@) == error_entries(all.subrange(0, i as int)),
            file@ == current_file(all.subrange(0, i as int)),
            nonblank <==> exists|k: int| 0 <= k < i && spec_trim(#[trigger] all[k]).len() > 0,
        decreases ls.len() - i,
    {
        let line = ls[i].as_str();
        let ghost pre = all.subrange(0, i as int);
        proof {
            assert(all.subrange(0, i + 1).drop_last() =~= pre);
            assert(all.subrange(0, i + 1).last() == line@);
        }
        let t = trim(line);
        let blank = t.is_empty();
        let ind = indented(line);
        if !blank {
            nonblank = true;
            assert(spec_trim(all[i as int]).len() > 0);
        }
        if !blank && ind {
            let entry = if file.as_str().is_empty() {
                String::from_str(t)
            } else {
                String::from_str(file.as_str()).concat(": ").concat(t)
            };
            let ghost prev = out@;
            out.push(entry);
            proof {
                lemma_views_push(prev, entry);
            }
        } else if !blank {
            file = String::from_str(t);
        }
        i += 1;
    }
    proof {
        assert(all.subrange(0, all.len() as int) == all);
    }
    if out.len() > 0 {
        return out;
    }
    let mut whole: Vec<String> = Vec::new();
    if nonblank {
        whole.push(combined);
        assert(views(whole@) =~= seq![c]);
    } else {
        assert(views(whole@) =~= Seq::<Seq<char>>::empty());
    }
    whole
}

/// Read eslint's output as the result of checking `files`.
pub fn result_from_output(files: &[String], output: &ProcessOutput) -> (r: CheckResult)
    ensures
        is_result(files@, *output, r),
{
    let ok = output.exit_code == 0;
    let errors = if ok {
        Vec::new()
    } else {
        parse_eslint_errors(output.stdout.as_str(), output.stderr.as_str())
    };
    CheckResult {
        stage: CheckStage::Eslint,
        success: ok,
        files_checked: to_owned_strings(files),
        errors,
        files_modified: to_owned_strings(files),
    }
}

} // verus!
