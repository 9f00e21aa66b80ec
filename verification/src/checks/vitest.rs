//! `vitest run -u` on the related test files, failures read from its JSON report.

use vstd::prelude::*;
use crate::json::{array_member, as_array, as_str, get, parse_json, parsed_json, str_member, JsonValue};
use crate::text::{join, lemma_views_push, spec_join, spec_trim, str_eq, to_owned_strings, trim, views};
use super::{args_then_files, combined_output, spec_combined_output, CheckCommand, CheckResult, CheckStage, ProcessOutput};

verus! {

/// The test runner.
pub open spec fn spec_program() -> Seq<char> {
    "./node_modules/.bin/vitest"@
}

/// The arguments before the test files: a single run, the JSON reporter, and
/// snapshot updates.
pub open spec fn spec_leading_args() -> Seq<Seq<char>> {
    seq!["run"@, "--reporter=json"@, "-u"@]
}

/// The member `status` of `v` is the string `failed`.
pub open spec fn is_failed(v: JsonValue) -> bool {
    str_member(v, "status"@) == Some("failed"@)
}

/// The strings among the values, in order.
pub open spec fn strings_among(vs: Seq<JsonValue>) -> Seq<Seq<char>>
    decreases vs.len(),
{
    if vs.len() == 0 {
        Seq::empty()
    } else {
        let p = strings_among(vs.drop_last());
        match vs.last() {
            JsonValue::Str(s) => p.push(s@),
            _ => p,
        }
    }
}

/// The failure messages of an assertion, one per line; empty when it has none.
pub open spec fn spec_failure_text(m: JsonValue) -> Seq<char> {
    match array_member(m, "failureMessages"@) {
        Some(arr) => spec_join(strings_among(arr), "\n"@),
        None => Seq::empty(),
    }
}

/// The name of an assertion, or `unknown test`.
pub open spec fn spec_title(m: JsonValue) -> Seq<char> {
    match str_member(m, "fullName"@) {
        Some(t) => t,
        None => "unknown test"@,
    }
}

/// One reported failure: `file: test name — messages`.
pub open spec fn spec_assertion_error(file: Seq<char>, m: JsonValue) -> Seq<char> {
    file + ": "@ + spec_title(m) + " — "@ + spec_failure_text(m)
}

/// The failures among the assertion results of one test file, in order.
pub open spec fn assertion_errors(file: Seq<char>, msgs: Seq<JsonValue>) -> Seq<Seq<char>>
    decreases msgs.len(),
{
    if msgs.len() == 0 {
        Seq::empty()
    } else {
        let p = assertion_errors(file, msgs.drop_last());
        if is_failed(msgs.last()) {
            p.push(spec_assertion_error(file, msgs.last()))
        } else {
            p
        }
    }
}

/// The name of a test file result, or `unknown`.
pub open spec fn spec_file_name(r: JsonValue) -> Seq<char> {
    match str_member(r, "name"@) {
        Some(n) => n,
        None => "unknown"@,
    }
}

/// The failures reported for one test file: none unless the file failed.
pub open spec fn result_errors(r: JsonValue) -> Seq<Seq<char>> {
    if is_failed(r) {
        match array_member(r, "assertionResults"@) {
            Some(msgs) => assertion_errors(spec_file_name(r), msgs),
            None => Seq::empty(),
        }
    } else {
        Seq::empty()
    }
}

/// The failures of all test file results, in order.
pub open spec fn results_errors(rs: Seq<JsonValue>) -> Seq<Seq<char>>
    decreases rs.len(),
{
    if rs.len() == 0 {
        Seq::empty()
    } else {
        results_errors(rs.drop_last()) + result_errors(rs.last())
    }
}

/// The failures listed in a vitest JSON report.
pub open spec fn spec_report_failures(report: JsonValue) -> Seq<Seq<char>> {
    match array_member(report, "testResults"@) {
        Some(rs) => results_errors(rs),
        None => Seq::empty(),
    }
}

/// The errors read from vitest's output, given what its standard output parses
/// to as JSON: the failures of the report when there are any, else the whole
/// combined output, unless that is blank.
pub open spec fn spec_vitest_failures(parsed: Option<JsonValue>, stdout: Seq<char>, stderr: Seq<char>) -> Seq<Seq<char>> {
    if parsed is Some && spec_report_failures(parsed->0).len() > 0 {
        spec_report_failures(parsed->0)
    } else {
        let combined = spec_combined_output(stdout, stderr);
        if spec_trim(combined).len() == 0 {
            Seq::empty()
        } else {
            seq![combined]
        }
    }
}

/// What `vitest run` reports, read as a check result: it passes when vitest
/// exits with 0; otherwise its failures are the errors.
pub open spec fn is_result(files: Seq<String>, out: ProcessOutput, r: CheckResult) -> bool {
    &&& r.stage == CheckStage::Vitest
    &&& r.success == (out.exit_code == 0)
    &&& r.files_checked@ == files
    &&& r.files_modified@.len() == 0
    &&& if out.exit_code == 0 {
        r.errors@.len() == 0
    } else {
        views(r.errors@) == spec_vitest_failures(parsed_json(out.stdout@), out.stdout@, out.stderr@)
    }
}

/// The command that runs `test_files`; nothing to run when there are none.
pub fn command(test_files: &[String]) -> (r: Option<CheckCommand>)
    ensures
        test_files@.len() == 0 ==> r is None,
        test_files@.len() > 0 ==> r is Some && r->0.program@ == spec_program()
            && views(r->0.args@) == spec_leading_args() + views(test_files@),
{
    if test_files.len() == 0 {
        return None;
    }
    let leading: [&str; 3] = ["run", "--reporter=json", "-u"];
    let args = args_then_files(leading.as_slice(), test_files);
    assert(leading@.map_values(|a: &str| a@) =~= spec_leading_args());
    Some(CheckCommand { program: String::from_str("./node_modules/.bin/vitest"), args })
}

fn failed(v: &JsonValue) -> (r: bool)
    ensures
        r == is_failed(*v),
{
    match get(v, "status") {
        Some(s) => match as_str(s) {
            Some(t) => str_eq(t, "failed"),
            None => false,
        },
        None => false,
    }
}

fn failure_text(m: &JsonValue) -> (r: String)
    ensures
        r@ == spec_failure_text(*m),
{
    let arr = match get(m, "failureMessages") {
        Some(x) => match as_array(x) {
            Some(a) => a,
            None => {
                return String::new();
            },
        },
        None => {
            return String::new();
        },
    };
    let mut texts: Vec<String> = Vec::new();
    let mut i: usize = 0;
    while i < arr.len()
        invariant
            i <= arr.len(),
            views(texts@) == strings_among(arr@.subrange(0, i as int)),
        decreases arr.len() - i,
    {
        proof {
            assert(arr@.subrange(0, i + 1).drop_last() == arr@.subrange(0, i as int));
        }
        match &arr[i] {
            JsonValue::Str(s) => {
                let ghost prev = texts@;
                let t = s.clone();
                texts.push(t);
                proof {
                    lemma_views_push(prev, t);
                }
            },
            _ => {},
        }
        i += 1;
    }
    assert(arr@.subrange(0, arr@.len() as int) == arr@);
    join(texts.as_slice(), "\n")
}

fn title(m: &JsonValue) -> (r: String)
    ensures
        r@ == spec_title(*m),
{
    match get(m, "fullName") {
        Some(x) => match as_str(x) {
            Some(t) => String::from_str(t),
            None => String::from_str("unknown test"),
        },
        None => String::from_str("unknown test"),
    }
}

fn file_name(r: &JsonValue) -> (s: String)
    ensures
        s@ == spec_file_name(*r),
{
    match get(r, "name") {
        Some(x) => match as_str(x) {
            Some(t) => String::from_str(t),
            None => String::from_str("unknown"),
        },
        None => String::from_str("unknown"),
    }
}

fn push_result_errors(r: &JsonValue, out: &mut Vec<String>)
    ensures
        views(final(out)@) == views(old(out)@) + result_errors(*r),
{
    if !failed(r) {
        assert(views(out@) =~= views(out@) + Seq::<Seq<char>>::empty());
        return;
    }
    let msgs = match get(r, "assertionResults") {
        Some(x) => match as_array(x) {
            Some(a) => a,
            None => {
                assert(views(out@) =~= views(out@) + Seq::<Seq<char>>::empty());
                return;
            },
        },
        None => {
            assert(views(out@) =~= views(out@) + Seq::<Seq<char>>::empty());
            return;
        },
    };
    let file = file_name(r);
    let ghost start = views(out@);
    let mut i: usize = 0;
    while i < msgs.len()
        invariant
            i <= msgs.len(),
            file@ == spec_file_name(*r),
            views(out@) == start + assertion_errors(file@, msgs@.subrange(0, i as int)),
        decreases msgs.len() - i,
    {
        proof {
            assert(msgs@.subrange(0, i + 1).drop_last() == msgs@.subrange(0, i as int));
            assert(msgs@.subrange(0, i + 1).last() == msgs@[i as int]);
        }
        if failed(&msgs[i]) {
            let line = String::from_str(file.as_str()).concat(": ").concat(title(&msgs[i]).as_str()).concat(
                " — ",
            ).concat(failure_text(&msgs[i]).as_str());
            let ghost prev = out@;
            out.push(line);
            proof {
                lemma_views_push(prev, line);
            }
        }
        i += 1;
    }
    assert(msgs@.subrange(0, msgs@.len() as int) == msgs@);
}

/// The failures listed in a parsed vitest JSON report, in report order.
pub fn failures_from_report(report: &JsonValue) -> (r: Vec<String>)
    ensures
        views(r@) == spec_report_failures(*report),
{
    let mut out: Vec<String> = Vec::new();
    let results = match get(report, "testResults") {
        Some(x) => match as_array(x) {
            Some(a) => a,
            None => {
                return out;
            },
        },
        None => {
            return out;
        },
    };
    let mut i: usize = 0;
    while i < results.len()
        invariant
            i <= results.len(),
            array_member(*report, "testResults"@) == Some(results@),
            views(out@) == results_errors(results@.subrange(0, i as int)),
        decreases results.len() - i,
    {
        proof {
            assert(results@.subrange(0, i + 1).drop_last() == results@.subrange(0, i as int));
            assert(results@.subrange(0, i + 1).last() == results@[i as int]);
        }
        push_result_errors(&results[i], &mut out);
        i += 1;
    }
    assert(results@.subrange(0, results@.len() as int) == results@);
    out
}

/// The errors read from vitest's output, given what its standard output
/// parsed to as JSON.
pub fn failures_from_parsed(parsed: &Option<JsonValue>, stdout: &str, stderr: &str) -> (r: Vec<String>)
    ensures
        views(r@) == spec_vitest_failures(*parsed, stdout@, stderr@),
{
    if let Some(report) = parsed {
        let errors = failures_from_report(report);
        if errors.len() > 0 {
            return errors;
        }
    }
    let combined = combined_output(stdout, stderr);
    let mut out: Vec<String> = Vec::new();
    if !trim(combined.as_str()).is_empty() {
        let ghost c = combined@;
        out.push(combined);
        assert(views(out@) =~= seq![c]);
    } else {
        assert(views(out@) =~= Seq::<Seq<char>>::empty());
    }
    out
}

/// Parse vitest's JSON output for failure messages, falling back to the raw
/// output when it holds no failures in that form.
pub fn parse_vitest_failures(stdout: &str, stderr: &str) -> (r: Vec<String>)
    ensures
        views(r@) == spec_vitest_failures(parsed_json(stdout@), stdout@, stderr@),
{
    let parsed = parse_json(stdout);
    failures_from_parsed(&parsed, stdout, stderr)
}

/// Read vitest's output as the result of running `test_files`.
pub fn result_from_output(test_files: &[String], output: &ProcessOutput) -> (r: CheckResult)
    ensures
        is_result(test_files@, *output, r),
{
    let ok = output.exit_code == 0;
    let errors = if ok {
        Vec::new()
    } else {
        parse_vitest_failures(output.stdout.as_str(), output.stderr.as_str())
    };
    CheckResult {
        stage: CheckStage::Vitest,
        success: ok,
        files_checked: to_owned_strings(test_files),
        errors,
        files_modified: Vec::new(),
    }
}

/// An entry of two runs joined is an entry of one of them.
proof fn lemma_join_contains(a: Seq<Seq<char>>, b: Seq<Seq<char>>, x: Seq<char>)
    ensures
        (a + b).contains(x) <==> (a.contains(x) || b.contains(x)),
{
    if a.contains(x) {
        let k = choose|k: int| 0 <= k < a.len() && a[k] == x;
        assert((a + b)[k] == x);
    }
    if b.contains(x) {
        let k = choose|k: int| 0 <= k < b.len() && b[k] == x;
        assert((a + b)[a.len() + k] == x);
    }
    if (a + b).contains(x) {
        let k = choose|k: int| 0 <= k < (a + b).len() && (a + b)[k] == x;
        if k < a.len() {
            assert(a[k] == x);
        } else {
            assert(b[k - a.len()] == x);
        }
    }
}

/// A failure of one test file is listed exactly when one of its assertions
/// failed with that text.
pub proof fn lemma_assertion_errors_contains(file: Seq<char>, msgs: Seq<JsonValue>, x: Seq<char>)
    ensures
        assertion_errors(file, msgs).contains(x) <==> exists|j: int|
            0 <= j < msgs.len() && str_member(#[trigger] msgs[j], "status"@) == Some("failed"@) && x == file + ": "@
                + spec_title(msgs[j]) + " — "@ + spec_failure_text(msgs[j]),
    decreases msgs.len(),
{
    if msgs.len() > 0 {
        let pre = msgs.drop_last();
        lemma_assertion_errors_contains(file, pre, x);
        let p = assertion_errors(file, pre);
        let last = msgs.last();
        let e = spec_assertion_error(file, last);
        if exists|j: int|
            0 <= j < pre.len() && str_member(#[trigger] pre[j], "status"@) == Some("failed"@) && x == file + ": "@ + spec_title(
                pre[j],
            ) + " — "@ + spec_failure_text(pre[j]) {
            let j = choose|j: int|
                0 <= j < pre.len() && str_member(#[trigger] pre[j], "status"@) == Some("failed"@) && x == file + ": "@
                    + spec_title(pre[j]) + " — "@ + spec_failure_text(pre[j]);
            assert(msgs[j] == pre[j]);
        }
        if is_failed(last) {
            if p.contains(x) {
                let k = choose|k: int| 0 <= k < p.len() && p[k] == x;
                assert(p.push(e)[k] == x);
            }
            if x == e {
                assert(p.push(e)[p.len() as int] == x);
            }
            if p.push(e).contains(x) {
                let k = choose|k: int| 0 <= k < p.push(e).len() && p.push(e)[k] == x;
                if k < p.len() {
                    assert(p[k] == x);
                }
            }
        }
        if exists|j: int|
            0 <= j < msgs.len() && str_member(#[trigger] msgs[j], "status"@) == Some("failed"@) && x == file + ": "@
                + spec_title(msgs[j]) + " — "@ + spec_failure_text(msgs[j]) {
            let j = choose|j: int|
                0 <= j < msgs.len() && str_member(#[trigger] msgs[j], "status"@) == Some("failed"@) && x == file + ": "@
                    + spec_title(msgs[j]) + " — "@ + spec_failure_text(msgs[j]);
            if j < pre.len() {
                assert(pre[j] == msgs[j]);
            }
        }
    }
}

/// A failure is listed for the results exactly when it is listed for one of them.
pub proof fn lemma_results_errors_contains(rs: Seq<JsonValue>, x: Seq<char>)
    ensures
        results_errors(rs).contains(x) <==> exists|i: int| 0 <= i < rs.len() && result_errors(#[trigger] rs[i]).contains(x),
    decreases rs.len(),
{
    if rs.len() > 0 {
        let pre = rs.drop_last();
        lemma_results_errors_contains(pre, x);
        lemma_join_contains(results_errors(pre), result_errors(rs.last()), x);
        if exists|i: int| 0 <= i < pre.len() && result_errors(#[trigger] pre[i]).contains(x) {
            let i = choose|i: int| 0 <= i < pre.len() && result_errors(#[trigger] pre[i]).contains(x);
            assert(rs[i] == pre[i]);
        }
        if exists|i: int| 0 <= i < rs.len() && result_errors(#[trigger] rs[i]).contains(x) {
            let i = choose|i: int| 0 <= i < rs.len() && result_errors(#[trigger] rs[i]).contains(x);
            if i < pre.len() {
                assert(pre[i] == rs[i]);
            }
        }
    }
}

/// Every failed assertion of every failed test file of a report is listed,
/// as `file: test name — messages`, and nothing else is: a failure is listed
/// exactly when some test file and one of its assertions both have the
/// status `failed` and give that text.
pub proof fn law_report_lists_every_failed_assertion(report: JsonValue, x: Seq<char>)
    requires
        array_member(report, "testResults"@) is Some,
    ensures
        spec_report_failures(report).contains(x) <==> exists|i: int, j: int|
            #![trigger array_member(report, "testResults"@)->0[i], array_member(array_member(report, "testResults"@)->0[i], "assertionResults"@)->0[j]]
            0 <= i < array_member(report, "testResults"@)->0.len()
                && str_member(array_member(report, "testResults"@)->0[i], "status"@) == Some("failed"@)
                && array_member(array_member(report, "testResults"@)->0[i], "assertionResults"@) is Some
                && 0 <= j < array_member(array_member(report, "testResults"@)->0[i], "assertionResults"@)->0.len()
                && str_member(array_member(array_member(report, "testResults"@)->0[i], "assertionResults"@)->0[j], "status"@)
                    == Some("failed"@)
                && x == spec_file_name(array_member(report, "testResults"@)->0[i]) + ": "@ + spec_title(
                    array_member(array_member(report, "testResults"@)->0[i], "assertionResults"@)->0[j],
                ) + " — "@ + spec_failure_text(array_member(array_member(report, "testResults"@)->0[i], "assertionResults"@)->0[j]),
{
    let rs = array_member(report, "testResults"@)->0;
    lemma_results_errors_contains(rs, x);
    if spec_report_failures(report).contains(x) {
        let i = choose|i: int| 0 <= i < rs.len() && result_errors(#[trigger] rs[i]).contains(x);
        let msgs = array_member(rs[i], "assertionResults"@)->0;
        lemma_assertion_errors_contains(spec_file_name(rs[i]), msgs, x);
        let j = choose|j: int|
            0 <= j < msgs.len() && str_member(#[trigger] msgs[j], "status"@) == Some("failed"@) && x == spec_file_name(rs[i])
                + ": "@ + spec_title(msgs[j]) + " — "@ + spec_failure_text(msgs[j]);
        assert(rs[i] == array_member(report, "testResults"@)->0[i]);
        assert(msgs[j] == array_member(array_member(report, "testResults"@)->0[i], "assertionResults"@)->0[j]);
    }
    if exists|i: int, j: int|
        #![trigger array_member(report, "testResults"@)->0[i], array_member(array_member(report, "testResults"@)->0[i], "assertionResults"@)->0[j]]
        0 <= i < array_member(report, "testResults"@)->0.len()
            && str_member(array_member(report, "testResults"@)->0[i], "status"@) == Some("failed"@)
            && array_member(array_member(report, "testResults"@)->0[i], "assertionResults"@) is Some
            && 0 <= j < array_member(array_member(report, "testResults"@)->0[i], "assertionResults"@)->0.len()
            && str_member(array_member(array_member(report, "testResults"@)->0[i], "assertionResults"@)->0[j], "status"@)
                == Some("failed"@)
            && x == spec_file_name(array_member(report, "testResults"@)->0[i]) + ": "@ + spec_title(
                array_member(array_member(report, "testResults"@)->0[i], "assertionResults"@)->0[j],
            ) + " — "@ + spec_failure_text(array_member(array_member(report, "testResults"@)->0[i], "assertionResults"@)->0[j]) {
        let (i, j) = choose|i: int, j: int|
            #![trigger array_member(report, "testResults"@)->0[i], array_member(array_member(report, "testResults"@)->0[i], "assertionResults"@)->0[j]]
            0 <= i < array_member(report, "testResults"@)->0.len()
                && str_member(array_member(report, "testResults"@)->0[i], "status"@) == Some("failed"@)
                && array_member(array_member(report, "testResults"@)->0[i], "assertionResults"@) is Some
                && 0 <= j < array_member(array_member(report, "testResults"@)->0[i], "assertionResults"@)->0.len()
                && str_member(array_member(array_member(report, "testResults"@)->0[i], "assertionResults"@)->0[j], "status"@)
                    == Some("failed"@)
                && x == spec_file_name(array_member(report, "testResults"@)->0[i]) + ": "@ + spec_title(
                    array_member(array_member(report, "testResults"@)->0[i], "assertionResults"@)->0[j],
                ) + " — "@ + spec_failure_text(array_member(array_member(report, "testResults"@)->0[i], "assertionResults"@)->0[j]);
        let msgs = array_member(rs[i], "assertionResults"@)->0;
        lemma_assertion_errors_contains(spec_file_name(rs[i]), msgs, x);
        assert(str_member(msgs[j], "status"@) == Some("failed"@));
        assert(assertion_errors(spec_file_name(rs[i]), msgs).contains(x));
        assert(result_errors(rs[i]).contains(x));
    }
}

} // verus!
