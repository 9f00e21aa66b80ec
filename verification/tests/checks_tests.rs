use tschecker::checks::eslint::parse_eslint_errors;
use tschecker::checks::typescript::filter_tsc_errors;
use tschecker::checks::vitest::{failures_from_parsed, parse_vitest_failures};
use tschecker::checks::{command, empty_result, result_from_output, CheckStage, ProcessOutput};
use tschecker::json::{as_array, as_str, get, JsonValue};

fn strings(v: &[&str]) -> Vec<String> {
    v.iter().map(|s| s.to_string()).collect()
}

fn output(code: i32, stdout: &str, stderr: &str) -> ProcessOutput {
    ProcessOutput { stdout: stdout.to_string(), stderr: stderr.to_string(), exit_code: code }
}

#[test]
fn stage_names_parse_case_insensitively() {
    assert_eq!(CheckStage::parse("prettier"), Ok(CheckStage::Prettier));
    assert_eq!(CheckStage::parse("ESLint"), Ok(CheckStage::Eslint));
    assert_eq!(CheckStage::parse("tsc"), Ok(CheckStage::Typescript));
    assert_eq!(CheckStage::parse("TypeScript"), Ok(CheckStage::Typescript));
    assert_eq!(CheckStage::parse("vitest"), Ok(CheckStage::Vitest));
    assert_eq!(CheckStage::parse("TEST"), Ok(CheckStage::Vitest));
    assert_eq!("eslint".parse::<CheckStage>(), Ok(CheckStage::Eslint));
}

#[test]
fn unknown_stage_is_refused_with_the_valid_names() {
    assert_eq!(
        CheckStage::parse("lint"),
        Err("unknown stage 'lint' (valid: prettier, eslint, tsc, vitest)".to_string())
    );
    assert!("".parse::<CheckStage>().is_err());
}

#[test]
fn stage_display_names_round_trip() {
    assert_eq!(CheckStage::Prettier.to_string(), "prettier");
    assert_eq!(CheckStage::Eslint.to_string(), "eslint");
    assert_eq!(CheckStage::Typescript.to_string(), "tsc");
    assert_eq!(CheckStage::Vitest.name(), "vitest");
    for st in [CheckStage::Prettier, CheckStage::Eslint, CheckStage::Typescript, CheckStage::Vitest] {
        assert_eq!(CheckStage::parse(st.name()), Ok(st));
    }
}

#[test]
fn commands_of_each_stage() {
    let files = strings(&["src/a.ts", "src/b.tsx"]);
    let p = command(CheckStage::Prettier, &files).unwrap();
    assert_eq!(p.program, "./node_modules/.bin/prettier");
    assert_eq!(p.args, strings(&["--write", "src/a.ts", "src/b.tsx"]));
    let e = command(CheckStage::Eslint, &files).unwrap();
    assert_eq!(e.program, "./node_modules/.bin/eslint");
    assert_eq!(
        e.args,
        strings(&["--fix", "--cache", "--cache-location", ".cache/eslint/", "--quiet", "src/a.ts", "src/b.tsx"])
    );
    let t = command(CheckStage::Typescript, &files).unwrap();
    assert_eq!(t.program, "./node_modules/.bin/tsc");
    assert_eq!(t.args, strings(&["--noEmit", "--pretty", "false"]));
    let v = command(CheckStage::Vitest, &files).unwrap();
    assert_eq!(v.program, "./node_modules/.bin/vitest");
    assert_eq!(v.args, strings(&["run", "--reporter=json", "-u", "src/a.ts", "src/b.tsx"]));
    for st in [CheckStage::Prettier, CheckStage::Eslint, CheckStage::Typescript, CheckStage::Vitest] {
        assert!(command(st, &[]).is_none());
    }
}

#[test]
fn empty_input_passes_without_running() {
    let r = empty_result(CheckStage::Vitest);
    assert_eq!(r.stage, CheckStage::Vitest);
    assert!(r.success);
    assert!(r.files_checked.is_empty() && r.errors.is_empty() && r.files_modified.is_empty());
}

#[test]
fn prettier_result() {
    let files = strings(&["a.ts"]);
    let ok = result_from_output(CheckStage::Prettier, &files, &output(0, "a.ts 5ms", ""));
    assert!(ok.success);
    assert!(ok.errors.is_empty());
    assert_eq!(ok.files_modified, files);
    let bad = result_from_output(CheckStage::Prettier, &files, &output(2, "out", "SyntaxError"));
    assert!(!bad.success);
    assert_eq!(bad.errors, strings(&["out\nSyntaxError"]));
    assert!(bad.files_modified.is_empty());
    assert_eq!(bad.files_checked, files);
}

#[test]
fn eslint_errors_are_one_per_line_with_their_file() {
    assert_eq!(parse_eslint_errors("a.ts\n  1:1 error x", ""), strings(&["a.ts: 1:1 error x"]));
    let report = "/p/a.ts\n  1:1  error  x  r1\n  2:1  error  y  r2\n\n/p/b.ts\n  3:4  error  z  r3\n\n\u{2716} 3 problems (3 errors, 0 warnings)\n";
    assert_eq!(
        parse_eslint_errors(report, ""),
        strings(&["/p/a.ts: 1:1  error  x  r1", "/p/a.ts: 2:1  error  y  r2", "/p/b.ts: 3:4  error  z  r3"])
    );
    assert_eq!(parse_eslint_errors("  1:1 error x", ""), strings(&["1:1 error x"]));
    assert_eq!(parse_eslint_errors("Oops! Something went wrong", "config"), strings(&["Oops! Something went wrong\nconfig"]));
    assert!(parse_eslint_errors("", "").is_empty());
    assert!(parse_eslint_errors("  \n\t", " ").is_empty());
    let files = strings(&["a.ts"]);
    let r = result_from_output(CheckStage::Eslint, &files, &output(1, "bad", "worse"));
    assert!(!r.success);
    assert_eq!(r.errors, strings(&["bad\nworse"]));
    assert_eq!(r.files_modified, files);
    let ok = result_from_output(CheckStage::Eslint, &files, &output(0, "", ""));
    assert!(ok.success && ok.errors.is_empty());
}

#[test]
fn tsc_errors_are_narrowed_to_changed_files() {
    let out = "src/a.ts(1,2): error TS2322: bad\nsrc/other.ts(3,4): error TS1: no\nsrc/b.tsx(5,6): error TS7: worse\n";
    let files = strings(&["src/a.ts", "src/b.tsx"]);
    assert_eq!(
        filter_tsc_errors(out, &files),
        strings(&["src/a.ts(1,2): error TS2322: bad", "src/b.tsx(5,6): error TS7: worse"])
    );
    assert!(filter_tsc_errors(out, &[]).is_empty());
    let similar = "src/a.tsx(1,1): error TS2322: bad\nsrc/a.ts(2,3): error TS1005: x";
    assert_eq!(filter_tsc_errors(similar, &strings(&["src/a.ts"])), strings(&["src/a.ts(2,3): error TS1005: x"]));
    let grouped = "app/(shop)/page.tsx(4,2): error TS1: y\n";
    assert_eq!(filter_tsc_errors(grouped, &strings(&["app/(shop)/page.tsx"])), strings(&["app/(shop)/page.tsx(4,2): error TS1: y"]));
}

#[test]
fn tsc_result_reads_stdout_or_stderr() {
    let files = strings(&["src/a.ts"]);
    let r = result_from_output(CheckStage::Typescript, &files, &output(2, "src/a.ts(1,1): error TS1: x", ""));
    assert!(!r.success);
    assert_eq!(r.errors, strings(&["src/a.ts(1,1): error TS1: x"]));
    let elsewhere = result_from_output(CheckStage::Typescript, &files, &output(2, "src/z.ts(1,1): error TS1: x", ""));
    assert!(elsewhere.success);
    assert!(elsewhere.errors.is_empty());
    let from_stderr = result_from_output(CheckStage::Typescript, &files, &output(1, "nothing here", "src/a.ts(2,2): oops"));
    assert_eq!(from_stderr.errors, strings(&["src/a.ts(2,2): oops"]));
    let ok = result_from_output(CheckStage::Typescript, &files, &output(0, "", ""));
    assert!(ok.success && ok.errors.is_empty() && ok.files_modified.is_empty());
}

const REPORT: &str = r#"{"numFailedTests":1,"testResults":[
  {"name":"/p/a.test.ts","status":"failed","assertionResults":[
     {"fullName":"adds","status":"failed","failureMessages":["expected 1","got 2"]},
     {"fullName":"ok","status":"passed","failureMessages":[]},
     {"status":"failed"}]},
  {"name":"/p/b.test.ts","status":"passed","assertionResults":[{"fullName":"x","status":"failed"}]}]}"#;

#[test]
fn vitest_failures_come_from_the_json_report() {
    assert_eq!(
        parse_vitest_failures(REPORT, "ignored"),
        strings(&["/p/a.test.ts: adds — expected 1\ngot 2", "/p/a.test.ts: unknown test — "])
    );
}

#[test]
fn vitest_falls_back_to_raw_output() {
    assert_eq!(parse_vitest_failures("not json", "boom"), strings(&["not json\nboom"]));
    assert_eq!(parse_vitest_failures(r#"{"testResults":[]}"#, "e"), strings(&["{\"testResults\":[]}\ne"]));
    assert!(parse_vitest_failures(" ", "\n").is_empty());
    assert!(failures_from_parsed(&None, "", "").is_empty());
    let files = strings(&["a.test.ts"]);
    let r = result_from_output(CheckStage::Vitest, &files, &output(1, REPORT, ""));
    assert!(!r.success);
    assert_eq!(r.errors.len(), 2);
    assert!(r.files_modified.is_empty());
}

#[test]
fn json_model_of_a_document() {
    let v = JsonValue::Object(vec![
        ("a".to_string(), JsonValue::Object(vec![("k".to_string(), JsonValue::Str("v".to_string()))])),
        (
            "b".to_string(),
            JsonValue::Array(vec![
                JsonValue::Number("1".to_string()),
                JsonValue::Str("x".to_string()),
                JsonValue::Null,
                JsonValue::Bool(true),
            ]),
        ),
    ]);
    let arr = as_array(get(&v, "b").unwrap()).unwrap();
    assert_eq!(arr.len(), 4);
    assert!(matches!(&arr[0], JsonValue::Number(n) if n == "1"));
    assert_eq!(as_str(&arr[1]), Some("x"));
    assert_eq!(as_str(&arr[0]), None);
    assert!(matches!(arr[2], JsonValue::Null));
    assert!(matches!(arr[3], JsonValue::Bool(true)));
    assert_eq!(as_str(get(get(&v, "a").unwrap(), "k").unwrap()), Some("v"));
    assert!(get(&v, "zzz").is_none());
    assert!(get(&arr[1], "b").is_none());
    assert!(as_array(&arr[1]).is_none());
}

#[test]
fn vitest_report_is_parsed_from_text() {
    let report = r#"{"testResults":[{"name":"t.ts","status":"failed","assertionResults":[{"fullName":"f","status":"failed","failureMessages":["m"]}]}]}"#;
    assert_eq!(parse_vitest_failures(report, ""), strings(&["t.ts: f — m"]));
    assert_eq!(parse_vitest_failures("{", "x"), strings(&["{\nx"]));
}
