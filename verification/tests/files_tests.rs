use tschecker::files::{
    collect_test_files, collect_test_files_from, filter_by_extensions, find_snapshot_files, find_snapshot_files_in,
    find_test_file, find_test_file_in, first_existing, is_test_file, snapshot_path, test_file_candidates,
    test_file_probes,
};

fn strings(v: &[&str]) -> Vec<String> {
    v.iter().map(|s| s.to_string()).collect()
}

#[test]
fn filter_by_extensions_keeps_matching_files_in_order() {
    let files = strings(&["src/a.ts", "src/b.css", "src/c.tsx", "src/d.js", "src/e.mts"]);
    assert_eq!(filter_by_extensions(&files, &["ts", "tsx"]), strings(&["src/a.ts", "src/c.tsx"]));
    assert_eq!(
        filter_by_extensions(&files, &["js", "jsx", "ts", "tsx"]),
        strings(&["src/a.ts", "src/c.tsx", "src/d.js"])
    );
    assert!(filter_by_extensions(&files, &[]).is_empty());
}

#[test]
fn filter_by_extensions_twice_is_once() {
    let files = strings(&["a.ts", "b.tsx", "c.md", "d.ts"]);
    let once = filter_by_extensions(&files, &["ts"]);
    let twice = filter_by_extensions(&once, &["ts"]);
    assert_eq!(once, twice);
    assert_eq!(once, strings(&["a.ts", "d.ts"]));
}

#[test]
fn is_test_file_recognises_tests_and_not_snapshots() {
    assert!(is_test_file("src/components/Foo.test.tsx"));
    assert!(is_test_file("src/utils/format.spec.ts"));
    assert!(!is_test_file("src/components/Foo.tsx"));
    assert!(!is_test_file("src/components/__snapshots__/Foo.test.tsx.snap"));
    assert!(!is_test_file("src/test.dir/Foo.tsx"));
}

#[test]
fn candidates_follow_the_four_conventions_in_order() {
    let c = test_file_candidates("src/components/Foo.tsx").unwrap();
    assert_eq!(
        c,
        strings(&[
            "src/components/Foo.test.tsx",
            "src/components/Foo.test.tsx",
            "src/components/Foo.test.ts",
            "src/Tests/Foo.test.tsx",
            "src/Tests/Foo.test.tsx",
            "src/Tests/Foo.test.ts",
            "src/__tests__/Foo.test.tsx",
            "src/__tests__/Foo.test.tsx",
            "src/__tests__/Foo.test.ts",
            "src/__tests__/components/Foo.test.tsx",
            "src/__tests__/components/Foo.test.tsx",
            "src/__tests__/components/Foo.test.ts",
        ])
    );
}

#[test]
fn candidates_of_a_plain_ts_file_outside_src() {
    let c = test_file_candidates("lib/util.ts").unwrap();
    assert_eq!(
        c,
        strings(&[
            "lib/util.test.ts",
            "lib/util.test.tsx",
            "lib/util.test.ts",
            "Tests/util.test.ts",
            "Tests/util.test.tsx",
            "Tests/util.test.ts",
            "__tests__/util.test.ts",
            "__tests__/util.test.tsx",
            "__tests__/util.test.ts",
        ])
    );
}

#[test]
fn tests_and_snapshots_have_no_candidates() {
    assert!(test_file_candidates("src/Foo.test.tsx").is_none());
    assert!(test_file_candidates("src/Foo.spec.ts").is_none());
    assert!(test_file_candidates("src/__snapshots__/Foo.test.tsx.snap").is_none());
    assert!(test_file_candidates("Makefile").is_none());
}

#[test]
fn first_existing_takes_the_first_found() {
    let c = strings(&["a", "b", "c"]);
    assert_eq!(first_existing(&c, &[false, true, true]), Some("b".to_string()));
    assert_eq!(first_existing(&c, &[false, false, false]), None);
    assert_eq!(first_existing(&c, &[true]), Some("a".to_string()));
    assert_eq!(first_existing(&c, &[]), None);
}

#[test]
fn find_test_file_without_any_candidate_on_disk() {
    assert_eq!(find_test_file("src/components/Foo.tsx", "/nonexistent-tschecker-root"), None);
    assert_eq!(find_test_file("src/components/Foo.test.tsx", "/nonexistent-tschecker-root"), None);
}

#[test]
fn snapshot_path_sits_in_snapshots_dir() {
    assert_eq!(
        snapshot_path("src/components/Foo.test.tsx"),
        Some("src/components/__snapshots__/Foo.test.tsx.snap".to_string())
    );
    assert_eq!(snapshot_path("Foo.test.tsx"), Some("__snapshots__/Foo.test.tsx.snap".to_string()));
}

#[test]
fn find_snapshot_files_finds_none_when_absent() {
    let tests = strings(&["src/a.test.ts", "src/b.test.tsx"]);
    assert!(find_snapshot_files(&tests, "/nonexistent-tschecker-root").is_empty());
}

#[test]
fn collect_from_lookups_dedups_sorts_and_skips_untestable() {
    let sources = strings(&["src/b/Bar.ts", "src/a/Foo.tsx", "src/a/Foo.test.tsx", "src/a/style.css", "src/a/icon.svg"]);
    let found = vec![
        Some("src/__tests__/b/Bar.test.ts".to_string()),
        Some("src/a/Foo.test.tsx".to_string()),
        None,
        Some("ignored.test.ts".to_string()),
        None,
    ];
    assert_eq!(
        collect_test_files_from(&sources, &found),
        strings(&["src/__tests__/b/Bar.test.ts", "src/a/Foo.test.tsx"])
    );
}

#[test]
fn collect_test_files_keeps_changed_tests() {
    let sources = strings(&["src/x/Foo.test.ts", "src/x/Foo.ts", "src/x/a.spec.tsx"]);
    assert_eq!(
        collect_test_files(&sources, "/nonexistent-tschecker-root"),
        strings(&["src/x/Foo.test.ts", "src/x/a.spec.tsx"])
    );
    assert!(collect_test_files(&[], "/nonexistent-tschecker-root").is_empty());
}

#[test]
fn test_lookup_follows_the_documented_conventions() {
    let root = "/work/ch-client";
    let only = |p: &str| strings(&[&format!("{}/{}", root, p)]);
    assert_eq!(
        find_test_file_in("src/components/Foo.tsx", root, &only("src/components/Foo.test.tsx")),
        Some("src/components/Foo.test.tsx".to_string())
    );
    assert_eq!(
        find_test_file_in("src/Settings/Components/Foo.tsx", root, &only("src/Settings/Tests/Foo.test.tsx")),
        Some("src/Settings/Tests/Foo.test.tsx".to_string())
    );
    assert_eq!(
        find_test_file_in("src/Settings/Components/Foo.tsx", root, &only("src/Settings/__tests__/Foo.test.tsx")),
        Some("src/Settings/__tests__/Foo.test.tsx".to_string())
    );
    assert_eq!(
        find_test_file_in("src/containers/Cms/Foo.tsx", root, &only("src/__tests__/containers/Cms/Foo.test.tsx")),
        Some("src/__tests__/containers/Cms/Foo.test.tsx".to_string())
    );
    // A path that exists only relative to some other directory is not found.
    assert_eq!(find_test_file_in("src/components/Foo.tsx", root, &strings(&["src/components/Foo.test.tsx"])), None);
    // The earlier convention wins when both exist.
    let both = strings(&[
        "/work/ch-client/src/__tests__/containers/Cms/Foo.test.tsx",
        "/work/ch-client/src/containers/Cms/Foo.test.tsx",
    ]);
    assert_eq!(find_test_file_in("src/containers/Cms/Foo.tsx", root, &both), Some("src/containers/Cms/Foo.test.tsx".to_string()));
    assert_eq!(find_test_file_in("src/components/Foo.test.tsx", root, &only("src/components/Foo.test.test.tsx")), None);
}

#[test]
fn probes_are_under_the_project_root() {
    let probes = test_file_probes("src/components/Foo.tsx", "/work/ch-client").unwrap();
    assert_eq!(probes[0], "/work/ch-client/src/components/Foo.test.tsx");
    assert_eq!(probes.len(), test_file_candidates("src/components/Foo.tsx").unwrap().len());
    assert!(test_file_probes("src/Foo.test.ts", "/work").is_none());
}

#[test]
fn snapshots_under_the_project_root() {
    let tests = strings(&["src/components/Header.test.tsx", "src/a.test.ts"]);
    let existing = strings(&["/work/ch-client/src/components/__snapshots__/Header.test.tsx.snap"]);
    assert_eq!(
        find_snapshot_files_in(&tests, "/work/ch-client", &existing),
        strings(&["src/components/__snapshots__/Header.test.tsx.snap"])
    );
    assert!(find_snapshot_files_in(&tests, "/elsewhere", &existing).is_empty());
}
