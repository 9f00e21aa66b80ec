use tschecker::gitbutler::{
    applied_branches, branch_changed_files, filter_to_project, find_branch_by_commit, Branch, ButStatus, Commit,
    FileChange, Stack,
};

fn change(path: &str, kind: Option<&str>) -> FileChange {
    FileChange { cli_id: None, file_path: path.to_string(), change_type: kind.map(|k| k.to_string()) }
}

fn commit(id: &str, changes: Option<Vec<FileChange>>) -> Commit {
    Commit { cli_id: "c".to_string(), commit_id: Some(id.to_string()), message: None, changes }
}

fn branch(cli_id: &str, name: &str, commits: Vec<Commit>) -> Branch {
    Branch { cli_id: cli_id.to_string(), name: name.to_string(), commits }
}

fn workspace() -> ButStatus {
    ButStatus {
        stacks: vec![
            Stack {
                cli_id: "s1".to_string(),
                assigned_changes: vec![change("ch-client/src/wip.ts", Some("modified")), change("ch-client/old.ts", Some("removed"))],
                branches: vec![
                    branch(
                        "ar",
                        "feature-a",
                        vec![
                            commit("aaa111", Some(vec![change("ch-client/src/b.ts", Some("added")), change("ch-client/src/gone.ts", Some("removed"))])),
                            commit("aaa222", Some(vec![change("ch-client/src/a.ts", None), change("ch-client/src/b.ts", Some("modified"))])),
                            commit("aaa333", None),
                        ],
                    ),
                    branch("br", "feature-a-base", vec![commit("bbb111", Some(vec![change("README.md", None)]))]),
                ],
            },
            Stack {
                cli_id: "s2".to_string(),
                assigned_changes: vec![change("server/main.go", None)],
                branches: vec![branch("cr", "feature-c", vec![commit("ccc111", Some(vec![change("ch-client/src/c.tsx", None)]))])],
            },
        ],
        unassigned_changes: vec![change("ch-client/src/loose.ts", None)],
    }
}

#[test]
fn applied_branches_are_listed_stack_by_stack() {
    let status = workspace();
    let names: Vec<&str> = applied_branches(&status).iter().map(|b| b.name.as_str()).collect();
    assert_eq!(names, vec!["feature-a", "feature-a-base", "feature-c"]);
    let empty = ButStatus { stacks: vec![], unassigned_changes: vec![] };
    assert!(applied_branches(&empty).is_empty());
}

#[test]
fn branch_files_are_distinct_sorted_and_skip_deletions() {
    let status = workspace();
    assert_eq!(
        branch_changed_files(&status, "feature-a"),
        vec!["ch-client/src/a.ts", "ch-client/src/b.ts", "ch-client/src/wip.ts"]
    );
    assert_eq!(branch_changed_files(&status, "ar"), branch_changed_files(&status, "feature-a"));
    assert_eq!(branch_changed_files(&status, "feature-c"), vec!["ch-client/src/c.tsx", "server/main.go"]);
    assert!(branch_changed_files(&status, "nope").is_empty());
}

#[test]
fn branch_of_a_commit() {
    let status = workspace();
    assert_eq!(find_branch_by_commit(&status, "aaa222").map(|b| b.name.as_str()), Some("feature-a"));
    assert_eq!(find_branch_by_commit(&status, "ccc111").map(|b| b.cli_id.as_str()), Some("cr"));
    assert!(find_branch_by_commit(&status, "fff").is_none());
}

#[test]
fn project_files_are_made_relative() {
    let files = vec![
        "ch-client/src/a.ts".to_string(),
        "server/main.go".to_string(),
        "ch-client-old/x.ts".to_string(),
        "ch-client/b.tsx".to_string(),
    ];
    assert_eq!(filter_to_project(&files, "ch-client"), vec!["src/a.ts", "b.tsx"]);
    assert_eq!(filter_to_project(&files, "ch-client//"), vec!["src/a.ts", "b.tsx"]);
    assert!(filter_to_project(&files, "web").is_empty());
}
