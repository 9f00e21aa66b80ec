use tschecker::fixer::fix_prompt;
use tschecker::gitbutler::{Branch, ButStatus, Commit, FileChange, Stack};
use tschecker::ui::{branch_menu, char_to_index, index_to_char, key_fits, preselect, selection_from_key};
use tschecker::update::{is_newer, manifest_version};
use tschecker::workflow::{
    direct_branch, expand_from_lookups, plain_git_plan, expand_with_test_files, files_mode_config, find_branch_by_name, post_commit_plan, project_dir_choice, resolve_project_dir, PostCommitPlan,
};

fn branch(cli_id: &str, name: &str) -> Branch {
    Branch { cli_id: cli_id.to_string(), name: name.to_string(), commits: vec![] }
}

#[test]
fn fix_prompt_lists_files_and_errors() {
    let files = vec!["src/a.ts".to_string(), "src/b.ts".to_string()];
    assert_eq!(
        fix_prompt(&files, "a.ts:1 bad", "eslint"),
        "Fix these eslint errors in the following files: src/a.ts, src/b.ts\n\nErrors:\na.ts:1 bad"
    );
}

#[test]
fn keys_of_branches() {
    assert_eq!(index_to_char(0), '0');
    assert_eq!(index_to_char(9), '9');
    assert_eq!(index_to_char(10), 'a');
    assert_eq!(index_to_char(35), 'z');
    assert_eq!(char_to_index('7'), Some(7));
    assert_eq!(char_to_index('c'), Some(12));
    assert_eq!(char_to_index('C'), None);
    assert_eq!(char_to_index('!'), None);
    for i in 0..36usize {
        assert!(key_fits(i));
        assert_eq!(char_to_index(index_to_char(i)), Some(i));
    }
    assert!(key_fits(168));
    assert!(!key_fits(169));
    assert!(key_fits(266));
}

#[test]
fn selecting_with_a_key() {
    assert_eq!(preselect(0), Err("No applied branches found".to_string()));
    assert_eq!(preselect(1), Ok(Some(0)));
    assert_eq!(preselect(4), Ok(None));
    assert_eq!(selection_from_key('1', 3), Ok(1));
    assert_eq!(selection_from_key('q', 3), Err("Cancelled by user".to_string()));
    assert_eq!(selection_from_key('Q', 3), Err("Cancelled by user".to_string()));
    assert_eq!(selection_from_key('q', 27), Ok(26));
    assert_eq!(selection_from_key('Q', 27), Err("Cancelled by user".to_string()));
    assert_eq!(selection_from_key('q', 26), Err("Cancelled by user".to_string()));
    assert_eq!(selection_from_key('x', 3), Err("Selection 'x' out of range (max 2)".to_string()));
    assert_eq!(selection_from_key('!', 3), Err("Invalid selection: '!'".to_string()));
    let a = branch("ar", "alpha");
    let b = branch("br", "beta");
    assert_eq!(branch_menu(&[&a, &b]), vec!["  0 > alpha (ar)", "  1 > beta (br)"]);
}

#[test]
fn newer_versions() {
    assert!(is_newer("1.2.0", "1.1.9"));
    assert!(is_newer("1.10.0", "1.9.0"));
    assert!(is_newer("1.2.0", "1.2"));
    assert!(!is_newer("1.2", "1.2.0"));
    assert!(!is_newer("0.1.0", "0.1.0"));
    assert!(is_newer("1.x.3", "1.2"));
    assert!(!is_newer("", "0"));
    assert!(is_newer("1.0.1-beta", "1.0.0"));
    assert!(!is_newer("1.0.0", "1.0.1-beta"));
    assert!(is_newer("1.0.0", "1.0.0-rc.1"));
    assert!(!is_newer("1.0.0-rc.1", "1.0.0"));
    assert!(is_newer("1.0.0-alpha.1", "1.0.0-alpha"));
    assert!(is_newer("1.0.0-alpha.beta", "1.0.0-alpha.1"));
    assert!(is_newer("1.0.0-beta.11", "1.0.0-beta.2"));
    assert!(is_newer("1.0.0-rc.1", "1.0.0-beta.11"));
    assert!(!is_newer("1.0.0+build.5", "1.0.0"));
    assert!(!is_newer("1.0.0", "1.0.0+build.5"));
    assert!(is_newer("1.0.0-x-y", "1.0.0-x"));
}

#[test]
fn version_from_manifest() {
    let manifest = "[package]\nname = \"tschecker\"\n  version = \"0.3.1\"\nedition = \"2021\"\n";
    assert_eq!(manifest_version(manifest), Some("0.3.1".to_string()));
    assert_eq!(manifest_version("version.workspace = true\n"), Some("true".to_string()));
    assert_eq!(manifest_version("versions\nversion = '1'"), Some("'1'".to_string()));
    assert_eq!(manifest_version("[package]\nname = \"x\""), None);
}

#[test]
fn project_directory_resolution() {
    assert_eq!(project_dir_choice("/repo", "ch-client", true, false), Ok("/repo/ch-client".to_string()));
    assert_eq!(project_dir_choice("/repo/ch-client", "ch-client", false, true), Ok("/repo/ch-client".to_string()));
    assert_eq!(
        project_dir_choice("/repo/other", "ch-client", false, true),
        Err("Project directory not found: /repo/other/ch-client".to_string())
    );
    assert_eq!(
        resolve_project_dir("/nonexistent-tschecker-root", "ch-client"),
        Err("Project directory not found: /nonexistent-tschecker-root/ch-client".to_string())
    );
}

#[test]
fn branch_by_name_or_id() {
    let a = branch("ar", "alpha");
    let b = branch("br", "beta");
    let applied = vec![&a, &b];
    assert_eq!(find_branch_by_name(&applied, "beta"), Ok(1));
    assert_eq!(find_branch_by_name(&applied, "ar"), Ok(0));
    assert_eq!(
        find_branch_by_name(&applied, "gamma"),
        Err("Branch 'gamma' not found. Available: alpha, beta".to_string())
    );
}

#[test]
fn post_commit_plans() {
    let status = ButStatus {
        stacks: vec![Stack {
            cli_id: "s".to_string(),
            assigned_changes: vec![],
            branches: vec![Branch {
                cli_id: "ar".to_string(),
                name: "alpha".to_string(),
                commits: vec![Commit {
                    cli_id: "c1".to_string(),
                    commit_id: Some("abc123".to_string()),
                    message: None,
                    changes: Some(vec![
                        FileChange { cli_id: None, file_path: "ch-client/src/z.ts".to_string(), change_type: None },
                        FileChange { cli_id: None, file_path: "docs/x.md".to_string(), change_type: None },
                    ]),
                }],
            }],
        }],
        unassigned_changes: vec![],
    };
    assert!(matches!(post_commit_plan("\n", &status, "ch-client"), PostCommitPlan::NoCommits));
    match post_commit_plan("fff\n", &status, "ch-client") {
        PostCommitPlan::CommitNotFound(h) => assert_eq!(h, "fff"),
        other => panic!("unexpected {:?}", other),
    }
    match post_commit_plan("abc123\n", &status, "ch-client") {
        PostCommitPlan::Run { branch, files } => {
            assert_eq!(branch.name, "alpha");
            assert_eq!(files, vec!["src/z.ts"]);
        }
        other => panic!("unexpected {:?}", other),
    }
    assert!(matches!(post_commit_plan("abc123", &status, "web"), PostCommitPlan::NoProjectFiles(_)));
}

#[test]
fn files_given_directly_are_expanded_once_and_sorted() {
    let files = vec!["b.ts".to_string(), "a.ts".to_string(), "b.ts".to_string()];
    assert_eq!(expand_with_test_files(&files, "/nonexistent-tschecker-root"), vec!["a.ts", "b.ts"]);
}

#[test]
fn files_are_expanded_with_their_looked_up_tests() {
    let files = vec!["src/b.ts".to_string(), "src/a.ts".to_string(), "src/b.ts".to_string()];
    let found = vec![Some("src/b.test.ts".to_string()), None, Some("src/b.test.ts".to_string())];
    assert_eq!(expand_from_lookups(&files, &found), vec!["src/a.ts", "src/b.test.ts", "src/b.ts"]);
}

#[test]
fn files_mode_runs_as_direct_without_commit_or_fixes() {
    let b = direct_branch();
    assert_eq!((b.name.as_str(), b.cli_id.as_str(), b.commits.len()), ("direct", "direct", 0));
    let c = files_mode_config("/repo/ch-client", "/repo", "but", false, true);
    assert!(c.no_commit);
    assert_eq!(c.max_retries, 0);
    assert_eq!(c.project_dir, "/repo/ch-client");
    assert_eq!(c.repo_path, "/repo");
    assert!(c.verbose && !c.dry_run);
}

#[test]
fn plain_git_runs_only_on_project_files() {
    let files = vec!["ch-client/src/a.ts".to_string(), "server/main.go".to_string()];
    match plain_git_plan("feature-x", &files, "ch-client") {
        Some((b, f)) => {
            assert_eq!((b.name.as_str(), b.cli_id.as_str(), b.commits.len()), ("feature-x", "feature-x", 0));
            assert_eq!(f, vec!["src/a.ts"]);
        }
        None => panic!("project files were changed"),
    }
    assert!(plain_git_plan("feature-x", &files, "web").is_none());
}
