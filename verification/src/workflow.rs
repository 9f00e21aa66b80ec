//! The decisions of the command's modes: where the project is, which applied
//! branch was asked for, and what a post-commit hook checks.

use vstd::prelude::*;
use crate::files::{
    ask_disk, disk_answered, disk_steady, find_test_file, is_disk_lookup_of, found_at, is_lookup_of, is_sorted_permutation, lemma_push_no_duplicates, lemma_sorted_permutation_keeps_entries,
    opt_view, opt_views,
};
use crate::text::sorted_seqs;
use crate::gitbutler::{
    add_one, branch_changed_files, filter_to_project, find_branch_by_commit, has_commit, is_named, spec_applied,
    spec_branch_paths, spec_filter_to_project, spec_project_prefix, Branch, ButStatus,
};
use crate::pipeline::PipelineConfig;
use crate::paths::{join_path, path_ends_with, spec_join_path, spec_path_ends_with};
use crate::text::{join, lemma_views_push, sort_strings, spec_join, spec_trim, str_eq, trim, views};

verus! {

/// The characters of a result's text.
pub open spec fn result_view(r: Result<String, String>) -> Result<Seq<char>, Seq<char>> {
    match r {
        Ok(s) => Ok(s@),
        Err(e) => Err(e@),
    }
}

/// The project directory: `repo/project` when it exists; else the repository
/// itself when it already ends with the project directory and exists.
pub open spec fn spec_project_dir_choice(
    repo_path: Seq<char>,
    project_dir: Seq<char>,
    joined_exists: bool,
    repo_exists: bool,
) -> Result<Seq<char>, Seq<char>> {
    let joined = spec_join_path(repo_path, project_dir);
    if joined_exists {
        Ok(joined)
    } else if spec_path_ends_with(repo_path, project_dir) && repo_exists {
        Ok(repo_path)
    } else {
        Err("Project directory not found: "@ + joined)
    }
}

/// The project directory, given whether `repo/project` and the repository exist.
pub fn project_dir_choice(repo_path: &str, project_dir: &str, joined_exists: bool, repo_exists: bool) -> (r: Result<String, String>)
    ensures
        result_view(r) == spec_project_dir_choice(repo_path@, project_dir@, joined_exists, repo_exists),
{
    let joined = join_path(repo_path, project_dir);
    if joined_exists {
        Ok(joined)
    } else if path_ends_with(repo_path, project_dir) && repo_exists {
        Ok(String::from_str(repo_path))
    } else {
        Err(String::from_str("Project directory not found: ").concat(joined.as_str()))
    }
}

/// Resolve the project directory, detecting if we're already inside it: when
/// `repo_path` already ends with `project_dir`, it is used directly instead
/// of appending the subdirectory again.
pub fn resolve_project_dir(repo_path: &str, project_dir: &str) -> (r: Result<String, String>)
    ensures
        exists|joined_exists: bool, repo_exists: bool|
            result_view(r) == #[trigger] spec_project_dir_choice(repo_path@, project_dir@, joined_exists, repo_exists),
        exists|joined_exists: bool, repo_exists: bool|
            #[trigger] is_dir_answers(repo_path@, project_dir@, joined_exists, repo_exists)
                && result_view(r) == spec_project_dir_choice(repo_path@, project_dir@, joined_exists, repo_exists),
{
    let joined = join_path(repo_path, project_dir);
    let joined_exists = ask_disk(joined.as_str());
    let ends = path_ends_with(repo_path, project_dir);
    let repo_exists = if joined_exists {
        false
    } else if ends {
        ask_disk(repo_path)
    } else {
        false
    };
    let r = project_dir_choice(repo_path, project_dir, joined_exists, repo_exists);
    assert(result_view(r) == spec_project_dir_choice(repo_path@, project_dir@, joined_exists, repo_exists));
    assert(is_dir_answers(repo_path@, project_dir@, joined_exists, repo_exists));
    r
}

/// The flags are the disk's answers: whether `repo/project` exists, and,
/// when it does not and the repository path ends with the project
/// directory, whether the repository path exists.
pub open spec fn is_dir_answers(repo_path: Seq<char>, project_dir: Seq<char>, joined_exists: bool, repo_exists: bool) -> bool {
    &&& disk_answered(spec_join_path(repo_path, project_dir), joined_exists)
    &&& (!joined_exists && spec_path_ends_with(repo_path, project_dir) ==> disk_answered(repo_path, repo_exists))
}

/// When the disk answers steadily, the project directory is `repo/project`
/// if that exists; otherwise, when the repository path already ends with
/// the project directory and exists, it is the repository path itself (the
/// command runs from inside the project); otherwise the directory is not
/// found.
pub proof fn law_project_dir_found_from_inside(
    repo_path: Seq<char>,
    project_dir: Seq<char>,
    joined_exists: bool,
    repo_exists: bool,
    r: Result<Seq<char>, Seq<char>>,
)
    requires
        is_dir_answers(repo_path, project_dir, joined_exists, repo_exists),
        r == spec_project_dir_choice(repo_path, project_dir, joined_exists, repo_exists),
        disk_steady(spec_join_path(repo_path, project_dir)),
        disk_steady(repo_path),
    ensures
        disk_answered(spec_join_path(repo_path, project_dir), true) ==> r == Ok::<Seq<char>, Seq<char>>(
            spec_join_path(repo_path, project_dir),
        ),
        disk_answered(spec_join_path(repo_path, project_dir), false) && spec_path_ends_with(repo_path, project_dir)
            && disk_answered(repo_path, true) ==> r == Ok::<Seq<char>, Seq<char>>(repo_path),
        disk_answered(spec_join_path(repo_path, project_dir), false) && !(spec_path_ends_with(repo_path, project_dir)
            && disk_answered(repo_path, true)) ==> r is Err,
{
}

/// The names of the branches, in order.
pub open spec fn branch_names(bs: Seq<&Branch>) -> Seq<Seq<char>> {
    bs.map_values(|b: &Branch| b.name@)
}

/// The index of the applied branch with this name or CLI id.
pub fn find_branch_by_name(applied: &[&Branch], name: &str) -> (r: Result<usize, String>)
    ensures
        r matches Ok(i) ==> i < applied@.len() && is_named(*applied@[i as int], name@)
            && forall|j: int| 0 <= j < i ==> !is_named(*#[trigger] applied@[j], name@),
        r is Err <==> forall|i: int| 0 <= i < applied@.len() ==> !is_named(*#[trigger] applied@[i], name@),
        r matches Err(m) ==> m@ == "Branch '"@ + name@ + "' not found. Available: "@ + spec_join(branch_names(applied@), ", "@),
{
    let mut i: usize = 0;
    while i < applied.len()
        invariant
            i <= applied.len(),
            forall|j: int| 0 <= j < i ==> !is_named(*#[trigger] applied@[j], name@),
        decreases applied.len() - i,
    {
        if str_eq(applied[i].name.as_str(), name) || str_eq(applied[i].cli_id.as_str(), name) {
            return Ok(i);
        }
        i += 1;
    }
    let mut names: Vec<String> = Vec::new();
    let mut k: usize = 0;
    while k < applied.len()
        invariant
            k <= applied.len(),
            views(names@) == branch_names(applied@.subrange(0, k as int)),
        decreases applied.len() - k,
    {
        let ghost prev = names@;
        let n = applied[k].name.clone();
        names.push(n);
        proof {
            lemma_views_push(prev, n);
            assert(branch_names(applied@.subrange(0, k + 1)) =~= branch_names(applied@.subrange(0, k as int)).push(applied@[k as int].name@));
        }
        k += 1;
    }
    assert(applied@.subrange(0, applied@.len() as int) == applied@);
    Err(String::from_str("Branch '").concat(name).concat("' not found. Available: ").concat(join(names.as_slice(), ", ").as_str()))
}

/// What a post-commit hook checks.
#[derive(Debug)]
pub enum PostCommitPlan<'a> {
    /// The repository has no commit yet.
    NoCommits,
    /// No applied branch holds the commit with this id.
    CommitNotFound(String),
    /// The branch holding the commit changed nothing under the project directory.
    NoProjectFiles(&'a Branch),
    /// Check these files (relative to the project directory) of this branch.
    Run { branch: &'a Branch, files: Vec<String> },
}

/// `b` is the first applied branch holding the commit `hash`.
pub open spec fn is_first_holder(status: ButStatus, hash: Seq<char>, b: Branch) -> bool {
    exists|i: int| 0 <= i < spec_applied(status.stacks@).len() && b == #[trigger] spec_applied(status.stacks@)[i]
        && has_commit(spec_applied(status.stacks@)[i], hash)
        && forall|j: int| 0 <= j < i ==> !has_commit(#[trigger] spec_applied(status.stacks@)[j], hash)
}

/// `files` are the project's files among the (sorted, distinct) files the
/// branch changed, relative to the project directory.
pub open spec fn is_project_files_of(status: ButStatus, b: Branch, project_dir: Seq<char>, files: Seq<Seq<char>>) -> bool {
    exists|changed: Seq<Seq<char>>|
        is_sorted_permutation(changed, spec_branch_paths(status, b.name@))
            && files == #[trigger] spec_filter_to_project(changed, spec_project_prefix(project_dir))
}

/// Decide what a post-commit hook checks, from the output of
/// `git log --no-merges -1 --format=%H` and the workspace status: the branch
/// that holds the last commit, and its changed files under the project directory.
pub fn post_commit_plan<'a>(git_log_stdout: &str, status: &'a ButStatus, project_dir: &str) -> (r: PostCommitPlan<'a>)
    ensures
        spec_trim(git_log_stdout@).len() == 0 <==> r is NoCommits,
        r matches PostCommitPlan::CommitNotFound(h) ==> h@ == spec_trim(git_log_stdout@)
            && forall|i: int| 0 <= i < spec_applied(status.stacks@).len()
            ==> !has_commit(#[trigger] spec_applied(status.stacks@)[i], spec_trim(git_log_stdout@)),
        r matches PostCommitPlan::NoProjectFiles(b) ==> is_first_holder(*status, spec_trim(git_log_stdout@), *b)
            && is_project_files_of(*status, *b, project_dir@, Seq::empty()),
        r matches PostCommitPlan::Run { branch, files } ==> is_first_holder(*status, spec_trim(git_log_stdout@), *branch)
            && files@.len() > 0 && is_project_files_of(*status, *branch, project_dir@, views(files@)),
        spec_trim(git_log_stdout@).len() > 0 && (forall|i: int| 0 <= i < spec_applied(status.stacks@).len()
            ==> !has_commit(#[trigger] spec_applied(status.stacks@)[i], spec_trim(git_log_stdout@)))
            ==> r is CommitNotFound,
{
    let hash = trim(git_log_stdout);
    if hash.is_empty() {
        return PostCommitPlan::NoCommits;
    }
    let branch = match find_branch_by_commit(status, hash) {
        Some(b) => b,
        None => return PostCommitPlan::CommitNotFound(String::from_str(hash)),
    };
    let changed = branch_changed_files(status, branch.name.as_str());
    let files = filter_to_project(changed.as_slice(), project_dir);
    proof {
        assert(is_project_files_of(*status, *branch, project_dir@, views(files@)));
    }
    if files.len() == 0 {
        assert(views(files@) =~= Seq::<Seq<char>>::empty());
        PostCommitPlan::NoProjectFiles(branch)
    } else {
        PostCommitPlan::Run { branch, files }
    }
}

/// The files named on the command line with the test found for each, each
/// once, in the order first met, given the lookup for each file.
pub open spec fn spec_expand(files: Seq<Seq<char>>, found: Seq<Option<Seq<char>>>) -> Seq<Seq<char>>
    decreases files.len(),
{
    if files.len() == 0 {
        Seq::empty()
    } else {
        let acc = add_one(spec_expand(files.drop_last(), found), files.last());
        match found_at(found, files.len() - 1) {
            Some(t) => add_one(acc, t),
            None => acc,
        }
    }
}

/// `r` is the sorted expansion of the files for some answers of the test
/// lookups under `root`.
pub open spec fn is_expansion(files: Seq<Seq<char>>, root: Seq<char>, r: Seq<Seq<char>>) -> bool {
    exists|found: Seq<Option<Seq<char>>>|
        found.len() == files.len() && (forall|i: int| 0 <= i < files.len() ==> is_lookup_of(#[trigger] files[i], root, found[i]))
            && is_sorted_permutation(r, #[trigger] spec_expand(files, found))
}

fn add_unique(acc: &mut Vec<String>, s: String)
    ensures
        views(final(acc)@) == add_one(views(old(acc)@), s@),
{
    let mut i: usize = 0;
    while i < acc.len()
        invariant
            i <= acc.len(),
            forall|k: int| 0 <= k < i ==> views(acc@)[k] != s@,
        decreases acc.len() - i,
    {
        if str_eq(acc[i].as_str(), s.as_str()) {
            assert(views(acc@)[i as int] == s@);
            return;
        }
        i += 1;
    }
    let ghost prev = acc@;
    acc.push(s);
    proof {
        lemma_views_push(prev, s);
    }
}

/// The files given directly on the command line, each followed by the test
/// looked up for it (`found[i]` for `files[i]`), each once, sorted.
pub fn expand_from_lookups(files: &[String], found: &[Option<String>]) -> (r: Vec<String>)
    ensures
        is_sorted_permutation(views(r@), spec_expand(views(files@), opt_views(found@))),
{
    let ghost fs = views(files@);
    let ghost fv = opt_views(found@);
    let mut acc: Vec<String> = Vec::new();
    let mut i: usize = 0;
    while i < files.len()
        invariant
            i <= files.len(),
            fs == views(files@),
            fv == opt_views(found@),
            views(acc@) == spec_expand(fs.subrange(0, i as int), fv),
        decreases files.len() - i,
    {
        proof {
            assert(fs.subrange(0, i + 1).drop_last() =~= fs.subrange(0, i as int));
            assert(fs.subrange(0, i + 1).last() == files@[i as int]@);
        }
        add_unique(&mut acc, files[i].clone());
        if i < found.len() {
            assert(found_at(fv, i as int) == opt_view(found@[i as int]));
            match &found[i] {
                Some(t) => add_unique(&mut acc, t.clone()),
                None => {},
            }
        }
        i += 1;
    }
    assert(fs.subrange(0, fs.len() as int) == fs);
    sort_strings(&mut acc);
    acc
}

/// The files given directly on the command line, each followed by the test
/// [`find_test_file`] finds for it under `project_root`, each once, sorted.
/// The lookups are handed to [`expand_from_lookups`].
pub fn expand_with_test_files(files: &[String], project_root: &str) -> (r: Vec<String>)
    ensures
        is_expansion(views(files@), project_root@, views(r@)),
        exists|found: Seq<Option<Seq<char>>>|
            found.len() == files@.len() && (forall|i: int| 0 <= i < files@.len() ==> is_disk_lookup_of(#[trigger] views(files@)[i], project_root@, found[i]))
                && is_sorted_permutation(views(r@), #[trigger] spec_expand(views(files@), found)),
{
    let ghost fs = views(files@);
    let mut found: Vec<Option<String>> = Vec::new();
    let mut i: usize = 0;
    while i < files.len()
        invariant
            i <= files.len(),
            fs == views(files@),
            found@.len() == i,
            forall|k: int| 0 <= k < i ==> is_lookup_of(#[trigger] fs[k], project_root@, opt_view(found@[k])),
            forall|k: int| 0 <= k < i ==> is_disk_lookup_of(#[trigger] fs[k], project_root@, opt_view(found@[k])),
        decreases files.len() - i,
    {
        let test = find_test_file(files[i].as_str(), project_root);
        let ghost prev = found@;
        found.push(test);
        assert(forall|k: int| 0 <= k < i ==> found@[k] == prev[k]);
        i += 1;
    }
    let r = expand_from_lookups(files, found.as_slice());
    let ghost fv = opt_views(found@);
    assert(forall|k: int| 0 <= k < fs.len() ==> is_lookup_of(#[trigger] fs[k], project_root@, fv[k]));
    assert(forall|k: int| 0 <= k < fs.len() ==> is_disk_lookup_of(#[trigger] fs[k], project_root@, fv[k]));
    assert(is_sorted_permutation(views(r@), spec_expand(fs, fv)));
    r
}

/// The branch that a run on files given directly is reported under.
pub fn direct_branch() -> (b: Branch)
    ensures
        b.name@ == "direct"@,
        b.cli_id@ == "direct"@,
        b.commits@.len() == 0,
{
    Branch { cli_id: String::from_str("direct"), name: String::from_str("direct"), commits: Vec::new() }
}

/// How a run on files given directly is configured: it never commits and
/// asks for no fixes (no fix attempt is allowed, so a failing stage fails
/// at once); the rest comes from the command line.
pub fn files_mode_config(project_dir: &str, repo_path: &str, but_path: &str, dry_run: bool, verbose: bool) -> (c: PipelineConfig)
    ensures
        c.project_dir@ == project_dir@,
        c.repo_path@ == repo_path@,
        c.but_path@ == but_path@,
        c.max_retries == 0,
        c.no_commit,
        c.dry_run == dry_run,
        c.verbose == verbose,
{
    PipelineConfig {
        project_dir: String::from_str(project_dir),
        repo_path: String::from_str(repo_path),
        max_retries: 0,
        but_path: String::from_str(but_path),
        no_commit: true,
        dry_run,
        verbose,
    }
}

/// What a run on the current git branch checks when GitButler is not
/// active: nothing when no changed file is under the project directory;
/// otherwise those files (relative to it) under a branch named after the
/// current branch, with no commits.
pub fn plain_git_plan(branch_name: &str, files: &[String], project_dir: &str) -> (r: Option<(Branch, Vec<String>)>)
    ensures
        r is None <==> spec_filter_to_project(views(files@), spec_project_prefix(project_dir@)).len() == 0,
        r matches Some((b, f)) ==> b.name@ == branch_name@ && b.cli_id@ == branch_name@ && b.commits@.len() == 0
            && views(f@) == spec_filter_to_project(views(files@), spec_project_prefix(project_dir@)),
{
    let project_files = filter_to_project(files, project_dir);
    if project_files.len() == 0 {
        return None;
    }
    let branch = Branch { cli_id: String::from_str(branch_name), name: String::from_str(branch_name), commits: Vec::new() };
    Some((branch, project_files))
}

/// `acc` with `x` added holds the entries of `acc` and `x`, and keeps
/// having no repeats.
pub proof fn lemma_add_one(acc: Seq<Seq<char>>, x: Seq<char>)
    ensures
        acc.no_duplicates() ==> add_one(acc, x).no_duplicates(),
        forall|y: Seq<char>| #[trigger] add_one(acc, x).contains(y) <==> (acc.contains(y) || y == x),
{
    if acc.no_duplicates() && !acc.contains(x) {
        lemma_push_no_duplicates(acc, x);
    }
    assert forall|y: Seq<char>| #[trigger] add_one(acc, x).contains(y) <==> (acc.contains(y) || y == x) by {
        if !acc.contains(x) {
            let q = acc.push(x);
            if acc.contains(y) {
                let k = choose|k: int| 0 <= k < acc.len() && acc[k] == y;
                assert(q[k] == y);
            }
            if y == x {
                assert(q[acc.len() as int] == y);
            }
            if q.contains(y) {
                let k = choose|k: int| 0 <= k < q.len() && q[k] == y;
                if k < acc.len() {
                    assert(acc[k] == y);
                }
            }
        }
    }
}

/// `x` is the test found for one of the files.
pub open spec fn is_found_for(files: Seq<Seq<char>>, found: Seq<Option<Seq<char>>>, x: Seq<char>) -> bool {
    exists|i: int| 0 <= i < files.len() && #[trigger] found_at(found, i) == Some(x)
}

/// The expansion holds each entry once: exactly the files and the tests
/// found for them.
pub proof fn lemma_expand_members(files: Seq<Seq<char>>, found: Seq<Option<Seq<char>>>)
    ensures
        spec_expand(files, found).no_duplicates(),
        forall|x: Seq<char>| #[trigger] spec_expand(files, found).contains(x) <==> (files.contains(x) || is_found_for(files, found, x)),
    decreases files.len(),
{
    if files.len() > 0 {
        let pre = files.drop_last();
        let n = files.len() - 1;
        lemma_expand_members(pre, found);
        let acc0 = spec_expand(pre, found);
        let acc = add_one(acc0, files.last());
        lemma_add_one(acc0, files.last());
        if let Some(t) = found_at(found, n) {
            lemma_add_one(acc, t);
        }
        assert forall|x: Seq<char>| #[trigger] spec_expand(files, found).contains(x) <==> (files.contains(x) || is_found_for(files, found, x)) by {
            if pre.contains(x) {
                let k = choose|k: int| 0 <= k < pre.len() && pre[k] == x;
                assert(files[k] == x);
            }
            if files.contains(x) {
                let k = choose|k: int| 0 <= k < files.len() && files[k] == x;
                if k < n {
                    assert(pre[k] == x);
                }
            }
            if is_found_for(pre, found, x) {
                let i = choose|i: int| 0 <= i < pre.len() && #[trigger] found_at(found, i) == Some(x);
                assert(is_found_for(files, found, x));
            }
            if is_found_for(files, found, x) {
                let i = choose|i: int| 0 <= i < files.len() && #[trigger] found_at(found, i) == Some(x);
                if i < n {
                    assert(is_found_for(pre, found, x));
                }
            }
        }
    }
}

/// The list `expand_with_test_files` returns is strictly ascending, and, for
/// the answers its lookups under `root` got, holds exactly the given files and
/// the tests found for them.
pub proof fn law_expand_with_test_files_members(files: Seq<Seq<char>>, root: Seq<char>, r: Seq<Seq<char>>)
    requires
        is_expansion(files, root, r),
    ensures
        r.no_duplicates(),
        sorted_seqs(r),
        exists|found: Seq<Option<Seq<char>>>|
            found.len() == files.len()
                && (forall|i: int| 0 <= i < files.len() ==> is_lookup_of(#[trigger] files[i], root, found[i]))
                && forall|x: Seq<char>| #[trigger] r.contains(x) <==> (files.contains(x) || is_found_for(files, found, x)),
{
    let found = choose|found: Seq<Option<Seq<char>>>|
        found.len() == files.len() && (forall|i: int| 0 <= i < files.len() ==> is_lookup_of(#[trigger] files[i], root, found[i]))
            && is_sorted_permutation(r, #[trigger] spec_expand(files, found));
    lemma_expand_members(files, found);
    lemma_sorted_permutation_keeps_entries(r, spec_expand(files, found));
}

} // verus!
