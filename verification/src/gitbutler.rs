//! GitButler's workspace status (what `but status --json` reports) and the
//! questions asked of it: which branches are applied, which files a branch
//! changed, which branch holds a commit.

use vstd::prelude::*;
use crate::files::{is_sorted_permutation, lemma_push_no_duplicates, lemma_sorted_permutation_keeps_entries, opt_view};
use crate::text::{lemma_views_push, sort_strings, str_eq, strip_prefix, trim_end_char, trim_end_matches_char, views};

verus! {

/// The whole workspace: its stacks of branches, and changes assigned to none.
#[derive(Debug)]
pub struct ButStatus {
    pub stacks: Vec<Stack>,
    pub unassigned_changes: Vec<FileChange>,
}

/// A stack of applied branches, with the uncommitted changes assigned to it.
#[derive(Debug)]
pub struct Stack {
    pub cli_id: String,
    pub assigned_changes: Vec<FileChange>,
    pub branches: Vec<Branch>,
}

/// An applied branch, known by its name and by its short CLI id.
#[derive(Debug)]
pub struct Branch {
    pub cli_id: String,
    pub name: String,
    pub commits: Vec<Commit>,
}

/// A commit of a branch, with the files it changed.
#[derive(Debug)]
pub struct Commit {
    pub cli_id: String,
    pub commit_id: Option<String>,
    pub message: Option<String>,
    pub changes: Option<Vec<FileChange>>,
}

/// One changed file.
#[derive(Debug)]
pub struct FileChange {
    pub cli_id: Option<String>,
    pub file_path: String,
    pub change_type: Option<String>,
}

// ---------------------------------------------------------------------------
// Applied branches
// ---------------------------------------------------------------------------

/// The branches of all stacks, stack by stack.
pub open spec fn spec_applied(stacks: Seq<Stack>) -> Seq<Branch>
    decreases stacks.len(),
{
    if stacks.len() == 0 {
        Seq::empty()
    } else {
        spec_applied(stacks.drop_last()) + stacks.last().branches@
    }
}

/// The branches that references point to.
pub open spec fn derefs(v: Seq<&Branch>) -> Seq<Branch> {
    v.map_values(|b: &Branch| *b)
}

/// Get all applied branches from all stacks.
pub fn applied_branches(status: &ButStatus) -> (r: Vec<&Branch>)
    ensures
        derefs(r@) == spec_applied(status.stacks@),
{
    let mut out: Vec<&Branch> = Vec::new();
    let mut i: usize = 0;
    while i < status.stacks.len()
        invariant
            i <= status.stacks.len(),
            derefs(out@) == spec_applied(status.stacks@.subrange(0, i as int)),
        decreases status.stacks.len() - i,
    {
        let stack = &status.stacks[i];
        let ghost before = derefs(out@);
        let mut j: usize = 0;
        while j < stack.branches.len()
            invariant
                j <= stack.branches.len(),
                derefs(out@) == before + stack.branches@.subrange(0, j as int),
            decreases stack.branches.len() - j,
        {
            let ghost prev = out@;
            out.push(&stack.branches[j]);
            assert(out@ == prev.push(&stack.branches@[j as int]));
            assert(derefs(out@) =~= derefs(prev).push(stack.branches@[j as int]));
            assert(stack.branches@.subrange(0, j + 1) =~= stack.branches@.subrange(0, j as int).push(stack.branches@[j as int]));
            assert(derefs(out@) =~= before + stack.branches@.subrange(0, j + 1));
            j += 1;
        }
        proof {
            assert(stack.branches@.subrange(0, stack.branches@.len() as int) == stack.branches@);
            assert(status.stacks@.subrange(0, i + 1).drop_last() =~= status.stacks@.subrange(0, i as int));
        }
        i += 1;
    }
    assert(status.stacks@.subrange(0, status.stacks@.len() as int) == status.stacks@);
    out
}

// ---------------------------------------------------------------------------
// Files changed by a branch
// ---------------------------------------------------------------------------

/// The branch is the one named, by name or by CLI id.
pub open spec fn is_named(b: Branch, name: Seq<char>) -> bool {
    b.name@ == name || b.cli_id@ == name
}

/// A change that does not delete its file.
pub open spec fn is_kept(c: FileChange) -> bool {
    opt_view(c.change_type) != Some("removed"@)
}

/// The paths of the changes that keep their file, in order, repeats included.
pub open spec fn kept_paths(changes: Seq<FileChange>) -> Seq<Seq<char>>
    decreases changes.len(),
{
    if changes.len() == 0 {
        Seq::empty()
    } else {
        kept_paths(changes.drop_last()) + if is_kept(changes.last()) {
            seq![changes.last().file_path@]
        } else {
            Seq::empty()
        }
    }
}

/// The kept paths of all commits, in order.
pub open spec fn commits_paths(commits: Seq<Commit>) -> Seq<Seq<char>>
    decreases commits.len(),
{
    if commits.len() == 0 {
        Seq::empty()
    } else {
        commits_paths(commits.drop_last()) + match commits.last().changes {
            Some(ch) => kept_paths(ch@),
            None => Seq::empty(),
        }
    }
}

/// The kept paths of the commits of the named branches among `branches`.
pub open spec fn branches_paths(branches: Seq<Branch>, name: Seq<char>) -> Seq<Seq<char>>
    decreases branches.len(),
{
    if branches.len() == 0 {
        Seq::empty()
    } else {
        branches_paths(branches.drop_last(), name) + if is_named(branches.last(), name) {
            commits_paths(branches.last().commits@)
        } else {
            Seq::empty()
        }
    }
}

/// A stack that holds the named branch contributes that branch's committed
/// paths and the stack's kept uncommitted changes; other stacks nothing.
pub open spec fn stack_paths(stack: Stack, name: Seq<char>) -> Seq<Seq<char>> {
    if exists|k: int| 0 <= k < stack.branches@.len() && is_named(#[trigger] stack.branches@[k], name) {
        branches_paths(stack.branches@, name) + kept_paths(stack.assigned_changes@)
    } else {
        Seq::empty()
    }
}

/// The paths contributed by all stacks, in order, repeats included.
pub open spec fn stacks_paths(stacks: Seq<Stack>, name: Seq<char>) -> Seq<Seq<char>>
    decreases stacks.len(),
{
    if stacks.len() == 0 {
        Seq::empty()
    } else {
        stacks_paths(stacks.drop_last(), name) + stack_paths(stacks.last(), name)
    }
}

/// `acc` with `x` added unless it is already there.
pub open spec fn add_one(acc: Seq<Seq<char>>, x: Seq<char>) -> Seq<Seq<char>> {
    if acc.contains(x) {
        acc
    } else {
        acc.push(x)
    }
}

/// `acc` with each of `xs` added in turn unless already there.
pub open spec fn add_all(acc: Seq<Seq<char>>, xs: Seq<Seq<char>>) -> Seq<Seq<char>>
    decreases xs.len(),
{
    if xs.len() == 0 {
        acc
    } else {
        add_one(add_all(acc, xs.drop_last()), xs.last())
    }
}

/// Adding two runs of paths one after the other adds their concatenation.
pub proof fn lemma_add_all_concat(acc: Seq<Seq<char>>, xs: Seq<Seq<char>>, ys: Seq<Seq<char>>)
    ensures
        add_all(acc, xs + ys) == add_all(add_all(acc, xs), ys),
    decreases ys.len(),
{
    if ys.len() == 0 {
        assert(xs + ys =~= xs);
    } else {
        lemma_add_all_concat(acc, xs, ys.drop_last());
        assert((xs + ys).drop_last() =~= xs + ys.drop_last());
    }
}

/// The distinct paths a branch changed, first occurrences in order.
pub open spec fn spec_branch_paths(status: ButStatus, branch_name: Seq<char>) -> Seq<Seq<char>> {
    add_all(Seq::empty(), stacks_paths(status.stacks@, branch_name))
}

fn add_path(acc: &mut Vec<String>, path: &String)
    ensures
        views(final(acc)@) == add_one(views(old(acc)@), path@),
{
    let mut i: usize = 0;
    while i < acc.len()
        invariant
            i <= acc.len(),
            forall|k: int| 0 <= k < i ==> views(acc@)[k] != path@,
        decreases acc.len() - i,
    {
        if str_eq(acc[i].as_str(), path.as_str()) {
            assert(views(acc@)[i as int] == path@);
            return;
        }
        i += 1;
    }
    let ghost prev = acc@;
    let p = path.clone();
    acc.push(p);
    proof {
        lemma_views_push(prev, p);
    }
}

fn add_kept_paths(acc: &mut Vec<String>, changes: &Vec<FileChange>)
    ensures
        views(final(acc)@) == add_all(views(old(acc)@), kept_paths(changes@)),
{
    let ghost start = views(acc@);
    let mut i: usize = 0;
    while i < changes.len()
        invariant
            i <= changes.len(),
            views(acc@) == add_all(start, kept_paths(changes@.subrange(0, i as int))),
        decreases changes.len() - i,
    {
        let change = &changes[i];
        let ghost sub = changes@.subrange(0, i as int);
        proof {
            assert(changes@.subrange(0, i + 1).drop_last() =~= sub);
            assert(changes@.subrange(0, i + 1).last() == *change);
        }
        let removed = match &change.change_type {
            Some(t) => str_eq(t.as_str(), "removed"),
            None => false,
        };
        assert(removed == !is_kept(*change));
        if !removed {
            add_path(acc, &change.file_path);
            proof {
                let one = seq![change.file_path@];
                lemma_add_all_concat(start, kept_paths(sub), one);
                assert(one.drop_last() =~= Seq::<Seq<char>>::empty());
                assert(add_all(add_all(start, kept_paths(sub)), one.drop_last()) == add_all(start, kept_paths(sub)));
                assert(one.last() == change.file_path@);
                assert(add_all(add_all(start, kept_paths(sub)), one) == add_one(add_all(start, kept_paths(sub)), change.file_path@));
                assert(kept_paths(changes@.subrange(0, i + 1)) == kept_paths(sub) + one);
            }
        } else {
            assert(kept_paths(sub) + Seq::<Seq<char>>::empty() =~= kept_paths(sub));
            assert(kept_paths(changes@.subrange(0, i + 1)) == kept_paths(sub));
        }
        i += 1;
    }
    assert(changes@.subrange(0, changes@.len() as int) == changes@);
}

fn add_commit_paths(acc: &mut Vec<String>, commits: &Vec<Commit>)
    ensures
        views(final(acc)@) == add_all(views(old(acc)@), commits_paths(commits@)),
{
    let ghost start = views(acc@);
    let mut i: usize = 0;
    while i < commits.len()
        invariant
            i <= commits.len(),
            views(acc@) == add_all(start, commits_paths(commits@.subrange(0, i as int))),
        decreases commits.len() - i,
    {
        let ghost sub = commits@.subrange(0, i as int);
        proof {
            assert(commits@.subrange(0, i + 1).drop_last() =~= sub);
            assert(commits@.subrange(0, i + 1).last() == commits@[i as int]);
        }
        match &commits[i].changes {
            Some(ch) => {
                add_kept_paths(acc, ch);
                proof {
                    lemma_add_all_concat(start, commits_paths(sub), kept_paths(ch@));
                }
            },
            None => {
                assert(commits_paths(sub) + Seq::<Seq<char>>::empty() =~= commits_paths(sub));
            },
        }
        i += 1;
    }
    assert(commits@.subrange(0, commits@.len() as int) == commits@);
}

fn is_named_branch(b: &Branch, name: &str) -> (r: bool)
    ensures
        r == is_named(*b, name@),
{
    str_eq(b.name.as_str(), name) || str_eq(b.cli_id.as_str(), name)
}

fn stack_has_named(stack: &Stack, branch_name: &str) -> (r: bool)
    ensures
        r == exists|k: int| 0 <= k < stack.branches@.len() && is_named(#[trigger] stack.branches@[k], branch_name@),
{
    let mut k: usize = 0;
    while k < stack.branches.len()
        invariant
            k <= stack.branches.len(),
            forall|j: int| 0 <= j < k ==> !is_named(#[trigger] stack.branches@[j], branch_name@),
        decreases stack.branches.len() - k,
    {
        if is_named_branch(&stack.branches[k], branch_name) {
            return true;
        }
        k += 1;
    }
    false
}

fn add_stack_paths(acc: &mut Vec<String>, stack: &Stack, branch_name: &str)
    ensures
        views(final(acc)@) == add_all(views(old(acc)@), stack_paths(*stack, branch_name@)),
{
    let ghost start = views(acc@);
    let in_stack = stack_has_named(stack, branch_name);
    if !in_stack {
        assert(add_all(start, Seq::<Seq<char>>::empty()) == start);
        return;
    }
    let mut i: usize = 0;
    while i < stack.branches.len()
        invariant
            i <= stack.branches.len(),
            views(acc@) == add_all(start, branches_paths(stack.branches@.subrange(0, i as int), branch_name@)),
        decreases stack.branches.len() - i,
    {
        let branch = &stack.branches[i];
        let ghost sub = stack.branches@.subrange(0, i as int);
        proof {
            assert(stack.branches@.subrange(0, i + 1).drop_last() =~= sub);
            assert(stack.branches@.subrange(0, i + 1).last() == *branch);
        }
        if is_named_branch(branch, branch_name) {
            add_commit_paths(acc, &branch.commits);
            proof {
                lemma_add_all_concat(start, branches_paths(sub, branch_name@), commits_paths(branch.commits@));
            }
        } else {
            assert(branches_paths(sub, branch_name@) + Seq::<Seq<char>>::empty() =~= branches_paths(sub, branch_name@));
        }
        i += 1;
    }
    assert(stack.branches@.subrange(0, stack.branches@.len() as int) == stack.branches@);
    add_kept_paths(acc, &stack.assigned_changes);
    proof {
        lemma_add_all_concat(start, branches_paths(stack.branches@, branch_name@), kept_paths(stack.assigned_changes@));
    }
}

/// Collect all unique file paths changed in a branch (across all commits and
/// the uncommitted changes assigned to its stack), deleted files left out,
/// sorted.
pub fn branch_changed_files(status: &ButStatus, branch_name: &str) -> (r: Vec<String>)
    ensures
        is_sorted_permutation(views(r@), spec_branch_paths(*status, branch_name@)),
{
    let mut acc: Vec<String> = Vec::new();
    let mut i: usize = 0;
    while i < status.stacks.len()
        invariant
            i <= status.stacks.len(),
            views(acc@) == add_all(Seq::empty(), stacks_paths(status.stacks@.subrange(0, i as int), branch_name@)),
        decreases status.stacks.len() - i,
    {
        let ghost sub = status.stacks@.subrange(0, i as int);
        proof {
            assert(status.stacks@.subrange(0, i + 1).drop_last() =~= sub);
            assert(status.stacks@.subrange(0, i + 1).last() == status.stacks@[i as int]);
        }
        add_stack_paths(&mut acc, &status.stacks[i], branch_name);
        proof {
            lemma_add_all_concat(Seq::empty(), stacks_paths(sub, branch_name@), stack_paths(status.stacks@[i as int], branch_name@));
        }
        i += 1;
    }
    assert(status.stacks@.subrange(0, status.stacks@.len() as int) == status.stacks@);
    sort_strings(&mut acc);
    acc
}

// ---------------------------------------------------------------------------
// The branch of a commit
// ---------------------------------------------------------------------------

/// One of the branch's commits has the given id.
pub open spec fn has_commit(b: Branch, hash: Seq<char>) -> bool {
    exists|k: int| 0 <= k < b.commits@.len() && opt_view(#[trigger] b.commits@[k].commit_id) == Some(hash)
}

fn branch_has_commit(b: &Branch, hash: &str) -> (r: bool)
    ensures
        r == has_commit(*b, hash@),
{
    let mut k: usize = 0;
    while k < b.commits.len()
        invariant
            k <= b.commits.len(),
            forall|j: int| 0 <= j < k ==> opt_view(#[trigger] b.commits@[j].commit_id) != Some(hash@),
        decreases b.commits.len() - k,
    {
        match &b.commits[k].commit_id {
            Some(id) => {
                if str_eq(id.as_str(), hash) {
                    return true;
                }
            },
            None => {},
        }
        k += 1;
    }
    false
}

/// Find which branch contains a specific commit: the first applied branch,
/// stack by stack, with a commit of that id.
pub fn find_branch_by_commit<'a>(status: &'a ButStatus, commit_hash: &str) -> (r: Option<&'a Branch>)
    ensures
        r is None <==> forall|i: int| 0 <= i < spec_applied(status.stacks@).len()
            ==> !has_commit(#[trigger] spec_applied(status.stacks@)[i], commit_hash@),
        r is Some ==> exists|i: int| 0 <= i < spec_applied(status.stacks@).len()
            && *r->0 == #[trigger] spec_applied(status.stacks@)[i]
            && has_commit(spec_applied(status.stacks@)[i], commit_hash@)
            && forall|j: int| 0 <= j < i ==> !has_commit(#[trigger] spec_applied(status.stacks@)[j], commit_hash@),
{
    let applied = applied_branches(status);
    let ghost bs = spec_applied(status.stacks@);
    let mut i: usize = 0;
    while i < applied.len()
        invariant
            i <= applied.len(),
            derefs(applied@) == bs,
            bs == spec_applied(status.stacks@),
            forall|j: int| 0 <= j < i ==> !has_commit(#[trigger] bs[j], commit_hash@),
        decreases applied.len() - i,
    {
        assert(bs[i as int] == *applied@[i as int]);
        if branch_has_commit(applied[i], commit_hash) {
            return Some(applied[i]);
        }
        i += 1;
    }
    None
}

// ---------------------------------------------------------------------------
// The project subdirectory
// ---------------------------------------------------------------------------

/// The prefix that files of the project directory start with: the directory
/// without trailing slashes, then one slash.
pub open spec fn spec_project_prefix(project_dir: Seq<char>) -> Seq<char> {
    trim_end_char(project_dir, '/') + "/"@
}

/// The files under the project directory, made relative to it, in order.
pub open spec fn spec_filter_to_project(files: Seq<Seq<char>>, prefix: Seq<char>) -> Seq<Seq<char>>
    decreases files.len(),
{
    if files.len() == 0 {
        Seq::empty()
    } else {
        let p = spec_filter_to_project(files.drop_last(), prefix);
        let f = files.last();
        if prefix.is_prefix_of(f) {
            p.push(f.subrange(prefix.len() as int, f.len() as int))
        } else {
            p
        }
    }
}

/// Filter file paths to a project subdirectory and make them relative to it.
pub fn filter_to_project(files: &[String], project_dir: &str) -> (r: Vec<String>)
    ensures
        views(r@) == spec_filter_to_project(views(files@), spec_project_prefix(project_dir@)),
{
    let prefix = String::from_str(trim_end_matches_char(project_dir, '/')).concat("/");
    let ghost fs = views(files@);
    let mut out: Vec<String> = Vec::new();
    let mut i: usize = 0;
    while i < files.len()
        invariant
            i <= files.len(),
            fs == views(files@),
            prefix@ == spec_project_prefix(project_dir@),
            views(out@) == spec_filter_to_project(fs.subrange(0, i as int), prefix@),
        decreases files.len() - i,
    {
        proof {
            assert(fs.subrange(0, i + 1).drop_last() =~= fs.subrange(0, i as int));
            assert(fs.subrange(0, i + 1).last() == files@[i as int]@);
        }
        match strip_prefix(files[i].as_str(), prefix.as_str()) {
            Some(rest) => {
                let ghost prev = out@;
                out.push(rest);
                proof {
                    lemma_views_push(prev, rest);
                }
            },
            None => {},
        }
        i += 1;
    }
    assert(fs.subrange(0, fs.len() as int) == fs);
    out
}

// ---------------------------------------------------------------------------
// Laws
// ---------------------------------------------------------------------------

/// Adding paths one at a time keeps them distinct and loses none.
pub proof fn lemma_add_all_distinct(acc: Seq<Seq<char>>, xs: Seq<Seq<char>>)
    requires
        acc.no_duplicates(),
    ensures
        add_all(acc, xs).no_duplicates(),
        forall|x: Seq<char>| #[trigger] add_all(acc, xs).contains(x) <==> acc.contains(x) || xs.contains(x),
    decreases xs.len(),
{
    if xs.len() > 0 {
        lemma_add_all_distinct(acc, xs.drop_last());
        let p = add_all(acc, xs.drop_last());
        if !p.contains(xs.last()) {
            lemma_push_no_duplicates(p, xs.last());
        }
        assert forall|x: Seq<char>| #[trigger] add_all(acc, xs).contains(x) <==> acc.contains(x) || xs.contains(x) by {
            if xs.contains(x) && !xs.drop_last().contains(x) {
                let k = choose|k: int| 0 <= k < xs.len() && xs[k] == x;
                if k < xs.len() - 1 {
                    assert(xs.drop_last()[k] == x);
                }
            }
            if xs.drop_last().contains(x) {
                let k = choose|k: int| 0 <= k < xs.drop_last().len() && xs.drop_last()[k] == x;
                assert(xs[k] == x);
            }
            if !p.contains(xs.last()) {
                let q = p.push(xs.last());
                if p.contains(x) {
                    let k = choose|k: int| 0 <= k < p.len() && p[k] == x;
                    assert(q[k] == x);
                }
                if x == xs.last() {
                    assert(q[p.len() as int] == x);
                }
                if q.contains(x) {
                    let k = choose|k: int| 0 <= k < q.len() && q[k] == x;
                    if k < p.len() {
                        assert(p[k] == x);
                    }
                }
            }
        }
    }
}

/// The files of a branch are listed once each, and they are exactly the
/// files that its commits and its stack's uncommitted changes touch without
/// deleting them.
pub proof fn law_branch_files_distinct_and_complete(status: ButStatus, branch_name: Seq<char>)
    ensures
        spec_branch_paths(status, branch_name).no_duplicates(),
        forall|x: Seq<char>| #[trigger] spec_branch_paths(status, branch_name).contains(x)
            <==> stacks_paths(status.stacks@, branch_name).contains(x),
{
    lemma_add_all_distinct(Seq::empty(), stacks_paths(status.stacks@, branch_name));
}

/// The sorted list `branch_changed_files` returns holds each file once, and
/// exactly the files the branch's commits and its stack's uncommitted
/// changes touch without deleting them.
pub proof fn law_branch_changed_files_result(status: ButStatus, branch_name: Seq<char>, r: Seq<Seq<char>>)
    requires
        is_sorted_permutation(r, spec_branch_paths(status, branch_name)),
    ensures
        r.no_duplicates(),
        forall|x: Seq<char>| #[trigger] r.contains(x) <==> stacks_paths(status.stacks@, branch_name).contains(x),
{
    law_branch_files_distinct_and_complete(status, branch_name);
    lemma_sorted_permutation_keeps_entries(r, spec_branch_paths(status, branch_name));
}

/// Each file kept by the project filter is a changed file with the project
/// prefix taken off.
pub proof fn law_project_files_are_relative(files: Seq<Seq<char>>, prefix: Seq<char>, x: Seq<char>)
    requires
        spec_filter_to_project(files, prefix).contains(x),
    ensures
        files.contains(prefix + x),
    decreases files.len(),
{
    let p = spec_filter_to_project(files.drop_last(), prefix);
    let f = files.last();
    if p.contains(x) {
        law_project_files_are_relative(files.drop_last(), prefix, x);
        let k = choose|k: int| 0 <= k < files.drop_last().len() && files.drop_last()[k] == prefix + x;
        assert(files[k] == prefix + x);
    } else {
        assert(prefix.is_prefix_of(f) && x == f.subrange(prefix.len() as int, f.len() as int));
        assert(prefix + x =~= f);
        assert(files[files.len() - 1] == f);
    }
}

/// An entry of two runs joined is an entry of one of them.
pub proof fn lemma_concat_contains(a: Seq<Seq<char>>, b: Seq<Seq<char>>, x: Seq<char>)
    ensures
        (a + b).contains(x) <==> (a.contains(x) || b.contains(x)),
{
    if a.contains(x) {
        let k = choose|k: int| 0 <= k < a.len() && a[k] == x;
        assert((a + b)[k] == x);
    }
    if b.contains(x) {
        let k = choose|k: int| 0 <= k < b.len() && b[k] == x;
        assert((a + b)[a.len() + k] == x);
    }
    if (a + b).contains(x) {
        let k = choose|k: int| 0 <= k < (a + b).len() && (a + b)[k] == x;
        if k < a.len() {
            assert(a[k] == x);
        } else {
            assert(b[k - a.len()] == x);
        }
    }
}

/// The commit's changes list `x` among the paths they keep.
pub open spec fn commit_keeps(c: Commit, x: Seq<char>) -> bool {
    match c.changes {
        Some(chs) => kept_paths(chs@).contains(x),
        None => false,
    }
}

/// The commit changed the file `x` without deleting it.
pub open spec fn commit_has_kept_change(c: Commit, x: Seq<char>) -> bool {
    match c.changes {
        Some(chs) => exists|k: int| 0 <= k < chs@.len() && (#[trigger] chs@[k]).file_path@ == x && keeps_file(chs@[k]),
        None => false,
    }
}

/// The change keeps its file: its change type is anything but `removed`.
pub open spec fn keeps_file(c: FileChange) -> bool {
    !(c.change_type matches Some(t) && t@ == "removed"@)
}

/// A path is among the kept paths exactly when a change that does not
/// delete its file has it.
pub proof fn lemma_kept_paths_contains(changes: Seq<FileChange>, x: Seq<char>)
    ensures
        kept_paths(changes).contains(x) <==> exists|k: int|
            0 <= k < changes.len() && (#[trigger] changes[k]).file_path@ == x && keeps_file(changes[k]),
    decreases changes.len(),
{
    if changes.len() > 0 {
        let pre = changes.drop_last();
        lemma_kept_paths_contains(pre, x);
        let last = changes.last();
        let tail = if is_kept(last) { seq![last.file_path@] } else { Seq::<Seq<char>>::empty() };
        lemma_concat_contains(kept_paths(pre), tail, x);
        assert(is_kept(last) == keeps_file(last));
        if exists|k: int| 0 <= k < pre.len() && (#[trigger] pre[k]).file_path@ == x && keeps_file(pre[k]) {
            let k = choose|k: int| 0 <= k < pre.len() && (#[trigger] pre[k]).file_path@ == x && keeps_file(pre[k]);
            assert(changes[k] == pre[k]);
        }
        if exists|k: int| 0 <= k < changes.len() && (#[trigger] changes[k]).file_path@ == x && keeps_file(changes[k]) {
            let k = choose|k: int| 0 <= k < changes.len() && (#[trigger] changes[k]).file_path@ == x && keeps_file(changes[k]);
            if k < pre.len() {
                assert(pre[k] == changes[k]);
            } else {
                assert(tail[0] == x);
            }
        }
    }
}

/// A path is among the commits' paths exactly when one commit's kept changes have it.
pub proof fn lemma_commits_paths_contains(commits: Seq<Commit>, x: Seq<char>)
    ensures
        commits_paths(commits).contains(x) <==> exists|c: int|
            0 <= c < commits.len() && commit_keeps(#[trigger] commits[c], x),
    decreases commits.len(),
{
    if commits.len() > 0 {
        let pre = commits.drop_last();
        lemma_commits_paths_contains(pre, x);
        let tail = match commits.last().changes {
            Some(ch) => kept_paths(ch@),
            None => Seq::<Seq<char>>::empty(),
        };
        lemma_concat_contains(commits_paths(pre), tail, x);
        if exists|c: int| 0 <= c < pre.len() && commit_keeps(#[trigger] pre[c], x) {
            let c = choose|c: int| 0 <= c < pre.len() && commit_keeps(#[trigger] pre[c], x);
            assert(commits[c] == pre[c]);
        }
        if exists|c: int| 0 <= c < commits.len() && commit_keeps(#[trigger] commits[c], x) {
            let c = choose|c: int| 0 <= c < commits.len() && commit_keeps(#[trigger] commits[c], x);
            if c < pre.len() {
                assert(pre[c] == commits[c]);
            }
        }
    }
}

/// A path is among the named branches' paths exactly when a named branch's
/// commits have it.
pub proof fn lemma_branches_paths_contains(branches: Seq<Branch>, name: Seq<char>, x: Seq<char>)
    ensures
        branches_paths(branches, name).contains(x) <==> exists|b: int|
            0 <= b < branches.len() && is_named(#[trigger] branches[b], name) && commits_paths(branches[b].commits@).contains(x),
    decreases branches.len(),
{
    if branches.len() > 0 {
        let pre = branches.drop_last();
        lemma_branches_paths_contains(pre, name, x);
        let tail = if is_named(branches.last(), name) { commits_paths(branches.last().commits@) } else { Seq::<Seq<char>>::empty() };
        lemma_concat_contains(branches_paths(pre, name), tail, x);
        if exists|b: int| 0 <= b < pre.len() && is_named(#[trigger] pre[b], name) && commits_paths(pre[b].commits@).contains(x) {
            let b = choose|b: int| 0 <= b < pre.len() && is_named(#[trigger] pre[b], name) && commits_paths(pre[b].commits@).contains(x);
            assert(branches[b] == pre[b]);
        }
        if exists|b: int| 0 <= b < branches.len() && is_named(#[trigger] branches[b], name) && commits_paths(branches[b].commits@).contains(x) {
            let b = choose|b: int| 0 <= b < branches.len() && is_named(#[trigger] branches[b], name) && commits_paths(branches[b].commits@).contains(x);
            if b < pre.len() {
                assert(pre[b] == branches[b]);
            }
        }
    }
}

/// A path is among the stacks' paths exactly when one stack contributes it.
pub proof fn lemma_stacks_paths_contains(stacks: Seq<Stack>, name: Seq<char>, x: Seq<char>)
    ensures
        stacks_paths(stacks, name).contains(x) <==> exists|t: int| 0 <= t < stacks.len() && stack_paths(#[trigger] stacks[t], name).contains(x),
    decreases stacks.len(),
{
    if stacks.len() > 0 {
        let pre = stacks.drop_last();
        lemma_stacks_paths_contains(pre, name, x);
        lemma_concat_contains(stacks_paths(pre, name), stack_paths(stacks.last(), name), x);
        if exists|t: int| 0 <= t < pre.len() && stack_paths(#[trigger] pre[t], name).contains(x) {
            let t = choose|t: int| 0 <= t < pre.len() && stack_paths(#[trigger] pre[t], name).contains(x);
            assert(stacks[t] == pre[t]);
        }
        if exists|t: int| 0 <= t < stacks.len() && stack_paths(#[trigger] stacks[t], name).contains(x) {
            let t = choose|t: int| 0 <= t < stacks.len() && stack_paths(#[trigger] stacks[t], name).contains(x);
            if t < pre.len() {
                assert(pre[t] == stacks[t]);
            }
        }
    }
}

/// Every file that a commit of the named branch changed without deleting
/// it (its change type is anything but `removed`: added, modified, renamed
/// or none) is listed, and so is every such uncommitted change assigned to
/// the stack that holds the branch.
pub proof fn law_branch_lists_every_kept_change(status: ButStatus, name: Seq<char>, t: int, b: int, x: Seq<char>)
    requires
        0 <= t < status.stacks@.len(),
        0 <= b < status.stacks@[t].branches@.len(),
        status.stacks@[t].branches@[b].name@ == name || status.stacks@[t].branches@[b].cli_id@ == name,
        (exists|c: int|
            0 <= c < status.stacks@[t].branches@[b].commits@.len() && commit_has_kept_change(
                #[trigger] status.stacks@[t].branches@[b].commits@[c],
                x,
            )) || (exists|k: int|
            0 <= k < status.stacks@[t].assigned_changes@.len() && (#[trigger] status.stacks@[t].assigned_changes@[k]).file_path@ == x
                && keeps_file(status.stacks@[t].assigned_changes@[k])),
    ensures
        spec_branch_paths(status, name).contains(x),
{
    let stack = status.stacks@[t];
    let br = stack.branches@[b];
    assert(is_named(br, name));
    assert(exists|j: int| 0 <= j < stack.branches@.len() && is_named(#[trigger] stack.branches@[j], name));
    lemma_kept_paths_contains(stack.assigned_changes@, x);
    lemma_branches_paths_contains(stack.branches@, name, x);
    lemma_commits_paths_contains(br.commits@, x);
    if exists|c: int| 0 <= c < br.commits@.len() && commit_has_kept_change(#[trigger] br.commits@[c], x) {
        let c = choose|c: int| 0 <= c < br.commits@.len() && commit_has_kept_change(#[trigger] br.commits@[c], x);
        let chs = br.commits@[c].changes->0;
        lemma_kept_paths_contains(chs@, x);
        assert(kept_paths(chs@).contains(x));
        assert(commit_keeps(br.commits@[c], x));
        assert(commits_paths(br.commits@).contains(x));
    }
    lemma_concat_contains(branches_paths(stack.branches@, name), kept_paths(stack.assigned_changes@), x);
    assert(stack_paths(stack, name).contains(x));
    lemma_stacks_paths_contains(status.stacks@, name, x);
    lemma_add_all_distinct(Seq::empty(), stacks_paths(status.stacks@, name));
}

/// Every listed file was changed without being deleted, by a commit of a
/// branch with that name or id, or by an uncommitted change assigned to a
/// stack that holds such a branch.
pub proof fn law_branch_lists_only_kept_changes(status: ButStatus, name: Seq<char>, x: Seq<char>)
    requires
        spec_branch_paths(status, name).contains(x),
    ensures
        exists|t: int|
            0 <= t < status.stacks@.len() && (exists|j: int|
                0 <= j < status.stacks@[t].branches@.len() && (#[trigger] status.stacks@[t].branches@[j].name@ == name
                    || status.stacks@[t].branches@[j].cli_id@ == name)) && (#[trigger] kept_paths(
                status.stacks@[t].assigned_changes@,
            ).contains(x) || exists|b: int|
                0 <= b < status.stacks@[t].branches@.len() && (status.stacks@[t].branches@[b].name@ == name
                    || status.stacks@[t].branches@[b].cli_id@ == name) && commits_paths(
                    #[trigger] status.stacks@[t].branches@[b].commits@,
                ).contains(x)),
        forall|cs: Seq<FileChange>| #[trigger] kept_paths(cs).contains(x) ==> exists|k: int|
            0 <= k < cs.len() && (#[trigger] cs[k]).file_path@ == x && keeps_file(cs[k]),
        forall|cms: Seq<Commit>| #[trigger] commits_paths(cms).contains(x) ==> exists|c: int|
            0 <= c < cms.len() && commit_keeps(#[trigger] cms[c], x),
{
    lemma_add_all_distinct(Seq::empty(), stacks_paths(status.stacks@, name));
    lemma_stacks_paths_contains(status.stacks@, name, x);
    let t = choose|t: int| 0 <= t < status.stacks@.len() && stack_paths(#[trigger] status.stacks@[t], name).contains(x);
    let stack = status.stacks@[t];
    lemma_concat_contains(branches_paths(stack.branches@, name), kept_paths(stack.assigned_changes@), x);
    lemma_branches_paths_contains(stack.branches@, name, x);
    assert forall|cs: Seq<FileChange>| #[trigger] kept_paths(cs).contains(x) implies exists|k: int|
        0 <= k < cs.len() && (#[trigger] cs[k]).file_path@ == x && keeps_file(cs[k]) by {
        lemma_kept_paths_contains(cs, x);
    }
    assert forall|cms: Seq<Commit>| #[trigger] commits_paths(cms).contains(x) implies exists|c: int|
        0 <= c < cms.len() && commit_keeps(#[trigger] cms[c], x) by {
        lemma_commits_paths_contains(cms, x);
    }
}

} // verus!
