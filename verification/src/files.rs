//! Which changed files each check stage receives, and where the tests and
//! snapshots of a source file live.

use vstd::prelude::*;
use crate::text::{ends_with, str_eq};

verus! {

/// `f` ends with `.ext` for one of the given extensions.
pub open spec fn has_extension_in(f: Seq<char>, extensions: Seq<Seq<char>>) -> bool {
    exists|k: int| 0 <= k < extensions.len() && (seq!['.'] + #[trigger] extensions[k]).is_suffix_of(f)
}

/// The files, in their given order, whose name ends with `.ext` for one of `extensions`.
pub open spec fn spec_filter_by_extensions(files: Seq<String>, extensions: Seq<Seq<char>>) -> Seq<String> {
    files.filter(|f: String| has_extension_in(f@, extensions))
}

fn has_any_extension(f: &String, extensions: &[&str]) -> (r: bool)
    ensures
        r == has_extension_in(f@, extensions@.map_values(|e: &str| e@)),
{
    let ghost exts = extensions@.map_values(|e: &str| e@);
    let mut k: usize = 0;
    while k < extensions.len()
        invariant
            k <= extensions.len(),
            exts == extensions@.map_values(|e: &str| e@),
            forall|j: int| 0 <= j < k ==> !(seq!['.'] + #[trigger] exts[j]).is_suffix_of(f@),
        decreases extensions.len() - k,
    {
        let dotted = String::from_str(".").concat(extensions[k]);
        assert(dotted@ == seq!['.'] + exts[k as int]) by {
            reveal_strlit(".");
        }
        if ends_with(f.as_str(), dotted.as_str()) {
            return true;
        }
        k += 1;
    }
    false
}

/// Filter file paths to those ending in `.ext` for one of the given extensions.
pub fn filter_by_extensions(files: &[String], extensions: &[&str]) -> (r: Vec<String>)
    ensures
        r@ == spec_filter_by_extensions(files@, extensions@.map_values(|e: &str| e@)),
{
    let ghost exts = extensions@.map_values(|e: &str| e@);
    let ghost pred = |f: String| has_extension_in(f@, exts);
    let mut out: Vec<String> = Vec::new();
    let mut i: usize = 0;
    while i < files.len()
        invariant
            i <= files.len(),
            exts == extensions@.map_values(|e: &str| e@),
            pred == (|f: String| has_extension_in(f@, exts)),
            out@ == files@.subrange(0, i as int).filter(pred),
        decreases files.len() - i,
    {
        proof {
            reveal_with_fuel(Seq::filter, 1);
            assert(files@.subrange(0, i + 1).drop_last() == files@.subrange(0, i as int));
        }
        if has_any_extension(&files[i], extensions) {
            out.push(files[i].clone());
        }
        i += 1;
    }
    proof {
        assert(files@.subrange(0, files@.len() as int) == files@);
    }
    out
}

} // verus!

use crate::paths::{extension, file_name, file_stem, join_path, parent, path_exists, spec_extension, spec_file_name, spec_file_stem, spec_join_path, spec_parent, spec_strip_path_prefix, strip_path_prefix};
use crate::text::{contains, lemma_views_push, seq_contains_infix, sort_strings, sorted_seqs, views};

verus! {

/// The characters of an optional string.
pub open spec fn opt_view(o: Option<String>) -> Option<Seq<char>> {
    match o {
        Some(s) => Some(s@),
        None => None,
    }
}

/// A runnable test file: not a snapshot, and its file name holds `.test.` or `.spec.`.
pub open spec fn spec_is_test_file(path: Seq<char>) -> bool {
    if ".snap"@.is_suffix_of(path) {
        false
    } else {
        let name = match spec_file_name(path) {
            Some(n) => n,
            None => Seq::empty(),
        };
        seq_contains_infix(name, ".test."@) || seq_contains_infix(name, ".spec."@)
    }
}

/// Check if a file is a runnable test file (not a snapshot).
pub fn is_test_file(path: &str) -> (r: bool)
    ensures
        r == spec_is_test_file(path@),
{
    if ends_with(path, ".snap") {
        return false;
    }
    let name = match file_name(path) {
        Some(n) => n,
        None => String::new(),
    };
    contains(name.as_str(), ".test.") || contains(name.as_str(), ".spec.")
}

/// The three file names a test of `stem.ext` may have.
pub open spec fn spec_test_names(stem: Seq<char>, ext: Seq<char>) -> Seq<Seq<char>> {
    seq![stem + ".test."@ + ext, stem + ".test.tsx"@, stem + ".test.ts"@]
}

/// Each of `names` inside the directory `dir`.
pub open spec fn in_dir(dir: Seq<char>, names: Seq<Seq<char>>) -> Seq<Seq<char>> {
    names.map_values(|n: Seq<char>| spec_join_path(dir, n))
}

/// The places a test of `source` may be, in the order they are tried:
/// next to it; in a `Tests/` or `__tests__/` directory beside its directory;
/// in `src/__tests__/` mirroring its place under `src/`. None for a file that
/// is itself a test or a snapshot, or whose path has no stem, extension or parent.
pub open spec fn spec_test_candidates(source: Seq<char>) -> Option<Seq<Seq<char>>> {
    match (spec_file_stem(source), spec_extension(source), spec_parent(source)) {
        (Some(stem), Some(ext), Some(dir)) => {
            if ".test"@.is_suffix_of(stem) || ".spec"@.is_suffix_of(stem) || ext == "snap"@ {
                None
            } else {
                let names = spec_test_names(stem, ext);
                let siblings = match spec_parent(dir) {
                    Some(up) => in_dir(spec_join_path(up, "Tests"@), names) + in_dir(
                        spec_join_path(up, "__tests__"@),
                        names,
                    ),
                    None => Seq::empty(),
                };
                let mirrored = match spec_strip_path_prefix(source, "src"@) {
                    Some(rel) => match spec_parent(rel) {
                        Some(rel_dir) => in_dir(spec_join_path("src/__tests__"@, rel_dir), names),
                        None => Seq::empty(),
                    },
                    None => Seq::empty(),
                };
                Some(in_dir(dir, names) + siblings + mirrored)
            }
        },
        _ => None,
    }
}

/// The first candidate that was found to exist.
pub open spec fn spec_first_existing(candidates: Seq<Seq<char>>, found: Seq<bool>) -> Option<Seq<char>>
    decreases candidates.len(),
{
    if candidates.len() == 0 || found.len() == 0 {
        None
    } else if found[0] {
        Some(candidates[0])
    } else {
        spec_first_existing(candidates.drop_first(), found.drop_first())
    }
}

fn push_in_dir(out: &mut Vec<String>, dir: &str, names: &Vec<String>)
    ensures
        views(final(out)@) == views(old(out)@) + in_dir(dir@, views(names@)),
{
    let ghost start = views(out@);
    let mut i: usize = 0;
    while i < names.len()
        invariant
            i <= names.len(),
            views(out@) == start + in_dir(dir@, views(names@.subrange(0, i as int))),
        decreases names.len() - i,
    {
        let ghost prev = out@;
        let p = join_path(dir, names[i].as_str());
        out.push(p);
        proof {
            lemma_views_push(prev, p);
            assert(views(names@.subrange(0, i + 1)) =~= views(names@.subrange(0, i as int)).push(names@[i as int]@));
            assert(in_dir(dir@, views(names@.subrange(0, i + 1))) =~= in_dir(dir@, views(names@.subrange(0, i as int))).push(spec_join_path(dir@, names@[i as int]@)));
        }
        i += 1;
    }
    assert(names@.subrange(0, names@.len() as int) == names@);
}

/// The places a test of `source_path` may be, in the order they are tried.
pub fn test_file_candidates(source_path: &str) -> (r: Option<Vec<String>>)
    ensures
        r is None <==> spec_test_candidates(source_path@) is None,
        r is Some ==> spec_test_candidates(source_path@) == Some(views(r->0@)),
{
    let stem = match file_stem(source_path) {
        Some(s) => s,
        None => return None,
    };
    let ext = match extension(source_path) {
        Some(e) => e,
        None => return None,
    };
    let dir = match parent(source_path) {
        Some(d) => d,
        None => return None,
    };
    if ends_with(stem.as_str(), ".test") || ends_with(stem.as_str(), ".spec") || str_eq(ext.as_str(), "snap") {
        return None;
    }
    let mut names: Vec<String> = Vec::new();
    names.push(String::from_str(stem.as_str()).concat(".test.").concat(ext.as_str()));
    names.push(String::from_str(stem.as_str()).concat(".test.tsx"));
    names.push(String::from_str(stem.as_str()).concat(".test.ts"));
    assert(views(names@) =~= spec_test_names(stem@, ext@));
    let mut out: Vec<String> = Vec::new();
    push_in_dir(&mut out, dir.as_str(), &names);
    let ghost colocated = views(out@);
    assert(colocated =~= in_dir(dir@, views(names@)));
    let ghost siblings: Seq<Seq<char>> = Seq::empty();
    if let Some(up) = parent(dir.as_str()) {
        let tests_dir = join_path(up.as_str(), "Tests");
        push_in_dir(&mut out, tests_dir.as_str(), &names);
        let under_dir = join_path(up.as_str(), "__tests__");
        push_in_dir(&mut out, under_dir.as_str(), &names);
        proof {
            siblings = in_dir(tests_dir@, views(names@)) + in_dir(under_dir@, views(names@));
            assert(views(out@) =~= colocated + siblings);
        }
    } else {
        assert(views(out@) =~= colocated + siblings);
    }
    let ghost before_mirror = views(out@);
    let ghost mirrored: Seq<Seq<char>> = Seq::empty();
    if let Some(rel) = strip_path_prefix(source_path, "src") {
        if let Some(rel_dir) = parent(rel.as_str()) {
            let base = join_path("src/__tests__", rel_dir.as_str());
            push_in_dir(&mut out, base.as_str(), &names);
            proof {
                mirrored = in_dir(base@, views(names@));
            }
        }
    }
    assert(views(out@) =~= before_mirror + mirrored);
    assert(views(out@) =~= in_dir(dir@, views(names@)) + siblings + mirrored);
    Some(out)
}

/// Whether each candidate's path under `root` is among the `existing` paths.
pub open spec fn presence(root: Seq<char>, cs: Seq<Seq<char>>, existing: Seq<Seq<char>>) -> Seq<bool> {
    Seq::new(cs.len(), |i: int| existing.contains(spec_join_path(root, cs[i])))
}

/// The test of `source`, when exactly the `existing` paths exist: the first
/// candidate whose path under `root` exists; none for a file with no
/// candidates or when no candidate exists.
pub open spec fn spec_find_test_file_in(source: Seq<char>, root: Seq<char>, existing: Seq<Seq<char>>) -> Option<Seq<char>> {
    match spec_test_candidates(source) {
        None => None,
        Some(cs) => spec_first_existing(cs, presence(root, cs, existing)),
    }
}


/// The first existing candidate is the first one found.
pub proof fn lemma_first_existing_hit(cs: Seq<Seq<char>>, found: Seq<bool>, i: int)
    requires
        0 <= i < cs.len(),
        i < found.len(),
        found[i],
        forall|k: int| 0 <= k < i ==> !found[k],
    ensures
        spec_first_existing(cs, found) == Some(cs[i]),
    decreases i,
{
    if i > 0 {
        lemma_first_existing_hit(cs.drop_first(), found.drop_first(), i - 1);
    }
}

/// No candidate exists when none was found.
pub proof fn lemma_first_existing_none(cs: Seq<Seq<char>>, found: Seq<bool>)
    requires
        forall|k: int| 0 <= k < cs.len() && k < found.len() ==> !found[k],
    ensures
        spec_first_existing(cs, found) is None,
    decreases cs.len(),
{
    if cs.len() > 0 && found.len() > 0 {
        lemma_first_existing_none(cs.drop_first(), found.drop_first());
    }
}

/// The first of `candidates` whose entry in `found` is true.
pub fn first_existing(candidates: &[String], found: &[bool]) -> (r: Option<String>)
    ensures
        opt_view(r) == spec_first_existing(views(candidates@), found@),
{
    let mut i: usize = 0;
    while i < candidates.len() && i < found.len()
        invariant
            i <= candidates.len(),
            i <= found.len(),
            forall|k: int| 0 <= k < i ==> !found@[k],
        decreases candidates.len() - i,
    {
        if found[i] {
            proof {
                lemma_first_existing_hit(views(candidates@), found@, i as int);
            }
            return Some(candidates[i].clone());
        }
        i += 1;
    }
    proof {
        lemma_first_existing_none(views(candidates@), found@);
    }
    None
}

/// The paths under `project_root` that the lookup of a test for
/// `source_path` asks about, in the order asked: each candidate joined to
/// the project root.
pub fn test_file_probes(source_path: &str, project_root: &str) -> (r: Option<Vec<String>>)
    ensures
        r is None <==> spec_test_candidates(source_path@) is None,
        r is Some ==> views(r->0@) == in_dir(project_root@, spec_test_candidates(source_path@)->0),
{
    let candidates = match test_file_candidates(source_path) {
        Some(c) => c,
        None => return None,
    };
    let mut out: Vec<String> = Vec::new();
    push_in_dir(&mut out, project_root, &candidates);
    assert(views(out@) =~= in_dir(project_root@, views(candidates@)));
    Some(out)
}

/// Whether `s` is one of the strings of `v`.
fn contains_view(v: &[String], s: &str) -> (r: bool)
    ensures
        r == views(v@).contains(s@),
{
    let mut i: usize = 0;
    while i < v.len()
        invariant
            i <= v.len(),
            forall|k: int| 0 <= k < i ==> views(v@)[k] != s@,
        decreases v.len() - i,
    {
        if str_eq(v[i].as_str(), s) {
            assert(views(v@)[i as int] == s@);
            return true;
        }
        i += 1;
    }
    false
}

/// The test of `source_path` when the paths that exist under the project
/// are exactly `existing`: the first candidate, in the order colocated,
/// sibling `Tests/`, sibling `__tests__/`, mirrored `src/__tests__/`, whose
/// path joined to `project_root` is in `existing`.
pub fn find_test_file_in(source_path: &str, project_root: &str, existing: &[String]) -> (r: Option<String>)
    ensures
        opt_view(r) == spec_find_test_file_in(source_path@, project_root@, views(existing@)),
{
    let candidates = match test_file_candidates(source_path) {
        Some(c) => c,
        None => return None,
    };
    let ghost cs = views(candidates@);
    let ghost ex = views(existing@);
    let mut found: Vec<bool> = Vec::new();
    let mut i: usize = 0;
    while i < candidates.len()
        invariant
            i <= candidates.len(),
            cs == views(candidates@),
            ex == views(existing@),
            found@ == presence(project_root@, cs, ex).subrange(0, i as int),
        decreases candidates.len() - i,
    {
        let probe = join_path(project_root, candidates[i].as_str());
        let here = contains_view(existing, probe.as_str());
        found.push(here);
        assert(found@ =~= presence(project_root@, cs, ex).subrange(0, i + 1));
        i += 1;
    }
    assert(found@ =~= presence(project_root@, cs, ex));
    first_existing(candidates.as_slice(), found.as_slice())
}

/// Given a source file, find its test file by checking, in order, for a
/// colocated test (`src/components/Foo.tsx` -> `src/components/Foo.test.tsx`),
/// a sibling `Tests/` or `__tests__/` directory
/// (`src/Settings/Components/Foo.tsx` -> `src/Settings/Tests/Foo.test.tsx`),
/// and a mirrored `src/__tests__/` tree
/// (`src/containers/Cms/Foo.tsx` -> `src/__tests__/containers/Cms/Foo.test.tsx`).
/// Each candidate is looked for under `project_root`, in that order, until one
/// exists; the one returned is relative. The disk's answer is handed to
/// [`find_test_file_in`].
pub fn find_test_file(source_path: &str, project_root: &str) -> (r: Option<String>)
    ensures
        exists|existing: Seq<Seq<char>>|
            is_probed(source_path@, project_root@, existing)
                && opt_view(r) == #[trigger] spec_find_test_file_in(source_path@, project_root@, existing),
        match spec_test_candidates(source_path@) {
            None => r is None,
            Some(cs) => is_disk_lookup(cs, project_root@, opt_view(r)),
        },
{
    let probes = match test_file_probes(source_path, project_root) {
        Some(p) => p,
        None => {
            assert(is_probed(source_path@, project_root@, Seq::empty()));
            assert(opt_view(None::<String>) == spec_find_test_file_in(source_path@, project_root@, Seq::empty()));
            return None;
        },
    };
    let ghost asked = views(probes@);
    let ghost cs = spec_test_candidates(source_path@)->0;
    let mut i: usize = 0;
    while i < probes.len()
        invariant
            i <= probes.len(),
            asked == views(probes@),
            spec_test_candidates(source_path@) == Some(cs),
            asked == in_dir(project_root@, cs),
            forall|j: int| 0 <= j < i ==> disk_answered(#[trigger] asked[j], false),
        decreases probes.len() - i,
    {
        let q = probes[i].as_str();
        let seen = seen_before(probes.as_slice(), i, q);
        let here = if seen {
            proof {
                let j = choose|j: int| 0 <= j < i && asked[j] == q@;
                assert(asked[j] == q@);
            }
            false
        } else {
            path_exists(q)
        };
        proof {
            if !seen {
                assert(q@ == asked[i as int]);
                assert(disk_answered(asked[i as int], here));
            }
        }
        if here {
            let existing = vec![probes[i].clone()];
            proof {
                assert(views(existing@) =~= seq![asked[i as int]]);
                assert forall|x: Seq<char>| #[trigger] views(existing@).contains(x) implies (spec_test_candidates(source_path@) matches Some(
                    c,
                ) && in_dir(project_root@, c).contains(x)) by {
                    assert(x == asked[i as int]);
                }
                let pres = presence(project_root@, cs, views(existing@));
                assert(asked.len() == cs.len());
                assert forall|j: int| 0 <= j < i implies !pres[j] by {
                    assert(asked[j] == spec_join_path(project_root@, cs[j]));
                    if pres[j] {
                        assert(views(existing@).contains(spec_join_path(project_root@, cs[j])));
                        let k = choose|k: int| 0 <= k < views(existing@).len() && views(existing@)[k] == spec_join_path(project_root@, cs[j]);
                        assert(asked[j] == asked[i as int]);
                    }
                }
                assert(asked[i as int] == spec_join_path(project_root@, cs[i as int]));
                assert(views(existing@)[0] == asked[i as int]);
                assert(views(existing@).contains(asked[i as int]));
                assert(pres[i as int]);
                assert forall|j: int| 0 <= j < i implies disk_answered(#[trigger] spec_join_path(project_root@, cs[j]), false) by {
                    assert(asked[j] == spec_join_path(project_root@, cs[j]));
                }
                lemma_first_existing_hit(cs, pres, i as int);
            }
            let r = find_test_file_in(source_path, project_root, existing.as_slice());
            proof {
                assert(opt_view(r) == Some(cs[i as int]));
                assert(is_disk_lookup_at(cs, project_root@, opt_view(r), i as int));
            }
            return r;
        }
        i += 1;
    }
    let existing: Vec<String> = Vec::new();
    assert(views(existing@) =~= Seq::<Seq<char>>::empty());
    assert(is_probed(source_path@, project_root@, views(existing@)));
    proof {
        lemma_first_existing_none(cs, presence(project_root@, cs, views(existing@)));
        assert(asked.len() == cs.len());
        assert forall|j: int| 0 <= j < cs.len() implies disk_answered(#[trigger] spec_join_path(project_root@, cs[j]), false) by {
            assert(asked[j] == spec_join_path(project_root@, cs[j]));
        }
        assert(is_disk_lookup_at(cs, project_root@, None, cs.len() as int));
    }
    let r = find_test_file_in(source_path, project_root, existing.as_slice());
    assert(opt_view(r) == spec_find_test_file_in(source_path@, project_root@, views(existing@)));
    r
}

/// Whether `s` is among the first `n` strings of `v`.
fn seen_before(v: &[String], n: usize, s: &str) -> (r: bool)
    requires
        n <= v.len(),
    ensures
        r == exists|j: int| 0 <= j < n && views(v@)[j] == s@,
{
    let mut k: usize = 0;
    while k < n
        invariant
            k <= n,
            n <= v.len(),
            forall|j: int| 0 <= j < k ==> views(v@)[j] != s@,
        decreases n - k,
    {
        if str_eq(v[k].as_str(), s) {
            assert(views(v@)[k as int] == s@);
            return true;
        }
        k += 1;
    }
    false
}

/// Asks the disk whether `p` exists; the answer is recorded as what the disk
/// said about `p`.
pub(crate) fn ask_disk(p: &str) -> (r: bool)
    ensures
        disk_answered(p@, r),
{
    path_exists(p)
}

/// `b` is what `path_exists` answered when it was asked about a path with
/// the characters `p`.
pub closed spec fn disk_answered(p: Seq<char>, b: bool) -> bool {
    exists|q: &str| q@ == p && #[trigger] call_ensures(path_exists, (q,), b)
}

/// The disk gave one answer about `p` (it did not change while asked).
pub open spec fn disk_steady(p: Seq<char>) -> bool {
    !(disk_answered(p, true) && disk_answered(p, false))
}

/// `r` is what the disk's answers make of the candidates under `root`: the
/// first candidate that the disk said exists, after it said of each earlier
/// one that it does not; nothing when it said so of every candidate.
pub open spec fn is_disk_lookup(cs: Seq<Seq<char>>, root: Seq<char>, r: Option<Seq<char>>) -> bool {
    exists|n: int| #[trigger] is_disk_lookup_at(cs, root, r, n)
}

/// The disk said each of the first `n` candidates under `root` does not
/// exist, and `r` is the candidate at `n` which it said exists, or nothing
/// when `n` is past the last candidate.
pub open spec fn is_disk_lookup_at(cs: Seq<Seq<char>>, root: Seq<char>, r: Option<Seq<char>>, n: int) -> bool {
    0 <= n <= cs.len() && (forall|j: int| 0 <= j < n ==> disk_answered(#[trigger] spec_join_path(root, cs[j]), false))
        && if n < cs.len() {
        disk_answered(spec_join_path(root, cs[n]), true) && r == Some(cs[n])
    } else {
        r is None
    }
}

/// When the disk answers steadily about the candidates, a lookup by its
/// answers gives the first candidate that exists under the root: if the disk
/// says the candidates before position `k` do not exist and the one at `k`
/// does, the result is that candidate; if it says none exists, there is none.
pub proof fn law_lookup_takes_first_existing(cs: Seq<Seq<char>>, root: Seq<char>, r: Option<Seq<char>>, k: int)
    requires
        is_disk_lookup(cs, root, r),
        forall|j: int| 0 <= j < cs.len() ==> disk_steady(#[trigger] spec_join_path(root, cs[j])),
        0 <= k <= cs.len(),
        forall|j: int| 0 <= j < k ==> disk_answered(#[trigger] spec_join_path(root, cs[j]), false),
        k < cs.len() ==> disk_answered(spec_join_path(root, cs[k]), true),
    ensures
        k < cs.len() ==> r == Some(cs[k]),
        k == cs.len() ==> r is None,
{
    let n = choose|n: int| #[trigger] is_disk_lookup_at(cs, root, r, n);
    if n < k {
        assert(disk_answered(spec_join_path(root, cs[n]), false));
        assert(disk_steady(spec_join_path(root, cs[n])));
    } else if n > k {
        assert(disk_answered(spec_join_path(root, cs[k]), false));
        assert(disk_steady(spec_join_path(root, cs[k])));
    }
}

/// Every path in `existing` is one that the lookup of a test for `source`
/// asks about: a candidate joined to `root`.
pub open spec fn is_probed(source: Seq<char>, root: Seq<char>, existing: Seq<Seq<char>>) -> bool {
    forall|x: Seq<char>| #[trigger] existing.contains(x) ==> (spec_test_candidates(source) matches Some(cs) && in_dir(root, cs).contains(x))
}

/// What the lookup of a test for `source` under `root` may have answered:
/// the test found when some of the paths it asks about exist.
pub open spec fn is_lookup_of(source: Seq<char>, root: Seq<char>, found: Option<Seq<char>>) -> bool {
    exists|existing: Seq<Seq<char>>|
        is_probed(source, root, existing) && found == #[trigger] spec_find_test_file_in(source, root, existing)
}

/// Snapshots, style sheets and images have no tests.
pub open spec fn is_untestable_kind(path: Seq<char>) -> bool {
    ".snap"@.is_suffix_of(path) || ".css"@.is_suffix_of(path) || ".svg"@.is_suffix_of(path)
}

/// The entry for position `i`, or nothing past the end.
pub open spec fn found_at(found: Seq<Option<Seq<char>>>, i: int) -> Option<Seq<char>> {
    if 0 <= i < found.len() {
        found[i]
    } else {
        None
    }
}

/// One source file's contribution to the test list built so far: a test file
/// not yet listed is listed itself; otherwise, unless it is untestable, its
/// looked-up test is listed if it is not already.
pub open spec fn collect_step(acc: Seq<Seq<char>>, source: Seq<char>, found: Option<Seq<char>>) -> Seq<Seq<char>> {
    if spec_is_test_file(source) && !acc.contains(source) {
        acc.push(source)
    } else if is_untestable_kind(source) {
        acc
    } else {
        match found {
            Some(t) => if acc.contains(t) {
                acc
            } else {
                acc.push(t)
            },
            None => acc,
        }
    }
}

/// The test files of the sources, in the order first met, given the test
/// looked up for each source (`found[i]` for `sources[i]`).
pub open spec fn spec_collect(sources: Seq<Seq<char>>, found: Seq<Option<Seq<char>>>) -> Seq<Seq<char>>
    decreases sources.len(),
{
    if sources.len() == 0 {
        Seq::empty()
    } else {
        collect_step(spec_collect(sources.drop_last(), found), sources.last(), found_at(found, sources.len() - 1))
    }
}

/// The characters of each optional string.
pub open spec fn opt_views(v: Seq<Option<String>>) -> Seq<Option<Seq<char>>> {
    v.map_values(|o: Option<String>| opt_view(o))
}

/// `r` holds the same entries as `s`, in ascending order.
pub open spec fn is_sorted_permutation(r: Seq<Seq<char>>, s: Seq<Seq<char>>) -> bool {
    r.to_multiset() == s.to_multiset() && sorted_seqs(r)
}

/// `r` is the sorted test list of the sources for some answers of the
/// per-source test lookups under `root`.
pub open spec fn is_collected_tests(sources: Seq<Seq<char>>, root: Seq<char>, r: Seq<Seq<char>>) -> bool {
    exists|found: Seq<Option<Seq<char>>>|
        found.len() == sources.len() && (forall|i: int| 0 <= i < sources.len() ==> is_lookup_of(#[trigger] sources[i], root, found[i]))
            && is_sorted_permutation(r, #[trigger] spec_collect(sources, found))
}

fn is_untestable(path: &str) -> (r: bool)
    ensures
        r == is_untestable_kind(path@),
{
    ends_with(path, ".snap") || ends_with(path, ".css") || ends_with(path, ".svg")
}

/// Collect the test files of the changed sources, given the test looked up
/// for each source (`found[i]` for `source_files[i]`), sorted.
pub fn collect_test_files_from(source_files: &[String], found: &[Option<String>]) -> (r: Vec<String>)
    ensures
        is_sorted_permutation(views(r@), spec_collect(views(source_files@), opt_views(found@))),
{
    let ghost srcs = views(source_files@);
    let ghost fv = opt_views(found@);
    let mut acc: Vec<String> = Vec::new();
    let mut i: usize = 0;
    while i < source_files.len()
        invariant
            i <= source_files.len(),
            srcs == views(source_files@),
            fv == opt_views(found@),
            views(acc@) == spec_collect(srcs.subrange(0, i as int), fv),
        decreases source_files.len() - i,
    {
        let ghost prev = acc@;
        let source = source_files[i].as_str();
        proof {
            assert(srcs.subrange(0, i + 1).drop_last() =~= srcs.subrange(0, i as int));
            assert(srcs.subrange(0, i + 1).last() == source@);
        }
        if is_test_file(source) && !contains_view(acc.as_slice(), source) {
            let t = String::from_str(source);
            acc.push(t);
            proof { lemma_views_push(prev, t); }
        } else if is_untestable(source) {
        } else if i < found.len() {
            assert(found_at(fv, i as int) == opt_view(found@[i as int]));
            match &found[i] {
                Some(t) => {
                    if !contains_view(acc.as_slice(), t.as_str()) {
                        let c = t.clone();
                        acc.push(c);
                        proof { lemma_views_push(prev, c); }
                    }
                },
                None => {},
            }
        }
        i += 1;
    }
    assert(srcs.subrange(0, srcs.len() as int) == srcs);
    sort_strings(&mut acc);
    acc
}

/// Collect test files related to a set of changed source files: each changed
/// test file itself, and the test that [`find_test_file`] finds under
/// `project_root` for each other changed file, except snapshots, style sheets
/// and images; each once, sorted. The lookups are handed to
/// [`collect_test_files_from`].
pub fn collect_test_files(source_files: &[String], project_root: &str) -> (r: Vec<String>)
    ensures
        is_collected_tests(views(source_files@), project_root@, views(r@)),
        is_disk_collected(views(source_files@), project_root@, views(r@)),
{
    let ghost srcs = views(source_files@);
    let mut found: Vec<Option<String>> = Vec::new();
    let mut i: usize = 0;
    while i < source_files.len()
        invariant
            i <= source_files.len(),
            srcs == views(source_files@),
            found@.len() == i,
            forall|k: int| 0 <= k < i ==> is_lookup_of(#[trigger] srcs[k], project_root@, opt_view(found@[k])),
            forall|k: int|
                0 <= k < i && !is_untestable_kind(srcs[k]) ==> is_disk_lookup_of(#[trigger] srcs[k], project_root@, opt_view(found@[k])),
        decreases source_files.len() - i,
    {
        let source = source_files[i].as_str();
        let test = if is_untestable(source) {
            proof {
                lemma_lookup_none(source@, project_root@);
            }
            None
        } else {
            find_test_file(source, project_root)
        };
        let ghost prev = found@;
        found.push(test);
        assert(forall|k: int| 0 <= k < i ==> found@[k] == prev[k]);
        i += 1;
    }
    let r = collect_test_files_from(source_files, found.as_slice());
    let ghost fv = opt_views(found@);
    assert(fv.len() == srcs.len());
    assert(forall|k: int| 0 <= k < srcs.len() ==> is_lookup_of(#[trigger] srcs[k], project_root@, fv[k]));
    assert(forall|k: int| 0 <= k < srcs.len() && !is_untestable_kind(srcs[k]) ==> is_disk_lookup_of(#[trigger] srcs[k], project_root@, fv[k]));
    assert(is_sorted_permutation(views(r@), spec_collect(srcs, fv)));
    r
}

/// What the disk's answers make of the lookup of a test for `source` under
/// `root`: nothing for a file with no candidates, else the first candidate
/// the disk said exists.
pub open spec fn is_disk_lookup_of(source: Seq<char>, root: Seq<char>, found: Option<Seq<char>>) -> bool {
    match spec_test_candidates(source) {
        None => found is None,
        Some(cs) => is_disk_lookup(cs, root, found),
    }
}

/// `r` is the sorted test list of the sources for the disk's answers to the
/// lookups of every changed file that is not a snapshot, style sheet or image.
pub open spec fn is_disk_collected(sources: Seq<Seq<char>>, root: Seq<char>, r: Seq<Seq<char>>) -> bool {
    exists|found: Seq<Option<Seq<char>>>|
        found.len() == sources.len() && (forall|i: int|
            0 <= i < sources.len() && !is_untestable_kind(sources[i]) ==> is_disk_lookup_of(#[trigger] sources[i], root, found[i]))
            && is_sorted_permutation(r, #[trigger] spec_collect(sources, found))
}

/// A lookup that found nothing is a possible answer for any source.
pub proof fn lemma_lookup_none(source: Seq<char>, root: Seq<char>)
    ensures
        is_lookup_of(source, root, None),
{
    if let Some(cs) = spec_test_candidates(source) {
        lemma_first_existing_none(cs, presence(root, cs, Seq::empty()));
    }
    assert(is_probed(source, root, Seq::empty()));
    assert(None::<Seq<char>> == spec_find_test_file_in(source, root, Seq::empty()));
}

/// Where the snapshot of a test file would be: `__snapshots__/{file}.snap`
/// beside it.
pub open spec fn spec_snapshot_path(test_file: Seq<char>) -> Option<Seq<char>> {
    match (spec_file_name(test_file), spec_parent(test_file)) {
        (Some(name), Some(dir)) => Some(spec_join_path(spec_join_path(dir, "__snapshots__"@), name + ".snap"@)),
        _ => None,
    }
}

/// The snapshot paths of the test files that exist according to `present`
/// (`present[i]` for `test_files[i]`), in the order of the test files.
pub open spec fn spec_present_snapshots(test_files: Seq<Seq<char>>, present: Seq<bool>) -> Seq<Seq<char>>
    decreases test_files.len(),
{
    if test_files.len() == 0 {
        Seq::empty()
    } else {
        let p = spec_present_snapshots(test_files.drop_last(), present);
        let i = test_files.len() - 1;
        match spec_snapshot_path(test_files.last()) {
            Some(sp) => if i < present.len() && present[i] {
                p.push(sp)
            } else {
                p
            },
            None => p,
        }
    }
}

/// Whether each test file's snapshot path under `root` is among the
/// `existing` paths.
pub open spec fn snapshot_presence(tests: Seq<Seq<char>>, root: Seq<char>, existing: Seq<Seq<char>>) -> Seq<bool> {
    Seq::new(
        tests.len(),
        |i: int|
            match spec_snapshot_path(tests[i]) {
                Some(sp) => existing.contains(spec_join_path(root, sp)),
                None => false,
            },
    )
}

/// The snapshots of the test files, sorted, when exactly the `existing`
/// paths exist under `root`.
pub open spec fn is_snapshots_in(tests: Seq<Seq<char>>, root: Seq<char>, existing: Seq<Seq<char>>, r: Seq<Seq<char>>) -> bool {
    is_sorted_permutation(r, spec_present_snapshots(tests, snapshot_presence(tests, root, existing)))
}

/// Where the snapshot of a test file would be.
pub fn snapshot_path(test_file: &str) -> (r: Option<String>)
    ensures
        opt_view(r) == spec_snapshot_path(test_file@),
{
    let name = match file_name(test_file) {
        Some(n) => n,
        None => return None,
    };
    let dir = match parent(test_file) {
        Some(d) => d,
        None => return None,
    };
    let snap_dir = join_path(dir.as_str(), "__snapshots__");
    let snap_name = name.concat(".snap");
    Some(join_path(snap_dir.as_str(), snap_name.as_str()))
}

/// The snapshots of `test_files` when the paths that exist under the project
/// are exactly `existing`: each `__snapshots__/{testfile}.snap` beside a test
/// file whose path joined to `project_root` is in `existing`, sorted.
pub fn find_snapshot_files_in(test_files: &[String], project_root: &str, existing: &[String]) -> (r: Vec<String>)
    ensures
        is_snapshots_in(views(test_files@), project_root@, views(existing@), views(r@)),
{
    let ghost tests = views(test_files@);
    let ghost pres = snapshot_presence(tests, project_root@, views(existing@));
    let mut snapshots: Vec<String> = Vec::new();
    let mut i: usize = 0;
    while i < test_files.len()
        invariant
            i <= test_files.len(),
            tests == views(test_files@),
            pres == snapshot_presence(tests, project_root@, views(existing@)),
            views(snapshots@) == spec_present_snapshots(tests.subrange(0, i as int), pres),
        decreases test_files.len() - i,
    {
        let ghost prev = snapshots@;
        proof {
            assert(tests.subrange(0, i + 1).drop_last() =~= tests.subrange(0, i as int));
            assert(tests.subrange(0, i + 1).last() == test_files@[i as int]@);
        }
        match snapshot_path(test_files[i].as_str()) {
            Some(sp) => {
                let full = join_path(project_root, sp.as_str());
                if contains_view(existing, full.as_str()) {
                    snapshots.push(sp);
                    proof {
                        lemma_views_push(prev, sp);
                    }
                }
            },
            None => {},
        }
        i += 1;
    }
    assert(tests.subrange(0, tests.len() as int) == tests);
    sort_strings(&mut snapshots);
    snapshots
}

/// Find snapshot files that correspond to a set of test files: the
/// `__snapshots__/{testfile}.snap` next to each test file that exists under
/// `project_root`, sorted. The disk's answers are handed to
/// [`find_snapshot_files_in`].
pub fn find_snapshot_files(test_files: &[String], project_root: &str) -> (r: Vec<String>)
    ensures
        exists|existing: Seq<Seq<char>>|
            is_snapshot_probed(views(test_files@), project_root@, existing)
                && #[trigger] is_snapshots_in(views(test_files@), project_root@, existing, views(r@)),
        exists|present: Seq<bool>|
            present.len() == test_files@.len() && (forall|i: int|
                0 <= i < test_files@.len() ==> (#[trigger] spec_snapshot_path(views(test_files@)[i]) matches Some(sp)
                    ==> disk_answered(spec_join_path(project_root@, sp), present[i])))
                && is_sorted_permutation(views(r@), #[trigger] spec_present_snapshots(views(test_files@), present)),
{
    let ghost tests = views(test_files@);
    let mut asked: Vec<String> = Vec::new();
    let mut answers: Vec<bool> = Vec::new();
    let mut existing: Vec<String> = Vec::new();
    let mut i: usize = 0;
    while i < test_files.len()
        invariant
            i <= test_files.len(),
            tests == views(test_files@),
            is_snapshot_probed(tests, project_root@, views(existing@)),
            asked@.len() == answers@.len(),
            forall|k: int| 0 <= k < asked@.len() ==> disk_answered(#[trigger] views(asked@)[k], answers@[k]),
            forall|k: int| 0 <= k < asked@.len() ==> (views(existing@).contains(#[trigger] views(asked@)[k]) <==> answers@[k]),
            forall|x: Seq<char>| #[trigger] views(existing@).contains(x) ==> views(asked@).contains(x),
            forall|j: int| 0 <= j < i ==> (#[trigger] spec_snapshot_path(tests[j]) matches Some(sp)
                ==> views(asked@).contains(spec_join_path(project_root@, sp))),
        decreases test_files.len() - i,
    {
        assert(tests[i as int] == test_files@[i as int]@);
        match snapshot_path(test_files[i].as_str()) {
            Some(sp) => {
                let full = join_path(project_root, sp.as_str());
                if !contains_view(asked.as_slice(), full.as_str()) {
                    let a = ask_disk(full.as_str());
                    let ghost f = full@;
                    let ghost prev_asked = views(asked@);
                    let ghost prev_existing = views(existing@);
                    let ghost prev_answers = answers@;
                    asked.push(full.clone());
                    answers.push(a);
                    proof {
                        lemma_views_push(asked@.drop_last(), full);
                        assert(asked@.drop_last() =~= asked@.subrange(0, asked@.len() - 1));
                    }
                    assert(views(asked@) =~= prev_asked.push(f));
                    if a {
                        let ghost prev = existing@;
                        existing.push(full);
                        proof {
                            lemma_views_push(prev, full);
                            assert forall|x: Seq<char>| #[trigger] views(existing@).contains(x) implies exists|k: int|
                                0 <= k < tests.len() && (spec_snapshot_path(#[trigger] tests[k]) matches Some(p) && x
                                    == spec_join_path(project_root@, p)) by {
                                if x != f {
                                    let j = choose|j: int| 0 <= j < views(existing@).len() && views(existing@)[j] == x;
                                    assert(views(prev)[j] == x);
                                    assert(views(prev).contains(x));
                                }
                            }
                        }
                    }
                    proof {
                        assert(views(existing@) == prev_existing || views(existing@) == prev_existing.push(f));
                        assert forall|x: Seq<char>| #[trigger] views(existing@).contains(x) implies views(asked@).contains(x) by {
                            if x == f {
                                assert(views(asked@)[prev_asked.len() as int] == f);
                            } else {
                                if views(existing@) != prev_existing {
                                    let j = choose|j: int| 0 <= j < views(existing@).len() && views(existing@)[j] == x;
                                    assert(prev_existing[j] == x);
                                }
                                assert(prev_existing.contains(x));
                                let k = choose|k: int| 0 <= k < prev_asked.len() && prev_asked[k] == x;
                                assert(views(asked@)[k] == x);
                            }
                        }
                        assert forall|k: int| 0 <= k < asked@.len() implies (views(existing@).contains(#[trigger] views(asked@)[k])
                            <==> answers@[k]) by {
                            if k < prev_asked.len() {
                                assert(views(asked@)[k] == prev_asked[k]);
                                assert(answers@[k] == prev_answers[k]);
                                assert(prev_asked[k] != f);
                                if views(existing@) != prev_existing {
                                    if views(existing@).contains(prev_asked[k]) {
                                        let j = choose|j: int| 0 <= j < views(existing@).len() && views(existing@)[j] == prev_asked[k];
                                        assert(prev_existing[j] == prev_asked[k]);
                                    }
                                    if prev_existing.contains(prev_asked[k]) {
                                        let j = choose|j: int| 0 <= j < prev_existing.len() && prev_existing[j] == prev_asked[k];
                                        assert(views(existing@)[j] == prev_asked[k]);
                                    }
                                }
                            } else {
                                assert(views(asked@)[k] == f);
                                if a {
                                    assert(views(existing@)[prev_existing.len() as int] == f);
                                } else {
                                    assert(!prev_asked.contains(f));
                                }
                            }
                        }
                        assert forall|k: int| 0 <= k < asked@.len() implies disk_answered(#[trigger] views(asked@)[k], answers@[k]) by {
                            if k < prev_asked.len() {
                                assert(views(asked@)[k] == prev_asked[k]);
                            }
                        }
                        assert forall|j: int| 0 <= j <= i implies (#[trigger] spec_snapshot_path(tests[j]) matches Some(p)
                            ==> views(asked@).contains(spec_join_path(project_root@, p))) by {
                            if j < i {
                                if let Some(p) = spec_snapshot_path(tests[j]) {
                                    let k = choose|k: int| 0 <= k < prev_asked.len() && prev_asked[k] == spec_join_path(project_root@, p);
                                    assert(views(asked@)[k] == prev_asked[k]);
                                }
                            } else {
                                assert(views(asked@)[prev_asked.len() as int] == f);
                            }
                        }
                    }
                }
            },
            None => {},
        }
        i += 1;
    }
    let r = find_snapshot_files_in(test_files, project_root, existing.as_slice());
    assert(is_snapshots_in(views(test_files@), project_root@, views(existing@), views(r@)));
    proof {
        let present = snapshot_presence(tests, project_root@, views(existing@));
        assert forall|j: int| 0 <= j < test_files@.len() implies (#[trigger] spec_snapshot_path(views(test_files@)[j]) matches Some(sp)
            ==> disk_answered(spec_join_path(project_root@, sp), present[j])) by {
            if let Some(sp) = spec_snapshot_path(tests[j]) {
                let full = spec_join_path(project_root@, sp);
                let k = choose|k: int| 0 <= k < views(asked@).len() && views(asked@)[k] == full;
                assert(views(existing@).contains(views(asked@)[k]) <==> answers@[k]);
            }
        }
        assert(is_sorted_permutation(views(r@), spec_present_snapshots(tests, present)));
    }
    r
}

/// Every path in `existing` is one that the snapshot lookup asks about: the
/// snapshot path of one of the test files, joined to `root`.
pub open spec fn is_snapshot_probed(tests: Seq<Seq<char>>, root: Seq<char>, existing: Seq<Seq<char>>) -> bool {
    forall|x: Seq<char>| #[trigger] existing.contains(x) ==> exists|k: int|
        0 <= k < tests.len() && (spec_snapshot_path(#[trigger] tests[k]) matches Some(p) && x == spec_join_path(root, p))
}

// ---------------------------------------------------------------------------
// Laws
// ---------------------------------------------------------------------------

/// Filtering by extensions a second time changes nothing.
pub proof fn law_filter_by_extensions_idempotent(files: Seq<String>, extensions: Seq<Seq<char>>)
    ensures
        spec_filter_by_extensions(spec_filter_by_extensions(files, extensions), extensions)
            == spec_filter_by_extensions(files, extensions),
    decreases files.len(),
{
    reveal_with_fuel(Seq::filter, 1);
    let pred = |f: String| has_extension_in(f@, extensions);
    if files.len() > 0 {
        law_filter_by_extensions_idempotent(files.drop_last(), extensions);
        let rest = spec_filter_by_extensions(files.drop_last(), extensions);
        if pred(files.last()) {
            assert(rest.push(files.last()).drop_last() =~= rest);
        }
    }
}

/// Exactly the files with one of the extensions are kept.
pub proof fn law_filter_by_extensions_keeps_matching(files: Seq<String>, extensions: Seq<Seq<char>>)
    ensures
        forall|i: int| 0 <= i < spec_filter_by_extensions(files, extensions).len()
            ==> has_extension_in(#[trigger] spec_filter_by_extensions(files, extensions)[i]@, extensions),
        forall|i: int| 0 <= i < files.len() && has_extension_in(files[i]@, extensions)
            ==> #[trigger] spec_filter_by_extensions(files, extensions).contains(files[i]),
{
    broadcast use vstd::seq_lib::group_filter_ensures;
    let pred = |f: String| has_extension_in(f@, extensions);
    assert forall|i: int| 0 <= i < files.filter(pred).len() implies has_extension_in(#[trigger] files.filter(pred)[i]@, extensions) by {
        assert(pred(files.filter(pred)[i]));
    }
    assert forall|i: int| 0 <= i < files.len() && has_extension_in(files[i]@, extensions)
        implies #[trigger] files.filter(pred).contains(files[i]) by {
        assert(pred(files[i]));
    }
}

/// A file is kept exactly when its name ends with `.` followed by one of the
/// extensions, whatever else the name holds; nothing else is kept.
pub proof fn law_filter_keeps_files_by_suffix(files: Seq<String>, extensions: Seq<Seq<char>>)
    ensures
        forall|i: int, k: int|
            #![trigger files[i], extensions[k]]
            0 <= i < files.len() && 0 <= k < extensions.len() && (seq!['.'] + extensions[k]).is_suffix_of(files[i]@)
                ==> spec_filter_by_extensions(files, extensions).contains(files[i]),
        forall|x: String| #[trigger] spec_filter_by_extensions(files, extensions).contains(x)
            ==> files.contains(x) && exists|k: int| 0 <= k < extensions.len() && (seq!['.'] + extensions[k]).is_suffix_of(x@),
{
    broadcast use vstd::seq_lib::group_filter_ensures;
    let pred = |f: String| has_extension_in(f@, extensions);
    let kept = files.filter(pred);
    assert forall|i: int, k: int|
        #![trigger files[i], extensions[k]]
        0 <= i < files.len() && 0 <= k < extensions.len() && (seq!['.'] + extensions[k]).is_suffix_of(files[i]@)
        implies kept.contains(files[i]) by {
        assert(pred(files[i]));
    }
    assert forall|x: String| #[trigger] kept.contains(x)
        implies files.contains(x) && exists|k: int| 0 <= k < extensions.len() && (seq!['.'] + extensions[k]).is_suffix_of(x@) by {
        files.lemma_filter_contains_rev(pred, x);
        let m = choose|m: int| 0 <= m < kept.len() && kept[m] == x;
        assert(pred(kept[m]));
    }
}

/// A snapshot path is listed exactly when some test file has it and is
/// marked present.
pub proof fn lemma_present_snapshots_contains(tests: Seq<Seq<char>>, present: Seq<bool>, x: Seq<char>)
    ensures
        spec_present_snapshots(tests, present).contains(x) <==> exists|j: int|
            0 <= j < tests.len() && j < present.len() && present[j] && #[trigger] spec_snapshot_path(tests[j]) == Some(x),
    decreases tests.len(),
{
    if tests.len() > 0 {
        let pre = tests.drop_last();
        let n = tests.len() - 1;
        lemma_present_snapshots_contains(pre, present, x);
        let p = spec_present_snapshots(pre, present);
        if exists|j: int| 0 <= j < pre.len() && j < present.len() && present[j] && #[trigger] spec_snapshot_path(pre[j]) == Some(x) {
            let j = choose|j: int| 0 <= j < pre.len() && j < present.len() && present[j] && #[trigger] spec_snapshot_path(pre[j]) == Some(x);
            assert(tests[j] == pre[j]);
        }
        if let Some(sp) = spec_snapshot_path(tests.last()) {
            if n < present.len() && present[n] {
                if p.contains(x) {
                    let k = choose|k: int| 0 <= k < p.len() && p[k] == x;
                    assert(p.push(sp)[k] == x);
                }
                if x == sp {
                    assert(p.push(sp)[p.len() as int] == x);
                }
                if p.push(sp).contains(x) {
                    let k = choose|k: int| 0 <= k < p.push(sp).len() && p.push(sp)[k] == x;
                    if k < p.len() {
                        assert(p[k] == x);
                    }
                }
            }
        }
        if exists|j: int| 0 <= j < tests.len() && j < present.len() && present[j] && #[trigger] spec_snapshot_path(tests[j]) == Some(x) {
            let j = choose|j: int| 0 <= j < tests.len() && j < present.len() && present[j] && #[trigger] spec_snapshot_path(tests[j]) == Some(x);
            if j < n {
                assert(pre[j] == tests[j]);
            }
        }
    }
}

/// When the disk answers steadily about a test file's snapshot under the
/// root, the snapshot is listed if the disk said it exists, and not listed if
/// the disk said it does not.
pub proof fn law_snapshot_listed_when_on_disk(tests: Seq<Seq<char>>, root: Seq<char>, present: Seq<bool>, r: Seq<Seq<char>>, i: int, sp: Seq<char>)
    requires
        present.len() == tests.len(),
        forall|j: int| 0 <= j < tests.len() ==> (#[trigger] spec_snapshot_path(tests[j]) matches Some(p)
            ==> disk_answered(spec_join_path(root, p), present[j])),
        is_sorted_permutation(r, spec_present_snapshots(tests, present)),
        0 <= i < tests.len(),
        spec_snapshot_path(tests[i]) == Some(sp),
        disk_steady(spec_join_path(root, sp)),
    ensures
        disk_answered(spec_join_path(root, sp), true) ==> r.contains(sp),
        disk_answered(spec_join_path(root, sp), false) ==> !r.contains(sp),
{
    lemma_sorted_permutation_keeps_entries(r, spec_present_snapshots(tests, present));
    lemma_present_snapshots_contains(tests, present, sp);
    assert(disk_answered(spec_join_path(root, sp), present[i]));
}

/// A snapshot is never a runnable test.
pub proof fn law_snapshot_is_not_a_test(path: Seq<char>)
    requires
        ".snap"@.is_suffix_of(path),
    ensures
        !spec_is_test_file(path),
{
}

/// A test file, or a snapshot, has no test of its own to look for.
pub proof fn law_tests_are_not_looked_up(source: Seq<char>)
    requires
        (spec_file_stem(source) matches Some(stem) && (".test"@.is_suffix_of(stem) || ".spec"@.is_suffix_of(stem)))
            || spec_extension(source) == Some("snap"@),
    ensures
        spec_test_candidates(source) is None,
{
}

/// A sequence with `x` added at its end keeps having no repeats when `x` was
/// not in it.
pub proof fn lemma_push_no_duplicates(s: Seq<Seq<char>>, x: Seq<char>)
    requires
        s.no_duplicates(),
        !s.contains(x),
    ensures
        s.push(x).no_duplicates(),
{
    assert forall|i: int, j: int| 0 <= i < s.push(x).len() && 0 <= j < s.push(x).len() && i != j
        implies s.push(x)[i] != s.push(x)[j] by {
        if i < s.len() && j < s.len() {
        } else if i < s.len() {
            assert(s.contains(s[i]));
        } else {
            assert(s.contains(s[j]));
        }
    }
}

/// The test list holds each test once.
pub proof fn law_collected_tests_distinct(sources: Seq<Seq<char>>, found: Seq<Option<Seq<char>>>)
    ensures
        spec_collect(sources, found).no_duplicates(),
    decreases sources.len(),
{
    if sources.len() > 0 {
        law_collected_tests_distinct(sources.drop_last(), found);
        let acc = spec_collect(sources.drop_last(), found);
        let src = sources.last();
        if spec_is_test_file(src) && !acc.contains(src) {
            lemma_push_no_duplicates(acc, src);
        } else if !is_untestable_kind(src) {
            if let Some(t) = found_at(found, sources.len() - 1) {
                if !acc.contains(t) {
                    lemma_push_no_duplicates(acc, t);
                }
            }
        }
    }
}

/// `x` is one of the changed files and a test file.
pub open spec fn is_changed_test(sources: Seq<Seq<char>>, x: Seq<char>) -> bool {
    exists|i: int| 0 <= i < sources.len() && #[trigger] sources[i] == x && spec_is_test_file(sources[i])
}

/// `x` was found by the lookup for a changed file that is not a snapshot,
/// style sheet or image.
pub open spec fn is_looked_up(sources: Seq<Seq<char>>, found: Seq<Option<Seq<char>>>, x: Seq<char>) -> bool {
    exists|i: int| 0 <= i < sources.len() && !is_untestable_kind(sources[i]) && #[trigger] found_at(found, i) == Some(x)
}

/// `x` was found by the lookup for a changed file that is neither a test
/// file nor a snapshot, style sheet or image.
pub open spec fn is_found_test(sources: Seq<Seq<char>>, found: Seq<Option<Seq<char>>>, x: Seq<char>) -> bool {
    exists|i: int|
        0 <= i < sources.len() && !spec_is_test_file(sources[i]) && !is_untestable_kind(sources[i]) && #[trigger] found_at(
            found,
            i,
        ) == Some(x)
}

/// Every listed test is a changed test file or the test found for a changed
/// file that can have one.
pub proof fn law_collected_tests_come_from_sources(sources: Seq<Seq<char>>, found: Seq<Option<Seq<char>>>, x: Seq<char>)
    requires
        spec_collect(sources, found).contains(x),
    ensures
        is_changed_test(sources, x) || is_looked_up(sources, found, x),
    decreases sources.len(),
{
    let n = sources.len() - 1;
    let pre = sources.drop_last();
    let acc = spec_collect(pre, found);
    if acc.contains(x) {
        law_collected_tests_come_from_sources(pre, found, x);
        if is_changed_test(pre, x) {
            let i = choose|i: int| 0 <= i < pre.len() && #[trigger] pre[i] == x && spec_is_test_file(pre[i]);
            assert(sources[i] == pre[i]);
        } else {
            let i = choose|i: int| 0 <= i < pre.len() && !is_untestable_kind(pre[i]) && #[trigger] found_at(found, i) == Some(x);
            assert(sources[i] == pre[i]);
        }
    } else {
        let src = sources.last();
        if spec_is_test_file(src) && !acc.contains(src) {
            assert(acc.push(src).contains(x));
            assert(x == src);
            assert(sources[n] == x && spec_is_test_file(sources[n]));
        } else {
            assert(!is_untestable_kind(sources[n]) && found_at(found, n) == Some(x));
        }
    }
}

/// The test list only grows as changed files are added.
pub proof fn lemma_collect_grows(sources: Seq<Seq<char>>, found: Seq<Option<Seq<char>>>, x: Seq<char>)
    requires
        sources.len() > 0,
        spec_collect(sources.drop_last(), found).contains(x),
    ensures
        spec_collect(sources, found).contains(x),
{
    let acc = spec_collect(sources.drop_last(), found);
    let k = choose|k: int| 0 <= k < acc.len() && acc[k] == x;
    let next = spec_collect(sources, found);
    if next != acc {
        assert(next.len() == acc.len() + 1 && next[k] == acc[k]);
    }
}

/// Every changed test file is listed, and so is the test found for every
/// changed file that is neither a test nor a snapshot, style sheet or image.
pub proof fn law_collected_tests_complete(sources: Seq<Seq<char>>, found: Seq<Option<Seq<char>>>, x: Seq<char>)
    requires
        is_changed_test(sources, x) || is_found_test(sources, found, x),
    ensures
        spec_collect(sources, found).contains(x),
    decreases sources.len(),
{
    let n = sources.len() - 1;
    let pre = sources.drop_last();
    let acc = spec_collect(pre, found);
    let src = sources.last();
    let i = if is_changed_test(sources, x) {
        choose|i: int| 0 <= i < sources.len() && #[trigger] sources[i] == x && spec_is_test_file(sources[i])
    } else {
        choose|i: int|
            0 <= i < sources.len() && !spec_is_test_file(sources[i]) && !is_untestable_kind(sources[i]) && #[trigger] found_at(
                found,
                i,
            ) == Some(x)
    };
    if i < n {
        if is_changed_test(sources, x) && sources[i] == x && spec_is_test_file(sources[i]) {
            assert(pre[i] == sources[i]);
            assert(is_changed_test(pre, x));
        } else {
            assert(pre[i] == sources[i]);
            assert(is_found_test(pre, found, x));
        }
        law_collected_tests_complete(pre, found, x);
        lemma_collect_grows(sources, found, x);
    } else {
        let next = spec_collect(sources, found);
        if acc.contains(x) {
            lemma_collect_grows(sources, found, x);
        } else if sources[i] == x && spec_is_test_file(sources[i]) {
            assert(src == x);
            assert(next == acc.push(src));
            assert(next[acc.len() as int] == x);
        } else {
            assert(found_at(found, n) == Some(x));
            assert(next == acc.push(x));
            assert(next[acc.len() as int] == x);
        }
    }
}

/// A sorted rearrangement of a sequence without repeats has no repeats, and
/// holds the same entries.
pub proof fn lemma_sorted_permutation_keeps_entries(r: Seq<Seq<char>>, s: Seq<Seq<char>>)
    requires
        is_sorted_permutation(r, s),
    ensures
        s.no_duplicates() ==> r.no_duplicates(),
        forall|x: Seq<char>| #[trigger] r.contains(x) <==> s.contains(x),
{
    broadcast use vstd::seq_lib::to_multiset_contains;
    if s.no_duplicates() {
        s.lemma_multiset_has_no_duplicates();
        r.lemma_multiset_has_no_duplicates_conv();
    }
    assert forall|x: Seq<char>| #[trigger] r.contains(x) <==> s.contains(x) by {
        assert(r.to_multiset().count(x) == s.to_multiset().count(x));
    }
}

/// The test list `collect_test_files` returns holds each test once, and only
/// changed test files and tests found for changed files.
pub proof fn law_collect_test_files_result(sources: Seq<Seq<char>>, root: Seq<char>, r: Seq<Seq<char>>, x: Seq<char>)
    requires
        is_collected_tests(sources, root, r),
    ensures
        r.no_duplicates(),
        r.contains(x) ==> exists|i: int| 0 <= i < sources.len() && ((x == sources[i] && spec_is_test_file(sources[i]))
            || (spec_test_candidates(sources[i]) matches Some(cs) && cs.contains(x))),
{
    let found = choose|found: Seq<Option<Seq<char>>>|
        found.len() == sources.len() && (forall|i: int| 0 <= i < sources.len() ==> is_lookup_of(#[trigger] sources[i], root, found[i]))
            && is_sorted_permutation(r, #[trigger] spec_collect(sources, found));
    law_collected_tests_distinct(sources, found);
    lemma_sorted_permutation_keeps_entries(r, spec_collect(sources, found));
    if r.contains(x) {
        law_collected_tests_come_from_sources(sources, found, x);
        if is_changed_test(sources, x) {
            let i = choose|i: int| 0 <= i < sources.len() && #[trigger] sources[i] == x && spec_is_test_file(sources[i]);
            assert(x == sources[i] && spec_is_test_file(sources[i]));
        } else {
            let i = choose|i: int| 0 <= i < sources.len() && !is_untestable_kind(sources[i]) && #[trigger] found_at(found, i) == Some(x);
            assert(is_lookup_of(sources[i], root, found[i]));
            let existing = choose|existing: Seq<Seq<char>>|
                is_probed(sources[i], root, existing) && found[i] == #[trigger] spec_find_test_file_in(sources[i], root, existing);
            let cs = spec_test_candidates(sources[i])->0;
            lemma_first_existing_member(cs, presence(root, cs, existing));
        }
    }
}

/// The list `collect_test_files` returns is strictly ascending, and, for the
/// answers its lookups under `root` got: every entry is a changed test file
/// or a test found for a changed file that is not a snapshot, style sheet or
/// image; every changed test file is listed, and so is every test found for a
/// changed file that is none of these nor a test itself. When no changed test
/// file has candidates of its own (true of every file whose stem ends in
/// `.test` or `.spec`), the entries are exactly those.
pub proof fn law_collect_test_files_members(sources: Seq<Seq<char>>, root: Seq<char>, r: Seq<Seq<char>>)
    requires
        is_collected_tests(sources, root, r),
    ensures
        r.no_duplicates(),
        sorted_seqs(r),
        exists|found: Seq<Option<Seq<char>>>|
            found.len() == sources.len()
                && (forall|i: int| 0 <= i < sources.len() ==> is_lookup_of(#[trigger] sources[i], root, found[i]))
                && (forall|x: Seq<char>| #[trigger] r.contains(x) ==> is_changed_test(sources, x) || is_looked_up(sources, found, x))
                && (forall|x: Seq<char>| is_changed_test(sources, x) || is_found_test(sources, found, x) ==> #[trigger] r.contains(x))
                && ((forall|i: int| 0 <= i < sources.len() && spec_is_test_file(sources[i]) ==> (#[trigger] spec_test_candidates(sources[i])) is None)
                    ==> forall|x: Seq<char>| #[trigger] r.contains(x) <==> (is_changed_test(sources, x) || is_found_test(sources, found, x))),
{
    let found = choose|found: Seq<Option<Seq<char>>>|
        found.len() == sources.len() && (forall|i: int| 0 <= i < sources.len() ==> is_lookup_of(#[trigger] sources[i], root, found[i]))
            && is_sorted_permutation(r, #[trigger] spec_collect(sources, found));
    let c = spec_collect(sources, found);
    law_collected_tests_distinct(sources, found);
    lemma_sorted_permutation_keeps_entries(r, c);
    assert forall|x: Seq<char>| #[trigger] r.contains(x) implies is_changed_test(sources, x) || is_looked_up(sources, found, x) by {
        law_collected_tests_come_from_sources(sources, found, x);
    }
    assert forall|x: Seq<char>| is_changed_test(sources, x) || is_found_test(sources, found, x) implies #[trigger] r.contains(x) by {
        law_collected_tests_complete(sources, found, x);
    }
    if forall|i: int| 0 <= i < sources.len() && spec_is_test_file(sources[i]) ==> (#[trigger] spec_test_candidates(sources[i])) is None {
        assert forall|x: Seq<char>| #[trigger] r.contains(x) implies (is_changed_test(sources, x) || is_found_test(sources, found, x)) by {
            law_collected_tests_come_from_sources(sources, found, x);
            if !is_changed_test(sources, x) {
                let i = choose|i: int| 0 <= i < sources.len() && !is_untestable_kind(sources[i]) && #[trigger] found_at(found, i) == Some(x);
                assert(is_lookup_of(sources[i], root, found[i]));
                if spec_is_test_file(sources[i]) {
                    assert(spec_test_candidates(sources[i]) is None);
                    let existing = choose|existing: Seq<Seq<char>>|
                        is_probed(sources[i], root, existing) && found[i] == #[trigger] spec_find_test_file_in(sources[i], root, existing);
                    assert(found[i] is None);
                }
            }
        }
    }
}

/// The first existing candidate is one of the candidates.
pub proof fn lemma_first_existing_member(cs: Seq<Seq<char>>, found: Seq<bool>)
    ensures
        spec_first_existing(cs, found) matches Some(x) ==> cs.contains(x),
    decreases cs.len(),
{
    if cs.len() > 0 && found.len() > 0 && !found[0] {
        lemma_first_existing_member(cs.drop_first(), found.drop_first());
        if let Some(x) = spec_first_existing(cs.drop_first(), found.drop_first()) {
            let k = choose|k: int| 0 <= k < cs.drop_first().len() && cs.drop_first()[k] == x;
            assert(cs[k + 1] == x);
        }
    } else if cs.len() > 0 && found.len() > 0 {
        assert(cs[0] == cs[0]);
    }
}

} // verus!
