//! Versions: reading one out of a manifest, and deciding whether one is newer.

use vstd::prelude::*;
use crate::files::opt_view;
use crate::text::{join, lemma_split_nonempty, lines, parse_u64, seq_lt, spec_join, spec_lines, spec_parse_u64, spec_split, spec_trim, split_char, starts_with, str_eq, str_less, trim, trim_end_char, trim_matches_char, trim_start_char, views};

verus! {

/// The numbers among the pieces, in order; pieces that are not numbers are skipped.
pub open spec fn numbers_among(pieces: Seq<Seq<char>>) -> Seq<u64>
    decreases pieces.len(),
{
    if pieces.len() == 0 {
        Seq::empty()
    } else {
        let p = numbers_among(pieces.drop_last());
        match spec_parse_u64(pieces.last()) {
            Some(v) => p.push(v),
            None => p,
        }
    }
}

/// The version without its build metadata (from the first `+` on).
pub open spec fn without_build(s: Seq<char>) -> Seq<char> {
    spec_split(s, '+')[0]
}

/// The version core: before the first `-`, build metadata left out.
pub open spec fn version_core(s: Seq<char>) -> Seq<char> {
    spec_split(without_build(s), '-')[0]
}

/// The pre-release identifiers: the dot-separated pieces after the first
/// `-`, when there is one.
pub open spec fn pre_release(s: Seq<char>) -> Option<Seq<Seq<char>>> {
    let p = spec_split(without_build(s), '-');
    if p.len() > 1 {
        Some(spec_split(spec_join(p.drop_first(), "-"@), '.'))
    } else {
        None
    }
}

/// The numeric parts of the version core, as `1.2.3-rc.1` gives `[1, 2, 3]`.
pub open spec fn version_parts(s: Seq<char>) -> Seq<u64> {
    numbers_among(spec_split(version_core(s), '.'))
}

/// Lexicographic order on sequences of numbers: a proper prefix comes first.
pub open spec fn parts_lt(a: Seq<u64>, b: Seq<u64>) -> bool
    decreases a.len(),
{
    if a.len() == 0 {
        b.len() > 0
    } else if b.len() == 0 {
        false
    } else if a[0] < b[0] {
        true
    } else if a[0] == b[0] {
        parts_lt(a.drop_first(), b.drop_first())
    } else {
        false
    }
}

/// The value of a numeric pre-release identifier (digits only).
pub open spec fn identifier_number(id: Seq<char>) -> Option<u64> {
    if id.len() > 0 && id[0] == '+' {
        None
    } else {
        spec_parse_u64(id)
    }
}

/// Semver order of two pre-release identifiers: numeric ones by value,
/// numeric before alphanumeric, alphanumeric ones in ASCII order.
pub open spec fn identifier_lt(a: Seq<char>, b: Seq<char>) -> bool {
    match (identifier_number(a), identifier_number(b)) {
        (Some(x), Some(y)) => x < y,
        (Some(_), None) => true,
        (None, Some(_)) => false,
        (None, None) => seq_lt(a, b),
    }
}

/// Semver order of two pre-release identifier lists: identifier by
/// identifier; a list that is a proper prefix of the other comes first.
pub open spec fn pre_release_lt(a: Seq<Seq<char>>, b: Seq<Seq<char>>) -> bool
    decreases a.len(),
{
    if a.len() == 0 {
        b.len() > 0
    } else if b.len() == 0 {
        false
    } else if identifier_lt(a[0], b[0]) {
        true
    } else if a[0] == b[0] {
        pre_release_lt(a.drop_first(), b.drop_first())
    } else {
        false
    }
}

/// Semver precedence: version `b` comes before version `a`. The numeric
/// cores decide first; with equal cores a pre-release comes before the
/// release, and two pre-releases go by their identifiers. Build metadata
/// plays no part.
pub open spec fn version_lt(b: Seq<char>, a: Seq<char>) -> bool {
    if version_parts(b) != version_parts(a) {
        parts_lt(version_parts(b), version_parts(a))
    } else {
        match (pre_release(b), pre_release(a)) {
            (Some(_), None) => true,
            (Some(pb), Some(pa)) => pre_release_lt(pb, pa),
            _ => false,
        }
    }
}

fn version_numbers(core: &str) -> (r: Vec<u64>)
    ensures
        r@ == numbers_among(spec_split(core@, '.')),
{
    let pieces = split_char(core, '.');
    let ghost ps = views(pieces@);
    let mut out: Vec<u64> = Vec::new();
    let mut i: usize = 0;
    while i < pieces.len()
        invariant
            i <= pieces.len(),
            ps == views(pieces@),
            ps == spec_split(core@, '.'),
            out@ == numbers_among(ps.subrange(0, i as int)),
        decreases pieces.len() - i,
    {
        proof {
            assert(ps.subrange(0, i + 1).drop_last() =~= ps.subrange(0, i as int));
            assert(ps.subrange(0, i + 1).last() == pieces@[i as int]@);
        }
        match parse_u64(pieces[i].as_str()) {
            Some(v) => out.push(v),
            None => {},
        }
        i += 1;
    }
    assert(ps.subrange(0, ps.len() as int) == ps);
    out
}

/// The characters of each string of an optional list.
pub open spec fn opt_list_view(o: Option<Vec<String>>) -> Option<Seq<Seq<char>>> {
    match o {
        Some(v) => Some(views(v@)),
        None => None,
    }
}

fn split_version(s: &str) -> (r: (Vec<u64>, Option<Vec<String>>))
    ensures
        r.0@ == version_parts(s@),
        opt_list_view(r.1) == pre_release(s@),
{
    proof {
        lemma_split_nonempty(s@, '+');
    }
    let plus = split_char(s, '+');
    assert(views(plus@)[0] == plus@[0]@);
    let v = plus[0].as_str();
    proof {
        lemma_split_nonempty(v@, '-');
    }
    let mut dash = split_char(v, '-');
    let ghost all = views(dash@);
    assert(views(dash@)[0] == dash@[0]@);
    let core = dash.remove(0);
    assert(views(dash@) =~= all.drop_first());
    let parts = version_numbers(core.as_str());
    if dash.len() > 0 {
        let rest = join(dash.as_slice(), "-");
        let ids = split_char(rest.as_str(), '.');
        (parts, Some(ids))
    } else {
        (parts, None)
    }
}

fn same_parts(x: &Vec<u64>, y: &Vec<u64>) -> (r: bool)
    ensures
        r == (x@ == y@),
{
    if x.len() != y.len() {
        return false;
    }
    let mut i: usize = 0;
    while i < x.len()
        invariant
            i <= x.len(),
            x.len() == y.len(),
            forall|k: int| 0 <= k < i ==> x@[k] == y@[k],
        decreases x.len() - i,
    {
        if x[i] != y[i] {
            return false;
        }
        i += 1;
    }
    assert(x@ =~= y@);
    true
}

fn parts_less(x: &Vec<u64>, y: &Vec<u64>) -> (r: bool)
    ensures
        r == parts_lt(x@, y@),
{
    assert(x@.subrange(0, x@.len() as int) == x@);
    assert(y@.subrange(0, y@.len() as int) == y@);
    let mut i: usize = 0;
    while i < x.len() && i < y.len()
        invariant
            i <= x.len(),
            i <= y.len(),
            parts_lt(x@, y@) == parts_lt(x@.subrange(i as int, x@.len() as int), y@.subrange(i as int, y@.len() as int)),
        decreases x.len() - i,
    {
        let ghost a = x@.subrange(i as int, x@.len() as int);
        let ghost b = y@.subrange(i as int, y@.len() as int);
        assert(a[0] == x@[i as int] && b[0] == y@[i as int]);
        if x[i] != y[i] {
            return x[i] < y[i];
        }
        assert(a.drop_first() =~= x@.subrange(i + 1, x@.len() as int));
        assert(b.drop_first() =~= y@.subrange(i + 1, y@.len() as int));
        i += 1;
    }
    y.len() > x.len()
}

fn identifier_value(id: &str) -> (r: Option<u64>)
    ensures
        r == identifier_number(id@),
{
    proof {
        reveal_strlit("+");
        assert("+"@ =~= seq!['+']);
        if id@.len() > 0 && id@[0] == '+' {
            assert("+"@ =~= id@.subrange(0, 1));
        }
    }
    let signed = starts_with(id, "+");
    proof {
        if signed {
            assert(id@.subrange(0, 1) == "+"@);
            assert(id@.subrange(0, 1)[0] == id@[0]);
        }
    }
    if signed {
        None
    } else {
        parse_u64(id)
    }
}

fn identifier_less(a: &str, b: &str) -> (r: bool)
    ensures
        r == identifier_lt(a@, b@),
{
    match (identifier_value(a), identifier_value(b)) {
        (Some(x), Some(y)) => x < y,
        (Some(_), None) => true,
        (None, Some(_)) => false,
        (None, None) => str_less(a, b),
    }
}

fn pre_release_less(a: &Vec<String>, b: &Vec<String>) -> (r: bool)
    ensures
        r == pre_release_lt(views(a@), views(b@)),
{
    let ghost va = views(a@);
    let ghost vb = views(b@);
    assert(va.subrange(0, va.len() as int) == va);
    assert(vb.subrange(0, vb.len() as int) == vb);
    let mut i: usize = 0;
    while i < a.len() && i < b.len()
        invariant
            i <= a.len(),
            i <= b.len(),
            va == views(a@),
            vb == views(b@),
            pre_release_lt(va, vb) == pre_release_lt(va.subrange(i as int, va.len() as int), vb.subrange(i as int, vb.len() as int)),
        decreases a.len() - i,
    {
        let ghost x = va.subrange(i as int, va.len() as int);
        let ghost y = vb.subrange(i as int, vb.len() as int);
        assert(x[0] == a@[i as int]@ && y[0] == b@[i as int]@);
        if identifier_less(a[i].as_str(), b[i].as_str()) {
            return true;
        }
        if !str_eq(a[i].as_str(), b[i].as_str()) {
            return false;
        }
        assert(x.drop_first() =~= va.subrange(i + 1, va.len() as int));
        assert(y.drop_first() =~= vb.subrange(i + 1, vb.len() as int));
        i += 1;
    }
    b.len() > a.len()
}

/// Compare semver strings: true when `a` is strictly greater than `b` in
/// semver precedence (numeric core first, then the pre-release, build
/// metadata ignored).
pub fn is_newer(a: &str, b: &str) -> (r: bool)
    ensures
        r == version_lt(b@, a@),
{
    let (ca, pa) = split_version(a);
    let (cb, pb) = split_version(b);
    if !same_parts(&cb, &ca) {
        return parts_less(&cb, &ca);
    }
    match (pb, pa) {
        (Some(_), None) => true,
        (Some(x), Some(y)) => pre_release_less(&x, &y),
        _ => false,
    }
}

/// Lexicographic order of numbers is irreflexive.
pub proof fn lemma_parts_irreflexive(a: Seq<u64>)
    ensures
        !parts_lt(a, a),
    decreases a.len(),
{
    if a.len() > 0 {
        lemma_parts_irreflexive(a.drop_first());
    }
}

/// Lexicographic order of numbers is asymmetric.
pub proof fn lemma_parts_asymmetric(a: Seq<u64>, b: Seq<u64>)
    ensures
        !(parts_lt(a, b) && parts_lt(b, a)),
    decreases a.len(),
{
    if a.len() > 0 && b.len() > 0 && a[0] == b[0] {
        lemma_parts_asymmetric(a.drop_first(), b.drop_first());
    }
}

/// Lexicographic order of numbers is transitive.
pub proof fn lemma_parts_transitive(a: Seq<u64>, b: Seq<u64>, c: Seq<u64>)
    requires
        parts_lt(a, b),
        parts_lt(b, c),
    ensures
        parts_lt(a, c),
    decreases a.len(),
{
    if a.len() > 0 && b.len() > 0 && c.len() > 0 && a[0] == b[0] && b[0] == c[0] {
        lemma_parts_transitive(a.drop_first(), b.drop_first(), c.drop_first());
    }
}

/// String order is irreflexive and asymmetric.
pub proof fn lemma_seq_lt_strict(a: Seq<char>, b: Seq<char>)
    ensures
        !seq_lt(a, a),
        !(seq_lt(a, b) && seq_lt(b, a)),
    decreases a.len(),
{
    if a.len() > 0 {
        lemma_seq_lt_strict(a.drop_first(), a.drop_first());
        if b.len() > 0 {
            lemma_seq_lt_strict(a.drop_first(), b.drop_first());
        }
    }
}

/// String order is transitive.
pub proof fn lemma_seq_lt_transitive(a: Seq<char>, b: Seq<char>, c: Seq<char>)
    requires
        seq_lt(a, b),
        seq_lt(b, c),
    ensures
        seq_lt(a, c),
    decreases a.len(),
{
    if a.len() > 0 && b.len() > 0 && c.len() > 0 && a[0] == b[0] && b[0] == c[0] {
        lemma_seq_lt_transitive(a.drop_first(), b.drop_first(), c.drop_first());
    }
}

/// Identifier order is irreflexive and asymmetric.
pub proof fn lemma_identifier_strict(a: Seq<char>, b: Seq<char>)
    ensures
        !identifier_lt(a, a),
        !(identifier_lt(a, b) && identifier_lt(b, a)),
{
    lemma_seq_lt_strict(a, b);
}

/// Identifier order is transitive.
pub proof fn lemma_identifier_transitive(a: Seq<char>, b: Seq<char>, c: Seq<char>)
    requires
        identifier_lt(a, b),
        identifier_lt(b, c),
    ensures
        identifier_lt(a, c),
{
    if identifier_number(a) is None && identifier_number(b) is None && identifier_number(c) is None {
        lemma_seq_lt_transitive(a, b, c);
    }
}

/// Pre-release order is irreflexive and asymmetric.
pub proof fn lemma_pre_release_strict(a: Seq<Seq<char>>, b: Seq<Seq<char>>)
    ensures
        !pre_release_lt(a, a),
        !(pre_release_lt(a, b) && pre_release_lt(b, a)),
    decreases a.len(),
{
    if a.len() > 0 {
        lemma_identifier_strict(a[0], a[0]);
        lemma_pre_release_strict(a.drop_first(), a.drop_first());
        if b.len() > 0 {
            lemma_identifier_strict(a[0], b[0]);
            lemma_pre_release_strict(a.drop_first(), b.drop_first());
        }
    }
}

/// Pre-release order is transitive.
pub proof fn lemma_pre_release_transitive(a: Seq<Seq<char>>, b: Seq<Seq<char>>, c: Seq<Seq<char>>)
    requires
        pre_release_lt(a, b),
        pre_release_lt(b, c),
    ensures
        pre_release_lt(a, c),
    decreases a.len(),
{
    if a.len() > 0 && b.len() > 0 && c.len() > 0 {
        lemma_identifier_strict(a[0], b[0]);
        lemma_identifier_strict(b[0], c[0]);
        lemma_identifier_strict(a[0], c[0]);
        if identifier_lt(a[0], b[0]) && identifier_lt(b[0], c[0]) {
            lemma_identifier_transitive(a[0], b[0], c[0]);
        } else if a[0] == b[0] && b[0] == c[0] {
            lemma_pre_release_transitive(a.drop_first(), b.drop_first(), c.drop_first());
        }
    }
}

/// No version is newer than itself.
pub proof fn law_newer_irreflexive(a: Seq<char>)
    ensures
        !version_lt(a, a),
{
    if let Some(p) = pre_release(a) {
        lemma_pre_release_strict(p, p);
    }
}

/// Of two versions, at most one is newer than the other.
pub proof fn law_newer_asymmetric(a: Seq<char>, b: Seq<char>)
    ensures
        !(version_lt(a, b) && version_lt(b, a)),
{
    lemma_parts_asymmetric(version_parts(a), version_parts(b));
    if let (Some(pa), Some(pb)) = (pre_release(a), pre_release(b)) {
        lemma_pre_release_strict(pa, pb);
    }
}

/// A version newer than one newer than a third is newer than the third.
pub proof fn law_newer_transitive(a: Seq<char>, b: Seq<char>, c: Seq<char>)
    requires
        version_lt(a, b),
        version_lt(b, c),
    ensures
        version_lt(a, c),
{
    let (x, y, z) = (version_parts(a), version_parts(b), version_parts(c));
    lemma_parts_asymmetric(x, y);
    lemma_parts_asymmetric(y, z);
    lemma_parts_asymmetric(x, z);
    lemma_parts_irreflexive(x);
    if parts_lt(x, y) && parts_lt(y, z) {
        lemma_parts_transitive(x, y, z);
    }
    if let (Some(pa), Some(pb), Some(pc)) = (pre_release(a), pre_release(b), pre_release(c)) {
        if pre_release_lt(pa, pb) && pre_release_lt(pb, pc) {
            lemma_pre_release_transitive(pa, pb, pc);
        }
    }
}

/// The version a manifest line declares: a line that, trimmed, starts with
/// `version` and holds an `=`; the text after the first `=`, trimmed and
/// without surrounding quotes.
pub open spec fn version_of_line(line: Seq<char>) -> Option<Seq<char>> {
    let t = spec_trim(line);
    if "version"@.is_prefix_of(t) {
        let pieces = spec_split(t, '=');
        if pieces.len() > 1 {
            Some(trim_end_char(trim_start_char(spec_trim(pieces[1]), '"'), '"'))
        } else {
            None
        }
    } else {
        None
    }
}

/// The version declared by the first line that declares one.
pub open spec fn first_version(ls: Seq<Seq<char>>) -> Option<Seq<char>>
    decreases ls.len(),
{
    if ls.len() == 0 {
        None
    } else {
        match version_of_line(ls[0]) {
            Some(v) => Some(v),
            None => first_version(ls.drop_first()),
        }
    }
}

/// The version a `Cargo.toml` declares: the first line that starts with
/// `version` and has a value after `=`.
pub fn manifest_version(manifest: &str) -> (r: Option<String>)
    ensures
        opt_view(r) == first_version(spec_lines(manifest@)),
{
    let ls = lines(manifest);
    let ghost all = views(ls@);
    let mut i: usize = 0;
    assert(all.subrange(0, all.len() as int) == all);
    while i < ls.len()
        invariant
            i <= ls.len(),
            all == views(ls@),
            all == spec_lines(manifest@),
            first_version(all) == first_version(all.subrange(i as int, all.len() as int)),
        decreases ls.len() - i,
    {
        let ghost rest = all.subrange(i as int, all.len() as int);
        assert(rest[0] == ls@[i as int]@);
        let line = trim(ls[i].as_str());
        if starts_with(line, "version") {
            let pieces = split_char(line, '=');
            if pieces.len() > 1 {
                assert(views(pieces@)[1] == pieces@[1]@);
                let value = trim_matches_char(trim(pieces[1].as_str()), '"');
                return Some(String::from_str(value));
            }
        }
        assert(rest.drop_first() =~= all.subrange(i + 1, all.len() as int));
        i += 1;
    }
    None
}

} // verus!
