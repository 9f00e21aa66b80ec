//! Models of the string operations that the checks rely on, and the
//! standard-library calls that perform them.
//!
//! Each function marked `external_body` below makes exactly one call into
//! `std` and states, over the spec functions of this module, what the
//! standard library documents that call to return.

use vstd::prelude::*;

verus! {

// ---------------------------------------------------------------------------
// Character classes
// ---------------------------------------------------------------------------

/// The Unicode `White_Space` property (PropList.txt), which `char::is_whitespace`
/// and `str::trim` use.
pub open spec fn is_whitespace(c: char) -> bool {
    let u = c as u32;
    ||| 0x09 <= u <= 0x0d
    ||| u == 0x20
    ||| u == 0x85
    ||| u == 0xa0
    ||| u == 0x1680
    ||| 0x2000 <= u <= 0x200a
    ||| u == 0x2028
    ||| u == 0x2029
    ||| u == 0x202f
    ||| u == 0x205f
    ||| u == 0x3000
}

/// ASCII letters `A`..=`Z` mapped to `a`..=`z`; every other character unchanged.
pub open spec fn ascii_lower_char(c: char) -> char {
    if 'A' <= c <= 'Z' {
        ((c as u32) + 32) as char
    } else {
        c
    }
}

/// Every character of `s` is ASCII.
pub open spec fn all_ascii(s: Seq<char>) -> bool {
    forall|i: int| 0 <= i < s.len() ==> (#[trigger] s[i] as u32) < 128
}

// ---------------------------------------------------------------------------
// Searching
// ---------------------------------------------------------------------------

/// `p` occurs somewhere inside `s` as a contiguous run of characters.
pub open spec fn seq_contains_infix(s: Seq<char>, p: Seq<char>) -> bool {
    exists|i: int| 0 <= i <= s.len() - p.len() && #[trigger] s.subrange(i, i + p.len()) == p
}

/// `str::starts_with` with a string pattern: true exactly when `prefix` is a prefix of `s`.
#[verifier::external_body]
pub(crate) fn starts_with(s: &str, prefix: &str) -> (r: bool)
    ensures
        r == prefix@.is_prefix_of(s@),
{
    s.starts_with(prefix)
}

/// `str::ends_with` with a string pattern: true exactly when `suffix` is a suffix of `s`.
#[verifier::external_body]
pub(crate) fn ends_with(s: &str, suffix: &str) -> (r: bool)
    ensures
        r == suffix@.is_suffix_of(s@),
{
    s.ends_with(suffix)
}

/// `str::contains` with a string pattern: true exactly when `pat` occurs in `s`.
#[verifier::external_body]
pub(crate) fn contains(s: &str, pat: &str) -> (r: bool)
    ensures
        r == seq_contains_infix(s@, pat@),
{
    s.contains(pat)
}

/// `<str as PartialEq>::eq`: true exactly when both strings hold the same characters.
#[verifier::external_body]
pub(crate) fn str_eq(a: &str, b: &str) -> (r: bool)
    ensures
        r == (a@ == b@),
{
    a == b
}

// ---------------------------------------------------------------------------
// Trimming
// ---------------------------------------------------------------------------

/// `s` without its leading white space.
pub open spec fn trim_start_ws(s: Seq<char>) -> Seq<char>
    decreases s.len(),
{
    if s.len() > 0 && is_whitespace(s[0]) {
        trim_start_ws(s.drop_first())
    } else {
        s
    }
}

/// `s` without its trailing white space.
pub open spec fn trim_end_ws(s: Seq<char>) -> Seq<char>
    decreases s.len(),
{
    if s.len() > 0 && is_whitespace(s.last()) {
        trim_end_ws(s.drop_last())
    } else {
        s
    }
}

/// `s` without leading and trailing white space.
pub open spec fn spec_trim(s: Seq<char>) -> Seq<char> {
    trim_end_ws(trim_start_ws(s))
}

/// `s` without any trailing copies of `c`.
pub open spec fn trim_end_char(s: Seq<char>, c: char) -> Seq<char>
    decreases s.len(),
{
    if s.len() > 0 && s.last() == c {
        trim_end_char(s.drop_last(), c)
    } else {
        s
    }
}

/// `s` without any leading copies of `c`.
pub open spec fn trim_start_char(s: Seq<char>, c: char) -> Seq<char>
    decreases s.len(),
{
    if s.len() > 0 && s[0] == c {
        trim_start_char(s.drop_first(), c)
    } else {
        s
    }
}

/// `str::trim`: removes leading and trailing white space.
#[verifier::external_body]
pub(crate) fn trim(s: &str) -> (r: &str)
    ensures
        r@ == spec_trim(s@),
{
    s.trim()
}

/// `str::trim_start`: removes leading white space.
#[verifier::external_body]
pub(crate) fn trim_start(s: &str) -> (r: &str)
    ensures
        r@ == trim_start_ws(s@),
{
    s.trim_start()
}

/// Removing leading white space leaves `s` as it is exactly when it does not
/// begin with white space.
pub proof fn lemma_trim_start_unchanged(s: Seq<char>)
    ensures
        trim_start_ws(s).len() <= s.len(),
        (trim_start_ws(s) == s) <==> !(s.len() > 0 && is_whitespace(s[0])),
    decreases s.len(),
{
    if s.len() > 0 && is_whitespace(s[0]) {
        lemma_trim_start_unchanged(s.drop_first());
    }
}

/// `str::trim_end_matches` with a `char` pattern: removes every trailing `c`.
#[verifier::external_body]
pub(crate) fn trim_end_matches_char(s: &str, c: char) -> (r: &str)
    ensures
        r@ == trim_end_char(s@, c),
{
    s.trim_end_matches(c)
}

/// `str::trim_matches` with a `char` pattern: removes every leading and trailing `c`.
#[verifier::external_body]
pub(crate) fn trim_matches_char(s: &str, c: char) -> (r: &str)
    ensures
        r@ == trim_end_char(trim_start_char(s@, c), c),
{
    s.trim_matches(c)
}

/// `str::strip_prefix` with a string pattern: the rest of `s` after `prefix`,
/// when `s` starts with it.
#[verifier::external_body]
pub(crate) fn strip_prefix(s: &str, prefix: &str) -> (r: Option<String>)
    ensures
        prefix@.is_prefix_of(s@) ==> r is Some && r->0@ == s@.subrange(prefix@.len() as int, s@.len() as int),
        !prefix@.is_prefix_of(s@) ==> r.is_none(),
{
    s.strip_prefix(prefix).map(|rest| rest.to_string())
}

// ---------------------------------------------------------------------------
// Splitting and joining
// ---------------------------------------------------------------------------

/// The pieces of `s` between occurrences of `c`, as `str::split` with a `char`
/// pattern yields them: one more piece than there are separators.
pub open spec fn spec_split(s: Seq<char>, c: char) -> Seq<Seq<char>>
    decreases s.len(),
{
    if s.len() == 0 {
        seq![Seq::<char>::empty()]
    } else {
        let p = spec_split(s.drop_last(), c);
        if s.last() == c {
            p.push(Seq::<char>::empty())
        } else {
            p.update(p.len() - 1, p.last().push(s.last()))
        }
    }
}

/// Splitting gives at least one piece.
pub proof fn lemma_split_nonempty(s: Seq<char>, c: char)
    ensures
        spec_split(s, c).len() >= 1,
    decreases s.len(),
{
    if s.len() > 0 {
        lemma_split_nonempty(s.drop_last(), c);
    }
}

/// A line that ended in `\r\n` loses its `\r`.
pub open spec fn strip_cr(line: Seq<char>) -> Seq<char> {
    if line.len() > 0 && line.last() == '\r' {
        line.drop_last()
    } else {
        line
    }
}

/// The lines of `s` as `str::lines` yields them: split at `\n`, a `\r` just
/// before a `\n` removed, and no empty last line after a final `\n`.
pub open spec fn spec_lines(s: Seq<char>) -> Seq<Seq<char>> {
    let pieces = spec_split(s, '\n');
    let ended = pieces.drop_last().map_values(|l: Seq<char>| strip_cr(l));
    if pieces.last().len() == 0 {
        ended
    } else {
        ended.push(pieces.last())
    }
}

/// The pieces joined with `sep` between consecutive ones.
pub open spec fn spec_join(pieces: Seq<Seq<char>>, sep: Seq<char>) -> Seq<char>
    decreases pieces.len(),
{
    if pieces.len() == 0 {
        Seq::<char>::empty()
    } else if pieces.len() == 1 {
        pieces[0]
    } else {
        spec_join(pieces.drop_last(), sep) + sep + pieces.last()
    }
}

/// The characters of each string.
pub open spec fn views(v: Seq<String>) -> Seq<Seq<char>> {
    v.map_values(|s: String| s@)
}

/// The characters of the strings of `s` followed by `x`.
pub proof fn lemma_views_push(s: Seq<String>, x: String)
    ensures
        views(s.push(x)) == views(s).push(x@),
{
    assert(views(s.push(x)) =~= views(s).push(x@));
}

/// `str::lines`, collected: the lines of `s` as owned strings.
#[verifier::external_body]
pub(crate) fn lines(s: &str) -> (r: Vec<String>)
    ensures
        views(r@) == spec_lines(s@),
{
    s.lines().map(|l| l.to_string()).collect()
}

/// `str::split` with a `char` pattern, collected as owned strings.
#[verifier::external_body]
pub(crate) fn split_char(s: &str, c: char) -> (r: Vec<String>)
    ensures
        views(r@) == spec_split(s@, c),
{
    s.split(c).map(|p| p.to_string()).collect()
}

/// `<[String]>::join` with a string separator.
#[verifier::external_body]
pub(crate) fn join(pieces: &[String], sep: &str) -> (r: String)
    ensures
        r@ == spec_join(views(pieces@), sep@),
{
    pieces.join(sep)
}

// ---------------------------------------------------------------------------
// Case and numbers
// ---------------------------------------------------------------------------

/// What `str::to_lowercase` returns for `s` (Unicode lowercase mapping).
pub uninterp spec fn unicode_lowercase(s: Seq<char>) -> Seq<char>;

/// `str::to_lowercase`. On an ASCII string it lowers exactly the letters `A`..=`Z`.
#[verifier::external_body]
pub(crate) fn to_lowercase(s: &str) -> (r: String)
    ensures
        r@ == unicode_lowercase(s@),
        all_ascii(s@) ==> r@ == s@.map_values(|c: char| ascii_lower_char(c)),
{
    s.to_lowercase()
}

/// Every character of `s` is a decimal digit.
pub open spec fn all_digits(s: Seq<char>) -> bool {
    forall|i: int| 0 <= i < s.len() ==> '0' <= #[trigger] s[i] <= '9'
}

/// The number written by the decimal digits `s`.
pub open spec fn digits_value(s: Seq<char>) -> nat
    decreases s.len(),
{
    if s.len() == 0 {
        0
    } else {
        digits_value(s.drop_last()) * 10 + ((s.last() as u32) - ('0' as u32)) as nat
    }
}

/// `u64::from_str`: an optional `+`, then one or more decimal digits whose value fits.
pub open spec fn spec_parse_u64(s: Seq<char>) -> Option<u64> {
    let d = if s.len() > 0 && s[0] == '+' { s.drop_first() } else { s };
    if d.len() > 0 && all_digits(d) && digits_value(d) <= u64::MAX {
        Some(digits_value(d) as u64)
    } else {
        None
    }
}

/// `s.parse::<u64>().ok()`.
#[verifier::external_body]
pub(crate) fn parse_u64(s: &str) -> (r: Option<u64>)
    ensures
        r == spec_parse_u64(s@),
{
    s.parse::<u64>().ok()
}

/// The decimal digit for `d` (`d` below ten).
pub open spec fn digit_char(d: nat) -> char {
    ((d + 48) as u32) as char
}

/// `n` written in decimal, without leading zeros.
pub open spec fn spec_decimal(n: nat) -> Seq<char>
    decreases n,
{
    if n < 10 {
        seq![digit_char(n)]
    } else {
        spec_decimal(n / 10).push(digit_char(n % 10))
    }
}

/// `usize::to_string`: the number in decimal.
#[verifier::external_body]
pub(crate) fn usize_to_decimal(n: usize) -> (r: String)
    ensures
        r@ == spec_decimal(n as nat),
{
    n.to_string()
}

/// A vector of strings with one more at its end.
pub fn push_string(v: &mut Vec<String>, s: String)
    ensures
        views(final(v)@) == views(old(v)@).push(s@),
{
    let ghost prev = v@;
    v.push(s);
    proof {
        lemma_views_push(prev, s);
    }
}

// ---------------------------------------------------------------------------
// Ordering
// ---------------------------------------------------------------------------

/// Strict lexicographic order on character sequences. `String`'s `Ord`
/// compares the UTF-8 bytes, and UTF-8 preserves the order of code points,
/// so this is the order that `String` comparison and sorting use.
pub open spec fn seq_lt(a: Seq<char>, b: Seq<char>) -> bool
    decreases a.len(),
{
    if a.len() == 0 {
        b.len() > 0
    } else if b.len() == 0 {
        false
    } else if (a[0] as u32) < (b[0] as u32) {
        true
    } else if a[0] == b[0] {
        seq_lt(a.drop_first(), b.drop_first())
    } else {
        false
    }
}

/// Each sequence is no greater than every later one.
pub open spec fn sorted_seqs(v: Seq<Seq<char>>) -> bool {
    forall|i: int, j: int| 0 <= i < j < v.len() ==> !seq_lt(#[trigger] v[j], #[trigger] v[i])
}

/// `<str as PartialOrd>::lt`: `a` comes before `b` in the order of strings.
#[verifier::external_body]
pub(crate) fn str_less(a: &str, b: &str) -> (r: bool)
    ensures
        r == seq_lt(a@, b@),
{
    a < b
}

/// `<[String]>::sort`: the same strings, in ascending order.
#[verifier::external_body]
pub(crate) fn sort_strings(v: &mut Vec<String>)
    ensures
        views(final(v)@).to_multiset() == views(old(v)@).to_multiset(),
        sorted_seqs(views(final(v)@)),
{
    v.sort();
}

/// An owned copy of a slice of strings.
pub fn to_owned_strings(v: &[String]) -> (r: Vec<String>)
    ensures
        r@ == v@,
{
    let mut out: Vec<String> = Vec::new();
    let mut i: usize = 0;
    while i < v.len()
        invariant
            i <= v.len(),
            out@ == v@.subrange(0, i as int),
        decreases v.len() - i,
    {
        out.push(v[i].clone());
        i += 1;
        assert(out@ =~= v@.subrange(0, i as int));
    }
    assert(v@.subrange(0, v@.len() as int) == v@);
    out
}

/// `String::push`.
#[verifier::external_body]
pub(crate) fn push_char(s: &mut String, c: char)
    ensures
        final(s)@ == old(s)@.push(c),
{
    s.push(c);
}

} // verus!
