//! The single-key branch selector: keys `0`-`9` pick the first ten branches,
//! `a`-`z` the next ones.

use vstd::prelude::*;
use crate::gitbutler::Branch;
use crate::text::{push_char, push_string, spec_decimal, usize_to_decimal, views};

verus! {

/// The inputs on which the key of an index can be computed.
pub open spec fn has_key(i: usize) -> bool {
    i < 10 || (i - 10) % 256 <= 158
}

/// Whether the branch at index `i` has a key (what [`index_to_char`] requires).
pub fn key_fits(i: usize) -> (r: bool)
    ensures
        r == has_key(i),
{
    i < 10 || (i - 10) % 256 <= 158
}

/// The key shown for the branch at index `i`: a digit for the first ten,
/// then letters from `a` on.
pub open spec fn spec_index_to_char(i: usize) -> char {
    if i < 10 {
        ((48 + i) as u32) as char
    } else {
        ((97 + (i - 10) % 256) as u32) as char
    }
}

/// The index a key selects.
pub open spec fn spec_char_to_index(ch: char) -> Option<usize> {
    let u = ch as u32;
    if 48 <= u <= 57 {
        Some((u - 48) as usize)
    } else if 97 <= u <= 122 {
        Some((u - 97 + 10) as usize)
    } else {
        None
    }
}

/// The key of the branch at index `i`.
pub fn index_to_char(i: usize) -> (r: char)
    requires
        has_key(i),
    ensures
        r == spec_index_to_char(i),
{
    if i < 10 {
        let d: u8 = i as u8;
        (48u8 + d) as char
    } else {
        let off: u8 = ((i - 10) % 256) as u8;
        (97u8 + off) as char
    }
}

/// The index a key selects: digits 0-9, then letters a-z for 10-35.
pub fn char_to_index(ch: char) -> (r: Option<usize>)
    ensures
        r == spec_char_to_index(ch),
{
    let u = ch as u32;
    if 48 <= u && u <= 57 {
        Some((u - 48) as usize)
    } else if 97 <= u && u <= 122 {
        Some((u - 97 + 10) as usize)
    } else {
        None
    }
}

/// The key of each of the first 36 branches selects that branch.
pub proof fn law_key_round_trip(i: usize)
    requires
        i < 36,
    ensures
        has_key(i),
        spec_char_to_index(spec_index_to_char(i)) == Some(i),
{
}

/// Before any key is read: no branch is an error, a single branch is taken
/// as it is, more branches need a key.
pub fn preselect(count: usize) -> (r: Result<Option<usize>, String>)
    ensures
        count == 0 ==> r is Err && r->Err_0@ == "No applied branches found"@,
        count == 1 ==> r == Ok::<Option<usize>, String>(Some(0usize)),
        count > 1 ==> r == Ok::<Option<usize>, String>(None),
{
    if count == 0 {
        Err(String::from_str("No applied branches found"))
    } else if count == 1 {
        Ok(Some(0))
    } else {
        Ok(None)
    }
}

/// What the key `ch` selects among `count` branches. `q` and `Q` quit,
/// except that `q` is the key of the branch at index 26 when there is one.
pub open spec fn spec_selection(ch: char, count: usize) -> Result<usize, Seq<char>> {
    if ch == 'Q' || (ch == 'q' && count <= 26) {
        Err("Cancelled by user"@)
    } else {
        match spec_char_to_index(ch) {
            None => Err("Invalid selection: '"@ + seq![ch] + "'"@),
            Some(idx) => if idx >= count {
                Err("Selection '"@ + seq![ch] + "' out of range (max "@ + spec_decimal((count - 1) as nat) + ")"@)
            } else {
                Ok(idx)
            },
        }
    }
}

/// The branch index the pressed key selects among `count` (at least one)
/// branches, or why it selects none.
pub fn selection_from_key(ch: char, count: usize) -> (r: Result<usize, String>)
    requires
        count >= 1,
    ensures
        match spec_selection(ch, count) {
            Ok(idx) => r == Ok::<usize, String>(idx),
            Err(msg) => r is Err && r->Err_0@ == msg,
        },
{
    if ch == 'Q' || (ch == 'q' && count <= 26) {
        return Err(String::from_str("Cancelled by user"));
    }
    match char_to_index(ch) {
        None => {
            let mut m = String::from_str("Invalid selection: '");
            push_char(&mut m, ch);
            Err(m.concat("'"))
        },
        Some(idx) => {
            if idx >= count {
                let mut m = String::from_str("Selection '");
                push_char(&mut m, ch);
                Err(m.concat("' out of range (max ").concat(usize_to_decimal(count - 1).as_str()).concat(")"))
            } else {
                Ok(idx)
            }
        },
    }
}

/// The menu line of a branch: `  key > name (cli id)`.
pub open spec fn spec_menu_line(key: char, b: Branch) -> Seq<char> {
    "  "@ + seq![key] + " > "@ + b.name@ + " ("@ + b.cli_id@ + ")"@
}

/// The menu lines of the branches, in order.
pub fn branch_menu(branches: &[&Branch]) -> (r: Vec<String>)
    requires
        forall|i: usize| i < branches@.len() ==> #[trigger] has_key(i),
    ensures
        views(r@).len() == branches@.len(),
        forall|i: int| 0 <= i < branches@.len() ==> #[trigger] views(r@)[i] == spec_menu_line(
            spec_index_to_char(i as usize),
            *branches@[i],
        ),
{
    let mut out: Vec<String> = Vec::new();
    let mut i: usize = 0;
    while i < branches.len()
        invariant
            i <= branches.len(),
            forall|k: usize| k < branches@.len() ==> #[trigger] has_key(k),
            views(out@).len() == i,
            forall|k: int| 0 <= k < i ==> #[trigger] views(out@)[k] == spec_menu_line(spec_index_to_char(k as usize), *branches@[k]),
        decreases branches.len() - i,
    {
        let b = branches[i];
        let mut line = String::from_str("  ");
        push_char(&mut line, index_to_char(i));
        let line = line.concat(" > ").concat(b.name.as_str()).concat(" (").concat(b.cli_id.as_str()).concat(")");
        push_string(&mut out, line);
        i += 1;
    }
    out
}

} // verus!
