//! What the fixing assistant is asked when a stage's errors remain.

use vstd::prelude::*;
use crate::text::{join, spec_join, views};

verus! {

/// The prompt: the stage, the files (comma separated) and the errors.
pub open spec fn spec_fix_prompt(files: Seq<Seq<char>>, error_output: Seq<char>, stage_name: Seq<char>) -> Seq<char> {
    "Fix these "@ + stage_name + " errors in the following files: "@ + spec_join(files, ", "@) + "\n\nErrors:\n"@
        + error_output
}

/// The prompt that asks the fixing assistant to fix `error_output` of a stage in `files`.
pub fn fix_prompt(files: &[String], error_output: &str, stage_name: &str) -> (r: String)
    ensures
        r@ == spec_fix_prompt(views(files@), error_output@, stage_name@),
{
    let files_str = join(files, ", ");
    String::from_str("Fix these ").concat(stage_name).concat(" errors in the following files: ").concat(
        files_str.as_str(),
    ).concat("\n\nErrors:\n").concat(error_output)
}

} // verus!
