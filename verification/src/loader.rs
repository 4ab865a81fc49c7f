//! Locating the report files.

use vstd::prelude::*;
use vstd::string::StringExecFns;

verus! {

/// The text of the pattern for the files of `input_dir` whose names match
/// `file_pattern`.
pub open spec fn pattern_text(input_dir: Seq<char>, file_pattern: Seq<char>) -> Seq<char> {
    input_dir + seq!['/'] + file_pattern
}

/// The pattern that selects the report files: the directory, a slash, and
/// the pattern for the file names.
pub fn glob_pattern(input_dir: &str, file_pattern: &str) -> (r: String)
    ensures
        r@ == pattern_text(input_dir@, file_pattern@),
{
    let r = String::from_str(input_dir).concat("/").concat(file_pattern);
    proof {
        reveal_strlit("/");
    }
    r
}

} // verus!
