//! The run's settings, as the command line hands them over.

use vstd::prelude::*;
use vstd::string::StringExecFns;

use crate::parse_basics::NUMBER_MAX_LENGTH;

verus! {

/// What a run needs to know: where the output goes and how, the length
/// bound for text literals, and the query itself.
#[derive(Debug)]
pub struct ArgStruct {
    /// Write the output into this file instead of the standard output.
    pub output: Option<String>,
    /// Append to the output file instead of truncating it.
    pub append: bool,
    /// Fail if the output file already exists.
    pub force_new: bool,
    /// Pretty-print the output.
    pub pretty: bool,
    /// The longest accepted string value, field name or regular expression.
    pub max_text_length: usize,
    /// The filter-and-pipeline query.
    pub query: String,
}

/// A text-length bound is accepted only when no valid number can run past
/// it: it must reach `NUMBER_MAX_LENGTH`.
pub fn validate_max_text_length(val: usize) -> (r: Result<(), String>)
    ensures
        r is Ok <==> val >= NUMBER_MAX_LENGTH,
        r matches Err(msg) ==> msg@ == "--max-text-length must be at least 328"@,
{
    if val < NUMBER_MAX_LENGTH {
        Err(String::from_str("--max-text-length must be at least 328"))
    } else {
        Ok(())
    }
}

} // verus!
