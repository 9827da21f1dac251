//! The command line: an optional record to capture.

use vstd::prelude::*;

use crate::text::{spec_trim, trim};

verus! {

/// The arguments of the program: the text of a record to capture, if any.
pub struct Cli {
    pub input_text: Option<String>,
}

/// Accepts a record text that holds something besides whitespace, unchanged.
pub fn validade_text(s: &str) -> (r: Result<String, String>)
    ensures
        r is Err <==> spec_trim(s@).len() == 0,
        r matches Ok(t) ==> t@ == s@,
        r matches Err(e) ==> e@ == "The note cannot be empty."@,
{
    let trimmed = trim(s);
    if trimmed.as_str().is_empty() {
        return Err(String::from_str("The note cannot be empty."));
    }
    Ok(String::from_str(s))
}

} // verus!
