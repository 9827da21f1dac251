//! Where the data lives and how it looks, as the environment configures it.

use vstd::prelude::*;

use crate::text::{spec_trim, string_of, trim_chars, chars_of};

verus! {

/// A path of the file system; the application opens it, the library only
/// carries it.
#[verifier::external_type_specification]
#[verifier::external_body]
pub struct ExPathBuf(std::path::PathBuf);

/// The configuration: the root directory of the journal and the archive,
/// and the name of the theme.
pub struct Config {
    pub diane_root: std::path::PathBuf,
    pub theme: String,
}

/// The root directory that a configured value asks for: the value trimmed,
/// or nothing (the default root) when only whitespace is left.
pub fn root_setting(raw: &str) -> (r: Option<String>)
    ensures
        r is None <==> spec_trim(raw@).len() == 0,
        r matches Some(s) ==> s@ == spec_trim(raw@),
{
    let cs = chars_of(raw);
    let t = trim_chars(&cs);
    if t.len() == 0 {
        None
    } else {
        Some(string_of(&t))
    }
}

} // verus!
