//! Errors of the path helpers.

use vstd::prelude::*;
use vstd::string::StringExecFns;

verus! {

/// Why a path could not be made safe.
#[derive(Debug, Clone, Copy, PartialEq, Eq, Structural)]
pub enum PathError {
    /// Nothing was left of the final segment once the invalid characters
    /// were removed and the rest was trimmed.
    EmptyResultAfterSanitization,
}

impl PathError {
    /// The text that describes the error to a user.
    pub open spec fn spec_message(self) -> Seq<char> {
        "Path did not contain any valid filename characters"@
    }

    /// The text that describes the error to a user.
    pub fn message(&self) -> (text: String)
        ensures
            text@ == self.spec_message(),
    {
        String::from_str("Path did not contain any valid filename characters")
    }
}

} // verus!
