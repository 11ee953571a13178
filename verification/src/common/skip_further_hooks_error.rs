//! The error an extension returns to stop the hooks that would follow it.

use vstd::prelude::*;
use vstd::string::StringExecFns;

verus! {

/// Returned by a hook to stop the remaining hooks of the chain.
#[derive(Debug, Clone)]
pub struct SkipFurtherHooksError {
    pub message: String,
}

impl SkipFurtherHooksError {
    /// The error with `message`, or with "Further hooks skipped" when none is given.
    pub fn new(message: Option<&str>) -> (e: Self)
        ensures
            e.message@ == match message {
                Some(m) => m@,
                None => "Further hooks skipped"@,
            },
    {
        let text = match message {
            Some(m) => m,
            None => "Further hooks skipped",
        };
        Self { message: String::from_str(text) }
    }

    /// The error as it is displayed: "SkipFurtherHooksError: " and the message.
    pub fn to_display_string(&self) -> (s: String)
        ensures
            s@ == "SkipFurtherHooksError: "@ + self.message@,
    {
        let s = String::from_str("SkipFurtherHooksError: ");
        s.concat(self.message.as_str())
    }
}

} // verus!
