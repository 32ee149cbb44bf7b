//! The error kinds of the timer library.

use vstd::prelude::*;

verus! {

/// An error of one of the timer operations: a failed invocation of the host
/// deferred-execution facility, a malformed duration string or job listing,
/// or a failure of the job-record file.
#[derive(Debug)]
pub enum AtError {
    /// An external invocation exited non-zero; the payload is its
    /// error-stream text.
    CommandError(String),
    /// A malformed duration string, or a malformed or empty job listing.
    ParseError(String),
    /// A failure to read or write the workdir or the job-record file.
    IoError(String),
}

impl AtError {
    /// A one-line description of the error, in place of `Display`.
    pub fn message(&self) -> (r: String)
        ensures
            match self {
                AtError::CommandError(m) => r@ == "Command error: "@ + m@,
                AtError::ParseError(m) => r@ == "Parse error: "@ + m@,
                AtError::IoError(m) => r@ == "I/O error: "@ + m@,
            },
    {
        match self {
            AtError::CommandError(m) => String::from_str("Command error: ").concat(m.as_str()),
            AtError::ParseError(m) => String::from_str("Parse error: ").concat(m.as_str()),
            AtError::IoError(m) => String::from_str("I/O error: ").concat(m.as_str()),
        }
    }
}

} // verus!
