//! The unified error kind surfaced to callers of the library.  The
//! transformation core itself is total and never produces one; the kinds
//! exist for the interactive shell around the library, which maps its I/O
//! failures onto them.

use vstd::prelude::*;
use vstd::string::*;

verus! {

/// A failure surfaced by the surrounding shell: either an I/O failure,
/// carried as its message text, or a publishing-platform failure.
#[derive(Debug)]
pub enum RustiumError {
    Io(String),
    MediumApi(String),
}

impl RustiumError {
    /// The rendered message of the error.
    pub open spec fn message_spec(&self) -> Seq<char> {
        match self {
            RustiumError::Io(m) => "IO error: "@ + m@,
            RustiumError::MediumApi(m) => "Medium API error: "@ + m@,
        }
    }

    /// Renders the error as a message string.
    pub fn message(&self) -> (r: String)
        ensures
            r@ == self.message_spec(),
    {
        match self {
            RustiumError::Io(m) => {
                let mut r = String::from_str("IO error: ");
                r.append(m.as_str());
                r
            },
            RustiumError::MediumApi(m) => {
                let mut r = String::from_str("Medium API error: ");
                r.append(m.as_str());
                r
            },
        }
    }
}

} // verus!
