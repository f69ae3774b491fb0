//! The library's error type.
use vstd::prelude::*;

verus! {

/// Failures the library reports.
#[derive(Clone, Debug, PartialEq, Eq)]
pub enum Error {
    /// Terminal setup / control failure.
    Term(String),
    /// Generic failure with a message.
    Other(String),
}

impl Error {
    /// The message of this error, as it is shown to a user.
    pub open spec fn message_spec(&self) -> Seq<char> {
        match self {
            Error::Term(e) => "terminal error: "@ + e@,
            Error::Other(e) => e@,
        }
    }

    /// The message of this error, as it is shown to a user.
    pub fn message(&self) -> (s: String)
        ensures
            s@ == self.message_spec(),
    {
        match self {
            Error::Term(e) => {
                let mut s = String::new();
                s.append("terminal error: ");
                s.append(e.as_str());
                s
            },
            Error::Other(e) => {
                let mut s = String::new();
                s.append(e.as_str());
                s
            },
        }
    }
}

/// An [`Error::Other`] with the message `m`.
pub fn err(m: &str) -> (e: Error)
    ensures
        e matches Error::Other(s) && s@ == m@,
{
    Error::Other(m.to_string())
}

} // verus!
