//! The error taxonomy: syntax errors from the term lexer and parser, malformed
//! type annotations, and failures to read a normal form at a requested type.

use vstd::prelude::*;
use vstd::string::StringExecFns;

verus! {

#[derive(Debug, PartialEq)]
pub enum Error {
    /// Malformed source text; the payload describes the offending position.
    SyntaxError(String),
    /// The normalized term does not have the shape the requested type asks
    /// for; the payload names that type.
    TypeError(String),
    /// Malformed type annotation text.
    MalformedType(String),
}

/// The rendering of an error, as the presentation layer shows it.
pub open spec fn spec_error_message(e: Error) -> Seq<char> {
    match e {
        Error::SyntaxError(s) => "Syntax error: "@ + s@,
        Error::TypeError(s) => "Type error: could not interpret result as "@ + s@,
        Error::MalformedType(s) => "Malformed type: "@ + s@,
    }
}

impl Error {
    /// One human-readable line naming the error kind and its detail.
    pub fn to_message(&self) -> (r: String)
        ensures
            r@ == spec_error_message(*self),
    {
        match self {
            Error::SyntaxError(s) => {
                let mut r = "Syntax error: ".to_owned();
                r.append(s.as_str());
                r
            },
            Error::TypeError(s) => {
                let mut r = "Type error: could not interpret result as ".to_owned();
                r.append(s.as_str());
                r
            },
            Error::MalformedType(s) => {
                let mut r = "Malformed type: ".to_owned();
                r.append(s.as_str());
                r
            },
        }
    }
}

} // verus!
