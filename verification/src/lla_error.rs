//! The errors the core surfaces: an unknown move token, or two adjacent
//! moves the successor grammar forbids.

use crate::generator::{spec_token, Generator};
use vstd::prelude::*;

verus! {

/// Why an algorithm string was rejected.
#[derive(Debug)]
pub enum LLAError {
    /// A token that names no move, carried verbatim.
    InvalidMove(String),
    /// Two adjacent moves that the successor grammar forbids.
    InvalidPair(Generator, Generator),
}

/// The message of each error: the unknown token in `No move '...'`, or the
/// offending pair quoted in `"..." is an invalid pair`.
pub open spec fn spec_message(e: LLAError) -> Seq<char> {
    match e {
        LLAError::InvalidMove(tok) => "No move '"@ + tok@ + "'"@,
        LLAError::InvalidPair(a, b) => "\""@ + spec_token(a) + " "@ + spec_token(b)
            + "\" is an invalid pair"@,
    }
}

impl LLAError {
    /// The human-readable message of this error.
    pub fn message(&self) -> (r: String)
        ensures
            r@ == spec_message(*self),
    {
        match self {
            LLAError::InvalidMove(tok) => {
                let mut s = String::new();
                s.append("No move '");
                s.append(tok.as_str());
                s.append("'");
                s
            },
            LLAError::InvalidPair(a, b) => {
                let mut s = String::new();
                s.append("\"");
                s.append(a.token_str());
                s.append(" ");
                s.append(b.token_str());
                s.append("\" is an invalid pair");
                s
            },
        }
    }
}

} // verus!
