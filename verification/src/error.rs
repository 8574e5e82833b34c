use vstd::prelude::*;

verus! {

/// The error every fallible operation of the library reports: a parse or
/// validation failure described by a message.
#[derive(Debug, Clone, PartialEq, Eq)]
pub enum ParseError {
    ParsingError(String),
}

impl ParseError {
    /// The message carried by the error.
    pub open spec fn message(&self) -> Seq<char> {
        match self {
            ParseError::ParsingError(m) => m@,
        }
    }
}

} // verus!
