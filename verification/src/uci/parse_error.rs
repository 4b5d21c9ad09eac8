use vstd::prelude::*;

use crate::uci::text::{append_str, string_of};

verus! {

/// An error met while parsing a known UCI command or move.
#[derive(Clone, Debug, PartialEq, Eq)]
pub enum ParseError {
    /// A constraint or base position that needs a value had none.
    MissingArgument(&'static str),
    /// A constraint or base position had a value that does not parse.
    InvalidArgument(&'static str),
    /// A move that is not in UCI long algebraic notation (lower-cased).
    InvalidMove(String),
}

/// What a `ParseError` says, with its text taken as characters.
pub enum ParseFailure {
    MissingArgument(Seq<char>),
    InvalidArgument(Seq<char>),
    InvalidMove(Seq<char>),
}

impl View for ParseError {
    type V = ParseFailure;

    open spec fn view(&self) -> ParseFailure {
        match self {
            ParseError::MissingArgument(name) => ParseFailure::MissingArgument(name@),
            ParseError::InvalidArgument(name) => ParseFailure::InvalidArgument(name@),
            ParseError::InvalidMove(text) => ParseFailure::InvalidMove(text@),
        }
    }
}

/// A parse outcome with the value and the error taken by their views.
pub open spec fn outcome<T: View>(r: Result<T, ParseError>) -> Result<T::V, ParseFailure> {
    match r {
        Ok(value) => Ok(value@),
        Err(error) => Err(error@),
    }
}

/// The human-readable description of a parse failure.
pub open spec fn failure_message(failure: ParseFailure) -> Seq<char> {
    match failure {
        ParseFailure::MissingArgument(name) => "missing value for "@ + name,
        ParseFailure::InvalidArgument(name) => "invalid value for "@ + name,
        ParseFailure::InvalidMove(text) => "invalid UCI move: "@ + text,
    }
}

impl ParseError {
    /// Returns the human-readable description of this error.
    pub fn message(&self) -> (text: String)
        ensures
            text@ == failure_message(self@),
    {
        let mut out: Vec<char> = Vec::new();
        match self {
            ParseError::MissingArgument(name) => {
                append_str(&mut out, "missing value for ");
                append_str(&mut out, name);
            },
            ParseError::InvalidArgument(name) => {
                append_str(&mut out, "invalid value for ");
                append_str(&mut out, name);
            },
            ParseError::InvalidMove(text) => {
                append_str(&mut out, "invalid UCI move: ");
                append_str(&mut out, text.as_str());
            },
        }
        string_of(&out)
    }
}

} // verus!
