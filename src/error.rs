//! Errors of a parse, and their mathematical model.
use vstd::prelude::*;
use crate::text::strs;

verus! {

/// Why a token list was rejected.
#[derive(Debug, Clone)]
pub enum ParseError {
    /// No active argument has this alias; holds the spelling as written
    /// (`--name` or `-c`).
    UnknownOption(String),
    /// An option was the last token, with no value after it.
    MissingOptionValue(String),
    /// The alias names an argument of a kind that this token form cannot fill.
    InvalidArgumentType(String),
    /// A positional value outside the argument's allowed values.
    InvalidValue { value: String, name: String, allowed: Vec<String> },
    /// A required positional argument got no token and has no default.
    MissingRequiredPositional(String),
    /// A required argument was not given and has no default.
    MissingRequiredArgument(String),
    /// The first name was given without the second, which it depends on.
    UnsatisfiedDependency(String, String),
    /// The first name was given together with the second, which it excludes.
    Conflict(String, String),
}

/// The model of a [`ParseError`], over character sequences.
pub enum ParseFailure {
    UnknownOption(Seq<char>),
    MissingOptionValue(Seq<char>),
    InvalidArgumentType(Seq<char>),
    InvalidValue { value: Seq<char>, name: Seq<char>, allowed: Seq<Seq<char>> },
    MissingRequiredPositional(Seq<char>),
    MissingRequiredArgument(Seq<char>),
    UnsatisfiedDependency(Seq<char>, Seq<char>),
    Conflict(Seq<char>, Seq<char>),
}

impl View for ParseError {
    type V = ParseFailure;

    open spec fn view(&self) -> ParseFailure {
        match self {
            ParseError::UnknownOption(s) => ParseFailure::UnknownOption(s@),
            ParseError::MissingOptionValue(s) => ParseFailure::MissingOptionValue(s@),
            ParseError::InvalidArgumentType(s) => ParseFailure::InvalidArgumentType(s@),
            ParseError::InvalidValue { value, name, allowed } => ParseFailure::InvalidValue {
                value: value@,
                name: name@,
                allowed: strs(allowed@),
            },
            ParseError::MissingRequiredPositional(s) => ParseFailure::MissingRequiredPositional(s@),
            ParseError::MissingRequiredArgument(s) => ParseFailure::MissingRequiredArgument(s@),
            ParseError::UnsatisfiedDependency(a, b) => ParseFailure::UnsatisfiedDependency(a@, b@),
            ParseError::Conflict(a, b) => ParseFailure::Conflict(a@, b@),
        }
    }
}

} // verus!
