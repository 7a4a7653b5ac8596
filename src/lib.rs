//! Declarative command-line argument specifications, with a verified
//! resolver, tokenizer and validator for them.
//!
//! An invocation is parsed in one pass: the plain tokens switch on the
//! conditional sub-arguments of positional arguments (the active set), the
//! tokens are scanned against that set, positional values are placed, and
//! dependencies, conflicts and required arguments are checked. The spec
//! functions of [`rules`] state the outcome; [`Command::parse`] meets them.

pub mod text;
pub mod arg;
pub mod error;
pub mod parsed;
pub mod active;
pub mod rules;
mod work;
pub mod scan;
mod assign;
pub mod command;
pub mod laws;

pub use active::ActiveArg;
pub use arg::{Arg, ArgChain, ArgType};
pub use command::{Command, Route};
pub use error::{ParseError, ParseFailure};
pub use parsed::{ParsedArgs, ParsedView};
