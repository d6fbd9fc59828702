//! Errors that parsing an input line can produce. Both are recoverable: the
//! caller reports them (or, for an unterminated quote, asks for more input)
//! and returns to the prompt.

use vstd::prelude::*;

verus! {

use vstd::string::StringExecFns;

#[derive(Clone, Copy, PartialEq, Eq, Structural, Debug)]
pub enum ShellError {
    /// The input ended inside a quoted span; the field is the quote
    /// character that is still open (`'` or `"`). More input is needed.
    UnterminatedQuote(char),
    /// A `|` with no command on one of its sides.
    EmptyCommand,
}

impl ShellError {
    /// The message the interpreter prints for this error.
    pub fn message(&self) -> (r: String)
        ensures
            *self is UnterminatedQuote ==> r@ == "Unterminated quote"@,
            *self is EmptyCommand ==> r@ == "Empty command before pipe"@,
    {
        match self {
            ShellError::UnterminatedQuote(_) => String::from_str("Unterminated quote"),
            ShellError::EmptyCommand => String::from_str("Empty command before pipe"),
        }
    }
}

} // verus!
