//! Lexical errors reported by the scanner.
//!
//! Errors are data, not control flow: the scanner collects them and returns
//! them beside the token stream, and the caller decides what to do with them.

use vstd::prelude::*;

verus! {

/// A lexical error, carrying the 1-based source line it was found on.
#[derive(Debug, Clone, Copy, PartialEq, Eq, Structural)]
pub enum LoxError {
    /// A character that matches no token rule, with its line and the
    /// offending character. Never stops the scan.
    UnexpectedCharacter(usize, char),
    /// A string literal whose opening quote is never closed before the end
    /// of the input; ends the current scan call.
    UnterminatedString(usize),
}

/// The mathematical value of a [`LoxError`]: the same data with an
/// unbounded line number.
pub ghost enum ErrorModel {
    UnexpectedCharacter { line: nat, character: char },
    UnterminatedString { line: nat },
}

impl View for LoxError {
    type V = ErrorModel;

    open spec fn view(&self) -> ErrorModel {
        match *self {
            LoxError::UnexpectedCharacter(line, c) => ErrorModel::UnexpectedCharacter {
                line: line as nat,
                character: c,
            },
            LoxError::UnterminatedString(line) => ErrorModel::UnterminatedString {
                line: line as nat,
            },
        }
    }
}

} // verus!
