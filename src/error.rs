//! The errors of lexing and parsing.
use vstd::prelude::*;

use crate::lexer::{SpecToken, SpecTokenKind, Token, TokenKind};

verus! {

/// Why a text could not be turned into expressions.
#[allow(inconsistent_fields)]
#[derive(Debug, PartialEq)]
pub enum Error {
    /// A token that the grammar does not allow here.
    UnexpectedToken { expected: Vec<TokenKind>, found: Token },
    /// An identifier in function position that names no known function.
    UnexpectedIdent { line: usize, col: usize, ident: String },
    /// The input ended where a token was required.
    UnexpectedEOF,
    /// A known function called with the wrong number of arguments.
    WrongArguments { line: usize, col: usize, found: usize, expected: usize },
    /// A character that starts no token.
    UndefinedToken { line: usize, col: usize, found: char },
    /// A run of digits and points that is not a numeral (two points).
    InvalidNumber { line: usize, col: usize, text: String },
}

/// The mathematical model of [`Error`].
#[allow(inconsistent_fields)]
pub enum SpecError {
    UnexpectedToken { expected: Seq<SpecTokenKind>, found: SpecToken },
    UnexpectedIdent { line: nat, col: nat, ident: Seq<char> },
    UnexpectedEOF,
    WrongArguments { line: nat, col: nat, found: nat, expected: nat },
    UndefinedToken { line: nat, col: nat, found: char },
    InvalidNumber { line: nat, col: nat, text: Seq<char> },
}

impl View for Error {
    type V = SpecError;

    open spec fn view(&self) -> SpecError {
        match self {
            Error::UnexpectedToken { expected, found } => SpecError::UnexpectedToken {
                expected: expected@.map_values(|k: TokenKind| k@),
                found: found@,
            },
            Error::UnexpectedIdent { line, col, ident } => SpecError::UnexpectedIdent {
                line: *line as nat,
                col: *col as nat,
                ident: ident@,
            },
            Error::UnexpectedEOF => SpecError::UnexpectedEOF,
            Error::WrongArguments { line, col, found, expected } => SpecError::WrongArguments {
                line: *line as nat,
                col: *col as nat,
                found: *found as nat,
                expected: *expected as nat,
            },
            Error::UndefinedToken { line, col, found } => SpecError::UndefinedToken {
                line: *line as nat,
                col: *col as nat,
                found: *found,
            },
            Error::InvalidNumber { line, col, text } => SpecError::InvalidNumber {
                line: *line as nat,
                col: *col as nat,
                text: text@,
            },
        }
    }
}

} // verus!
