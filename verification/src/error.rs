//! What the parser reports: syntax errors that it recovered from, and the
//! failure of a whole parse.

use vstd::prelude::*;
use crate::ast::{Ast, StatementView};
use crate::text::{decimal, decimal_string};
use crate::token::{Token, TokenView};

verus! {

/// What the grammar asked for where a syntax error was found.
#[derive(Debug, Clone, Copy, PartialEq, Eq, Structural)]
pub enum Expected {
    /// The name of a binding.
    Identifier,
    /// The assignment sign of a binding.
    Assign,
}

/// The value of a [`SyntaxError`].
pub ghost struct SyntaxErrorView {
    pub expected: Expected,
    pub found: TokenView,
}

impl SyntaxErrorView {
    /// The error in words: what was expected and what stood there.
    pub open spec fn message(self) -> Seq<char> {
        match self.expected {
            Expected::Identifier => "Expected identifier, got "@ + self.found.describe(),
            Expected::Assign => "Expected Assign, got "@ + self.found.describe(),
        }
    }
}

/// A malformed binding. The parser records it and goes on.
#[derive(Debug)]
pub struct SyntaxError {
    pub expected: Expected,
    pub found: Token,
}

impl View for SyntaxError {
    type V = SyntaxErrorView;

    open spec fn view(&self) -> SyntaxErrorView {
        SyntaxErrorView { expected: self.expected, found: self.found@ }
    }
}

impl SyntaxError {
    /// The error in words.
    pub fn message(&self) -> (text: String)
        ensures
            text@ == self@.message(),
    {
        let found = self.found.describe();
        match self.expected {
            Expected::Identifier => "Expected identifier, got ".to_owned().concat(found.as_str()),
            Expected::Assign => "Expected Assign, got ".to_owned().concat(found.as_str()),
        }
    }
}

/// The values of a list of syntax errors.
pub open spec fn error_views(errors: Seq<SyntaxError>) -> Seq<SyntaxErrorView> {
    errors.map_values(|error: SyntaxError| error@)
}

/// The value of a [`ParseError`].
pub ghost enum ParseErrorView {
    InvalidToken(TokenView),
    ErrorsFound { count: nat, ast: Seq<StatementView> },
}

impl ParseErrorView {
    /// The failure in words.
    pub open spec fn message(self) -> Seq<char> {
        match self {
            ParseErrorView::InvalidToken(_) => "Invalid token"@,
            ParseErrorView::ErrorsFound { count, .. } => decimal(count) + " errors found"@,
        }
    }
}

/// Why a parse failed.
#[derive(Debug)]
pub enum ParseError {
    /// The token starts no statement. Parsing stopped there, and the
    /// statements before it are lost.
    InvalidToken(Token),
    /// Every statement was read, but syntax errors were recorded on the way.
    /// The statements are kept for diagnostics.
    ErrorsFound { count: usize, ast: Ast },
}

impl View for ParseError {
    type V = ParseErrorView;

    open spec fn view(&self) -> ParseErrorView {
        match self {
            ParseError::InvalidToken(token) => ParseErrorView::InvalidToken(token@),
            ParseError::ErrorsFound { count, ast } => ParseErrorView::ErrorsFound {
                count: *count as nat,
                ast: ast@,
            },
        }
    }
}

impl ParseError {
    /// The failure in words.
    pub fn message(&self) -> (text: String)
        ensures
            text@ == self@.message(),
    {
        match self {
            ParseError::InvalidToken(_) => "Invalid token".to_owned(),
            ParseError::ErrorsFound { count, .. } => decimal_string(*count).concat(" errors found"),
        }
    }
}

} // verus!
