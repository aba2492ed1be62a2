use vstd::prelude::*;
use vstd::string::StringExecFns;
use crate::token::Token;

verus! {

/// What the parser was looking for where it stopped.
#[derive(Clone, Copy, Debug, PartialEq, Eq, Structural)]
pub enum Expected {
    /// The start of an expression: a name, a number, `-`, `(`, `{` or `if`.
    Expression,
    /// The number that a leading `-` negates.
    Number,
    /// A binary operator, or the end of the expression.
    Operator,
    /// The `(` that opens the arguments of a call.
    LParen,
    /// The `)` that closes a group or the arguments of a call.
    RParen,
    /// The `}` that closes a matrix literal.
    RCurly,
    Then,
    Else,
    End,
    /// The name of a variable, a function or a parameter.
    Identifier,
    /// A statement that is neither an assignment nor a declaration must be
    /// a call.
    FunctionCall,
}

/// A parse error: what was expected, the token found in its place (`None`
/// at the end of the line) and the range of token positions, from `start`
/// up to `end`, that it covers.
#[derive(Debug, PartialEq, Eq)]
pub struct ParseError {
    pub expected: Expected,
    pub found: Option<Token>,
    pub start: usize,
    pub end: usize,
}

impl Expected {
    /// The words for what was expected.
    pub open spec fn words(self) -> Seq<char> {
        match self {
            Expected::Expression => "expected an expression"@,
            Expected::Number => "expected a number"@,
            Expected::Operator => "expected an operator"@,
            Expected::LParen => "expected `(`"@,
            Expected::RParen => "expected `)`"@,
            Expected::RCurly => "expected `}`"@,
            Expected::Then => "expected `then`"@,
            Expected::Else => "expected `else`"@,
            Expected::End => "expected `end`"@,
            Expected::Identifier => "expected a name"@,
            Expected::FunctionCall => "expected a function call"@,
        }
    }

    /// The expectation as a message.
    pub fn message(&self) -> (text: String)
        ensures
            text@ == self.words(),
    {
        match self {
            Expected::Expression => "expected an expression".to_string(),
            Expected::Number => "expected a number".to_string(),
            Expected::Operator => "expected an operator".to_string(),
            Expected::LParen => "expected `(`".to_string(),
            Expected::RParen => "expected `)`".to_string(),
            Expected::RCurly => "expected `}`".to_string(),
            Expected::Then => "expected `then`".to_string(),
            Expected::Else => "expected `else`".to_string(),
            Expected::End => "expected `end`".to_string(),
            Expected::Identifier => "expected a name".to_string(),
            Expected::FunctionCall => "expected a function call".to_string(),
        }
    }
}

/// The error for finding, at position `at` of `tokens`, something else than
/// what was expected: it carries the token at that position, if there is
/// one, and the range that this token covers.
pub open spec fn unexpected(tokens: Seq<Token>, at: int, expected: Expected) -> ParseError {
    if 0 <= at < tokens.len() {
        ParseError { expected, found: Some(tokens[at]), start: at as usize, end: (at + 1) as usize }
    } else {
        ParseError { expected, found: None, start: at as usize, end: at as usize }
    }
}

impl ParseError {
    /// The error in words: what was expected and what was found.
    pub open spec fn words(self) -> Seq<char> {
        match self.found {
            Some(token) => self.expected.words() + ", found `"@ + token.text() + "`"@,
            None => self.expected.words() + ", found the end of the line"@,
        }
    }

    /// The error as a message, such as "expected `(`, found `x`".
    pub fn message(&self) -> (text: String)
        ensures
            text@ == self.words(),
    {
        let text = self.expected.message();
        match &self.found {
            Some(token) => {
                let written = token.to_text();
                text.concat(", found `").concat(written.as_str()).concat("`")
            },
            None => text.concat(", found the end of the line"),
        }
    }

    /// Builds the error for position `at` of `tokens`.
    pub fn unexpected(tokens: &Vec<Token>, at: usize, expected: Expected) -> (e: ParseError)
        ensures
            e == unexpected(tokens@, at as int, expected),
    {
        if at < tokens.len() {
            ParseError { expected, found: Some(tokens[at].clone()), start: at, end: at + 1 }
        } else {
            ParseError { expected, found: None, start: at, end: at }
        }
    }
}

} // verus!

verus! {

/// Why an evaluation failed.
#[derive(Debug, PartialEq, Eq)]
pub enum Error {
    /// No variable or function has this name.
    NameError(String),
    /// An operator or a function met a kind of value that it does not take.
    TypeError,
    /// The rows or the dimensions of a matrix do not fit.
    ShapeError,
    /// The arithmetic has no result, as in a division by zero.
    ArithmeticError,
}

/// The mathematical value of an [`Error`].
pub ghost enum ErrorView {
    NameError(Seq<char>),
    TypeError,
    ShapeError,
    ArithmeticError,
}

impl View for Error {
    type V = ErrorView;

    open spec fn view(&self) -> ErrorView {
        match self {
            Error::NameError(name) => ErrorView::NameError(name@),
            Error::TypeError => ErrorView::TypeError,
            Error::ShapeError => ErrorView::ShapeError,
            Error::ArithmeticError => ErrorView::ArithmeticError,
        }
    }
}

impl Clone for Error {
    fn clone(&self) -> (r: Self)
        ensures
            r@ == self@,
    {
        match self {
            Error::NameError(name) => Error::NameError(name.clone()),
            Error::TypeError => Error::TypeError,
            Error::ShapeError => Error::ShapeError,
            Error::ArithmeticError => Error::ArithmeticError,
        }
    }
}

} // verus!
