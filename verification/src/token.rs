use vstd::prelude::*;
use crate::scalar::Real;

verus! {

/// One lexical token of a line.
#[derive(Debug, PartialEq, Eq)]
pub enum Token {
    Identifier(String),
    Number(Real),
    Add,
    Sub,
    Mul,
    Div,
    Pow,
    Modulo,
    /// The assignment marker.
    Eq,
    IsEq,
    Gt,
    Lt,
    GtEq,
    LtEq,
    LParen,
    RParen,
    LCurly,
    RCurly,
    Comma,
    If,
    Then,
    Else,
    End,
}

impl Clone for Token {
    fn clone(&self) -> (r: Self)
        ensures
            r == *self,
    {
        match self {
            Token::Identifier(name) => Token::Identifier(name.clone()),
            Token::Number(n) => Token::Number(*n),
            Token::Add => Token::Add,
            Token::Sub => Token::Sub,
            Token::Mul => Token::Mul,
            Token::Div => Token::Div,
            Token::Pow => Token::Pow,
            Token::Modulo => Token::Modulo,
            Token::Eq => Token::Eq,
            Token::IsEq => Token::IsEq,
            Token::Gt => Token::Gt,
            Token::Lt => Token::Lt,
            Token::GtEq => Token::GtEq,
            Token::LtEq => Token::LtEq,
            Token::LParen => Token::LParen,
            Token::RParen => Token::RParen,
            Token::LCurly => Token::LCurly,
            Token::RCurly => Token::RCurly,
            Token::Comma => Token::Comma,
            Token::If => Token::If,
            Token::Then => Token::Then,
            Token::Else => Token::Else,
            Token::End => Token::End,
        }
    }
}

impl Token {
    /// How the token is written: a name as itself, an operator, a delimiter
    /// or a keyword as its sign. A number, whose digits the library does
    /// not know, is written as the word `number`.
    pub open spec fn text(self) -> Seq<char> {
        match self {
            Token::Identifier(name) => name@,
            Token::Number(_) => "number"@,
            Token::Add => "+"@,
            Token::Sub => "-"@,
            Token::Mul => "*"@,
            Token::Div => "/"@,
            Token::Pow => "^"@,
            Token::Modulo => "%"@,
            Token::Eq => "="@,
            Token::IsEq => "=="@,
            Token::Gt => ">"@,
            Token::Lt => "<"@,
            Token::GtEq => ">="@,
            Token::LtEq => "<="@,
            Token::LParen => "("@,
            Token::RParen => ")"@,
            Token::LCurly => "{"@,
            Token::RCurly => "}"@,
            Token::Comma => ","@,
            Token::If => "if"@,
            Token::Then => "then"@,
            Token::Else => "else"@,
            Token::End => "end"@,
        }
    }

    /// How the token is written.
    pub fn to_text(&self) -> (text: String)
        ensures
            text@ == self.text(),
    {
        match self {
            Token::Identifier(name) => name.clone(),
            Token::Number(_) => "number".to_string(),
            Token::Add => "+".to_string(),
            Token::Sub => "-".to_string(),
            Token::Mul => "*".to_string(),
            Token::Div => "/".to_string(),
            Token::Pow => "^".to_string(),
            Token::Modulo => "%".to_string(),
            Token::Eq => "=".to_string(),
            Token::IsEq => "==".to_string(),
            Token::Gt => ">".to_string(),
            Token::Lt => "<".to_string(),
            Token::GtEq => ">=".to_string(),
            Token::LtEq => "<=".to_string(),
            Token::LParen => "(".to_string(),
            Token::RParen => ")".to_string(),
            Token::LCurly => "{".to_string(),
            Token::RCurly => "}".to_string(),
            Token::Comma => ",".to_string(),
            Token::If => "if".to_string(),
            Token::Then => "then".to_string(),
            Token::Else => "else".to_string(),
            Token::End => "end".to_string(),
        }
    }
}

} // verus!
