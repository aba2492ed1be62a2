use vstd::prelude::*;
use crate::ast::{AstView, ExpressionView, Operator};
use crate::error::{unexpected, Expected, ParseError};
use crate::token::Token;

verus! {

/// What an expression parse yields: the tree and the position of the first
/// token that it did not consume.
pub type Parsed = Result<(ExpressionView, int), ParseError>;

/// What the parse of a delimited list yields: the items and the position
/// after the closing delimiter.
pub type ParsedList = Result<(Seq<ExpressionView>, int), ParseError>;

/// The binding power of a token in operator position. Tokens that are no
/// operators have power zero.
pub open spec fn binding_power(token: Token) -> nat {
    match token {
        Token::Add => 1,
        Token::Sub => 2,
        Token::Mul => 3,
        Token::Div => 4,
        Token::Modulo => 5,
        Token::Pow => 6,
        Token::IsEq | Token::Gt | Token::Lt | Token::GtEq | Token::LtEq => 7,
        Token::If | Token::Then | Token::Else | Token::End => 8,
        _ => 0,
    }
}

/// The operator that a token denotes, if it denotes one.
pub open spec fn operator_of(token: Token) -> Option<Operator> {
    match token {
        Token::Add => Some(Operator::Add),
        Token::Sub => Some(Operator::Sub),
        Token::Mul => Some(Operator::Mul),
        Token::Div => Some(Operator::Div),
        Token::Modulo => Some(Operator::Modulo),
        Token::Pow => Some(Operator::Pow),
        Token::IsEq => Some(Operator::IsEq),
        Token::Gt => Some(Operator::Gt),
        Token::Lt => Some(Operator::Lt),
        Token::GtEq => Some(Operator::GtEq),
        Token::LtEq => Some(Operator::LtEq),
        _ => None,
    }
}

/// Whether a level that parses with threshold `prec` ends before `token`.
/// Exponentiation associates to the right, so it ends a level only when its
/// power is below the threshold; every other token ends a level when its
/// power is not above it.
pub open spec fn ends_level(token: Token, prec: int) -> bool {
    if token is Pow {
        binding_power(token) < prec
    } else {
        binding_power(token) <= prec
    }
}

/// The threshold with which the right operand of `token` is parsed: one
/// below its own power for exponentiation, its own power for the others.
pub open spec fn right_threshold(token: Token) -> int {
    if token is Pow {
        binding_power(token) - 1
    } else {
        binding_power(token) as int
    }
}

/// The three bracketings that the parser scans over.
#[derive(Clone, Copy, Debug, PartialEq, Eq, Structural)]
pub enum Nesting {
    /// The arguments of a call: `(` and `{` open, `)` and `}` close, `,`
    /// separates.
    Arguments,
    /// The rows of a matrix literal: `{` opens, `}` closes, `,` separates.
    Rows,
    /// The parts of a conditional: `if` opens, `end` closes, `then` and
    /// `else` separate.
    Branch,
}

/// Whether `token` opens a level of the bracketing.
pub open spec fn opens(kind: Nesting, token: Token) -> bool {
    match kind {
        Nesting::Arguments => token is LParen || token is LCurly,
        Nesting::Rows => token is LCurly,
        Nesting::Branch => token is If,
    }
}

/// Whether `token` closes a level of the bracketing.
pub open spec fn closes(kind: Nesting, token: Token) -> bool {
    match kind {
        Nesting::Arguments => token is RParen || token is RCurly,
        Nesting::Rows => token is RCurly,
        Nesting::Branch => token is End,
    }
}

/// Whether `token` separates the parts of the bracketing.
pub open spec fn separates(kind: Nesting, token: Token) -> bool {
    match kind {
        Nesting::Arguments => token is Comma,
        Nesting::Rows => token is Comma,
        Nesting::Branch => token is Then || token is Else,
    }
}

/// The nesting depth after `token`, which stands at depth `depth`.
pub open spec fn depth_after(kind: Nesting, depth: nat, token: Token) -> nat {
    if opens(kind, token) {
        depth + 1
    } else if closes(kind, token) && depth > 0 {
        (depth - 1) as nat
    } else {
        depth
    }
}

/// The length of the span that starts at `pos` inside a bracketing of kind
/// `kind` entered at depth `depth`: the number of tokens before the first
/// one that, at depth zero, separates or closes, or before `end` if there
/// is none.
pub open spec fn span_len(tokens: Seq<Token>, pos: int, end: int, depth: nat, kind: Nesting) -> nat
    decreases end - pos,
{
    if pos < 0 || pos >= end || end > tokens.len() {
        0
    } else if depth == 0 && (closes(kind, tokens[pos]) || separates(kind, tokens[pos])) {
        0
    } else {
        1 + span_len(tokens, pos + 1, end, depth_after(kind, depth, tokens[pos]), kind)
    }
}

/// Whether `token` is the delimiter that ends a list of kind `kind`.
pub open spec fn closes_list(kind: Nesting, token: Token) -> bool {
    match kind {
        Nesting::Arguments => token is RParen,
        Nesting::Rows => token is RCurly,
        Nesting::Branch => token is End,
    }
}

/// What is expected where a list of kind `kind` should close.
pub open spec fn closer(kind: Nesting) -> Expected {
    match kind {
        Nesting::Arguments => Expected::RParen,
        Nesting::Rows => Expected::RCurly,
        Nesting::Branch => Expected::End,
    }
}

/// Parses one expression from position `pos` of `tokens`, reading no token
/// at or after `end`, with the minimum binding power `prec`: a primary term,
/// followed by the operators that bind more tightly than `prec` and their
/// right operands.
///
/// The test that the primary term ends after `pos` shows that the
/// definition is well founded. It never fails: a primary term that parses
/// holds at least one token.
pub open spec fn parse_expression(tokens: Seq<Token>, pos: int, end: int, prec: int) -> Parsed
    decreases end - pos, 2int,
{
    match parse_primary(tokens, pos, end) {
        Err(e) => Err(e),
        Ok((left, next)) => if pos < next <= end {
            parse_infix(tokens, left, next, end, prec)
        } else {
            Err(unexpected(tokens, pos, Expected::Expression))
        },
    }
}

/// Parses the primary term that starts at `pos`:
///
/// - a name before a token that is neither an operator nor `)` is the name
///   of a call: the token has to be `(`, and the arguments follow, up to
///   the `)` of the same depth;
/// - any other name is a variable;
/// - `(` opens a group: an expression, then the `)` that closes it;
/// - `if` opens a conditional;
/// - `{` opens a matrix literal: its rows, up to the `}` of the same depth;
/// - `-` before a number is the negative of that number;
/// - a number is itself.
pub open spec fn parse_primary(tokens: Seq<Token>, pos: int, end: int) -> Parsed
    decreases end - pos, 1int,
{
    if pos < 0 || pos >= end || end > tokens.len() {
        Err(unexpected(tokens, pos, Expected::Expression))
    } else {
        match tokens[pos] {
            Token::Identifier(name) => {
                if pos + 1 < end && binding_power(tokens[pos + 1]) == 0 && !(tokens[pos
                    + 1] is RParen) {
                    if !(tokens[pos + 1] is LParen) {
                        Err(unexpected(tokens, pos + 1, Expected::LParen))
                    } else {
                        match parse_items(tokens, pos + 2, end, Nesting::Arguments, true) {
                            Err(e) => Err(e),
                            Ok((args, next)) => Ok(
                                (ExpressionView::FunctionCall(name@, args), next),
                            ),
                        }
                    }
                } else {
                    Ok((ExpressionView::Identifier(name@), pos + 1))
                }
            },
            Token::LParen => {
                match parse_expression(tokens, pos + 1, end, 0) {
                    Err(e) => Err(e),
                    Ok((inner, next)) => if 0 <= next < end && tokens[next] is RParen {
                        Ok((inner, next + 1))
                    } else {
                        Err(unexpected(tokens, next, Expected::RParen))
                    },
                }
            },
            Token::If => parse_branch(tokens, pos, end),
            Token::LCurly => {
                match parse_items(tokens, pos + 1, end, Nesting::Rows, true) {
                    Err(e) => Err(e),
                    Ok((rows, next)) => Ok((ExpressionView::SizedSet(rows), next)),
                }
            },
            Token::Sub => {
                if pos + 1 < end && tokens[pos + 1] is Number {
                    Ok((ExpressionView::Number(tokens[pos + 1]->Number_0.negation()), pos + 2))
                } else {
                    Err(unexpected(tokens, pos + 1, Expected::Number))
                }
            },
            Token::Number(n) => Ok((ExpressionView::Number(n), pos + 1)),
            _ => Err(unexpected(tokens, pos, Expected::Expression)),
        }
    }
}

/// Parses the conditional whose `if` stands at `pos`: the condition up to
/// the `then` of its own depth, the first branch up to the `else`, the
/// second up to the `end`.
pub open spec fn parse_branch(tokens: Seq<Token>, pos: int, end: int) -> Parsed
    decreases end - pos, 0int,
{
    let then_at = pos + 1 + span_len(tokens, pos + 1, end, 0, Nesting::Branch);
    if pos < 0 || !(then_at < end <= tokens.len() && tokens[then_at] is Then) {
        Err(unexpected(tokens, then_at, Expected::Then))
    } else {
        match parse_span(tokens, pos + 1, then_at) {
            Err(e) => Err(e),
            Ok(condition) => {
                let else_at = then_at + 1 + span_len(tokens, then_at + 1, end, 0, Nesting::Branch);
                if !(else_at < end && tokens[else_at] is Else) {
                    Err(unexpected(tokens, else_at, Expected::Else))
                } else {
                    match parse_span(tokens, then_at + 1, else_at) {
                        Err(e) => Err(e),
                        Ok(first) => {
                            let end_at = else_at + 1 + span_len(
                                tokens,
                                else_at + 1,
                                end,
                                0,
                                Nesting::Branch,
                            );
                            if !(end_at < end && tokens[end_at] is End) {
                                Err(unexpected(tokens, end_at, Expected::End))
                            } else {
                                match parse_span(tokens, else_at + 1, end_at) {
                                    Err(e) => Err(e),
                                    Ok(second) => Ok(
                                        (
                                            ExpressionView::Branched(
                                                Box::new(condition),
                                                Box::new(first),
                                                Box::new(second),
                                            ),
                                            end_at + 1,
                                        ),
                                    ),
                                }
                            }
                        },
                    }
                }
            },
        }
    }
}

/// Continues an expression whose left operand `left` ends before `pos`:
/// as long as the next token is an operator that does not end the level,
/// its right operand is parsed and joined to what came before. A keyword
/// where an operator may stand ends no level and is no operator: it is an
/// error.
///
/// The test that the right operand ends after `pos` shows that the
/// definition is well founded, and never fails.
pub open spec fn parse_infix(
    tokens: Seq<Token>,
    left: ExpressionView,
    pos: int,
    end: int,
    prec: int,
) -> Parsed
    decreases end - pos, 0int,
{
    if pos < 0 || pos >= end || end > tokens.len() {
        Ok((left, pos))
    } else if ends_level(tokens[pos], prec) {
        Ok((left, pos))
    } else {
        match operator_of(tokens[pos]) {
            None => Err(unexpected(tokens, pos, Expected::Operator)),
            Some(op) => match parse_expression(tokens, pos + 1, end, right_threshold(tokens[pos])) {
                Err(e) => Err(e),
                Ok((right, next)) => if pos < next <= end {
                    parse_infix(
                        tokens,
                        ExpressionView::Binary(Box::new(left), op, Box::new(right)),
                        next,
                        end,
                        prec,
                    )
                } else {
                    Err(unexpected(tokens, pos, Expected::Operator))
                },
            },
        }
    }
}

/// Parses the tokens from `start` up to `end` as one expression that fills
/// the whole span.
pub open spec fn parse_span(tokens: Seq<Token>, start: int, end: int) -> Result<
    ExpressionView,
    ParseError,
>
    decreases end - start, 3int,
{
    match parse_expression(tokens, start, end, 0) {
        Err(e) => Err(e),
        Ok((tree, next)) => if next == end {
            Ok(tree)
        } else {
            Err(unexpected(tokens, next, Expected::Operator))
        },
    }
}

/// Parses the items of a list of kind `kind` from `pos`: spans that end at
/// the commas of depth zero, up to the closing delimiter. Only a list that
/// closes at once (`first` says that no item came before) is empty; every
/// other span holds one whole expression.
pub open spec fn parse_items(
    tokens: Seq<Token>,
    pos: int,
    end: int,
    kind: Nesting,
    first: bool,
) -> ParsedList
    decreases end - pos, 0int,
{
    let stop = pos + span_len(tokens, pos, end, 0, kind);
    if pos < 0 || !(stop < end <= tokens.len()) {
        Err(unexpected(tokens, stop, closer(kind)))
    } else if !(tokens[stop] is Comma || closes_list(kind, tokens[stop])) {
        Err(unexpected(tokens, stop, closer(kind)))
    } else if first && stop == pos && closes_list(kind, tokens[stop]) {
        Ok((Seq::empty(), stop + 1))
    } else {
        match parse_span(tokens, pos, stop) {
            Err(e) => Err(e),
            Ok(item) => if closes_list(kind, tokens[stop]) {
                Ok((seq![item], stop + 1))
            } else {
                match parse_items(tokens, stop + 1, end, kind, false) {
                    Err(e) => Err(e),
                    Ok((rest, next)) => Ok((seq![item] + rest, next)),
                }
            },
        }
    }
}

/// Parses a whole line of tokens as one expression.
pub open spec fn parse_line(tokens: Seq<Token>) -> Result<ExpressionView, ParseError> {
    parse_span(tokens, 0, tokens.len() as int)
}

/// The position of the first assignment marker at or after `pos`, or the
/// length of the line if there is none.
pub open spec fn marker_from(line: Seq<Token>, pos: int) -> int
    decreases line.len() - pos,
{
    if pos < 0 || pos >= line.len() {
        line.len() as int
    } else if line[pos] is Eq {
        pos
    } else {
        marker_from(line, pos + 1)
    }
}

/// The parameter names that stand from `pos` up to `marker`: every token
/// there has to be a name.
pub open spec fn parse_parameters(line: Seq<Token>, pos: int, marker: int) -> Result<
    Seq<Seq<char>>,
    ParseError,
>
    decreases marker - pos,
{
    if pos < 0 || pos >= marker || marker > line.len() {
        Ok(Seq::empty())
    } else {
        match line[pos] {
            Token::Identifier(name) => match parse_parameters(line, pos + 1, marker) {
                Err(e) => Err(e),
                Ok(rest) => Ok(seq![name@] + rest),
            },
            _ => Err(unexpected(line, pos, Expected::Identifier)),
        }
    }
}

/// The statement that a line of tokens is.
///
/// A name followed by the assignment marker starts an assignment. Any other
/// line with a marker after its first token declares a function: its name,
/// the names of its parameters, the marker and the body. A line without
/// such a marker is one expression, which has to be a call.
pub open spec fn classify(line: Seq<Token>) -> Result<AstView, ParseError> {
    let marker = marker_from(line, 1);
    if line.len() >= 2 && line[0] is Identifier && line[1] is Eq {
        match parse_span(line, 2, line.len() as int) {
            Err(e) => Err(e),
            Ok(value) => Ok(AstView::Assignment(line[0]->Identifier_0@, value)),
        }
    } else if marker < line.len() {
        if !(line[0] is Identifier) {
            Err(unexpected(line, 0, Expected::Identifier))
        } else {
            match parse_parameters(line, 1, marker) {
                Err(e) => Err(e),
                Ok(params) => match parse_span(line, marker + 1, line.len() as int) {
                    Err(e) => Err(e),
                    Ok(body) => Ok(
                        AstView::FunctionDeclaration(line[0]->Identifier_0@, params, body),
                    ),
                },
            }
        }
    } else {
        match parse_span(line, 0, line.len() as int) {
            Err(e) => Err(e),
            Ok(ExpressionView::FunctionCall(name, args)) => Ok(AstView::FunctionCall(name, args)),
            Ok(_) => Err(
                ParseError {
                    expected: Expected::FunctionCall,
                    found: Some(line[0]),
                    start: 0,
                    end: line.len() as usize,
                },
            ),
        }
    }
}

} // verus!
