use vstd::prelude::*;
use crate::ast::{expression_views, name_views, Ast, AstView, Expression, ExpressionView, Operator};
use crate::error::{unexpected, Expected, ParseError};
use crate::grammar::{
    binding_power, classify, closer, closes, closes_list, marker_from, opens, operator_of,
    parse_branch, parse_expression, parse_infix, parse_items, parse_parameters, parse_primary,
    parse_span, separates, span_len, Nesting, Parsed, ParsedList,
};
use crate::token::Token;

verus! {

/// The mathematical reading of what an expression parse returned.
pub open spec fn parsed_view(r: Result<(Expression, usize), ParseError>) -> Parsed {
    match r {
        Ok((tree, next)) => Ok((tree@, next as int)),
        Err(e) => Err(e),
    }
}

/// The mathematical reading of what the parse of a list returned.
pub open spec fn parsed_list_view(r: Result<(Vec<Expression>, usize), ParseError>) -> ParsedList {
    match r {
        Ok((items, next)) => Ok((expression_views(items@), next as int)),
        Err(e) => Err(e),
    }
}

/// The mathematical reading of what the parse of a span returned.
pub open spec fn tree_view(r: Result<Expression, ParseError>) -> Result<
    ExpressionView,
    ParseError,
> {
    match r {
        Ok(tree) => Ok(tree@),
        Err(e) => Err(e),
    }
}

/// The mathematical reading of what the parse of a statement returned.
pub open spec fn statement_view(r: Result<Ast, ParseError>) -> Result<AstView, ParseError> {
    match r {
        Ok(statement) => Ok(statement@),
        Err(e) => Err(e),
    }
}

/// The token sequences of a list of lines.
pub open spec fn line_views(lines: Seq<Vec<Token>>) -> Seq<Seq<Token>> {
    Seq::new(lines.len(), |i: int| lines[i]@)
}

/// The parser of a program: it holds the tokens of the program, line by
/// line.
pub struct Parser {
    tokens: Vec<Vec<Token>>,
}

impl View for Parser {
    type V = Seq<Seq<Token>>;

    closed spec fn view(&self) -> Seq<Seq<Token>> {
        line_views(self.tokens@)
    }
}

/// Whether `token` opens a level of the bracketing.
fn token_opens(kind: Nesting, token: &Token) -> (b: bool)
    ensures
        b == opens(kind, *token),
{
    match kind {
        Nesting::Arguments => matches!(token, Token::LParen | Token::LCurly),
        Nesting::Rows => matches!(token, Token::LCurly),
        Nesting::Branch => matches!(token, Token::If),
    }
}

/// Whether `token` closes a level of the bracketing.
fn token_closes(kind: Nesting, token: &Token) -> (b: bool)
    ensures
        b == closes(kind, *token),
{
    match kind {
        Nesting::Arguments => matches!(token, Token::RParen | Token::RCurly),
        Nesting::Rows => matches!(token, Token::RCurly),
        Nesting::Branch => matches!(token, Token::End),
    }
}

/// Whether `token` separates the parts of the bracketing.
fn token_separates(kind: Nesting, token: &Token) -> (b: bool)
    ensures
        b == separates(kind, *token),
{
    match kind {
        Nesting::Arguments => matches!(token, Token::Comma),
        Nesting::Rows => matches!(token, Token::Comma),
        Nesting::Branch => matches!(token, Token::Then | Token::Else),
    }
}

/// Whether `token` is the delimiter that ends a list.
fn token_closes_list(kind: Nesting, token: &Token) -> (b: bool)
    ensures
        b == closes_list(kind, *token),
{
    match kind {
        Nesting::Arguments => matches!(token, Token::RParen),
        Nesting::Rows => matches!(token, Token::RCurly),
        Nesting::Branch => matches!(token, Token::End),
    }
}

/// What is expected where a list should close.
fn closer_of(kind: Nesting) -> (e: Expected)
    ensures
        e == closer(kind),
{
    match kind {
        Nesting::Arguments => Expected::RParen,
        Nesting::Rows => Expected::RCurly,
        Nesting::Branch => Expected::End,
    }
}

/// The operator that a token denotes, if it denotes one.
fn token_operator(token: &Token) -> (op: Option<Operator>)
    ensures
        op == operator_of(*token),
{
    match token {
        Token::Add => Some(Operator::Add),
        Token::Sub => Some(Operator::Sub),
        Token::Mul => Some(Operator::Mul),
        Token::Div => Some(Operator::Div),
        Token::Modulo => Some(Operator::Modulo),
        Token::Pow => Some(Operator::Pow),
        Token::IsEq => Some(Operator::IsEq),
        Token::Gt => Some(Operator::Gt),
        Token::Lt => Some(Operator::Lt),
        Token::GtEq => Some(Operator::GtEq),
        Token::LtEq => Some(Operator::LtEq),
        _ => None,
    }
}

/// The binding power of a token where an operator may stand.
fn token_power(token: &Token) -> (power: u16)
    ensures
        power == binding_power(*token),
{
    match token {
        Token::Add => 1,
        Token::Sub => 2,
        Token::Mul => 3,
        Token::Div => 4,
        Token::Modulo => 5,
        Token::Pow => 6,
        Token::IsEq | Token::Gt | Token::Lt | Token::GtEq | Token::LtEq => 7,
        Token::If | Token::Then | Token::Else | Token::End => 8,
        _ => 0,
    }
}

/// Finds where the span that starts at `pos` stops.
fn scan(tokens: &Vec<Token>, pos: usize, end: usize, kind: Nesting) -> (stop: usize)
    requires
        pos <= end <= tokens.len(),
    ensures
        stop == pos + span_len(tokens@, pos as int, end as int, 0, kind),
        pos <= stop <= end,
{
    let mut i: usize = pos;
    let mut depth: usize = 0;
    while i < end
        invariant
            pos <= i <= end <= tokens.len(),
            depth <= i - pos,
            span_len(tokens@, pos as int, end as int, 0, kind) == (i - pos) + span_len(
                tokens@,
                i as int,
                end as int,
                depth as nat,
                kind,
            ),
        decreases end - i,
    {
        let token = &tokens[i];
        let closing = token_closes(kind, token);
        if depth == 0 && (closing || token_separates(kind, token)) {
            return i;
        }
        if token_opens(kind, token) {
            depth = depth + 1;
        } else if closing {
            depth = depth - 1;
        }
        i = i + 1;
    }
    i
}

/// Parses one expression from `pos`, reading no token at or after `end`.
fn parse_within(tokens: &Vec<Token>, pos: usize, end: usize, prec: u16) -> (r: Result<
    (Expression, usize),
    ParseError,
>)
    requires
        pos <= end <= tokens.len(),
    ensures
        parsed_view(r) == parse_expression(tokens@, pos as int, end as int, prec as int),
        r matches Ok((_, next)) ==> pos < next <= end,
    decreases end - pos, 2int,
{
    let (first, start) = match parse_term(tokens, pos, end) {
        Err(e) => { return Err(e); },
        Ok(pair) => pair,
    };
    let mut left = first;
    let mut at: usize = start;
    loop
        invariant
            pos < at <= end <= tokens.len(),
            parse_expression(tokens@, pos as int, end as int, prec as int) == parse_infix(
                tokens@,
                left@,
                at as int,
                end as int,
                prec as int,
            ),
        decreases end - at,
    {
        if at >= end {
            return Ok((left, at));
        }
        let token = &tokens[at];
        let power = token_power(token);
        let is_pow = matches!(token, Token::Pow);
        if (is_pow && power < prec) || (!is_pow && power <= prec) {
            return Ok((left, at));
        }
        let op = match token_operator(token) {
            None => { return Err(ParseError::unexpected(tokens, at, Expected::Operator)); },
            Some(op) => op,
        };
        let threshold: u16 = if is_pow {
            power - 1
        } else {
            power
        };
        let (right, next) = match parse_within(tokens, at + 1, end, threshold) {
            Err(e) => { return Err(e); },
            Ok(pair) => pair,
        };
        left = Expression::Binary(Box::new(left), op, Box::new(right));
        at = next;
    }
}

/// Parses the primary term that starts at `pos`.
fn parse_term(tokens: &Vec<Token>, pos: usize, end: usize) -> (r: Result<
    (Expression, usize),
    ParseError,
>)
    requires
        pos <= end <= tokens.len(),
    ensures
        parsed_view(r) == parse_primary(tokens@, pos as int, end as int),
        r matches Ok((_, next)) ==> pos < next <= end,
    decreases end - pos, 1int,
{
    if pos >= end {
        return Err(ParseError::unexpected(tokens, pos, Expected::Expression));
    }
    match &tokens[pos] {
        Token::Identifier(name) => {
            if pos + 1 < end && token_power(&tokens[pos + 1]) == 0 && !matches!(
                &tokens[pos + 1],
                Token::RParen
            ) {
                if !matches!(&tokens[pos + 1], Token::LParen) {
                    return Err(ParseError::unexpected(tokens, pos + 1, Expected::LParen));
                }
                match parse_list(tokens, pos + 2, end, Nesting::Arguments, true) {
                    Err(e) => Err(e),
                    Ok((args, next)) => {
                        let callee = name.clone();
                        proof {
                            Expression::lemma_call_view(callee, args);
                        }
                        Ok((Expression::FunctionCall(callee, args), next))
                    },
                }
            } else {
                Ok((Expression::Identifier(name.clone()), pos + 1))
            }
        },
        Token::LParen => {
            match parse_within(tokens, pos + 1, end, 0) {
                Err(e) => Err(e),
                Ok((inner, next)) => {
                    if next < end && matches!(&tokens[next], Token::RParen) {
                        Ok((inner, next + 1))
                    } else {
                        Err(ParseError::unexpected(tokens, next, Expected::RParen))
                    }
                },
            }
        },
        Token::If => parse_conditional(tokens, pos, end),
        Token::LCurly => {
            match parse_list(tokens, pos + 1, end, Nesting::Rows, true) {
                Err(e) => Err(e),
                Ok((rows, next)) => {
                    proof {
                        Expression::lemma_set_view(rows);
                    }
                    Ok((Expression::SizedSet(rows), next))
                },
            }
        },
        Token::Sub => {
            if pos + 1 < end {
                if let Token::Number(n) = &tokens[pos + 1] {
                    return Ok((Expression::Number(n.negated()), pos + 2));
                }
            }
            Err(ParseError::unexpected(tokens, pos + 1, Expected::Number))
        },
        Token::Number(n) => Ok((Expression::Number(*n), pos + 1)),
        _ => Err(ParseError::unexpected(tokens, pos, Expected::Expression)),
    }
}

/// Parses the conditional whose `if` stands at `pos`.
fn parse_conditional(tokens: &Vec<Token>, pos: usize, end: usize) -> (r: Result<
    (Expression, usize),
    ParseError,
>)
    requires
        pos < end <= tokens.len(),
    ensures
        parsed_view(r) == parse_branch(tokens@, pos as int, end as int),
        r matches Ok((_, next)) ==> pos < next <= end,
    decreases end - pos, 0int,
{
    let then_at = scan(tokens, pos + 1, end, Nesting::Branch);
    if !(then_at < end && matches!(&tokens[then_at], Token::Then)) {
        return Err(ParseError::unexpected(tokens, then_at, Expected::Then));
    }
    let condition = match parse_whole(tokens, pos + 1, then_at) {
        Err(e) => { return Err(e); },
        Ok(tree) => tree,
    };
    let else_at = scan(tokens, then_at + 1, end, Nesting::Branch);
    if !(else_at < end && matches!(&tokens[else_at], Token::Else)) {
        return Err(ParseError::unexpected(tokens, else_at, Expected::Else));
    }
    let first = match parse_whole(tokens, then_at + 1, else_at) {
        Err(e) => { return Err(e); },
        Ok(tree) => tree,
    };
    let end_at = scan(tokens, else_at + 1, end, Nesting::Branch);
    if !(end_at < end && matches!(&tokens[end_at], Token::End)) {
        return Err(ParseError::unexpected(tokens, end_at, Expected::End));
    }
    let second = match parse_whole(tokens, else_at + 1, end_at) {
        Err(e) => { return Err(e); },
        Ok(tree) => tree,
    };
    Ok((Expression::Branched(Box::new(condition), Box::new(first), Box::new(second)), end_at + 1))
}

/// Parses the tokens from `start` up to `end` as one whole expression.
fn parse_whole(tokens: &Vec<Token>, start: usize, end: usize) -> (r: Result<
    Expression,
    ParseError,
>)
    requires
        start <= end <= tokens.len(),
    ensures
        tree_view(r) == parse_span(tokens@, start as int, end as int),
    decreases end - start, 3int,
{
    match parse_within(tokens, start, end, 0) {
        Err(e) => Err(e),
        Ok((tree, next)) => {
            if next == end {
                Ok(tree)
            } else {
                Err(ParseError::unexpected(tokens, next, Expected::Operator))
            }
        },
    }
}

/// Parses the items of a list from `pos` up to its closing delimiter.
fn parse_list(tokens: &Vec<Token>, pos: usize, end: usize, kind: Nesting, first: bool) -> (r:
    Result<(Vec<Expression>, usize), ParseError>)
    requires
        pos <= end <= tokens.len(),
    ensures
        parsed_list_view(r) == parse_items(tokens@, pos as int, end as int, kind, first),
        r matches Ok((_, next)) ==> pos < next <= end,
    decreases end - pos, 0int,
{
    let stop = scan(tokens, pos, end, kind);
    if stop >= end {
        return Err(ParseError::unexpected(tokens, stop, closer_of(kind)));
    }
    let closing = token_closes_list(kind, &tokens[stop]);
    if !(matches!(&tokens[stop], Token::Comma) || closing) {
        return Err(ParseError::unexpected(tokens, stop, closer_of(kind)));
    }
    if first && stop == pos && closing {
        let none: Vec<Expression> = Vec::new();
        assert(expression_views(none@) =~= Seq::<ExpressionView>::empty());
        return Ok((none, stop + 1));
    }
    let item = match parse_whole(tokens, pos, stop) {
        Err(e) => { return Err(e); },
        Ok(tree) => tree,
    };
    if closing {
        let mut one: Vec<Expression> = Vec::new();
        one.push(item);
        assert(expression_views(one@) =~= seq![item@]);
        Ok((one, stop + 1))
    } else {
        match parse_list(tokens, stop + 1, end, kind, false) {
            Err(e) => Err(e),
            Ok((rest, next)) => {
                let mut items = rest;
                items.insert(0, item);
                assert(expression_views(items@) =~= seq![item@] + expression_views(rest@));
                Ok((items, next))
            },
        }
    }
}

/// Finds the first assignment marker at or after `pos`.
fn find_marker(line: &Vec<Token>, pos: usize) -> (at: usize)
    ensures
        at == marker_from(line@, pos as int),
        pos <= line.len() ==> pos <= at <= line.len(),
{
    let mut i: usize = pos;
    while i < line.len()
        invariant
            pos <= i,
            marker_from(line@, pos as int) == marker_from(line@, i as int),
        decreases line.len() - i,
    {
        if matches!(&line[i], Token::Eq) {
            return i;
        }
        i = i + 1;
    }
    line.len()
}

/// Reads the parameter names from `pos` up to `marker`.
fn parse_names(line: &Vec<Token>, pos: usize, marker: usize) -> (r: Result<
    Vec<String>,
    ParseError,
>)
    requires
        pos <= marker <= line.len(),
    ensures
        match r {
            Ok(names) => parse_parameters(line@, pos as int, marker as int) == Ok::<
                Seq<Seq<char>>,
                ParseError,
            >(name_views(names@)),
            Err(e) => parse_parameters(line@, pos as int, marker as int) == Err::<
                Seq<Seq<char>>,
                ParseError,
            >(e),
        },
    decreases marker - pos,
{
    if pos >= marker {
        let none: Vec<String> = Vec::new();
        assert(name_views(none@) =~= Seq::<Seq<char>>::empty());
        return Ok(none);
    }
    match &line[pos] {
        Token::Identifier(name) => {
            match parse_names(line, pos + 1, marker) {
                Err(e) => Err(e),
                Ok(rest) => {
                    let mut names = rest;
                    names.insert(0, name.clone());
                    assert(name_views(names@) =~= seq![name@] + name_views(rest@));
                    Ok(names)
                },
            }
        },
        _ => Err(ParseError::unexpected(line, pos, Expected::Identifier)),
    }
}

impl Parser {
    /// A parser for the given lines of tokens.
    pub fn new(tokens: Vec<Vec<Token>>) -> (p: Self)
        ensures
            p@ == line_views(tokens@),
    {
        Self { tokens }
    }

    /// The binding power of `op` where an operator may stand.
    pub fn infix_binding_power(&self, op: &Token) -> (power: u16)
        ensures
            power == binding_power(*op),
    {
        token_power(op)
    }

    /// Parses one expression of `tokens` from position `cursor` with the
    /// minimum binding power `prec`, and returns its tree with the position
    /// of the first token that does not belong to it.
    pub fn pratt_parser(&self, tokens: &Vec<Token>, cursor: usize, prec: u16) -> (r: Result<
        (Expression, usize),
        ParseError,
    >)
        ensures
            parsed_view(r) == parse_expression(
                tokens@,
                cursor as int,
                tokens.len() as int,
                prec as int,
            ),
    {
        if cursor > tokens.len() {
            Err(ParseError::unexpected(tokens, cursor, Expected::Expression))
        } else {
            parse_within(tokens, cursor, tokens.len(), prec)
        }
    }

    /// Decides which statement a line of tokens is.
    pub fn statement(&self, line: &Vec<Token>) -> (r: Result<Ast, ParseError>)
        ensures
            statement_view(r) == classify(line@),
    {
        let len = line.len();
        if len >= 2 && matches!(&line[1], Token::Eq) {
            if let Token::Identifier(name) = &line[0] {
                return match parse_whole(line, 2, len) {
                    Err(e) => Err(e),
                    Ok(value) => Ok(Ast::Assignment(name.clone(), value)),
                };
            }
        }
        let marker = find_marker(line, 1);
        if marker < len {
            match &line[0] {
                Token::Identifier(name) => {
                    let params = match parse_names(line, 1, marker) {
                        Err(e) => { return Err(e); },
                        Ok(names) => names,
                    };
                    match parse_whole(line, marker + 1, len) {
                        Err(e) => Err(e),
                        Ok(body) => Ok(Ast::FunctionDeclaration(name.clone(), params, body)),
                    }
                },
                _ => Err(ParseError::unexpected(line, 0, Expected::Identifier)),
            }
        } else {
            match parse_whole(line, 0, len) {
                Err(e) => Err(e),
                Ok(Expression::FunctionCall(name, args)) => {
                    proof {
                        Expression::lemma_call_view(name, args);
                    }
                    Ok(Ast::FunctionCall(name, args))
                },
                Ok(_) => Err(
                    ParseError {
                        expected: Expected::FunctionCall,
                        found: Some(line[0].clone()),
                        start: 0,
                        end: len,
                    },
                ),
            }
        }
    }

    /// The statements of the program, one per line, or the first line that
    /// is none, with its error.
    pub fn ast(&self) -> (r: Result<Vec<Ast>, (usize, ParseError)>)
        ensures
            match r {
                Ok(statements) => statements.len() == self@.len() && forall|i: int|
                    0 <= i < self@.len() ==> classify(#[trigger] self@[i]) == Ok::<
                        AstView,
                        ParseError,
                    >(statements[i]@),
                Err((line, error)) => line < self@.len() && classify(self@[line as int]) == Err::<
                    AstView,
                    ParseError,
                >(error) && forall|i: int| 0 <= i < line ==> classify(#[trigger] self@[i]) is Ok,
            },
    {
        let mut statements: Vec<Ast> = Vec::new();
        let mut i: usize = 0;
        while i < self.tokens.len()
            invariant
                i <= self.tokens.len(),
                statements.len() == i,
                forall|j: int|
                    0 <= j < i ==> classify(#[trigger] self@[j]) == Ok::<AstView, ParseError>(
                        statements[j]@,
                    ),
            decreases self.tokens.len() - i,
        {
            match self.statement(&self.tokens[i]) {
                Err(e) => { return Err((i, e)); },
                Ok(statement) => {
                    statements.push(statement);
                },
            }
            i = i + 1;
        }
        Ok(statements)
    }
}

} // verus!
