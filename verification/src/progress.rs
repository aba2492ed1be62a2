use vstd::prelude::*;
use crate::ast::ExpressionView;
use crate::grammar::{
    closes_list, ends_level, operator_of, parse_branch, parse_expression, parse_infix,
    parse_items, parse_primary, right_threshold, span_len, Nesting,
};
use crate::token::Token;

verus! {

/// The operators that follow a left operand are read forwards and never
/// past the end of the span.
pub proof fn lemma_infix_advances(
    tokens: Seq<Token>,
    left: ExpressionView,
    pos: int,
    end: int,
    prec: int,
)
    requires
        pos <= end,
    ensures
        parse_infix(tokens, left, pos, end, prec) matches Ok((_, next)) ==> pos <= next <= end,
    decreases end - pos,
{
    if 0 <= pos < end && end <= tokens.len() && !ends_level(tokens[pos], prec) {
        if let Some(op) = operator_of(tokens[pos]) {
            if let Ok((right, next)) = parse_expression(
                tokens,
                pos + 1,
                end,
                right_threshold(tokens[pos]),
            ) {
                if pos < next <= end {
                    lemma_infix_advances(
                        tokens,
                        ExpressionView::Binary(Box::new(left), op, Box::new(right)),
                        next,
                        end,
                        prec,
                    );
                }
            }
        }
    }
}

/// An expression that parses holds at least one token and ends inside its
/// span.
pub proof fn lemma_expression_advances(tokens: Seq<Token>, pos: int, end: int, prec: int)
    ensures
        parse_expression(tokens, pos, end, prec) matches Ok((_, next)) ==> pos < next <= end,
{
    if let Ok((left, next)) = parse_primary(tokens, pos, end) {
        if pos < next <= end {
            lemma_infix_advances(tokens, left, next, end, prec);
        }
    }
}

/// A list that parses holds at least its closing delimiter and ends inside
/// its span.
pub proof fn lemma_items_advances(
    tokens: Seq<Token>,
    pos: int,
    end: int,
    kind: Nesting,
    first: bool,
)
    ensures
        parse_items(tokens, pos, end, kind, first) matches Ok((_, next)) ==> pos < next <= end,
    decreases end - pos,
{
    let stop = pos + span_len(tokens, pos, end, 0, kind);
    if 0 <= pos && stop < end <= tokens.len() && !closes_list(kind, tokens[stop]) {
        lemma_items_advances(tokens, stop + 1, end, kind, false);
    }
}

/// A primary term that parses holds at least one token and ends inside its
/// span: the test of the position in [`parse_expression`] never fails.
pub proof fn lemma_primary_advances(tokens: Seq<Token>, pos: int, end: int)
    ensures
        parse_primary(tokens, pos, end) matches Ok((_, next)) ==> pos < next <= end,
{
    if 0 <= pos < end <= tokens.len() {
        match tokens[pos] {
            Token::Identifier(_) => {
                lemma_items_advances(tokens, pos + 2, end, Nesting::Arguments, true);
            },
            Token::LParen => {
                lemma_expression_advances(tokens, pos + 1, end, 0);
            },
            Token::If => {
                assert(parse_branch(tokens, pos, end) matches Ok((_, next)) ==> pos < next <= end);
            },
            Token::LCurly => {
                lemma_items_advances(tokens, pos + 1, end, Nesting::Rows, true);
            },
            _ => {},
        }
    }
}

} // verus!
