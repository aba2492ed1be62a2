use vstd::prelude::*;
use crate::ast::{ExpressionView, Operator};
use crate::error::ParseError;
use crate::grammar::{
    binding_power, ends_level, parse_expression, parse_infix, parse_line, parse_primary,
    right_threshold,
};
use crate::scalar::Real;
use crate::token::Token;
use crate::writing::token_of;

verus! {

/// The line `a first b second c` of three numbers and two operators.
pub open spec fn chain(a: Real, first: Operator, b: Real, second: Operator, c: Real) -> Seq<
    Token,
> {
    seq![
        Token::Number(a),
        token_of(first),
        Token::Number(b),
        token_of(second),
        Token::Number(c),
    ]
}

/// Whether, of two operators in a row, the second takes the operand
/// between them: whether it does not end the level of the right operand of
/// the first.
pub open spec fn second_binds(first: Operator, second: Operator) -> bool {
    !ends_level(token_of(second), right_threshold(token_of(first)))
}

/// The operation `left op right`.
pub open spec fn binary(left: ExpressionView, op: Operator, right: ExpressionView) -> ExpressionView {
    ExpressionView::Binary(Box::new(left), op, Box::new(right))
}

/// Of two operators in a row, the one that binds the operand between them
/// is applied first: `a first b second c` is `a first (b second c)` where
/// the second operator binds, and `(a first b) second c` where it does
/// not.
pub proof fn lemma_two_operators(a: Real, first: Operator, b: Real, second: Operator, c: Real)
    ensures
        parse_line(chain(a, first, b, second, c)) == Ok::<ExpressionView, ParseError>(
            if second_binds(first, second) {
                binary(
                    ExpressionView::Number(a),
                    first,
                    binary(ExpressionView::Number(b), second, ExpressionView::Number(c)),
                )
            } else {
                binary(
                    binary(ExpressionView::Number(a), first, ExpressionView::Number(b)),
                    second,
                    ExpressionView::Number(c),
                )
            },
        ),
{
    let t = chain(a, first, b, second, c);
    let (x, y, z) = (ExpressionView::Number(a), ExpressionView::Number(b), ExpressionView::Number(c));
    let inner = right_threshold(t[1]);
    let last = right_threshold(t[3]);
    assert(parse_primary(t, 0, 5) == Ok::<(ExpressionView, int), ParseError>((x, 1)));
    assert(parse_primary(t, 2, 5) == Ok::<(ExpressionView, int), ParseError>((y, 3)));
    assert(parse_primary(t, 4, 5) == Ok::<(ExpressionView, int), ParseError>((z, 5)));
    assert(parse_infix(t, z, 5, 5, last) == Ok::<(ExpressionView, int), ParseError>((z, 5)));
    assert(parse_expression(t, 4, 5, last) == Ok::<(ExpressionView, int), ParseError>((z, 5)));
    if second_binds(first, second) {
        let right = binary(y, second, z);
        let all = binary(x, first, right);
        assert(parse_infix(t, right, 5, 5, inner) == Ok::<(ExpressionView, int), ParseError>(
            (right, 5),
        ));
        assert(parse_infix(t, y, 3, 5, inner) == Ok::<(ExpressionView, int), ParseError>(
            (right, 5),
        ));
        assert(parse_expression(t, 2, 5, inner) == Ok::<(ExpressionView, int), ParseError>(
            (right, 5),
        ));
        assert(parse_infix(t, all, 5, 5, 0) == Ok::<(ExpressionView, int), ParseError>((all, 5)));
        assert(parse_infix(t, x, 1, 5, 0) == Ok::<(ExpressionView, int), ParseError>((all, 5)));
    } else {
        let left = binary(x, first, y);
        let all = binary(left, second, z);
        assert(parse_infix(t, y, 3, 5, inner) == Ok::<(ExpressionView, int), ParseError>((y, 3)));
        assert(parse_expression(t, 2, 5, inner) == Ok::<(ExpressionView, int), ParseError>(
            (y, 3),
        ));
        assert(parse_infix(t, all, 5, 5, 0) == Ok::<(ExpressionView, int), ParseError>((all, 5)));
        assert(parse_infix(t, left, 3, 5, 0) == Ok::<(ExpressionView, int), ParseError>((all, 5)));
        assert(parse_infix(t, x, 1, 5, 0) == Ok::<(ExpressionView, int), ParseError>((all, 5)));
    }
    assert(parse_expression(t, 0, 5, 0) is Ok);
}

/// An operator of a higher power than the one before it is applied first:
/// multiplication before addition.
pub proof fn lemma_higher_power_binds(first: Operator, second: Operator)
    requires
        binding_power(token_of(first)) < binding_power(token_of(second)),
    ensures
        second_binds(first, second),
{
}

/// An operator of a lower power than the one before it is applied second.
pub proof fn lemma_lower_power_waits(first: Operator, second: Operator)
    requires
        binding_power(token_of(first)) > binding_power(token_of(second)),
    ensures
        !second_binds(first, second),
{
}

/// Exponentiation associates to the right: `a ^ b ^ c` is `a ^ (b ^ c)`.
pub proof fn lemma_power_associates_right()
    ensures
        second_binds(Operator::Pow, Operator::Pow),
{
}

/// Every other operator associates to the left: `a - b - c` is
/// `(a - b) - c`.
pub proof fn lemma_others_associate_left(op: Operator)
    requires
        !(op is Pow),
    ensures
        !second_binds(op, op),
{
}

} // verus!
