use vstd::prelude::*;
use crate::ast::ExpressionView;
use crate::error::ParseError;
use crate::grammar::{
    binding_power, closes, closes_list, depth_after, ends_level, operator_of, parse_branch,
    parse_expression, parse_infix, parse_items, parse_line, parse_primary, parse_span,
    right_threshold, separates, span_len, Nesting, Parsed, ParsedList,
};
use crate::progress::lemma_expression_advances;
use crate::token::Token;

verus! {

/// The tokens of `b` from `pos + d` on are those of `a` from `pos` up to
/// `end_a`, and what follows them in `b`, if the span of `b` goes on, is a
/// closing parenthesis.
pub open spec fn agrees(
    a: Seq<Token>,
    b: Seq<Token>,
    d: int,
    pos: int,
    end_a: int,
    end_b: int,
) -> bool {
    &&& 0 <= d
    &&& 0 <= pos <= end_a <= a.len()
    &&& end_a + d <= end_b <= b.len()
    &&& forall|i: int| pos <= i < end_a ==> b[i + d] == #[trigger] a[i]
    &&& (end_b == end_a + d || b[end_a + d] is RParen)
}

/// A result with its position moved by `d`.
pub open spec fn moved(r: Parsed, d: int) -> Parsed {
    match r {
        Ok((tree, next)) => Ok((tree, next + d)),
        Err(e) => Err(e),
    }
}

/// The result of a list with its position moved by `d`.
spec fn moved_list(r: ParsedList, d: int) -> ParsedList {
    match r {
        Ok((items, next)) => Ok((items, next + d)),
        Err(e) => Err(e),
    }
}

/// A span that stops before the end of `a` has the same length in `b`.
proof fn lemma_span_len_agrees(
    a: Seq<Token>,
    b: Seq<Token>,
    d: int,
    pos: int,
    end_a: int,
    end_b: int,
    depth: nat,
    kind: Nesting,
)
    requires
        agrees(a, b, d, pos, end_a, end_b),
        pos + span_len(a, pos, end_a, depth, kind) < end_a,
    ensures
        span_len(b, pos + d, end_b, depth, kind) == span_len(a, pos, end_a, depth, kind),
    decreases end_a - pos,
{
    if pos < end_a {
        assert(b[pos + d] == a[pos]);
        if depth == 0 && (closes(kind, a[pos]) || separates(kind, a[pos])) {
        } else {
            lemma_span_len_agrees(
                a,
                b,
                d,
                pos + 1,
                end_a,
                end_b,
                depth_after(kind, depth, a[pos]),
                kind,
            );
        }
    }
}

/// An expression that parses in `a` parses in `b` to the same tree.
pub proof fn lemma_expression_agrees(
    a: Seq<Token>,
    b: Seq<Token>,
    d: int,
    pos: int,
    end_a: int,
    end_b: int,
    prec: int,
)
    requires
        agrees(a, b, d, pos, end_a, end_b),
        0 <= prec,
        parse_expression(a, pos, end_a, prec) is Ok,
    ensures
        parse_expression(b, pos + d, end_b, prec) == moved(
            parse_expression(a, pos, end_a, prec),
            d,
        ),
    decreases end_a - pos, 2int,
{
    lemma_primary_agrees(a, b, d, pos, end_a, end_b);
    let (left, next) = parse_primary(a, pos, end_a)->Ok_0;
    lemma_infix_agrees(a, b, d, left, next, end_a, end_b, prec);
}

/// A primary term that parses in `a` parses in `b` to the same tree.
proof fn lemma_primary_agrees(
    a: Seq<Token>,
    b: Seq<Token>,
    d: int,
    pos: int,
    end_a: int,
    end_b: int,
)
    requires
        agrees(a, b, d, pos, end_a, end_b),
        parse_primary(a, pos, end_a) is Ok,
    ensures
        parse_primary(b, pos + d, end_b) == moved(parse_primary(a, pos, end_a), d),
    decreases end_a - pos, 1int,
{
    assert(pos < end_a);
    assert(b[pos + d] == a[pos]);
    match a[pos] {
        Token::Identifier(name) => {
            if pos + 1 < end_a {
                assert(b[pos + 1 + d] == a[pos + 1]);
                if binding_power(a[pos + 1]) == 0 && !(a[pos + 1] is RParen) {
                    lemma_items_agrees(a, b, d, pos + 2, end_a, end_b, Nesting::Arguments, true);
                }
            }
        },
        Token::LParen => {
            lemma_expression_agrees(a, b, d, pos + 1, end_a, end_b, 0);
            lemma_expression_advances(a, pos + 1, end_a, 0);
            let (inner, next) = parse_expression(a, pos + 1, end_a, 0)->Ok_0;
            assert(b[next + d] == a[next]);
        },
        Token::If => {
            lemma_branch_agrees(a, b, d, pos, end_a, end_b);
        },
        Token::LCurly => {
            lemma_items_agrees(a, b, d, pos + 1, end_a, end_b, Nesting::Rows, true);
        },
        Token::Sub => {
            assert(b[pos + 1 + d] == a[pos + 1]);
        },
        _ => {},
    }
}

/// A conditional that parses in `a` parses in `b` to the same tree.
proof fn lemma_branch_agrees(
    a: Seq<Token>,
    b: Seq<Token>,
    d: int,
    pos: int,
    end_a: int,
    end_b: int,
)
    requires
        agrees(a, b, d, pos, end_a, end_b),
        pos < end_a,
        parse_branch(a, pos, end_a) is Ok,
    ensures
        parse_branch(b, pos + d, end_b) == moved(parse_branch(a, pos, end_a), d),
    decreases end_a - pos, 0int,
{
    let then_at = pos + 1 + span_len(a, pos + 1, end_a, 0, Nesting::Branch);
    lemma_span_len_agrees(a, b, d, pos + 1, end_a, end_b, 0, Nesting::Branch);
    assert(b[then_at + d] == a[then_at]);
    lemma_span_agrees(a, b, d, pos + 1, then_at);
    let else_at = then_at + 1 + span_len(a, then_at + 1, end_a, 0, Nesting::Branch);
    lemma_span_len_agrees(a, b, d, then_at + 1, end_a, end_b, 0, Nesting::Branch);
    assert(b[else_at + d] == a[else_at]);
    lemma_span_agrees(a, b, d, then_at + 1, else_at);
    let end_at = else_at + 1 + span_len(a, else_at + 1, end_a, 0, Nesting::Branch);
    lemma_span_len_agrees(a, b, d, else_at + 1, end_a, end_b, 0, Nesting::Branch);
    assert(b[end_at + d] == a[end_at]);
    lemma_span_agrees(a, b, d, else_at + 1, end_at);
}

/// The operators and operands that follow a left operand in `a` follow it
/// in `b` and give the same tree.
proof fn lemma_infix_agrees(
    a: Seq<Token>,
    b: Seq<Token>,
    d: int,
    left: ExpressionView,
    pos: int,
    end_a: int,
    end_b: int,
    prec: int,
)
    requires
        agrees(a, b, d, pos, end_a, end_b),
        0 <= prec,
        parse_infix(a, left, pos, end_a, prec) is Ok,
    ensures
        parse_infix(b, left, pos + d, end_b, prec) == moved(
            parse_infix(a, left, pos, end_a, prec),
            d,
        ),
    decreases end_a - pos, 0int,
{
    if pos < end_a {
        assert(b[pos + d] == a[pos]);
        if !ends_level(a[pos], prec) {
            let op = operator_of(a[pos])->Some_0;
            lemma_expression_agrees(a, b, d, pos + 1, end_a, end_b, right_threshold(a[pos]));
            let (right, next) = parse_expression(a, pos + 1, end_a, right_threshold(a[pos]))->Ok_0;
            lemma_infix_agrees(
                a,
                b,
                d,
                ExpressionView::Binary(Box::new(left), op, Box::new(right)),
                next,
                end_a,
                end_b,
                prec,
            );
        }
    }
}

/// A span that is one whole expression in `a` is the same expression in
/// `b`.
pub proof fn lemma_span_agrees(a: Seq<Token>, b: Seq<Token>, d: int, start: int, end: int)
    requires
        agrees(a, b, d, start, end, end + d),
        parse_span(a, start, end) is Ok,
    ensures
        parse_span(b, start + d, end + d) == parse_span(a, start, end),
    decreases end - start, 3int,
{
    lemma_expression_agrees(a, b, d, start, end, end + d, 0);
}

/// A list that parses in `a` parses in `b` to the same items.
proof fn lemma_items_agrees(
    a: Seq<Token>,
    b: Seq<Token>,
    d: int,
    pos: int,
    end_a: int,
    end_b: int,
    kind: Nesting,
    first: bool,
)
    requires
        agrees(a, b, d, pos, end_a, end_b),
        parse_items(a, pos, end_a, kind, first) is Ok,
    ensures
        parse_items(b, pos + d, end_b, kind, first) == moved_list(
            parse_items(a, pos, end_a, kind, first),
            d,
        ),
    decreases end_a - pos, 0int,
{
    let stop = pos + span_len(a, pos, end_a, 0, kind);
    lemma_span_len_agrees(a, b, d, pos, end_a, end_b, 0, kind);
    assert(b[stop + d] == a[stop]);
    if first && stop == pos && closes_list(kind, a[stop]) {
    } else {
        lemma_span_agrees(a, b, d, pos, stop);
        if !closes_list(kind, a[stop]) {
            lemma_items_agrees(a, b, d, stop + 1, end_a, end_b, kind, false);
        }
    }
}

/// The tokens of `inner` between a pair of parentheses.
pub open spec fn grouped(inner: Seq<Token>) -> Seq<Token> {
    seq![Token::LParen] + inner + seq![Token::RParen]
}

/// Grouping changes nothing: a line that is one expression is, between
/// parentheses, a line that is the same expression.
pub proof fn lemma_grouping_round_trip(inner: Seq<Token>)
    requires
        parse_line(inner) is Ok,
    ensures
        parse_line(grouped(inner)) == parse_line(inner),
{
    let outer = grouped(inner);
    let n = inner.len() as int;
    assert(outer.len() == n + 2);
    assert(outer[0] is LParen);
    assert(outer[n + 1] is RParen);
    assert forall|i: int| 0 <= i < n implies outer[i + 1] == #[trigger] inner[i] by {}
    assert(agrees(inner, outer, 1, 0, n, n + 2));
    lemma_expression_agrees(inner, outer, 1, 0, n, n + 2, 0);
    let tree = parse_line(inner)->Ok_0;
    assert(parse_expression(inner, 0, n, 0) == Ok::<(ExpressionView, int), ParseError>((tree, n)));
    assert(parse_expression(outer, 1, n + 2, 0) == Ok::<(ExpressionView, int), ParseError>(
        (tree, n + 1),
    ));
    assert(parse_primary(outer, 0, n + 2) == Ok::<(ExpressionView, int), ParseError>(
        (tree, n + 2),
    ));
    assert(parse_infix(outer, tree, n + 2, n + 2, 0) == Ok::<(ExpressionView, int), ParseError>(
        (tree, n + 2),
    ));
    assert(parse_expression(outer, 0, n + 2, 0) == Ok::<(ExpressionView, int), ParseError>(
        (tree, n + 2),
    ));
}

} // verus!
