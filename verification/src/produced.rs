use vstd::prelude::*;
use crate::ast::{Expression, ExpressionView};
use crate::error::ParseError;
use crate::grammar::{
    closes_list, ends_level, operator_of, parse_branch, parse_expression,
    parse_infix, parse_items, parse_line, parse_primary, parse_span, right_threshold, span_len,
    Nesting,
};
use crate::progress::{
    lemma_expression_advances, lemma_infix_advances, lemma_items_advances,
    lemma_primary_advances,
};
use crate::reparse::lemma_reparse;
use crate::token::Token;
use crate::writing::{fits_row, lemma_scan_step, writable, written};

verus! {

/// Whether a tree holds no call of two or more arguments outside a matrix
/// literal: whether it can stand as a row.
pub open spec fn fits_row_view(x: ExpressionView) -> bool
    decreases x,
{
    match x {
        ExpressionView::Number(_) => true,
        ExpressionView::Identifier(_) => true,
        ExpressionView::Binary(left, _, right) => fits_row_view(*left) && fits_row_view(*right),
        ExpressionView::FunctionCall(_, args) => args.len() <= 1 && forall|i: int|
            0 <= i < args.len() ==> fits_row_view(#[trigger] args[i]),
        ExpressionView::Branched(condition, first, second) => fits_row_view(*condition)
            && fits_row_view(*first) && fits_row_view(*second),
        ExpressionView::SizedSet(_) => true,
    }
}

/// Whether every row of every matrix literal in a tree can stand as a row.
pub open spec fn writable_view(x: ExpressionView) -> bool
    decreases x,
{
    match x {
        ExpressionView::Number(_) => true,
        ExpressionView::Identifier(_) => true,
        ExpressionView::Binary(left, _, right) => writable_view(*left) && writable_view(*right),
        ExpressionView::FunctionCall(_, args) => forall|i: int|
            0 <= i < args.len() ==> writable_view(#[trigger] args[i]),
        ExpressionView::Branched(condition, first, second) => writable_view(*condition)
            && writable_view(*first) && writable_view(*second),
        ExpressionView::SizedSet(rows) => forall|i: int|
            0 <= i < rows.len() ==> writable_view(#[trigger] rows[i]) && fits_row_view(rows[i]),
    }
}

/// A tree fits a row exactly when its view does.
pub proof fn lemma_fits_row_view(e: Expression)
    ensures
        fits_row(e) == fits_row_view(e@),
    decreases e,
{
    match e {
        Expression::Binary(left, _, right) => {
            lemma_fits_row_view(*left);
            lemma_fits_row_view(*right);
        },
        Expression::FunctionCall(_, args) => {
            let views = e@->FunctionCall_1;
            assert forall|i: int| 0 <= i < args.len() implies fits_row(args[i]) == fits_row_view(
                views[i],
            ) by {
                lemma_fits_row_view(args[i]);
            }
            if fits_row(e) {
                assert forall|i: int| 0 <= i < views.len() implies fits_row_view(
                    #[trigger] views[i],
                ) by {
                    assert(fits_row(args[i]));
                }
            }
            if fits_row_view(e@) {
                assert forall|i: int| 0 <= i < args.len() implies fits_row(#[trigger] args[i]) by {
                    assert(fits_row_view(views[i]));
                }
            }
        },
        Expression::Branched(condition, first, second) => {
            lemma_fits_row_view(*condition);
            lemma_fits_row_view(*first);
            lemma_fits_row_view(*second);
        },
        _ => {},
    }
}

/// A tree can be written exactly when its view can.
pub proof fn lemma_writable_view(e: Expression)
    ensures
        writable(e) == writable_view(e@),
    decreases e,
{
    match e {
        Expression::Binary(left, _, right) => {
            lemma_writable_view(*left);
            lemma_writable_view(*right);
        },
        Expression::FunctionCall(_, args) => {
            let views = e@->FunctionCall_1;
            assert forall|i: int| 0 <= i < args.len() implies writable(args[i]) == writable_view(
                views[i],
            ) by {
                lemma_writable_view(args[i]);
            }
            if writable(e) {
                assert forall|i: int| 0 <= i < views.len() implies writable_view(
                    #[trigger] views[i],
                ) by {
                    assert(writable(args[i]));
                }
            }
            if writable_view(e@) {
                assert forall|i: int| 0 <= i < args.len() implies writable(#[trigger] args[i]) by {
                    assert(writable_view(views[i]));
                }
            }
        },
        Expression::Branched(condition, first, second) => {
            lemma_writable_view(*condition);
            lemma_writable_view(*first);
            lemma_writable_view(*second);
        },
        Expression::SizedSet(rows) => {
            let views = e@->SizedSet_0;
            assert forall|i: int| 0 <= i < rows.len() implies writable(rows[i]) == writable_view(
                views[i],
            ) && fits_row(rows[i]) == fits_row_view(views[i]) by {
                lemma_writable_view(rows[i]);
                lemma_fits_row_view(rows[i]);
            }
            if writable(e) {
                assert forall|i: int| 0 <= i < views.len() implies writable_view(
                    #[trigger] views[i],
                ) && fits_row_view(views[i]) by {
                    assert(writable(rows[i]));
                }
            }
            if writable_view(e@) {
                assert forall|i: int| 0 <= i < rows.len() implies writable(#[trigger] rows[i])
                    && fits_row(rows[i]) by {
                    assert(writable_view(views[i]));
                }
            }
        },
        _ => {},
    }
}

/// A scan for the end of a row that stands at `from` at depth `before`
/// stands at `to` at depth `after`.
spec fn runs(t: Seq<Token>, from: int, to: int, lim: int, before: nat, after: nat) -> bool {
    span_len(t, from, lim, before, Nesting::Rows) == (to - from) + span_len(
        t,
        to,
        lim,
        after,
        Nesting::Rows,
    )
}

/// A scan for the end of a row that starts at `from` at depth `depth` does
/// not stop before `to`. Only at depth zero can it stop at all.
spec fn unstopped(t: Seq<Token>, from: int, to: int, lim: int, depth: nat) -> bool {
    depth == 0 ==> from + span_len(t, from, lim, 0, Nesting::Rows) >= to
}

/// A scan for the end of a row runs through an expression that parses, and
/// if it runs through it at depth zero, the expression fits a row.
proof fn lemma_row_expression(
    t: Seq<Token>,
    pos: int,
    end: int,
    prec: int,
    lim: int,
    depth: nat,
)
    requires
        end <= lim <= t.len(),
        parse_expression(t, pos, end, prec) is Ok,
        unstopped(t, pos, parse_expression(t, pos, end, prec)->Ok_0.1, lim, depth),
    ensures
        runs(t, pos, parse_expression(t, pos, end, prec)->Ok_0.1, lim, depth, depth),
        depth == 0 ==> fits_row_view(parse_expression(t, pos, end, prec)->Ok_0.0),
    decreases end - pos, 2int,
{
    let (left, start) = parse_primary(t, pos, end)->Ok_0;
    lemma_primary_advances(t, pos, end);
    lemma_infix_advances(t, left, start, end, prec);
    lemma_row_primary(t, pos, end, lim, depth);
    lemma_row_infix(t, left, start, end, prec, lim, depth);
}

/// A scan for the end of a row runs through the operators and operands
/// that follow a left operand.
proof fn lemma_row_infix(
    t: Seq<Token>,
    left: ExpressionView,
    pos: int,
    end: int,
    prec: int,
    lim: int,
    depth: nat,
)
    requires
        0 <= pos <= end <= lim <= t.len(),
        parse_infix(t, left, pos, end, prec) is Ok,
        unstopped(t, pos, parse_infix(t, left, pos, end, prec)->Ok_0.1, lim, depth),
        depth == 0 ==> fits_row_view(left),
    ensures
        runs(t, pos, parse_infix(t, left, pos, end, prec)->Ok_0.1, lim, depth, depth),
        depth == 0 ==> fits_row_view(parse_infix(t, left, pos, end, prec)->Ok_0.0),
    decreases end - pos, 0int,
{
    if pos < end && !ends_level(t[pos], prec) {
        let op = operator_of(t[pos])->Some_0;
        let threshold = right_threshold(t[pos]);
        let (right, next) = parse_expression(t, pos + 1, end, threshold)->Ok_0;
        let both = ExpressionView::Binary(Box::new(left), op, Box::new(right));
        lemma_expression_advances(t, pos + 1, end, threshold);
        lemma_infix_advances(t, both, next, end, prec);
        lemma_scan_step(t, pos, lim, depth, Nesting::Rows);
        lemma_row_expression(t, pos + 1, end, threshold, lim, depth);
        lemma_row_infix(t, both, next, end, prec, lim, depth);
    }
}

/// A scan for the end of a row runs through a primary term that parses.
proof fn lemma_row_primary(t: Seq<Token>, pos: int, end: int, lim: int, depth: nat)
    requires
        end <= lim <= t.len(),
        parse_primary(t, pos, end) is Ok,
        unstopped(t, pos, parse_primary(t, pos, end)->Ok_0.1, lim, depth),
    ensures
        runs(t, pos, parse_primary(t, pos, end)->Ok_0.1, lim, depth, depth),
        depth == 0 ==> fits_row_view(parse_primary(t, pos, end)->Ok_0.0),
    decreases end - pos, 1int,
{
    lemma_primary_advances(t, pos, end);
    match t[pos] {
        Token::Identifier(name) => {
            lemma_scan_step(t, pos, lim, depth, Nesting::Rows);
            if pos + 1 < end && crate::grammar::binding_power(t[pos + 1]) == 0 && !(t[pos
                + 1] is RParen) {
                lemma_scan_step(t, pos + 1, lim, depth, Nesting::Rows);
                lemma_items_advances(t, pos + 2, end, Nesting::Arguments, true);
                lemma_row_items(t, pos + 2, end, Nesting::Arguments, true, lim, depth);
            }
        },
        Token::LParen => {
            let (inner, next) = parse_expression(t, pos + 1, end, 0)->Ok_0;
            lemma_expression_advances(t, pos + 1, end, 0);
            lemma_scan_step(t, pos, lim, depth, Nesting::Rows);
            lemma_row_expression(t, pos + 1, end, 0, lim, depth);
            lemma_scan_step(t, next, lim, depth, Nesting::Rows);
        },
        Token::If => {
            lemma_row_branch(t, pos, end, lim, depth);
        },
        Token::LCurly => {
            lemma_scan_step(t, pos, lim, depth, Nesting::Rows);
            lemma_items_advances(t, pos + 1, end, Nesting::Rows, true);
            lemma_row_items(t, pos + 1, end, Nesting::Rows, true, lim, depth + 1);
        },
        Token::Sub => {
            lemma_scan_step(t, pos, lim, depth, Nesting::Rows);
            lemma_scan_step(t, pos + 1, lim, depth, Nesting::Rows);
        },
        Token::Number(_) => {
            lemma_scan_step(t, pos, lim, depth, Nesting::Rows);
        },
        _ => {},
    }
}

/// A scan for the end of a row runs through a conditional that parses.
proof fn lemma_row_branch(t: Seq<Token>, pos: int, end: int, lim: int, depth: nat)
    requires
        0 <= pos < end <= lim <= t.len(),
        t[pos] is If,
        parse_branch(t, pos, end) is Ok,
        unstopped(t, pos, parse_branch(t, pos, end)->Ok_0.1, lim, depth),
    ensures
        runs(t, pos, parse_branch(t, pos, end)->Ok_0.1, lim, depth, depth),
        depth == 0 ==> fits_row_view(parse_branch(t, pos, end)->Ok_0.0),
    decreases end - pos, 0int,
{
    let then_at = pos + 1 + span_len(t, pos + 1, end, 0, Nesting::Branch);
    let else_at = then_at + 1 + span_len(t, then_at + 1, end, 0, Nesting::Branch);
    let end_at = else_at + 1 + span_len(t, else_at + 1, end, 0, Nesting::Branch);
    assert(then_at < end && t[then_at] is Then);
    assert(parse_span(t, pos + 1, then_at) is Ok);
    assert(else_at < end && t[else_at] is Else);
    assert(parse_span(t, then_at + 1, else_at) is Ok);
    assert(end_at < end && t[end_at] is End);
    assert(parse_span(t, else_at + 1, end_at) is Ok);
    assert(parse_branch(t, pos, end)->Ok_0.1 == end_at + 1);
    lemma_scan_step(t, pos, lim, depth, Nesting::Rows);
    lemma_row_span(t, pos + 1, then_at, lim, depth);
    lemma_scan_step(t, then_at, lim, depth, Nesting::Rows);
    lemma_row_span(t, then_at + 1, else_at, lim, depth);
    lemma_scan_step(t, else_at, lim, depth, Nesting::Rows);
    lemma_row_span(t, else_at + 1, end_at, lim, depth);
    lemma_scan_step(t, end_at, lim, depth, Nesting::Rows);
}

/// A scan for the end of a row runs through a span that is one whole
/// expression.
proof fn lemma_row_span(t: Seq<Token>, start: int, end: int, lim: int, depth: nat)
    requires
        end <= lim <= t.len(),
        parse_span(t, start, end) is Ok,
        unstopped(t, start, end, lim, depth),
    ensures
        runs(t, start, end, lim, depth, depth),
        depth == 0 ==> fits_row_view(parse_span(t, start, end)->Ok_0),
    decreases end - start, 3int,
{
    lemma_row_expression(t, start, end, 0, lim, depth);
}

/// The depth at which a scan for the end of a row leaves a list that it
/// met at depth `depth`: the brace that closes a matrix literal takes it
/// one level up.
spec fn depth_left(kind: Nesting, depth: nat) -> nat {
    if kind is Rows {
        (depth - 1) as nat
    } else {
        depth
    }
}

/// A scan for the end of a row runs through a list that parses, and if it
/// runs through it at depth zero, the list has one item at most.
proof fn lemma_row_items(
    t: Seq<Token>,
    pos: int,
    end: int,
    kind: Nesting,
    first: bool,
    lim: int,
    depth: nat,
)
    requires
        end <= lim <= t.len(),
        !(kind is Branch),
        kind is Rows ==> depth >= 1,
        parse_items(t, pos, end, kind, first) is Ok,
        unstopped(t, pos, parse_items(t, pos, end, kind, first)->Ok_0.1, lim, depth),
    ensures
        runs(
            t,
            pos,
            parse_items(t, pos, end, kind, first)->Ok_0.1,
            lim,
            depth,
            depth_left(kind, depth),
        ),
        depth == 0 ==> parse_items(t, pos, end, kind, first)->Ok_0.0.len() <= 1,
        depth == 0 ==> forall|i: int|
            0 <= i < parse_items(t, pos, end, kind, first)->Ok_0.0.len() ==> fits_row_view(
                #[trigger] parse_items(t, pos, end, kind, first)->Ok_0.0[i],
            ),
    decreases end - pos, 0int,
{
    let stop = pos + span_len(t, pos, end, 0, kind);
    assert(0 <= pos && stop < end);
    assert(t[stop] is Comma || closes_list(kind, t[stop]));
    if first && stop == pos && closes_list(kind, t[stop]) {
        lemma_scan_step(t, stop, lim, depth, Nesting::Rows);
    } else {
        assert(parse_span(t, pos, stop) is Ok);
        let item = parse_span(t, pos, stop)->Ok_0;
        if closes_list(kind, t[stop]) {
            assert(parse_items(t, pos, end, kind, first)->Ok_0 == (seq![item], stop + 1));
            lemma_row_span(t, pos, stop, lim, depth);
            lemma_scan_step(t, stop, lim, depth, Nesting::Rows);
        } else {
            lemma_items_advances(t, stop + 1, end, kind, false);
            let (rest, next) = parse_items(t, stop + 1, end, kind, false)->Ok_0;
            assert(parse_items(t, pos, end, kind, first)->Ok_0 == (seq![item] + rest, next));
            lemma_row_span(t, pos, stop, lim, depth);
            if depth > 0 {
                lemma_scan_step(t, stop, lim, depth, Nesting::Rows);
                lemma_row_items(t, stop + 1, end, kind, false, lim, depth);
            }
        }
    }
}

/// Every tree that the parser makes of an expression can be written.
proof fn lemma_writable_expression(t: Seq<Token>, pos: int, end: int, prec: int)
    requires
        parse_expression(t, pos, end, prec) is Ok,
    ensures
        writable_view(parse_expression(t, pos, end, prec)->Ok_0.0),
    decreases end - pos, 2int,
{
    let (left, start) = parse_primary(t, pos, end)->Ok_0;
    lemma_writable_primary(t, pos, end);
    lemma_writable_infix(t, left, start, end, prec);
}

/// Every tree that the parser makes of a left operand and what follows it
/// can be written, if the left operand can.
proof fn lemma_writable_infix(t: Seq<Token>, left: ExpressionView, pos: int, end: int, prec: int)
    requires
        pos <= end,
        writable_view(left),
        parse_infix(t, left, pos, end, prec) is Ok,
    ensures
        writable_view(parse_infix(t, left, pos, end, prec)->Ok_0.0),
    decreases end - pos, 0int,
{
    if 0 <= pos < end && end <= t.len() && !ends_level(t[pos], prec) {
        let op = operator_of(t[pos])->Some_0;
        let threshold = right_threshold(t[pos]);
        let (right, next) = parse_expression(t, pos + 1, end, threshold)->Ok_0;
        lemma_writable_expression(t, pos + 1, end, threshold);
        lemma_writable_infix(
            t,
            ExpressionView::Binary(Box::new(left), op, Box::new(right)),
            next,
            end,
            prec,
        );
    }
}

/// Every tree that the parser makes of a primary term can be written.
proof fn lemma_writable_primary(t: Seq<Token>, pos: int, end: int)
    requires
        parse_primary(t, pos, end) is Ok,
    ensures
        writable_view(parse_primary(t, pos, end)->Ok_0.0),
    decreases end - pos, 1int,
{
    match t[pos] {
        Token::Identifier(name) => {
            if pos + 1 < end && crate::grammar::binding_power(t[pos + 1]) == 0 && !(t[pos
                + 1] is RParen) {
                lemma_writable_items(t, pos + 2, end, Nesting::Arguments, true);
            }
        },
        Token::LParen => {
            lemma_writable_expression(t, pos + 1, end, 0);
        },
        Token::If => {
            lemma_writable_branch(t, pos, end);
        },
        Token::LCurly => {
            lemma_writable_items(t, pos + 1, end, Nesting::Rows, true);
        },
        _ => {},
    }
}

/// Every tree that the parser makes of a conditional can be written.
proof fn lemma_writable_branch(t: Seq<Token>, pos: int, end: int)
    requires
        parse_branch(t, pos, end) is Ok,
    ensures
        writable_view(parse_branch(t, pos, end)->Ok_0.0),
    decreases end - pos, 0int,
{
    let then_at = pos + 1 + span_len(t, pos + 1, end, 0, Nesting::Branch);
    let else_at = then_at + 1 + span_len(t, then_at + 1, end, 0, Nesting::Branch);
    let end_at = else_at + 1 + span_len(t, else_at + 1, end, 0, Nesting::Branch);
    assert(0 <= pos && then_at < end);
    assert(parse_span(t, pos + 1, then_at) is Ok);
    assert(else_at < end);
    assert(parse_span(t, then_at + 1, else_at) is Ok);
    assert(end_at < end);
    assert(parse_span(t, else_at + 1, end_at) is Ok);
    lemma_writable_span(t, pos + 1, then_at);
    lemma_writable_span(t, then_at + 1, else_at);
    lemma_writable_span(t, else_at + 1, end_at);
}

/// Every tree that the parser makes of a whole span can be written.
pub proof fn lemma_writable_span(t: Seq<Token>, start: int, end: int)
    requires
        parse_span(t, start, end) is Ok,
    ensures
        writable_view(parse_span(t, start, end)->Ok_0),
    decreases end - start, 3int,
{
    lemma_writable_expression(t, start, end, 0);
}

/// Every item that the parser makes of a list can be written, and every
/// row of a matrix literal fits a row.
proof fn lemma_writable_items(t: Seq<Token>, pos: int, end: int, kind: Nesting, first: bool)
    requires
        !(kind is Branch),
        parse_items(t, pos, end, kind, first) is Ok,
    ensures
        forall|i: int|
            0 <= i < parse_items(t, pos, end, kind, first)->Ok_0.0.len() ==> writable_view(
                #[trigger] parse_items(t, pos, end, kind, first)->Ok_0.0[i],
            ) && (kind is Rows ==> fits_row_view(
                parse_items(t, pos, end, kind, first)->Ok_0.0[i],
            )),
    decreases end - pos, 0int,
{
    let stop = pos + span_len(t, pos, end, 0, kind);
    assert(0 <= pos && stop < end <= t.len());
    if first && stop == pos && closes_list(kind, t[stop]) {
    } else {
        assert(parse_span(t, pos, stop) is Ok);
        let item = parse_span(t, pos, stop)->Ok_0;
        lemma_writable_span(t, pos, stop);
        if kind is Rows {
            lemma_row_span(t, pos, stop, end, 0);
        }
        if closes_list(kind, t[stop]) {
            assert(parse_items(t, pos, end, kind, first)->Ok_0.0 == seq![item]);
        } else {
            lemma_writable_items(t, stop + 1, end, kind, false);
            let rest = parse_items(t, stop + 1, end, kind, false)->Ok_0.0;
            let all = parse_items(t, pos, end, kind, first)->Ok_0.0;
            assert(all == seq![item] + rest);
            assert forall|i: int| 0 <= i < all.len() implies writable_view(#[trigger] all[i]) && (
            kind is Rows ==> fits_row_view(all[i])) by {
                if i > 0 {
                    assert(all[i] == rest[i - 1]);
                }
            }
        }
    }
}

/// Re-parsing what was parsed changes nothing: whatever tree the parser
/// has made of a line, the writing of that tree is a line that parses to
/// the same tree, and so to an expression of the same value.
pub proof fn lemma_reparse_produced(tokens: Seq<Token>, e: Expression)
    requires
        parse_line(tokens) == Ok::<ExpressionView, ParseError>(e@),
    ensures
        parse_line(written(e)) == Ok::<ExpressionView, ParseError>(e@),
{
    lemma_writable_span(tokens, 0, tokens.len() as int);
    lemma_writable_view(e);
    lemma_reparse(e);
}

} // verus!
