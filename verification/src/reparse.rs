use vstd::prelude::*;
use crate::ast::{expression_views, Expression, ExpressionView, Operator};
use crate::error::ParseError;
use crate::grammar::{
    closes_list, parse_branch, parse_expression, parse_infix, parse_items, parse_line,
    parse_primary, parse_span, right_threshold, span_len, Nesting,
};
use crate::grouping::{agrees, lemma_expression_agrees};
use crate::token::Token;
use crate::writing::{
    fits_row, lemma_layout_binary, lemma_layout_branched, lemma_layout_call, lemma_layout_list,
    lemma_layout_set, lemma_occurs_within, lemma_operator_tokens, lemma_scan_passes, occurs,
    token_of, writable, written, written_from,
};

verus! {

/// A line that is a primary term and nothing more is that term.
proof fn lemma_parse_alone(t: Seq<Token>, tree: ExpressionView)
    requires
        parse_primary(t, 0, t.len() as int) == Ok::<(ExpressionView, int), ParseError>(
            (tree, t.len() as int),
        ),
        t.len() > 0,
    ensures
        parse_expression(t, 0, t.len() as int, 0) == Ok::<(ExpressionView, int), ParseError>(
            (tree, t.len() as int),
        ),
        parse_span(t, 0, t.len() as int) == Ok::<ExpressionView, ParseError>(tree),
{
    let n = t.len() as int;
    assert(parse_infix(t, tree, n, n, 0) == Ok::<(ExpressionView, int), ParseError>((tree, n)));
}

/// A line of two grouped operands around an operator is the operation on
/// the operands.
proof fn lemma_parse_binary(
    t: Seq<Token>,
    l: int,
    r: int,
    op: Operator,
    x: ExpressionView,
    y: ExpressionView,
)
    requires
        0 <= l,
        0 <= r,
        t.len() == l + r + 5,
        t[0] == Token::LParen,
        t[l + 1] == Token::RParen,
        t[l + 2] == token_of(op),
        t[l + 3] == Token::LParen,
        t[l + r + 4] == Token::RParen,
        parse_expression(t, 1, t.len() as int, 0) == Ok::<(ExpressionView, int), ParseError>(
            (x, l + 1),
        ),
        parse_expression(t, l + 4, t.len() as int, 0) == Ok::<(ExpressionView, int), ParseError>(
            (y, l + r + 4),
        ),
    ensures
        parse_primary(t, 0, t.len() as int) matches Ok((_, next)) && next == l + 2,
        parse_expression(t, 0, t.len() as int, 0) == Ok::<(ExpressionView, int), ParseError>(
            (ExpressionView::Binary(Box::new(x), op, Box::new(y)), t.len() as int),
        ),
{
    let n = t.len() as int;
    let both = ExpressionView::Binary(Box::new(x), op, Box::new(y));
    let threshold = right_threshold(t[l + 2]);
    lemma_operator_tokens(op, Nesting::Arguments);
    assert(parse_primary(t, 0, n) == Ok::<(ExpressionView, int), ParseError>((x, l + 2)));
    assert(parse_primary(t, l + 3, n) == Ok::<(ExpressionView, int), ParseError>((y, n)));
    assert(parse_infix(t, y, n, n, threshold) == Ok::<(ExpressionView, int), ParseError>((y, n)));
    assert(parse_expression(t, l + 3, n, threshold) == Ok::<(ExpressionView, int), ParseError>(
        (y, n),
    ));
    assert(parse_infix(t, both, n, n, 0) == Ok::<(ExpressionView, int), ParseError>((both, n)));
    assert(parse_infix(t, x, l + 2, n, 0) == Ok::<(ExpressionView, int), ParseError>((both, n)));
}

/// A line of `if`, a condition, `then`, a branch, `else`, a branch and
/// `end` is the conditional of the three.
proof fn lemma_parse_branched(
    t: Seq<Token>,
    c: int,
    a: int,
    b: int,
    x: ExpressionView,
    y: ExpressionView,
    z: ExpressionView,
)
    requires
        0 <= c,
        0 <= a,
        0 <= b,
        t.len() == c + a + b + 4,
        t[0] == Token::If,
        t[c + 1] == Token::Then,
        t[c + a + 2] == Token::Else,
        t[c + a + b + 3] == Token::End,
        span_len(t, 1, t.len() as int, 0, Nesting::Branch) == c + span_len(
            t,
            1 + c,
            t.len() as int,
            0,
            Nesting::Branch,
        ),
        span_len(t, c + 2, t.len() as int, 0, Nesting::Branch) == a + span_len(
            t,
            c + 2 + a,
            t.len() as int,
            0,
            Nesting::Branch,
        ),
        span_len(t, c + a + 3, t.len() as int, 0, Nesting::Branch) == b + span_len(
            t,
            c + a + 3 + b,
            t.len() as int,
            0,
            Nesting::Branch,
        ),
        parse_span(t, 1, c + 1) == Ok::<ExpressionView, ParseError>(x),
        parse_span(t, c + 2, c + a + 2) == Ok::<ExpressionView, ParseError>(y),
        parse_span(t, c + a + 3, c + a + b + 3) == Ok::<ExpressionView, ParseError>(z),
    ensures
        parse_primary(t, 0, t.len() as int) == Ok::<(ExpressionView, int), ParseError>(
            (ExpressionView::Branched(Box::new(x), Box::new(y), Box::new(z)), t.len() as int),
        ),
{
    let n = t.len() as int;
    assert(span_len(t, 1 + c, n, 0, Nesting::Branch) == 0);
    assert(span_len(t, c + 2 + a, n, 0, Nesting::Branch) == 0);
    assert(span_len(t, c + a + 3 + b, n, 0, Nesting::Branch) == 0);
    assert(parse_branch(t, 0, n) == Ok::<(ExpressionView, int), ParseError>(
        (ExpressionView::Branched(Box::new(x), Box::new(y), Box::new(z)), n),
    ));
}

/// The views of the items of a list from the one at `from` on.
spec fn views_from(items: Seq<Expression>, from: int) -> Seq<ExpressionView> {
    expression_views(items).subrange(from, items.len() as int)
}

/// The first item of a list, followed by a comma and the items after it or
/// by the closing delimiter, is parsed as the first of the items.
proof fn lemma_parse_item(
    t: Seq<Token>,
    p: int,
    end: int,
    kind: Nesting,
    first: bool,
    x: int,
    item: ExpressionView,
    rest: Seq<ExpressionView>,
    next: int,
)
    requires
        0 <= p,
        1 <= x,
        p + x < end <= t.len(),
        !(kind is Branch),
        span_len(t, p, end, 0, kind) == x + span_len(t, p + x, end, 0, kind),
        parse_span(t, p, p + x) == Ok::<ExpressionView, ParseError>(item),
        t[p + x] is Comma || closes_list(kind, t[p + x]),
        closes_list(kind, t[p + x]) ==> rest.len() == 0 && next == p + x + 1,
        t[p + x] is Comma ==> parse_items(t, p + x + 1, end, kind, false) == Ok::<
            (Seq<ExpressionView>, int),
            ParseError,
        >((rest, next)),
    ensures
        parse_items(t, p, end, kind, first) == Ok::<(Seq<ExpressionView>, int), ParseError>(
            (seq![item] + rest, next),
        ),
{
    assert(span_len(t, p + x, end, 0, kind) == 0);
    if closes_list(kind, t[p + x]) {
        assert(seq![item] + rest =~= seq![item]);
    }
}

/// The writing of a tree that can be written parses to the tree.
proof fn lemma_written_parses(e: Expression)
    requires
        writable(e),
    ensures
        written(e).len() >= 1,
        parse_expression(written(e), 0, written(e).len() as int, 0) == Ok::<
            (ExpressionView, int),
            ParseError,
        >((e@, written(e).len() as int)),
        parse_span(written(e), 0, written(e).len() as int) == Ok::<ExpressionView, ParseError>(
            e@,
        ),
    decreases e, 1nat,
{
    let w = written(e);
    match e {
        Expression::Number(n) => {
            assert(parse_primary(w, 0, 1) == Ok::<(ExpressionView, int), ParseError>((e@, 1)));
            lemma_parse_alone(w, e@);
        },
        Expression::Identifier(name) => {
            assert(parse_primary(w, 0, 1) == Ok::<(ExpressionView, int), ParseError>((e@, 1)));
            lemma_parse_alone(w, e@);
        },
        Expression::Binary(_, _, _) => {
            lemma_written_parses_binary(e);
        },
        Expression::FunctionCall(_, _) => {
            lemma_written_parses_call(e);
        },
        Expression::Branched(_, _, _) => {
            lemma_written_parses_branched(e);
        },
        Expression::SizedSet(_) => {
            lemma_written_parses_set(e);
        },
    }
}

/// A part of a line that is the writing of a tree, and that the line's end
/// or a closing parenthesis follows, parses to the tree.
proof fn lemma_part_parses(e: Expression, t: Seq<Token>, p: int, end: int)
    requires
        writable(e),
        occurs(t, p, written(e)),
        p + written(e).len() <= end <= t.len(),
        end == p + written(e).len() || t[p + written(e).len()] is RParen,
    ensures
        parse_expression(t, p, end, 0) == Ok::<(ExpressionView, int), ParseError>(
            (e@, p + written(e).len()),
        ),
        end == p + written(e).len() ==> parse_span(t, p, end) == Ok::<
            ExpressionView,
            ParseError,
        >(e@),
    decreases e, 2nat,
{
    let w = written(e);
    lemma_written_parses(e);
    assert(agrees(w, t, p, 0, w.len() as int, end));
    lemma_expression_agrees(w, t, p, 0, w.len() as int, end, 0);
}

/// The writing of a binary operation parses to it.
proof fn lemma_written_parses_binary(e: Expression)
    requires
        e is Binary,
        writable(e),
    ensures
        written(e).len() >= 1,
        parse_expression(written(e), 0, written(e).len() as int, 0) == Ok::<
            (ExpressionView, int),
            ParseError,
        >((e@, written(e).len() as int)),
        parse_span(written(e), 0, written(e).len() as int) == Ok::<ExpressionView, ParseError>(
            e@,
        ),
    decreases e, 0nat,
{
    if let Expression::Binary(left, op, right) = e {
        let w = written(e);
        let n = w.len() as int;
        lemma_layout_binary(*left, op, *right);
        let l = written(*left).len() as int;
        let r = written(*right).len() as int;
        lemma_part_parses(*left, w, 1, n);
        lemma_part_parses(*right, w, l + 4, n);
        lemma_parse_binary(w, l, r, op, left@, right@);
    }
}

/// The writing of a conditional parses to it.
proof fn lemma_written_parses_branched(e: Expression)
    requires
        e is Branched,
        writable(e),
    ensures
        written(e).len() >= 1,
        parse_expression(written(e), 0, written(e).len() as int, 0) == Ok::<
            (ExpressionView, int),
            ParseError,
        >((e@, written(e).len() as int)),
        parse_span(written(e), 0, written(e).len() as int) == Ok::<ExpressionView, ParseError>(
            e@,
        ),
    decreases e, 0nat,
{
    if let Expression::Branched(condition, first, second) = e {
        let w = written(e);
        let n = w.len() as int;
        lemma_layout_branched(*condition, *first, *second);
        let c = written(*condition).len() as int;
        let a = written(*first).len() as int;
        let b = written(*second).len() as int;
        lemma_scan_passes(*condition, w, 1, n, 0, Nesting::Branch);
        lemma_scan_passes(*first, w, c + 2, n, 0, Nesting::Branch);
        lemma_scan_passes(*second, w, c + a + 3, n, 0, Nesting::Branch);
        lemma_part_parses(*condition, w, 1, c + 1);
        lemma_part_parses(*first, w, c + 2, c + a + 2);
        lemma_part_parses(*second, w, c + a + 3, c + a + b + 3);
        lemma_parse_branched(w, c, a, b, condition@, first@, second@);
        lemma_parse_alone(w, e@);
    }
}

/// The writing of a call parses to it.
proof fn lemma_written_parses_call(e: Expression)
    requires
        e is FunctionCall,
        writable(e),
    ensures
        written(e).len() >= 1,
        parse_expression(written(e), 0, written(e).len() as int, 0) == Ok::<
            (ExpressionView, int),
            ParseError,
        >((e@, written(e).len() as int)),
        parse_span(written(e), 0, written(e).len() as int) == Ok::<ExpressionView, ParseError>(
            e@,
        ),
    decreases e, 0nat,
{
    if let Expression::FunctionCall(name, args) = e {
        let w = written(e);
        let n = w.len() as int;
        lemma_layout_call(name, args);
        Expression::lemma_call_view(name, args);
        if args.len() == 0 {
            assert(span_len(w, 2, n, 0, Nesting::Arguments) == 0);
            assert(parse_items(w, 2, n, Nesting::Arguments, true) == Ok::<
                (Seq<ExpressionView>, int),
                ParseError,
            >((Seq::empty(), n)));
            assert(expression_views(args@) =~= Seq::<ExpressionView>::empty());
        } else {
            lemma_list_parses(args@, 0, w, 2, n, Nesting::Arguments, true);
            assert(views_from(args@, 0) =~= expression_views(args@));
        }
        assert(parse_primary(w, 0, n) == Ok::<(ExpressionView, int), ParseError>((e@, n)));
        lemma_parse_alone(w, e@);
    }
}

/// The writing of a matrix literal parses to it.
proof fn lemma_written_parses_set(e: Expression)
    requires
        e is SizedSet,
        writable(e),
    ensures
        written(e).len() >= 1,
        parse_expression(written(e), 0, written(e).len() as int, 0) == Ok::<
            (ExpressionView, int),
            ParseError,
        >((e@, written(e).len() as int)),
        parse_span(written(e), 0, written(e).len() as int) == Ok::<ExpressionView, ParseError>(
            e@,
        ),
    decreases e, 0nat,
{
    if let Expression::SizedSet(rows) = e {
        let w = written(e);
        let n = w.len() as int;
        lemma_layout_set(rows);
        Expression::lemma_set_view(rows);
        if rows.len() == 0 {
            assert(span_len(w, 1, n, 0, Nesting::Rows) == 0);
            assert(parse_items(w, 1, n, Nesting::Rows, true) == Ok::<
                (Seq<ExpressionView>, int),
                ParseError,
            >((Seq::empty(), n)));
            assert(expression_views(rows@) =~= Seq::<ExpressionView>::empty());
        } else {
            lemma_list_parses(rows@, 0, w, 1, n, Nesting::Rows, true);
            assert(views_from(rows@, 0) =~= expression_views(rows@));
        }
        assert(parse_primary(w, 0, n) == Ok::<(ExpressionView, int), ParseError>((e@, n)));
        lemma_parse_alone(w, e@);
    }
}

/// The writing of a list, followed by the delimiter that closes it, parses
/// to the items of the list.
proof fn lemma_list_parses(
    items: Seq<Expression>,
    from: int,
    t: Seq<Token>,
    p: int,
    end: int,
    kind: Nesting,
    first: bool,
)
    requires
        0 <= from < items.len(),
        !(kind is Branch),
        occurs(t, p, written_from(items, from)),
        p + written_from(items, from).len() < end <= t.len(),
        closes_list(kind, t[p + written_from(items, from).len()]),
        forall|i: int| from <= i < items.len() ==> writable(#[trigger] items[i]),
        kind is Rows ==> forall|i: int| from <= i < items.len() ==> fits_row(#[trigger] items[i]),
    ensures
        parse_items(t, p, end, kind, first) == Ok::<(Seq<ExpressionView>, int), ParseError>(
            (views_from(items, from), p + written_from(items, from).len() + 1),
        ),
    decreases items, items.len() - from,
{
    let w = written_from(items, from);
    let x = written(items[from]).len() as int;
    lemma_layout_list(items, from);
    lemma_occurs_within(t, p, w, 0, written(items[from]));
    lemma_scan_passes(items[from], t, p, end, 0, kind);
    lemma_part_parses(items[from], t, p, p + x);
    if from == items.len() - 1 {
        assert(views_from(items, from) =~= seq![items[from]@] + Seq::<ExpressionView>::empty());
        lemma_parse_item(t, p, end, kind, first, x, items[from]@, Seq::empty(), p + x + 1);
    } else {
        assert(t[p + x] == w[x]);
        lemma_occurs_within(t, p, w, x + 1, written_from(items, from + 1));
        lemma_list_parses(items, from + 1, t, p + x + 1, end, kind, false);
        assert(views_from(items, from) =~= seq![items[from]@] + views_from(items, from + 1));
        lemma_parse_item(
            t,
            p,
            end,
            kind,
            first,
            x,
            items[from]@,
            views_from(items, from + 1),
            p + w.len() + 1,
        );
    }
}

/// Writing a tree and parsing what was written gives the tree back: the
/// writing of every tree that can be written is a line that parses to it.
pub proof fn lemma_reparse(e: Expression)
    requires
        writable(e),
    ensures
        parse_line(written(e)) == Ok::<ExpressionView, ParseError>(e@),
{
    lemma_written_parses(e);
}

} // verus!
