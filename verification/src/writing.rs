use vstd::prelude::*;
use crate::ast::{Expression, Operator};
use crate::grammar::{
    closes, depth_after, ends_level, opens, operator_of, right_threshold, separates, span_len,
    Nesting,
};
use crate::token::Token;

verus! {

/// The token that denotes an operator.
pub open spec fn token_of(op: Operator) -> Token {
    match op {
        Operator::Add => Token::Add,
        Operator::Sub => Token::Sub,
        Operator::Mul => Token::Mul,
        Operator::Div => Token::Div,
        Operator::Modulo => Token::Modulo,
        Operator::Pow => Token::Pow,
        Operator::IsEq => Token::IsEq,
        Operator::Gt => Token::Gt,
        Operator::Lt => Token::Lt,
        Operator::GtEq => Token::GtEq,
        Operator::LtEq => Token::LtEq,
    }
}

/// The writing of a tree: a line of tokens that stands for it. A number
/// and a name are one token; the operands of an operator stand between
/// parentheses; arguments and rows are separated by commas.
pub open spec fn written(e: Expression) -> Seq<Token>
    decreases e, 0nat,
{
    match e {
        Expression::Number(n) => seq![Token::Number(n)],
        Expression::Identifier(name) => seq![Token::Identifier(name)],
        Expression::Binary(left, op, right) => seq![Token::LParen] + written(*left)
            + seq![Token::RParen, token_of(op), Token::LParen] + written(*right)
            + seq![Token::RParen],
        Expression::FunctionCall(name, args) => seq![Token::Identifier(name), Token::LParen]
            + written_from(args@, 0) + seq![Token::RParen],
        Expression::Branched(condition, first, second) => seq![Token::If] + written(*condition)
            + seq![Token::Then] + written(*first) + seq![Token::Else] + written(*second)
            + seq![Token::End],
        Expression::SizedSet(rows) => seq![Token::LCurly] + written_from(rows@, 0)
            + seq![Token::RCurly],
    }
}

/// The writing of the items of a list from the one at `from` on, with a
/// comma between each two.
pub open spec fn written_from(items: Seq<Expression>, from: int) -> Seq<Token>
    decreases items, items.len() - from,
{
    if from < 0 || from >= items.len() {
        Seq::empty()
    } else if from == items.len() - 1 {
        written(items[from])
    } else {
        written(items[from]) + seq![Token::Comma] + written_from(items, from + 1)
    }
}

/// Whether the writing of a tree holds no comma outside braces: a row of a
/// matrix literal ends at the first such comma.
pub open spec fn fits_row(e: Expression) -> bool
    decreases e,
{
    match e {
        Expression::Number(_) => true,
        Expression::Identifier(_) => true,
        Expression::Binary(left, _, right) => fits_row(*left) && fits_row(*right),
        Expression::FunctionCall(_, args) => args.len() <= 1 && forall|i: int|
            0 <= i < args.len() ==> fits_row(#[trigger] args[i]),
        Expression::Branched(condition, first, second) => fits_row(*condition) && fits_row(
            *first,
        ) && fits_row(*second),
        Expression::SizedSet(_) => true,
    }
}

/// Whether a tree can be written: every row of every matrix literal in it
/// fits a row.
pub open spec fn writable(e: Expression) -> bool
    decreases e,
{
    match e {
        Expression::Number(_) => true,
        Expression::Identifier(_) => true,
        Expression::Binary(left, _, right) => writable(*left) && writable(*right),
        Expression::FunctionCall(_, args) => forall|i: int|
            0 <= i < args.len() ==> writable(#[trigger] args[i]),
        Expression::Branched(condition, first, second) => writable(*condition) && writable(
            *first,
        ) && writable(*second),
        Expression::SizedSet(rows) => forall|i: int|
            0 <= i < rows.len() ==> writable(#[trigger] rows[i]) && fits_row(rows[i]),
    }
}

/// The token that denotes an operator.
fn operator_token(op: Operator) -> (token: Token)
    ensures
        token == token_of(op),
{
    match op {
        Operator::Add => Token::Add,
        Operator::Sub => Token::Sub,
        Operator::Mul => Token::Mul,
        Operator::Div => Token::Div,
        Operator::Modulo => Token::Modulo,
        Operator::Pow => Token::Pow,
        Operator::IsEq => Token::IsEq,
        Operator::Gt => Token::Gt,
        Operator::Lt => Token::Lt,
        Operator::GtEq => Token::GtEq,
        Operator::LtEq => Token::LtEq,
    }
}

/// Writes the items of a list, with a comma between each two.
fn unparse_list(items: &Vec<Expression>) -> (tokens: Vec<Token>)
    ensures
        tokens@ == written_from(items@, 0),
    decreases items,
{
    let mut out: Vec<Token> = Vec::new();
    let mut i: usize = 0;
    while i < items.len()
        invariant
            i <= items.len(),
            written_from(items@, 0) == out@ + written_from(items@, i as int),
        decreases items.len() - i,
    {
        let ghost before = out@;
        let mut item = unparse(&items[i]);
        let ghost one = item@;
        out.append(&mut item);
        if i + 1 < items.len() {
            out.push(Token::Comma);
            assert(out@ + written_from(items@, i + 1) =~= before + (one + seq![Token::Comma]
                + written_from(items@, i + 1)));
        } else {
            assert(out@ + written_from(items@, i + 1) =~= before + one);
        }
        i = i + 1;
    }
    assert(out@ + written_from(items@, items.len() as int) =~= out@);
    out
}

/// Writes a tree as a line of tokens: see [`written`].
pub fn unparse(e: &Expression) -> (tokens: Vec<Token>)
    ensures
        tokens@ == written(*e),
    decreases e,
{
    let mut out: Vec<Token> = Vec::new();
    match e {
        Expression::Number(n) => {
            out.push(Token::Number(*n));
        },
        Expression::Identifier(name) => {
            out.push(Token::Identifier(name.clone()));
        },
        Expression::Binary(left, op, right) => {
            let mut first = unparse(left);
            let mut second = unparse(right);
            let ghost l = first@;
            let ghost r = second@;
            out.push(Token::LParen);
            out.append(&mut first);
            out.push(Token::RParen);
            out.push(operator_token(*op));
            out.push(Token::LParen);
            out.append(&mut second);
            out.push(Token::RParen);
            assert(out@ =~= seq![Token::LParen] + l + seq![
                Token::RParen,
                token_of(*op),
                Token::LParen,
            ] + r + seq![Token::RParen]);
        },
        Expression::FunctionCall(name, args) => {
            let mut items = unparse_list(args);
            let ghost list = items@;
            out.push(Token::Identifier(name.clone()));
            out.push(Token::LParen);
            out.append(&mut items);
            out.push(Token::RParen);
            assert(out@ =~= seq![Token::Identifier(*name), Token::LParen] + list + seq![
                Token::RParen,
            ]);
        },
        Expression::Branched(condition, first, second) => {
            let mut c = unparse(condition);
            let mut a = unparse(first);
            let mut b = unparse(second);
            let ghost cs = c@;
            let ghost fs = a@;
            let ghost ss = b@;
            out.push(Token::If);
            out.append(&mut c);
            out.push(Token::Then);
            out.append(&mut a);
            out.push(Token::Else);
            out.append(&mut b);
            out.push(Token::End);
            assert(out@ =~= seq![Token::If] + cs + seq![Token::Then] + fs + seq![Token::Else]
                + ss + seq![Token::End]);
        },
        Expression::SizedSet(rows) => {
            let mut items = unparse_list(rows);
            let ghost list = items@;
            out.push(Token::LCurly);
            out.append(&mut items);
            out.push(Token::RCurly);
            assert(out@ =~= seq![Token::LCurly] + list + seq![Token::RCurly]);
        },
    }
    out
}

/// The tokens of `w` stand in `t` from position `p` on.
pub(crate) open spec fn occurs(t: Seq<Token>, p: int, w: Seq<Token>) -> bool {
    &&& 0 <= p
    &&& p + w.len() <= t.len()
    &&& forall|k: int| 0 <= k < w.len() ==> t[p + k] == #[trigger] w[k]
}

/// What stands in a part of `w` stands in every line that holds `w`.
pub(crate) proof fn lemma_occurs_within(
    t: Seq<Token>,
    p: int,
    w: Seq<Token>,
    at: int,
    part: Seq<Token>,
)
    requires
        occurs(t, p, w),
        occurs(w, at, part),
    ensures
        occurs(t, p + at, part),
{
    assert forall|k: int| 0 <= k < part.len() implies t[p + at + k] == #[trigger] part[k] by {
        assert(w[at + k] == part[k]);
    }
}

/// An operator's token is nothing that a scan looks for, and it is the
/// token of that operator alone.
pub(crate) proof fn lemma_operator_tokens(op: Operator, kind: Nesting)
    ensures
        !opens(kind, token_of(op)),
        !closes(kind, token_of(op)),
        !separates(kind, token_of(op)),
        operator_of(token_of(op)) == Some(op),
        !ends_level(token_of(op), 0),
        right_threshold(token_of(op)) >= 0,
{
}

/// Where the parts of the writing of a binary operation stand.
pub(crate) proof fn lemma_layout_binary(left: Expression, op: Operator, right: Expression)
    ensures
        ({
            let w = written(Expression::Binary(Box::new(left), op, Box::new(right)));
            let l = written(left).len() as int;
            let r = written(right).len() as int;
            &&& w.len() == l + r + 5
            &&& w[0] == Token::LParen
            &&& occurs(w, 1, written(left))
            &&& w[l + 1] == Token::RParen
            &&& w[l + 2] == token_of(op)
            &&& w[l + 3] == Token::LParen
            &&& occurs(w, l + 4, written(right))
            &&& w[l + r + 4] == Token::RParen
        }),
{
}

/// Where the parts of the writing of a conditional stand.
pub(crate) proof fn lemma_layout_branched(
    condition: Expression,
    first: Expression,
    second: Expression,
)
    ensures
        ({
            let w = written(
                Expression::Branched(Box::new(condition), Box::new(first), Box::new(second)),
            );
            let c = written(condition).len() as int;
            let a = written(first).len() as int;
            let b = written(second).len() as int;
            &&& w.len() == c + a + b + 4
            &&& w[0] == Token::If
            &&& occurs(w, 1, written(condition))
            &&& w[c + 1] == Token::Then
            &&& occurs(w, c + 2, written(first))
            &&& w[c + a + 2] == Token::Else
            &&& occurs(w, c + a + 3, written(second))
            &&& w[c + a + b + 3] == Token::End
        }),
{
}

/// Where the parts of the writing of a call stand.
pub(crate) proof fn lemma_layout_call(name: String, args: Vec<Expression>)
    ensures
        ({
            let w = written(Expression::FunctionCall(name, args));
            let n = written_from(args@, 0).len() as int;
            &&& w.len() == n + 3
            &&& w[0] == Token::Identifier(name)
            &&& w[1] == Token::LParen
            &&& occurs(w, 2, written_from(args@, 0))
            &&& w[n + 2] == Token::RParen
        }),
{
}

/// Where the parts of the writing of a matrix literal stand.
pub(crate) proof fn lemma_layout_set(rows: Vec<Expression>)
    ensures
        ({
            let w = written(Expression::SizedSet(rows));
            let n = written_from(rows@, 0).len() as int;
            &&& w.len() == n + 2
            &&& w[0] == Token::LCurly
            &&& occurs(w, 1, written_from(rows@, 0))
            &&& w[n + 1] == Token::RCurly
        }),
{
}

/// Where the parts of the writing of a list stand.
pub(crate) proof fn lemma_layout_list(items: Seq<Expression>, from: int)
    requires
        0 <= from < items.len(),
    ensures
        ({
            let w = written_from(items, from);
            let x = written(items[from]).len() as int;
            &&& occurs(w, 0, written(items[from]))
            &&& from == items.len() - 1 ==> w.len() == x
            &&& from < items.len() - 1 ==> {
                &&& w.len() == x + 1 + written_from(items, from + 1).len()
                &&& w[x] == Token::Comma
                &&& occurs(w, x + 1, written_from(items, from + 1))
            }
        }),
{
}

/// Whether a scan of kind `kind` that meets the writing of `e` at depth
/// `depth` runs through it: only a comma outside braces, met by a scan for
/// the end of a row at depth zero, stops a scan inside a writing.
pub(crate) open spec fn passable(e: Expression, kind: Nesting, depth: nat) -> bool {
    (kind is Rows && depth == 0) ==> fits_row(e)
}

/// A scan goes over a token that, where it stands, neither closes nor
/// separates.
pub(crate) proof fn lemma_scan_step(t: Seq<Token>, p: int, end: int, depth: nat, kind: Nesting)
    requires
        0 <= p < end <= t.len(),
        !(depth == 0 && (closes(kind, t[p]) || separates(kind, t[p]))),
    ensures
        span_len(t, p, end, depth, kind) == 1 + span_len(
            t,
            p + 1,
            end,
            depth_after(kind, depth, t[p]),
            kind,
        ),
{
}

/// A scan runs through a binary operation if it runs through the operands.
proof fn lemma_pass_binary(
    t: Seq<Token>,
    p: int,
    end: int,
    depth: nat,
    kind: Nesting,
    l: int,
    r: int,
    op: Operator,
)
    requires
        0 <= p,
        0 <= l,
        0 <= r,
        p + l + r + 5 <= end <= t.len(),
        t[p] == Token::LParen,
        t[p + l + 1] == Token::RParen,
        t[p + l + 2] == token_of(op),
        t[p + l + 3] == Token::LParen,
        t[p + l + r + 4] == Token::RParen,
        span_len(t, p + 1, end, depth_after(kind, depth, Token::LParen), kind) == l + span_len(
            t,
            p + 1 + l,
            end,
            depth_after(kind, depth, Token::LParen),
            kind,
        ),
        span_len(t, p + l + 4, end, depth_after(kind, depth, Token::LParen), kind) == r
            + span_len(t, p + l + 4 + r, end, depth_after(kind, depth, Token::LParen), kind),
    ensures
        span_len(t, p, end, depth, kind) == l + r + 5 + span_len(
            t,
            p + l + r + 5,
            end,
            depth,
            kind,
        ),
{
    let inner = depth_after(kind, depth, Token::LParen);
    lemma_operator_tokens(op, kind);
    lemma_scan_step(t, p, end, depth, kind);
    lemma_scan_step(t, p + l + 1, end, inner, kind);
    lemma_scan_step(t, p + l + 2, end, depth, kind);
    lemma_scan_step(t, p + l + 3, end, depth, kind);
    lemma_scan_step(t, p + l + r + 4, end, inner, kind);
}

/// A scan runs through a conditional if it runs through its three parts.
proof fn lemma_pass_branched(
    t: Seq<Token>,
    p: int,
    end: int,
    depth: nat,
    kind: Nesting,
    c: int,
    a: int,
    b: int,
)
    requires
        0 <= p,
        0 <= c,
        0 <= a,
        0 <= b,
        p + c + a + b + 4 <= end <= t.len(),
        t[p] == Token::If,
        t[p + c + 1] == Token::Then,
        t[p + c + a + 2] == Token::Else,
        t[p + c + a + b + 3] == Token::End,
        span_len(t, p + 1, end, depth_after(kind, depth, Token::If), kind) == c + span_len(
            t,
            p + 1 + c,
            end,
            depth_after(kind, depth, Token::If),
            kind,
        ),
        span_len(t, p + c + 2, end, depth_after(kind, depth, Token::If), kind) == a + span_len(
            t,
            p + c + 2 + a,
            end,
            depth_after(kind, depth, Token::If),
            kind,
        ),
        span_len(t, p + c + a + 3, end, depth_after(kind, depth, Token::If), kind) == b
            + span_len(t, p + c + a + 3 + b, end, depth_after(kind, depth, Token::If), kind),
    ensures
        span_len(t, p, end, depth, kind) == c + a + b + 4 + span_len(
            t,
            p + c + a + b + 4,
            end,
            depth,
            kind,
        ),
{
    let inner = depth_after(kind, depth, Token::If);
    lemma_scan_step(t, p, end, depth, kind);
    lemma_scan_step(t, p + c + 1, end, inner, kind);
    lemma_scan_step(t, p + c + a + 2, end, inner, kind);
    lemma_scan_step(t, p + c + a + b + 3, end, inner, kind);
}

/// A scan runs through a call if it runs through the arguments.
proof fn lemma_pass_call(
    t: Seq<Token>,
    p: int,
    end: int,
    depth: nat,
    kind: Nesting,
    n: int,
)
    requires
        0 <= p,
        0 <= n,
        p + n + 3 <= end <= t.len(),
        t[p] is Identifier,
        t[p + 1] == Token::LParen,
        t[p + n + 2] == Token::RParen,
        span_len(t, p + 2, end, depth_after(kind, depth, Token::LParen), kind) == n + span_len(
            t,
            p + 2 + n,
            end,
            depth_after(kind, depth, Token::LParen),
            kind,
        ),
    ensures
        span_len(t, p, end, depth, kind) == n + 3 + span_len(t, p + n + 3, end, depth, kind),
{
    let inner = depth_after(kind, depth, Token::LParen);
    lemma_scan_step(t, p, end, depth, kind);
    lemma_scan_step(t, p + 1, end, depth, kind);
    lemma_scan_step(t, p + n + 2, end, inner, kind);
}

/// A scan runs through a matrix literal if it runs through the rows.
proof fn lemma_pass_set(t: Seq<Token>, p: int, end: int, depth: nat, kind: Nesting, n: int)
    requires
        0 <= p,
        0 <= n,
        p + n + 2 <= end <= t.len(),
        t[p] == Token::LCurly,
        t[p + n + 1] == Token::RCurly,
        span_len(t, p + 1, end, depth_after(kind, depth, Token::LCurly), kind) == n + span_len(
            t,
            p + 1 + n,
            end,
            depth_after(kind, depth, Token::LCurly),
            kind,
        ),
    ensures
        span_len(t, p, end, depth, kind) == n + 2 + span_len(t, p + n + 2, end, depth, kind),
{
    let inner = depth_after(kind, depth, Token::LCurly);
    lemma_scan_step(t, p, end, depth, kind);
    lemma_scan_step(t, p + n + 1, end, inner, kind);
}

/// A scan that meets the writing of a tree runs through it and leaves it
/// at the depth at which it met it.
pub(crate) proof fn lemma_scan_passes(
    e: Expression,
    t: Seq<Token>,
    p: int,
    end: int,
    depth: nat,
    kind: Nesting,
)
    requires
        occurs(t, p, written(e)),
        p + written(e).len() <= end <= t.len(),
        passable(e, kind, depth),
    ensures
        written(e).len() >= 1,
        span_len(t, p, end, depth, kind) == written(e).len() + span_len(
            t,
            p + written(e).len(),
            end,
            depth,
            kind,
        ),
    decreases e, 1nat,
{
    match e {
        Expression::Number(n) => {
            assert(t[p + 0] == written(e)[0]);
            lemma_scan_step(t, p, end, depth, kind);
        },
        Expression::Identifier(name) => {
            assert(t[p + 0] == written(e)[0]);
            lemma_scan_step(t, p, end, depth, kind);
        },
        Expression::Binary(_, _, _) => {
            lemma_scan_passes_binary(e, t, p, end, depth, kind);
        },
        Expression::FunctionCall(_, _) => {
            lemma_scan_passes_call(e, t, p, end, depth, kind);
        },
        Expression::Branched(_, _, _) => {
            lemma_scan_passes_branched(e, t, p, end, depth, kind);
        },
        Expression::SizedSet(_) => {
            lemma_scan_passes_set(e, t, p, end, depth, kind);
        },
    }
}

/// A scan runs through the writing of a binary operation.
proof fn lemma_scan_passes_binary(
    e: Expression,
    t: Seq<Token>,
    p: int,
    end: int,
    depth: nat,
    kind: Nesting,
)
    requires
        e is Binary,
        occurs(t, p, written(e)),
        p + written(e).len() <= end <= t.len(),
        passable(e, kind, depth),
    ensures
        written(e).len() >= 1,
        span_len(t, p, end, depth, kind) == written(e).len() + span_len(
            t,
            p + written(e).len(),
            end,
            depth,
            kind,
        ),
    decreases e, 0nat,
{
    if let Expression::Binary(left, op, right) = e {
        let w = written(e);
        lemma_layout_binary(*left, op, *right);
        let l = written(*left).len() as int;
        let r = written(*right).len() as int;
        assert(t[p + 0] == w[0]);
        assert(t[p + (l + 1)] == w[l + 1]);
        assert(t[p + (l + 2)] == w[l + 2]);
        assert(t[p + (l + 3)] == w[l + 3]);
        assert(t[p + (l + r + 4)] == w[l + r + 4]);
        let inner = depth_after(kind, depth, Token::LParen);
        lemma_occurs_within(t, p, w, 1, written(*left));
        lemma_scan_passes(*left, t, p + 1, end, inner, kind);
        lemma_occurs_within(t, p, w, l + 4, written(*right));
        lemma_scan_passes(*right, t, p + l + 4, end, inner, kind);
        lemma_pass_binary(t, p, end, depth, kind, l, r, op);
    }
}

/// A scan runs through the writing of a conditional.
proof fn lemma_scan_passes_branched(
    e: Expression,
    t: Seq<Token>,
    p: int,
    end: int,
    depth: nat,
    kind: Nesting,
)
    requires
        e is Branched,
        occurs(t, p, written(e)),
        p + written(e).len() <= end <= t.len(),
        passable(e, kind, depth),
    ensures
        written(e).len() >= 1,
        span_len(t, p, end, depth, kind) == written(e).len() + span_len(
            t,
            p + written(e).len(),
            end,
            depth,
            kind,
        ),
    decreases e, 0nat,
{
    if let Expression::Branched(condition, first, second) = e {
        let w = written(e);
        lemma_layout_branched(*condition, *first, *second);
        let c = written(*condition).len() as int;
        let a = written(*first).len() as int;
        let b = written(*second).len() as int;
        assert(t[p + 0] == w[0]);
        assert(t[p + (c + 1)] == w[c + 1]);
        assert(t[p + (c + a + 2)] == w[c + a + 2]);
        assert(t[p + (c + a + b + 3)] == w[c + a + b + 3]);
        let inner = depth_after(kind, depth, Token::If);
        lemma_occurs_within(t, p, w, 1, written(*condition));
        lemma_scan_passes(*condition, t, p + 1, end, inner, kind);
        lemma_occurs_within(t, p, w, c + 2, written(*first));
        lemma_scan_passes(*first, t, p + c + 2, end, inner, kind);
        lemma_occurs_within(t, p, w, c + a + 3, written(*second));
        lemma_scan_passes(*second, t, p + c + a + 3, end, inner, kind);
        lemma_pass_branched(t, p, end, depth, kind, c, a, b);
    }
}

/// A scan runs through the writing of a call.
proof fn lemma_scan_passes_call(
    e: Expression,
    t: Seq<Token>,
    p: int,
    end: int,
    depth: nat,
    kind: Nesting,
)
    requires
        e is FunctionCall,
        occurs(t, p, written(e)),
        p + written(e).len() <= end <= t.len(),
        passable(e, kind, depth),
    ensures
        written(e).len() >= 1,
        span_len(t, p, end, depth, kind) == written(e).len() + span_len(
            t,
            p + written(e).len(),
            end,
            depth,
            kind,
        ),
    decreases e, 0nat,
{
    if let Expression::FunctionCall(name, args) = e {
        let w = written(e);
        lemma_layout_call(name, args);
        let n = written_from(args@, 0).len() as int;
        assert(t[p + 0] == w[0]);
        assert(t[p + 1] == w[1]);
        assert(t[p + (n + 2)] == w[n + 2]);
        let inner = depth_after(kind, depth, Token::LParen);
        lemma_occurs_within(t, p, w, 2, written_from(args@, 0));
        assert forall|i: int| 0 <= i < args@.len() implies passable(
            #[trigger] args@[i],
            kind,
            inner,
        ) by {
            if kind is Rows && inner == 0 {
                assert(fits_row(args[i]));
            }
        }
        lemma_scan_passes_list(args@, 0, t, p + 2, end, inner, kind);
        lemma_pass_call(t, p, end, depth, kind, n);
    }
}

/// A scan runs through the writing of a matrix literal.
proof fn lemma_scan_passes_set(
    e: Expression,
    t: Seq<Token>,
    p: int,
    end: int,
    depth: nat,
    kind: Nesting,
)
    requires
        e is SizedSet,
        occurs(t, p, written(e)),
        p + written(e).len() <= end <= t.len(),
    ensures
        written(e).len() >= 1,
        span_len(t, p, end, depth, kind) == written(e).len() + span_len(
            t,
            p + written(e).len(),
            end,
            depth,
            kind,
        ),
    decreases e, 0nat,
{
    if let Expression::SizedSet(rows) = e {
        let w = written(e);
        lemma_layout_set(rows);
        let n = written_from(rows@, 0).len() as int;
        assert(t[p + 0] == w[0]);
        assert(t[p + (n + 1)] == w[n + 1]);
        let inner = depth_after(kind, depth, Token::LCurly);
        lemma_occurs_within(t, p, w, 1, written_from(rows@, 0));
        lemma_scan_passes_list(rows@, 0, t, p + 1, end, inner, kind);
        lemma_pass_set(t, p, end, depth, kind, n);
    }
}

/// A scan that meets the writing of a list runs through it, unless it
/// looks for the commas that the list holds.
proof fn lemma_scan_passes_list(
    items: Seq<Expression>,
    from: int,
    t: Seq<Token>,
    p: int,
    end: int,
    depth: nat,
    kind: Nesting,
)
    requires
        0 <= from <= items.len(),
        occurs(t, p, written_from(items, from)),
        p + written_from(items, from).len() <= end <= t.len(),
        forall|i: int| from <= i < items.len() ==> passable(#[trigger] items[i], kind, depth),
        (depth == 0 && !(kind is Branch)) ==> items.len() - from <= 1,
    ensures
        span_len(t, p, end, depth, kind) == written_from(items, from).len() + span_len(
            t,
            p + written_from(items, from).len(),
            end,
            depth,
            kind,
        ),
    decreases items, items.len() - from,
{
    if from < items.len() {
        let w = written_from(items, from);
        let x = written(items[from]).len() as int;
        lemma_layout_list(items, from);
        lemma_occurs_within(t, p, w, 0, written(items[from]));
        lemma_scan_passes(items[from], t, p, end, depth, kind);
        if from < items.len() - 1 {
            assert(t[p + x] == w[x]);
            lemma_scan_step(t, p + x, end, depth, kind);
            lemma_occurs_within(t, p, w, x + 1, written_from(items, from + 1));
            lemma_scan_passes_list(items, from + 1, t, p + x + 1, end, depth, kind);
        }
    }
}

} // verus!
