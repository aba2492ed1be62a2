use vstd::prelude::*;
use crate::scalar::Real;

verus! {

/// A binary operator of the expression language.
#[derive(Clone, Copy, Debug, PartialEq, Eq, Structural)]
pub enum Operator {
    Add,
    Sub,
    Mul,
    Div,
    Modulo,
    Pow,
    IsEq,
    Gt,
    Lt,
    GtEq,
    LtEq,
}

/// A node of the syntax tree of one expression.
#[derive(Debug, PartialEq, Eq)]
pub enum Expression {
    Number(Real),
    Identifier(String),
    Binary(Box<Expression>, Operator, Box<Expression>),
    FunctionCall(String, Vec<Expression>),
    Branched(Box<Expression>, Box<Expression>, Box<Expression>),
    /// A matrix or vector literal, one expression per row.
    SizedSet(Vec<Expression>),
}

/// The mathematical value of an [`Expression`]: the same tree over
/// sequences.
pub ghost enum ExpressionView {
    Number(Real),
    Identifier(Seq<char>),
    Binary(Box<ExpressionView>, Operator, Box<ExpressionView>),
    FunctionCall(Seq<char>, Seq<ExpressionView>),
    Branched(Box<ExpressionView>, Box<ExpressionView>, Box<ExpressionView>),
    SizedSet(Seq<ExpressionView>),
}

/// One statement: what a whole line means.
#[derive(Debug, PartialEq, Eq)]
pub enum Ast {
    Assignment(String, Expression),
    FunctionDeclaration(String, Vec<String>, Expression),
    FunctionCall(String, Vec<Expression>),
}

/// The mathematical value of an [`Ast`].
pub ghost enum AstView {
    Assignment(Seq<char>, ExpressionView),
    FunctionDeclaration(Seq<char>, Seq<Seq<char>>, ExpressionView),
    FunctionCall(Seq<char>, Seq<ExpressionView>),
}

/// The views of a sequence of expressions, in order.
pub open spec fn expression_views(items: Seq<Expression>) -> Seq<ExpressionView> {
    Seq::new(items.len(), |i: int| items[i]@)
}

/// The views of a sequence of names, in order.
pub open spec fn name_views(names: Seq<String>) -> Seq<Seq<char>> {
    Seq::new(names.len(), |i: int| names[i]@)
}

/// The views of a sequence of statements, in order.
pub open spec fn ast_views(items: Seq<Ast>) -> Seq<AstView> {
    Seq::new(items.len(), |i: int| items[i]@)
}

impl Expression {
    /// The tree that this expression denotes.
    pub open spec fn model(&self) -> ExpressionView
        decreases self,
    {
        match self {
            Expression::Number(n) => ExpressionView::Number(*n),
            Expression::Identifier(name) => ExpressionView::Identifier(name@),
            Expression::Binary(left, op, right) => ExpressionView::Binary(
                Box::new(left.model()),
                *op,
                Box::new(right.model()),
            ),
            Expression::FunctionCall(name, args) => ExpressionView::FunctionCall(
                name@,
                Seq::new(
                    args.len() as nat,
                    |i: int|
                        if 0 <= i < args.len() {
                            args[i].model()
                        } else {
                            arbitrary()
                        },
                ),
            ),
            Expression::Branched(condition, first, second) => ExpressionView::Branched(
                Box::new(condition.model()),
                Box::new(first.model()),
                Box::new(second.model()),
            ),
            Expression::SizedSet(rows) => ExpressionView::SizedSet(
                Seq::new(
                    rows.len() as nat,
                    |i: int|
                        if 0 <= i < rows.len() {
                            rows[i].model()
                        } else {
                            arbitrary()
                        },
                ),
            ),
        }
    }

    /// The view of a call is the call of the views of its arguments.
    pub proof fn lemma_call_view(name: String, args: Vec<Expression>)
        ensures
            Expression::FunctionCall(name, args)@ == ExpressionView::FunctionCall(
                name@,
                expression_views(args@),
            ),
    {
        assert(Expression::FunctionCall(name, args).model()->FunctionCall_1 =~= expression_views(
            args@,
        ));
    }

    /// The view of a literal is the literal of the views of its rows.
    pub proof fn lemma_set_view(rows: Vec<Expression>)
        ensures
            Expression::SizedSet(rows)@ == ExpressionView::SizedSet(expression_views(rows@)),
    {
        assert(Expression::SizedSet(rows).model()->SizedSet_0 =~= expression_views(rows@));
    }
}

impl View for Expression {
    type V = ExpressionView;

    open spec fn view(&self) -> ExpressionView {
        self.model()
    }
}

impl View for Ast {
    type V = AstView;

    open spec fn view(&self) -> AstView {
        match self {
            Ast::Assignment(name, value) => AstView::Assignment(name@, value@),
            Ast::FunctionDeclaration(name, params, body) => AstView::FunctionDeclaration(
                name@,
                name_views(params@),
                body@,
            ),
            Ast::FunctionCall(name, args) => AstView::FunctionCall(name@, expression_views(args@)),
        }
    }
}

/// A copy of a list of expressions, item by item.
pub fn clone_expressions(items: &Vec<Expression>) -> (r: Vec<Expression>)
    ensures
        expression_views(r@) == expression_views(items@),
    decreases items,
{
    let mut out: Vec<Expression> = Vec::new();
    let mut i: usize = 0;
    while i < items.len()
        invariant
            i <= items.len(),
            out.len() == i,
            forall|j: int| 0 <= j < i ==> out@[j]@ == items@[j]@,
        decreases items.len() - i,
    {
        out.push(items[i].clone());
        i += 1;
    }
    assert(expression_views(out@) =~= expression_views(items@));
    out
}

/// A copy of a list of names.
pub fn clone_names(names: &Vec<String>) -> (r: Vec<String>)
    ensures
        name_views(r@) == name_views(names@),
{
    let mut out: Vec<String> = Vec::new();
    let mut i: usize = 0;
    while i < names.len()
        invariant
            i <= names.len(),
            out.len() == i,
            forall|j: int| 0 <= j < i ==> out@[j]@ == names@[j]@,
        decreases names.len() - i,
    {
        out.push(names[i].clone());
        i += 1;
    }
    assert(name_views(out@) =~= name_views(names@));
    out
}

impl Clone for Expression {
    fn clone(&self) -> (r: Self)
        ensures
            r@ == self@,
        decreases self,
    {
        match self {
            Expression::Number(n) => Expression::Number(*n),
            Expression::Identifier(name) => Expression::Identifier(name.clone()),
            Expression::Binary(left, op, right) => Expression::Binary(
                Box::new((**left).clone()),
                *op,
                Box::new((**right).clone()),
            ),
            Expression::FunctionCall(name, args) => {
                let copies = clone_expressions(args);
                let name_copy = name.clone();
                proof {
                    Expression::lemma_call_view(*name, *args);
                    Expression::lemma_call_view(name_copy, copies);
                }
                Expression::FunctionCall(name_copy, copies)
            },
            Expression::Branched(condition, first, second) => Expression::Branched(
                Box::new((**condition).clone()),
                Box::new((**first).clone()),
                Box::new((**second).clone()),
            ),
            Expression::SizedSet(rows) => {
                let copies = clone_expressions(rows);
                proof {
                    Expression::lemma_set_view(*rows);
                    Expression::lemma_set_view(copies);
                }
                Expression::SizedSet(copies)
            },
        }
    }
}

impl Clone for Ast {
    fn clone(&self) -> (r: Self)
        ensures
            r@ == self@,
    {
        match self {
            Ast::Assignment(name, value) => Ast::Assignment(name.clone(), value.clone()),
            Ast::FunctionDeclaration(name, params, body) => Ast::FunctionDeclaration(
                name.clone(),
                clone_names(params),
                body.clone(),
            ),
            Ast::FunctionCall(name, args) => Ast::FunctionCall(
                name.clone(),
                clone_expressions(args),
            ),
        }
    }
}

} // verus!
