use vstd::prelude::*;
use crate::ast::{
    ast_views, clone_names, expression_views, name_views, Ast, AstView, Expression,
    ExpressionView, Operator,
};
use crate::error::{Error, ErrorView};
use crate::library::{entry, library, Builtin, BUILTINS};
use crate::scalar::Real;
use crate::semantics::{
    apply, apply_library, begin, bind, call, call_library, deliver, evaluate, fail,
    gather_arguments, gather_rows, initial, load, proceed, registry, step, E_BITS, ONE_BITS,
    PI_BITS,
};
use crate::table::Table;
use crate::value::{value_views, Value, ValueView};

verus! {

/// A function that the user declared: the names of its parameters and its
/// body.
#[derive(Debug, PartialEq, Eq)]
pub struct UserDefinedFunction {
    pub params: Vec<String>,
    pub code: Expression,
}

/// A function of the standard library, known by its name.
#[derive(Debug, PartialEq, Eq)]
pub struct STDFunction {
    pub name: String,
}

/// A function of the registry.
#[derive(Debug, PartialEq, Eq)]
pub enum Function {
    UserDefined(UserDefinedFunction),
    STD(STDFunction),
}

/// The mathematical value of a [`Function`].
pub ghost enum FunctionView {
    UserDefined(Seq<Seq<char>>, ExpressionView),
    STD(Seq<char>),
}

/// What an evaluation still has to do once the value that it waits for has
/// come.
#[derive(Clone, Debug, PartialEq, Eq)]
pub enum Frame {
    /// The left operand is being evaluated; the right one comes next.
    Right(Operator, Expression),
    /// The right operand is being evaluated; the left one is known.
    Apply(Operator, Value),
    /// An argument of a call is being evaluated: the function, the values
    /// of the arguments before it and the arguments after it.
    Arguments(Function, Vec<Value>, Vec<Expression>),
    /// The condition is being evaluated: the two branches.
    Branch(Expression, Expression),
    /// A row of a matrix literal is being evaluated: the values of the rows
    /// before it and the rows after it.
    Rows(Vec<Value>, Vec<Expression>),
    /// The value of an assignment is being evaluated: the name to bind.
    Assign(String),
    /// A statement that is a call is being evaluated: its value is dropped.
    Discard,
}

/// The mathematical value of a [`Frame`].
pub ghost enum FrameView {
    Right(Operator, ExpressionView),
    Apply(Operator, ValueView),
    Arguments(FunctionView, Seq<ValueView>, Seq<ExpressionView>),
    Branch(ExpressionView, ExpressionView),
    Rows(Seq<ValueView>, Seq<ExpressionView>),
    Assign(Seq<char>),
    Discard,
}

/// What the interpreter does next.
#[derive(Clone, Debug, PartialEq, Eq)]
pub enum Control {
    /// No statement is under way.
    Idle,
    /// This expression is to be evaluated.
    Evaluate(Expression),
    /// This value goes to the frame on top of the stack.
    Return(Value),
    /// The standard library has been asked for a value.
    Waiting,
}

/// The mathematical value of a [`Control`].
pub ghost enum ControlView {
    Idle,
    Evaluate(ExpressionView),
    Return(ValueView),
    Waiting,
}

/// What the interpreter asks of the standard library.
#[derive(Clone, Debug, PartialEq, Eq)]
pub enum Request {
    /// The result of this routine on these values: as many values as the
    /// routine takes.
    Call(Builtin, Vec<Value>),
    /// The plot of this expression, which the library samples itself.
    Graph(Expression),
}

/// The mathematical value of a [`Request`].
pub ghost enum RequestView {
    Call(Builtin, Seq<ValueView>),
    Graph(ExpressionView),
}

/// What a step of the interpreter asks of its driver.
#[derive(Clone, Debug, PartialEq, Eq)]
pub enum Action {
    /// Step again.
    Continue,
    /// Perform the request and step with its reply or its failure.
    Request(Request),
    /// A request is open and no reply to it has come.
    Waiting,
    /// Every statement has been carried out.
    Finished,
    /// The statement under way failed and was given up. The statements
    /// after it wait: step again to go on with them.
    Failed(Error),
}

/// The mathematical value of an [`Action`].
pub ghost enum ActionView {
    Continue,
    Request(RequestView),
    Waiting,
    Finished,
    Failed(ErrorView),
}

/// What the driver hands to a step.
#[derive(Clone, Debug, PartialEq, Eq)]
pub enum Event {
    /// Nothing: the interpreter goes on by itself.
    Continue,
    /// The value that the standard library computed.
    Reply(Value),
    /// The error with which the standard library failed.
    Failure(Error),
}

/// The mathematical value of an [`Event`].
pub ghost enum EventView {
    Continue,
    Reply(ValueView),
    Failure(ErrorView),
}

impl View for UserDefinedFunction {
    type V = FunctionView;

    open spec fn view(&self) -> FunctionView {
        FunctionView::UserDefined(name_views(self.params@), self.code@)
    }
}

impl View for STDFunction {
    type V = FunctionView;

    open spec fn view(&self) -> FunctionView {
        FunctionView::STD(self.name@)
    }
}

impl View for Function {
    type V = FunctionView;

    open spec fn view(&self) -> FunctionView {
        match self {
            Function::UserDefined(f) => f@,
            Function::STD(f) => f@,
        }
    }
}

impl View for Frame {
    type V = FrameView;

    open spec fn view(&self) -> FrameView {
        match self {
            Frame::Right(op, right) => FrameView::Right(*op, right@),
            Frame::Apply(op, left) => FrameView::Apply(*op, left@),
            Frame::Arguments(callee, values, rest) => FrameView::Arguments(
                callee@,
                value_views(values@),
                expression_views(rest@),
            ),
            Frame::Branch(first, second) => FrameView::Branch(first@, second@),
            Frame::Rows(values, rest) => FrameView::Rows(
                value_views(values@),
                expression_views(rest@),
            ),
            Frame::Assign(name) => FrameView::Assign(name@),
            Frame::Discard => FrameView::Discard,
        }
    }
}

impl View for Control {
    type V = ControlView;

    open spec fn view(&self) -> ControlView {
        match self {
            Control::Idle => ControlView::Idle,
            Control::Evaluate(e) => ControlView::Evaluate(e@),
            Control::Return(v) => ControlView::Return(v@),
            Control::Waiting => ControlView::Waiting,
        }
    }
}

impl View for Request {
    type V = RequestView;

    open spec fn view(&self) -> RequestView {
        match self {
            Request::Call(routine, values) => RequestView::Call(*routine, value_views(values@)),
            Request::Graph(e) => RequestView::Graph(e@),
        }
    }
}

impl View for Action {
    type V = ActionView;

    open spec fn view(&self) -> ActionView {
        match self {
            Action::Continue => ActionView::Continue,
            Action::Request(request) => ActionView::Request(request@),
            Action::Waiting => ActionView::Waiting,
            Action::Finished => ActionView::Finished,
            Action::Failed(e) => ActionView::Failed(e@),
        }
    }
}

impl View for Event {
    type V = EventView;

    open spec fn view(&self) -> EventView {
        match self {
            Event::Continue => EventView::Continue,
            Event::Reply(v) => EventView::Reply(v@),
            Event::Failure(e) => EventView::Failure(e@),
        }
    }
}

impl Clone for UserDefinedFunction {
    fn clone(&self) -> (r: Self)
        ensures
            r@ == self@,
    {
        UserDefinedFunction { params: clone_names(&self.params), code: self.code.clone() }
    }
}

impl Clone for STDFunction {
    fn clone(&self) -> (r: Self)
        ensures
            r@ == self@,
    {
        STDFunction { name: self.name.clone() }
    }
}

impl Clone for Function {
    fn clone(&self) -> (r: Self)
        ensures
            r@ == self@,
    {
        match self {
            Function::UserDefined(f) => Function::UserDefined(f.clone()),
            Function::STD(f) => Function::STD(f.clone()),
        }
    }
}

/// The views of the frames of a stack, bottom first.
pub open spec fn frame_views(frames: Seq<Frame>) -> Seq<FrameView> {
    Seq::new(frames.len(), |i: int| frames[i]@)
}

/// The values of a table of values, name by name.
pub open spec fn value_map(table: Map<Seq<char>, Value>) -> Map<Seq<char>, ValueView> {
    Map::new(|name: Seq<char>| table.contains_key(name), |name: Seq<char>| table[name]@)
}

/// The functions of a registry, name by name.
pub open spec fn function_map(table: Map<Seq<char>, Function>) -> Map<Seq<char>, FunctionView> {
    Map::new(|name: Seq<char>| table.contains_key(name), |name: Seq<char>| table[name]@)
}

/// The state of an interpreter: the global variables, the registry of
/// functions, the statements still to carry out, the stack of the
/// evaluation under way, and what comes next.
pub ghost struct InterpreterView {
    pub globals: Map<Seq<char>, ValueView>,
    pub functions: Map<Seq<char>, FunctionView>,
    pub program: Seq<AstView>,
    pub stack: Seq<FrameView>,
    pub control: ControlView,
}

/// An interpreter session.
///
/// It evaluates by steps. What only the standard library can compute (the
/// arithmetic, the mathematical functions, input and output) it asks of its
/// driver, which performs the request and hands the reply to the next step.
#[derive(Clone, Debug)]
pub struct Interpreter {
    pub globals: Table<Value>,
    pub functions: Table<Function>,
    pub program: Vec<Ast>,
    pub stack: Vec<Frame>,
    pub control: Control,
}

impl View for Interpreter {
    type V = InterpreterView;

    open spec fn view(&self) -> InterpreterView {
        InterpreterView {
            globals: value_map(self.globals.map()),
            functions: function_map(self.functions.map()),
            program: ast_views(self.program@),
            stack: frame_views(self.stack@),
            control: self.control@,
        }
    }
}

/// Binding a name in a table of values binds it to the value's view in the
/// map of views.
fn bind_value(globals: &mut Table<Value>, name: String, value: Value)
    ensures
        value_map(final(globals).map()) == value_map(old(globals).map()).insert(name@, value@),
{
    globals.insert(name, value);
    assert(value_map(globals.map()) =~= value_map(old(globals).map()).insert(name@, value@));
}

/// Entering a function in a registry enters its view in the map of views.
fn bind_function(functions: &mut Table<Function>, name: String, function: Function)
    ensures
        function_map(final(functions).map()) == function_map(old(functions).map()).insert(
            name@,
            function@,
        ),
{
    functions.insert(name, function);
    assert(function_map(functions.map()) =~= function_map(old(functions).map()).insert(
        name@,
        function@,
    ));
}

impl Default for Interpreter {
    fn default() -> (r: Self)
        ensures
            r@ == initial(),
    {
        Self::new()
    }
}

impl Interpreter {
    /// A new session: the built-in constants are bound, the functions of
    /// the standard library are registered, and no statement waits.
    pub fn new() -> (r: Self)
        ensures
            r@ == initial(),
    {
        let mut globals: Table<Value> = Table::new();
        assert(value_map(globals.map()) =~= Map::<Seq<char>, ValueView>::empty());
        bind_value(
            &mut globals,
            "i".to_string(),
            Value::Number(Real::from_bits(0), Real::from_bits(ONE_BITS)),
        );
        bind_value(
            &mut globals,
            "pi".to_string(),
            Value::Number(Real::from_bits(PI_BITS), Real::from_bits(0)),
        );
        bind_value(
            &mut globals,
            "π".to_string(),
            Value::Number(Real::from_bits(PI_BITS), Real::from_bits(0)),
        );
        bind_value(
            &mut globals,
            "e".to_string(),
            Value::Number(Real::from_bits(E_BITS), Real::from_bits(0)),
        );
        let mut functions: Table<Function> = Table::new();
        assert(function_map(functions.map()) =~= Map::<Seq<char>, FunctionView>::empty());
        let mut i: usize = 0;
        while i < BUILTINS
            invariant
                i <= BUILTINS,
                library().len() == BUILTINS,
                function_map(functions.map()) == registry(i as nat),
            decreases BUILTINS - i,
        {
            if let Some((name, _)) = entry(i) {
                let function = Function::STD(STDFunction { name: name.clone() });
                bind_function(&mut functions, name, function);
            }
            i = i + 1;
        }
        let r = Interpreter {
            globals,
            functions,
            program: Vec::new(),
            stack: Vec::new(),
            control: Control::Idle,
        };
        assert(r@.program =~= Seq::<AstView>::empty());
        assert(r@.stack =~= Seq::<FrameView>::empty());
        r
    }

    /// Takes the statements of `ast` as the program to carry out, in the
    /// session as it stands. The steps that follow carry them out in
    /// order.
    pub fn interpret(&mut self, ast: Vec<Ast>)
        ensures
            final(self)@ == load(old(self)@, ast_views(ast@)),
    {
        self.program = ast;
        self.stack.clear();
        self.control = Control::Idle;
        assert(self@.stack =~= Seq::<FrameView>::empty());
    }

    /// Carries out one step of the session: what the session was about to
    /// do, with what the driver hands in. See [`crate::semantics::step`].
    pub fn step(&mut self, event: Event) -> (action: Action)
        ensures
            (final(self)@, action@) == step(old(self)@, event@),
    {
        let mut control = Control::Idle;
        core::mem::swap(&mut self.control, &mut control);
        match control {
            Control::Waiting => match event {
                Event::Reply(value) => {
                    self.control = Control::Return(value);
                    Action::Continue
                },
                Event::Failure(e) => self.fail(e),
                Event::Continue => {
                    self.control = Control::Waiting;
                    Action::Waiting
                },
            },
            Control::Idle => self.begin(),
            Control::Evaluate(e) => self.evaluate(e),
            Control::Return(value) => self.deliver(value),
        }
    }

    /// Gives up the statement under way.
    fn fail(&mut self, error: Error) -> (action: Action)
        ensures
            (final(self)@, action@) == fail(old(self)@, error@),
    {
        self.stack.clear();
        self.control = Control::Idle;
        assert(self@.stack =~= Seq::<FrameView>::empty());
        Action::Failed(error)
    }

    /// Puts a frame on top of the stack.
    fn push(&mut self, frame: Frame)
        ensures
            final(self)@ == (InterpreterView {
                stack: old(self)@.stack.push(frame@),
                ..old(self)@
            }),
    {
        self.stack.push(frame);
        assert(self@.stack =~= old(self)@.stack.push(frame@));
    }

    /// Begins the next statement that waits.
    fn begin(&mut self) -> (action: Action)
        ensures
            (final(self)@, action@) == begin(old(self)@),
    {
        if self.program.len() == 0 {
            self.control = Control::Idle;
            return Action::Finished;
        }
        let statement = self.program.remove(0);
        assert(self@.program =~= old(self)@.program.drop_first());
        assert(old(self)@.program.first() == statement@);
        self.stack.clear();
        match statement {
            Ast::Assignment(name, value) => {
                self.stack.push(Frame::Assign(name));
                assert(self@.stack =~= seq![FrameView::Assign(name@)]);
                self.control = Control::Evaluate(value);
            },
            Ast::FunctionDeclaration(name, params, body) => {
                assert(self@.stack =~= Seq::<FrameView>::empty());
                bind_function(
                    &mut self.functions,
                    name,
                    Function::UserDefined(UserDefinedFunction { params, code: body }),
                );
                self.control = Control::Idle;
            },
            Ast::FunctionCall(name, args) => {
                self.stack.push(Frame::Discard);
                assert(self@.stack =~= seq![FrameView::Discard]);
                proof {
                    Expression::lemma_call_view(name, args);
                }
                self.control = Control::Evaluate(Expression::FunctionCall(name, args));
            },
        }
        Action::Continue
    }

    /// Takes the first step of the evaluation of `e`.
    fn evaluate(&mut self, e: Expression) -> (action: Action)
        ensures
            (final(self)@, action@) == evaluate(old(self)@, e@),
    {
        match e {
            Expression::Number(n) => {
                self.control = Control::Return(Value::Number(n, Real::new()));
                Action::Continue
            },
            Expression::Identifier(name) => {
                let found = match self.globals.get(&name) {
                    Some(value) => Some(value.clone()),
                    None => None,
                };
                match found {
                    Some(value) => {
                        self.control = Control::Return(value);
                        Action::Continue
                    },
                    None => self.fail(Error::NameError(name)),
                }
            },
            Expression::Binary(left, op, right) => {
                self.push(Frame::Right(op, *right));
                self.control = Control::Evaluate(*left);
                Action::Continue
            },
            Expression::FunctionCall(name, args) => {
                proof {
                    Expression::lemma_call_view(name, args);
                }
                let found = match self.functions.get(&name) {
                    Some(function) => Some(function.clone()),
                    None => None,
                };
                match found {
                    Some(function) => self.call(function, args),
                    None => self.fail(Error::NameError(name)),
                }
            },
            Expression::Branched(condition, first, second) => {
                self.push(Frame::Branch(*first, *second));
                self.control = Control::Evaluate(*condition);
                Action::Continue
            },
            Expression::SizedSet(rows) => {
                proof {
                    Expression::lemma_set_view(rows);
                }
                let none: Vec<Value> = Vec::new();
                assert(value_views(none@) =~= Seq::<ValueView>::empty());
                self.gather_rows(none, rows)
            },
        }
    }

    /// Calls `callee` with the arguments `args`.
    fn call(&mut self, callee: Function, args: Vec<Expression>) -> (action: Action)
        ensures
            (final(self)@, action@) == call(old(self)@, callee@, expression_views(args@)),
    {
        match callee {
            Function::STD(function) => function.execute(self, args),
            Function::UserDefined(function) => {
                let none: Vec<Value> = Vec::new();
                assert(value_views(none@) =~= Seq::<ValueView>::empty());
                self.gather_arguments(Function::UserDefined(function), none, args)
            },
        }
    }

    /// Goes on to the next argument of a call, or applies the function
    /// if none is left.
    fn gather_arguments(
        &mut self,
        callee: Function,
        values: Vec<Value>,
        rest: Vec<Expression>,
    ) -> (action: Action)
        ensures
            (final(self)@, action@) == gather_arguments(
                old(self)@,
                callee@,
                value_views(values@),
                expression_views(rest@),
            ),
    {
        if rest.len() == 0 {
            self.apply(callee, values)
        } else {
            let mut rest = rest;
            let ghost all = rest@;
            let next = rest.remove(0);
            assert(expression_views(rest@) =~= expression_views(all).drop_first());
            assert(expression_views(all).first() == next@);
            self.push(Frame::Arguments(callee, values, rest));
            self.control = Control::Evaluate(next);
            Action::Continue
        }
    }

    /// Goes on to the next row of a matrix literal, or assembles the
    /// matrix if none is left.
    fn gather_rows(&mut self, values: Vec<Value>, rest: Vec<Expression>) -> (action: Action)
        ensures
            (final(self)@, action@) == gather_rows(
                old(self)@,
                value_views(values@),
                expression_views(rest@),
            ),
    {
        if rest.len() == 0 {
            match Value::from_rows(&values) {
                Ok(matrix) => {
                    self.control = Control::Return(matrix);
                    Action::Continue
                },
                Err(e) => self.fail(e),
            }
        } else {
            let mut rest = rest;
            let ghost all = rest@;
            let next = rest.remove(0);
            assert(expression_views(rest@) =~= expression_views(all).drop_first());
            assert(expression_views(all).first() == next@);
            self.push(Frame::Rows(values, rest));
            self.control = Control::Evaluate(next);
            Action::Continue
        }
    }

    /// Applies a library function to the values of its arguments.
    fn apply_library(&mut self, function: STDFunction, values: Vec<Value>) -> (action: Action)
        ensures
            (final(self)@, action@) == apply_library(
                old(self)@,
                function.name@,
                value_views(values@),
            ),
    {
        let routine = match Builtin::resolve(&function.name) {
            None => { return self.fail(Error::NameError(function.name)); },
            Some(routine) => routine,
        };
        match routine.arity() {
            None => {
                self.control = Control::Waiting;
                Action::Request(Request::Call(routine, values))
            },
            Some(n) => {
                if matches!(routine, Builtin::Graph) || values.len() < n {
                    self.fail(Error::TypeError)
                } else if matches!(routine, Builtin::Transpose) {
                    match values[0].transpose() {
                        Ok(matrix) => {
                            self.control = Control::Return(matrix);
                            Action::Continue
                        },
                        Err(e) => self.fail(e),
                    }
                } else {
                    let mut taken = values;
                    taken.truncate(n);
                    assert(value_views(taken@) =~= value_views(values@).subrange(0, n as int));
                    self.control = Control::Waiting;
                    Action::Request(Request::Call(routine, taken))
                }
            },
        }
    }

    /// Applies a function to the values of its arguments.
    fn apply(&mut self, callee: Function, values: Vec<Value>) -> (action: Action)
        ensures
            (final(self)@, action@) == apply(old(self)@, callee@, value_views(values@)),
    {
        match callee {
            Function::STD(function) => self.apply_library(function, values),
            Function::UserDefined(function) => {
                let count = function.params.len();
                if values.len() < count {
                    return self.fail(Error::TypeError);
                }
                let mut i: usize = 0;
                while i < count
                    invariant
                        i <= count,
                        count == function.params.len(),
                        count <= values.len(),
                        value_map(self.globals.map()) == bind(
                            old(self)@.globals,
                            name_views(function.params@),
                            value_views(values@),
                            i as nat,
                        ),
                        self.functions == old(self).functions,
                        self.program == old(self).program,
                        self.stack == old(self).stack,
                    decreases count - i,
                {
                    bind_value(&mut self.globals, function.params[i].clone(), values[i].clone());
                    i = i + 1;
                }
                function.execute(self)
            },
        }
    }

    /// Hands a value to the frame on top of the stack.
    fn deliver(&mut self, value: Value) -> (action: Action)
        ensures
            (final(self)@, action@) == deliver(old(self)@, value@),
    {
        let top = match self.stack.pop() {
            None => {
                self.control = Control::Idle;
                return Action::Continue;
            },
            Some(frame) => frame,
        };
        assert(self@.stack =~= old(self)@.stack.drop_last());
        assert(old(self)@.stack.last() == top@);
        match top {
            Frame::Right(op, right) => {
                self.push(Frame::Apply(op, value));
                self.control = Control::Evaluate(right);
                Action::Continue
            },
            Frame::Apply(op, left) => {
                let mut operands: Vec<Value> = Vec::new();
                operands.push(left);
                operands.push(value);
                assert(value_views(operands@) =~= seq![left@, value@]);
                self.control = Control::Waiting;
                Action::Request(Request::Call(Builtin::of_operator(op), operands))
            },
            Frame::Arguments(callee, values, rest) => {
                let mut values = values;
                let ghost before = values@;
                values.push(value);
                assert(value_views(values@) =~= value_views(before).push(value@));
                self.gather_arguments(callee, values, rest)
            },
            Frame::Branch(first, second) => match value.truth() {
                None => self.fail(Error::TypeError),
                Some(chosen) => {
                    self.control = Control::Evaluate(
                        if chosen {
                            first
                        } else {
                            second
                        },
                    );
                    Action::Continue
                },
            },
            Frame::Rows(values, rest) => {
                let mut values = values;
                let ghost before = values@;
                values.push(value);
                assert(value_views(values@) =~= value_views(before).push(value@));
                self.gather_rows(values, rest)
            },
            Frame::Assign(name) => {
                bind_value(&mut self.globals, name, value);
                self.control = Control::Idle;
                Action::Continue
            },
            Frame::Discard => {
                self.control = Control::Idle;
                Action::Continue
            },
        }
    }
}

impl UserDefinedFunction {
    /// Runs the function, whose parameters are bound already: the
    /// interpreter goes on with the body.
    pub fn execute(self, ctx: &mut Interpreter) -> (action: Action)
        ensures
            (final(ctx)@, action@) == proceed(old(ctx)@, ControlView::Evaluate(self.code@)),
    {
        ctx.control = Control::Evaluate(self.code);
        Action::Continue
    }
}

impl STDFunction {
    /// The routine of the standard library that the function names, if it
    /// names one.
    pub fn routine(&self) -> (routine: Option<Builtin>)
        ensures
            routine == crate::library::builtin_of(self.name@),
    {
        Builtin::resolve(&self.name)
    }

    /// Runs the library function on the arguments `exprs`: the plotting
    /// routine is asked for at once, with its first argument as it is
    /// written; for any other routine the interpreter goes on to evaluate
    /// the arguments. See [`crate::semantics::call_library`].
    pub fn execute(self, ctx: &mut Interpreter, exprs: Vec<Expression>) -> (action: Action)
        ensures
            (final(ctx)@, action@) == call_library(old(ctx)@, self.name@, expression_views(exprs@)),
    {
        match self.routine() {
            None => ctx.fail(Error::NameError(self.name)),
            Some(Builtin::Graph) => {
                if exprs.len() == 0 {
                    ctx.fail(Error::TypeError)
                } else {
                    let mut exprs = exprs;
                    let first = exprs.remove(0);
                    ctx.control = Control::Waiting;
                    Action::Request(Request::Graph(first))
                }
            },
            Some(_) => {
                let none: Vec<Value> = Vec::new();
                assert(value_views(none@) =~= Seq::<ValueView>::empty());
                ctx.gather_arguments(Function::STD(self), none, exprs)
            },
        }
    }
}

} // verus!
