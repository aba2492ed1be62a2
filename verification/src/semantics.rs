use vstd::prelude::*;
use crate::ast::{AstView, ExpressionView};
use crate::error::ErrorView;
use crate::interpreter::{
    ActionView, ControlView, EventView, FrameView, FunctionView, InterpreterView, RequestView,
};
use crate::library::{arity, builtin_of, library, lookup, routine_of, Builtin};
use crate::scalar::Real;
use crate::value::{assemble, transpose, truth, ValueView};

verus! {

/// A state and what its driver is asked to do.
pub type Outcome = (InterpreterView, ActionView);

/// The bits of the number one.
pub const ONE_BITS: u64 = 0x3FF0_0000_0000_0000;

/// The bits of the ratio of a circle's circumference to its diameter.
pub const PI_BITS: u64 = 0x4009_21FB_5444_2D18;

/// The bits of the base of the natural logarithm.
pub const E_BITS: u64 = 0x4005_BF0A_8B14_5769;

/// The registry that holds the first `n` routines of the standard
/// library, each under its own name.
pub open spec fn registry(n: nat) -> Map<Seq<char>, FunctionView>
    decreases n,
{
    if n == 0 {
        Map::empty()
    } else {
        let name = library()[n - 1].0;
        registry((n - 1) as nat).insert(name, FunctionView::STD(name))
    }
}

/// The variables of a new session: the imaginary unit, the circle
/// constant under two names, and the base of the natural logarithm.
pub open spec fn initial_globals() -> Map<Seq<char>, ValueView> {
    Map::<Seq<char>, ValueView>::empty().insert(
        "i"@,
        ValueView::Number(Real { bits: 0 }, Real { bits: ONE_BITS }),
    ).insert("pi"@, ValueView::Number(Real { bits: PI_BITS }, Real { bits: 0 })).insert(
        "π"@,
        ValueView::Number(Real { bits: PI_BITS }, Real { bits: 0 }),
    ).insert("e"@, ValueView::Number(Real { bits: E_BITS }, Real { bits: 0 }))
}

/// The state of a new session.
pub open spec fn initial() -> InterpreterView {
    InterpreterView {
        globals: initial_globals(),
        functions: registry(library().len()),
        program: Seq::empty(),
        stack: Seq::empty(),
        control: ControlView::Idle,
    }
}

/// The state in which `program` is to be carried out: whatever was under
/// way or waited before is dropped, the variables and the functions stay
/// as they are.
pub open spec fn load(s: InterpreterView, program: Seq<AstView>) -> InterpreterView {
    InterpreterView { program, stack: Seq::empty(), control: ControlView::Idle, ..s }
}

/// The evaluation fails: the statement under way is given up with its
/// stack. The variables and the functions stay as they are, and so do the
/// statements that wait.
pub open spec fn fail(s: InterpreterView, error: ErrorView) -> Outcome {
    (
        InterpreterView { stack: Seq::empty(), control: ControlView::Idle, ..s },
        ActionView::Failed(error),
    )
}

/// The interpreter goes on with `control`.
pub open spec fn proceed(s: InterpreterView, control: ControlView) -> Outcome {
    (InterpreterView { control, ..s }, ActionView::Continue)
}

/// The interpreter asks `request` of the standard library and waits.
pub open spec fn ask(s: InterpreterView, request: RequestView) -> Outcome {
    (InterpreterView { control: ControlView::Waiting, ..s }, ActionView::Request(request))
}

/// The variables after the first `n` parameters have been bound to the
/// first `n` values, one after the other.
pub open spec fn bind(
    globals: Map<Seq<char>, ValueView>,
    params: Seq<Seq<char>>,
    values: Seq<ValueView>,
    n: nat,
) -> Map<Seq<char>, ValueView>
    decreases n,
{
    if n == 0 {
        globals
    } else {
        bind(globals, params, values, (n - 1) as nat).insert(params[n - 1], values[n - 1])
    }
}

/// The routine called `name` is applied to the values of its arguments.
/// It takes the first of them, as many as it has parameters, and needs
/// that many. The transpose is computed here; every other routine is
/// asked of the standard library.
pub open spec fn apply_library(
    s: InterpreterView,
    name: Seq<char>,
    values: Seq<ValueView>,
) -> Outcome {
    match builtin_of(name) {
        None => fail(s, ErrorView::NameError(name)),
        Some(routine) => match arity(routine) {
            None => ask(s, RequestView::Call(routine, values)),
            Some(n) => if routine is Graph || values.len() < n {
                fail(s, ErrorView::TypeError)
            } else if routine is Transpose {
                match transpose(values[0]) {
                    Ok(matrix) => proceed(s, ControlView::Return(matrix)),
                    Err(e) => fail(s, e),
                }
            } else {
                ask(s, RequestView::Call(routine, values.subrange(0, n as int)))
            },
        },
    }
}

/// The function is applied to the values of its arguments. A declared
/// function needs a value for each parameter; it binds its parameters to
/// the first values in the global variables, over whatever the names held,
/// and goes on with its body.
pub open spec fn apply(
    s: InterpreterView,
    callee: FunctionView,
    values: Seq<ValueView>,
) -> Outcome {
    match callee {
        FunctionView::STD(name) => apply_library(s, name, values),
        FunctionView::UserDefined(params, body) => if values.len() < params.len() {
            fail(s, ErrorView::TypeError)
        } else {
            proceed(
                InterpreterView { globals: bind(s.globals, params, values, params.len()), ..s },
                ControlView::Evaluate(body),
            )
        },
    }
}

/// The arguments of a call are evaluated from left to right: with none
/// left the function is applied, else the next one is evaluated while the
/// others wait on the stack.
pub open spec fn gather_arguments(
    s: InterpreterView,
    callee: FunctionView,
    values: Seq<ValueView>,
    rest: Seq<ExpressionView>,
) -> Outcome {
    if rest.len() == 0 {
        apply(s, callee, values)
    } else {
        proceed(
            InterpreterView {
                stack: s.stack.push(FrameView::Arguments(callee, values, rest.drop_first())),
                ..s
            },
            ControlView::Evaluate(rest.first()),
        )
    }
}

/// The rows of a matrix literal are evaluated from left to right: with
/// none left their values are assembled, else the next one is evaluated
/// while the others wait on the stack.
pub open spec fn gather_rows(
    s: InterpreterView,
    values: Seq<ValueView>,
    rest: Seq<ExpressionView>,
) -> Outcome {
    if rest.len() == 0 {
        match assemble(values) {
            Ok(matrix) => proceed(s, ControlView::Return(matrix)),
            Err(e) => fail(s, e),
        }
    } else {
        proceed(
            InterpreterView {
                stack: s.stack.push(FrameView::Rows(values, rest.drop_first())),
                ..s
            },
            ControlView::Evaluate(rest.first()),
        )
    }
}

/// A call of the library function `name`. The plotting routine gets its
/// first argument as it is written; the arguments of every other routine
/// are evaluated first.
pub open spec fn call_library(
    s: InterpreterView,
    name: Seq<char>,
    args: Seq<ExpressionView>,
) -> Outcome {
    match builtin_of(name) {
        None => fail(s, ErrorView::NameError(name)),
        Some(Builtin::Graph) => if args.len() == 0 {
            fail(s, ErrorView::TypeError)
        } else {
            ask(s, RequestView::Graph(args.first()))
        },
        Some(_) => gather_arguments(s, FunctionView::STD(name), Seq::empty(), args),
    }
}

/// A call of `callee` with the arguments `args`.
pub open spec fn call(
    s: InterpreterView,
    callee: FunctionView,
    args: Seq<ExpressionView>,
) -> Outcome {
    match callee {
        FunctionView::STD(name) => call_library(s, name, args),
        FunctionView::UserDefined(_, _) => gather_arguments(s, callee, Seq::empty(), args),
    }
}

/// The first step of the evaluation of `e`.
pub open spec fn evaluate(s: InterpreterView, e: ExpressionView) -> Outcome {
    match e {
        ExpressionView::Number(n) => proceed(
            s,
            ControlView::Return(ValueView::Number(n, Real { bits: 0 })),
        ),
        ExpressionView::Identifier(name) => if s.globals.contains_key(name) {
            proceed(s, ControlView::Return(s.globals[name]))
        } else {
            fail(s, ErrorView::NameError(name))
        },
        ExpressionView::Binary(left, op, right) => proceed(
            InterpreterView { stack: s.stack.push(FrameView::Right(op, *right)), ..s },
            ControlView::Evaluate(*left),
        ),
        ExpressionView::FunctionCall(name, args) => if s.functions.contains_key(name) {
            call(s, s.functions[name], args)
        } else {
            fail(s, ErrorView::NameError(name))
        },
        ExpressionView::Branched(condition, first, second) => proceed(
            InterpreterView { stack: s.stack.push(FrameView::Branch(*first, *second)), ..s },
            ControlView::Evaluate(*condition),
        ),
        ExpressionView::SizedSet(rows) => gather_rows(s, Seq::empty(), rows),
    }
}

/// The value `value` has been computed: the frame on top of the stack
/// takes it.
pub open spec fn deliver(s: InterpreterView, value: ValueView) -> Outcome {
    if s.stack.len() == 0 {
        proceed(s, ControlView::Idle)
    } else {
        let below = InterpreterView { stack: s.stack.drop_last(), ..s };
        match s.stack.last() {
            FrameView::Right(op, right) => proceed(
                InterpreterView { stack: below.stack.push(FrameView::Apply(op, value)), ..s },
                ControlView::Evaluate(right),
            ),
            FrameView::Apply(op, left) => ask(
                below,
                RequestView::Call(routine_of(op), seq![left, value]),
            ),
            FrameView::Arguments(callee, values, rest) => gather_arguments(
                below,
                callee,
                values.push(value),
                rest,
            ),
            FrameView::Branch(first, second) => match truth(value) {
                None => fail(s, ErrorView::TypeError),
                Some(chosen) => proceed(
                    below,
                    ControlView::Evaluate(
                        if chosen {
                            first
                        } else {
                            second
                        },
                    ),
                ),
            },
            FrameView::Rows(values, rest) => gather_rows(below, values.push(value), rest),
            FrameView::Assign(name) => proceed(
                InterpreterView { globals: s.globals.insert(name, value), ..below },
                ControlView::Idle,
            ),
            FrameView::Discard => proceed(below, ControlView::Idle),
        }
    }
}

/// The next statement is begun, on a fresh stack. An assignment evaluates
/// its expression and then binds the name; a declaration enters the
/// function in the registry, over whatever the name held; a call is
/// evaluated and its value dropped.
pub open spec fn begin(s: InterpreterView) -> Outcome {
    if s.program.len() == 0 {
        (InterpreterView { control: ControlView::Idle, ..s }, ActionView::Finished)
    } else {
        let after = InterpreterView { program: s.program.drop_first(), ..s };
        match s.program.first() {
            AstView::Assignment(name, value) => proceed(
                InterpreterView { stack: seq![FrameView::Assign(name)], ..after },
                ControlView::Evaluate(value),
            ),
            AstView::FunctionDeclaration(name, params, body) => proceed(
                InterpreterView {
                    functions: s.functions.insert(name, FunctionView::UserDefined(params, body)),
                    stack: Seq::empty(),
                    ..after
                },
                ControlView::Idle,
            ),
            AstView::FunctionCall(name, args) => proceed(
                InterpreterView { stack: seq![FrameView::Discard], ..after },
                ControlView::Evaluate(ExpressionView::FunctionCall(name, args)),
            ),
        }
    }
}

/// One step of the interpreter: from a state and what the driver hands in,
/// to the next state and what the driver is asked to do.
///
/// While a request is open, a reply becomes the value that the evaluation
/// goes on with, and a failure ends the evaluation. At any other time the
/// interpreter goes on by itself, and a reply or a failure that nothing
/// asked for is dropped.
pub open spec fn step(s: InterpreterView, event: EventView) -> Outcome {
    let base = InterpreterView { control: ControlView::Idle, ..s };
    match s.control {
        ControlView::Waiting => match event {
            EventView::Reply(value) => proceed(base, ControlView::Return(value)),
            EventView::Failure(e) => fail(base, e),
            EventView::Continue => (s, ActionView::Waiting),
        },
        ControlView::Idle => begin(base),
        ControlView::Evaluate(e) => evaluate(base, e),
        ControlView::Return(value) => deliver(base, value),
    }
}

/// A conditional evaluates one branch only: once its condition has a
/// truth, the next step goes on with the branch that the truth chooses,
/// and the other branch is in the state no more.
pub proof fn lemma_branch_short_circuit(
    s: InterpreterView,
    value: ValueView,
    first: ExpressionView,
    second: ExpressionView,
)
    requires
        s.control == ControlView::Return(value),
        s.stack.len() > 0,
        s.stack.last() == FrameView::Branch(first, second),
        truth(value) is Some,
    ensures
        step(s, EventView::Continue) == (
            InterpreterView {
                stack: s.stack.drop_last(),
                control: ControlView::Evaluate(
                    if truth(value)->Some_0 {
                        first
                    } else {
                        second
                    },
                ),
                ..s
            },
            ActionView::Continue,
        ),
{
}

/// A name reads as what was last assigned to it: after the step that
/// binds `name` to `value`, whatever the name held before, evaluating the
/// name gives `value`.
pub proof fn lemma_assignment_overwrites(s: InterpreterView, name: Seq<char>, value: ValueView)
    requires
        s.control == ControlView::Return(value),
        s.stack.len() > 0,
        s.stack.last() == FrameView::Assign(name),
    ensures
        ({
            let bound = step(s, EventView::Continue).0;
            let read = InterpreterView {
                control: ControlView::Evaluate(ExpressionView::Identifier(name)),
                ..bound
            };
            &&& bound.globals == s.globals.insert(name, value)
            &&& step(read, EventView::Continue) == (
                InterpreterView { control: ControlView::Return(value), ..bound },
                ActionView::Continue,
            )
        }),
{
}

/// A declaration takes the place of whatever function the name held, a
/// library function too: after the step that carries it out, a call of
/// the name is a call of the declared function.
pub proof fn lemma_declaration_overwrites(
    s: InterpreterView,
    name: Seq<char>,
    params: Seq<Seq<char>>,
    body: ExpressionView,
    args: Seq<ExpressionView>,
)
    requires
        s.control == ControlView::Idle,
        s.program.len() > 0,
        s.program.first() == AstView::FunctionDeclaration(name, params, body),
    ensures
        ({
            let declared = step(s, EventView::Continue).0;
            let called = InterpreterView {
                control: ControlView::Evaluate(ExpressionView::FunctionCall(name, args)),
                ..declared
            };
            &&& declared.functions == s.functions.insert(
                name,
                FunctionView::UserDefined(params, body),
            )
            &&& step(called, EventView::Continue) == call(
                InterpreterView { control: ControlView::Idle, ..declared },
                FunctionView::UserDefined(params, body),
                args,
            )
        }),
{
}

/// A failure gives up the statement under way and nothing else: what the
/// statements before it have bound stays bound, and the statements after
/// it still wait.
pub proof fn lemma_failure_keeps_bindings(s: InterpreterView, event: EventView)
    requires
        step(s, event).1 is Failed,
    ensures
        step(s, event).0.globals == s.globals,
        step(s, event).0.functions == s.functions,
        step(s, event).0.program == s.program,
        step(s, event).0.stack == Seq::<FrameView>::empty(),
        step(s, event).0.control == ControlView::Idle,
{
}

/// Whether one of the first `n` entries of the table has the name `name`.
spec fn named(name: Seq<char>, n: nat) -> bool {
    exists|i: int| 0 <= i < n && i < library().len() && #[trigger] library()[i].0 == name
}

/// The registry of the first `n` routines holds their names, each for the
/// library function of that name.
proof fn lemma_registry_names(name: Seq<char>, n: nat)
    requires
        n <= library().len(),
    ensures
        registry(n).contains_key(name) <==> named(name, n),
        registry(n).contains_key(name) ==> registry(n)[name] == FunctionView::STD(name),
    decreases n,
{
    if n > 0 {
        lemma_registry_names(name, (n - 1) as nat);
        if library()[n - 1].0 == name {
            assert(named(name, n));
        } else if named(name, n) {
            let i = choose|i: int| 0 <= i < n && i < library().len() && #[trigger] library()[i].0
                == name;
            assert(i < n - 1);
            assert(named(name, (n - 1) as nat));
        } else if named(name, (n - 1) as nat) {
            let i = choose|i: int|
                0 <= i < n - 1 && i < library().len() && #[trigger] library()[i].0 == name;
            assert(library()[i].0 == name);
        }
    }
}

/// A lookup finds a routine exactly if an entry has the name.
proof fn lemma_lookup_names(name: Seq<char>, from: int)
    requires
        0 <= from <= library().len(),
    ensures
        lookup(name, from) is Some <==> exists|i: int|
            from <= i < library().len() && #[trigger] library()[i].0 == name,
    decreases library().len() - from,
{
    if from < library().len() {
        lemma_lookup_names(name, from + 1);
        if library()[from].0 != name {
            if exists|i: int| from <= i < library().len() && #[trigger] library()[i].0 == name {
                let i = choose|i: int|
                    from <= i < library().len() && #[trigger] library()[i].0 == name;
                assert(from + 1 <= i);
            }
        }
    }
}

/// A new session registers the standard library and nothing else: a name
/// is that of a function exactly if the table knows it, and then the
/// function is the library function of that name.
pub proof fn lemma_initial_functions(name: Seq<char>)
    ensures
        initial().functions.contains_key(name) <==> builtin_of(name) is Some,
        initial().functions.contains_key(name) ==> initial().functions[name]
            == FunctionView::STD(name),
{
    lemma_registry_names(name, library().len());
    lemma_lookup_names(name, 0);
    if named(name, library().len()) {
        let i = choose|i: int|
            0 <= i < library().len() && i < library().len() && #[trigger] library()[i].0 == name;
        assert(library()[i].0 == name);
    }
    if exists|i: int| 0 <= i < library().len() && #[trigger] library()[i].0 == name {
        let i = choose|i: int| 0 <= i < library().len() && #[trigger] library()[i].0 == name;
        assert(named(name, library().len()));
    }
}

} // verus!
