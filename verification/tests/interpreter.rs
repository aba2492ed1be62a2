use calcagebra::ast::{Ast, Expression, Operator};
use calcagebra::error::Error;
use calcagebra::interpreter::{
    Action, Control, Event, Frame, Function, Interpreter, Request, STDFunction,
    UserDefinedFunction,
};
use calcagebra::library::{entry, Builtin, BUILTINS};
use calcagebra::parser::Parser;
use calcagebra::scalar::Real;
use calcagebra::token::Token;
use calcagebra::value::{Complex, Value};

fn number(x: f64) -> Real {
    Real::from_bits(x.to_bits())
}

fn float(r: &Real) -> f64 {
    f64::from_bits(r.to_bits())
}

fn scalar(x: f64) -> Value {
    Value::Number(number(x), number(0.0))
}

fn cell(x: f64) -> Complex {
    Complex { re: number(x), im: number(0.0) }
}

fn matrix(rows: &[&[f64]]) -> Value {
    Value::Matrix(rows.iter().map(|row| row.iter().map(|x| cell(*x)).collect()).collect())
}

/// Splits a line into tokens: names, unsigned numbers, operators,
/// delimiters and keywords.
fn lex(line: &str) -> Vec<Token> {
    let chars: Vec<char> = line.chars().collect();
    let mut tokens = Vec::new();
    let mut i = 0;
    while i < chars.len() {
        let c = chars[i];
        if c.is_whitespace() {
            i += 1;
        } else if c.is_ascii_digit() {
            let start = i;
            while i < chars.len() && (chars[i].is_ascii_digit() || chars[i] == '.') {
                i += 1;
            }
            let text: String = chars[start..i].iter().collect();
            tokens.push(Token::Number(number(text.parse::<f64>().unwrap())));
        } else if c.is_alphabetic() || c == '_' {
            let start = i;
            while i < chars.len() && (chars[i].is_alphanumeric() || chars[i] == '_') {
                i += 1;
            }
            let text: String = chars[start..i].iter().collect();
            tokens.push(match text.as_str() {
                "if" => Token::If,
                "then" => Token::Then,
                "else" => Token::Else,
                "end" => Token::End,
                _ => Token::Identifier(text),
            });
        } else {
            let two = i + 1 < chars.len() && chars[i + 1] == '=';
            let (token, width) = match c {
                '+' => (Token::Add, 1),
                '-' => (Token::Sub, 1),
                '*' => (Token::Mul, 1),
                '/' => (Token::Div, 1),
                '^' => (Token::Pow, 1),
                '%' => (Token::Modulo, 1),
                '=' if two => (Token::IsEq, 2),
                '=' => (Token::Eq, 1),
                '>' if two => (Token::GtEq, 2),
                '>' => (Token::Gt, 1),
                '<' if two => (Token::LtEq, 2),
                '<' => (Token::Lt, 1),
                '(' => (Token::LParen, 1),
                ')' => (Token::RParen, 1),
                '{' => (Token::LCurly, 1),
                '}' => (Token::RCurly, 1),
                ',' => (Token::Comma, 1),
                other => panic!("no token starts with {other:?}"),
            };
            tokens.push(token);
            i += width;
        }
    }
    tokens
}

fn program(lines: &[&str]) -> Vec<Ast> {
    Parser::new(lines.iter().map(|line| lex(line)).collect()).ast().unwrap()
}

fn expression(line: &str) -> Expression {
    let tokens = lex(line);
    let (tree, next) = Parser::new(vec![]).pratt_parser(&tokens, 0, 0).unwrap();
    assert_eq!(next, tokens.len());
    tree
}

fn truth(b: bool) -> f64 {
    if b {
        1.0
    } else {
        0.0
    }
}

/// A small standard library on real numbers, for the driver below.
fn library(routine: Builtin, args: &[Value]) -> Result<Value, Error> {
    if routine == Builtin::Print {
        return Ok(args.last().cloned().unwrap_or(scalar(0.0)));
    }
    let mut numbers = Vec::new();
    for arg in args {
        match arg {
            Value::Number(re, _) => numbers.push(float(re)),
            Value::Matrix(_) => return Err(Error::TypeError),
        }
    }
    Ok(scalar(match (routine, numbers.as_slice()) {
        (Builtin::Read, []) => 42.0,
        (Builtin::Sqrt, [x]) => x.sqrt(),
        (Builtin::Add, [a, b]) => a + b,
        (Builtin::Sub, [a, b]) => a - b,
        (Builtin::Mul, [a, b]) => a * b,
        (Builtin::Div, [_, b]) if *b == 0.0 => return Err(Error::ArithmeticError),
        (Builtin::Div, [a, b]) => a / b,
        (Builtin::Rem, [a, b]) => a % b,
        (Builtin::Pow, [a, b]) => a.powf(*b),
        (Builtin::IsEq, [a, b]) => truth(a == b),
        (Builtin::Neq, [a, b]) => truth(a != b),
        (Builtin::Gt, [a, b]) => truth(a > b),
        (Builtin::Lt, [a, b]) => truth(a < b),
        (Builtin::GtEq, [a, b]) => truth(a >= b),
        (Builtin::LtEq, [a, b]) => truth(a <= b),
        other => panic!("the driver was not asked for {other:?} as a routine takes it"),
    }))
}

/// What a run asked of the standard library, in order.
#[derive(Debug, PartialEq)]
enum Asked {
    Call(Builtin, Vec<Value>),
    Graph(Expression),
}

/// Drives the interpreter until nothing is left or a statement fails.
fn run(interpreter: &mut Interpreter, asked: &mut Vec<Asked>) -> Result<(), Error> {
    let mut event = Event::Continue;
    for _ in 0..100_000 {
        let reply = match interpreter.step(event) {
            Action::Continue => {
                event = Event::Continue;
                continue;
            }
            Action::Finished => return Ok(()),
            Action::Failed(e) => return Err(e),
            Action::Waiting => panic!("the driver always replies"),
            Action::Request(Request::Call(routine, args)) => {
                let reply = library(routine, &args);
                asked.push(Asked::Call(routine, args));
                reply
            }
            Action::Request(Request::Graph(e)) => {
                asked.push(Asked::Graph(e));
                Ok(scalar(0.0))
            }
        };
        event = match reply {
            Ok(value) => Event::Reply(value),
            Err(e) => Event::Failure(e),
        };
    }
    panic!("the program does not end");
}

/// A new session after it has carried out `lines`.
fn after(lines: &[&str]) -> (Interpreter, Vec<Asked>, Result<(), Error>) {
    let mut interpreter = Interpreter::new();
    interpreter.interpret(program(lines));
    let mut asked = Vec::new();
    let result = run(&mut interpreter, &mut asked);
    (interpreter, asked, result)
}

fn global(interpreter: &Interpreter, name: &str) -> Option<Value> {
    interpreter.globals.get(&name.to_string()).cloned()
}

/// The value of `line` in a new session.
fn value_of(line: &str) -> Result<Value, Error> {
    let (interpreter, _, result) = after(&[&format!("it = {line}")]);
    result.map(|()| global(&interpreter, "it").unwrap())
}

/// What was printed, in order: the first number of every call of `print`.
fn printed(asked: &[Asked]) -> Vec<f64> {
    asked
        .iter()
        .filter_map(|a| match a {
            Asked::Call(Builtin::Print, args) => match args.first() {
                Some(Value::Number(re, _)) => Some(float(re)),
                _ => None,
            },
            _ => None,
        })
        .collect()
}

#[test]
fn precedence_decides_the_value() {
    assert_eq!(value_of("2 + 3 * 4"), Ok(scalar(14.0)));
    assert_eq!(value_of("(2 + 3) * 4"), Ok(scalar(20.0)));
}

#[test]
fn power_is_evaluated_from_the_right() {
    assert_eq!(value_of("2 ^ 3 ^ 2"), Ok(scalar(512.0)));
    assert_eq!(value_of("(2 ^ 3) ^ 2"), Ok(scalar(64.0)));
}

#[test]
fn a_number_has_no_imaginary_part() {
    assert_eq!(value_of("7"), Ok(Value::Number(number(7.0), Real::from_bits(0))));
    assert_eq!(value_of("-7"), Ok(Value::Number(number(-7.0), Real::from_bits(0))));
}

#[test]
fn operands_are_evaluated_left_then_right() {
    let (_, asked, result) = after(&["it = print(1) - print(2)"]);
    assert_eq!(result, Ok(()));
    assert_eq!(
        asked,
        vec![
            Asked::Call(Builtin::Print, vec![scalar(1.0)]),
            Asked::Call(Builtin::Print, vec![scalar(2.0)]),
            Asked::Call(Builtin::Sub, vec![scalar(1.0), scalar(2.0)]),
        ]
    );
}

#[test]
fn arguments_are_evaluated_from_left_to_right() {
    let (_, asked, result) = after(&["print(1 + 1, read(), 3)"]);
    assert_eq!(result, Ok(()));
    assert_eq!(
        asked,
        vec![
            Asked::Call(Builtin::Add, vec![scalar(1.0), scalar(1.0)]),
            Asked::Call(Builtin::Read, vec![]),
            Asked::Call(Builtin::Print, vec![scalar(2.0), scalar(42.0), scalar(3.0)]),
        ]
    );
}

#[test]
fn each_operator_has_its_routine() {
    for (line, routine) in [
        ("6 + 3", Builtin::Add),
        ("6 - 3", Builtin::Sub),
        ("6 * 3", Builtin::Mul),
        ("6 / 3", Builtin::Div),
        ("6 % 3", Builtin::Rem),
        ("6 ^ 3", Builtin::Pow),
        ("6 == 3", Builtin::IsEq),
        ("6 > 3", Builtin::Gt),
        ("6 < 3", Builtin::Lt),
        ("6 >= 3", Builtin::GtEq),
        ("6 <= 3", Builtin::LtEq),
    ] {
        let (_, asked, result) = after(&[&format!("it = {line}")]);
        assert_eq!(result, Ok(()));
        assert_eq!(asked, vec![Asked::Call(routine, vec![scalar(6.0), scalar(3.0)])]);
    }
}

#[test]
fn only_the_chosen_branch_is_evaluated() {
    let (a, b) = ("A x = print(1)", "B x = print(2)");
    let (_, asked, result) = after(&[a, b, "it = if 1 then A(0) else B(0) end"]);
    assert_eq!(result, Ok(()));
    assert_eq!(printed(&asked), vec![1.0]);
    let (_, asked, result) = after(&[a, b, "it = if 0 then A(0) else B(0) end"]);
    assert_eq!(result, Ok(()));
    assert_eq!(printed(&asked), vec![2.0]);
}

#[test]
fn zero_of_either_sign_is_false_and_all_else_is_true() {
    assert_eq!(value_of("if 0 then 1 else 2 end"), Ok(scalar(2.0)));
    assert_eq!(value_of("if -0 then 1 else 2 end"), Ok(scalar(2.0)));
    assert_eq!(value_of("if 0.5 then 1 else 2 end"), Ok(scalar(1.0)));
    assert_eq!(value_of("if -3 then 1 else 2 end"), Ok(scalar(1.0)));
    assert_eq!(value_of("if i then 1 else 2 end"), Ok(scalar(1.0)));
    assert_eq!(value_of("if 2 > 1 then 1 else 2 end"), Ok(scalar(1.0)));
}

#[test]
fn a_matrix_is_no_condition() {
    assert_eq!(value_of("if {1} then 1 else 2 end"), Err(Error::TypeError));
}

#[test]
fn rows_of_unequal_length_are_a_shape_error() {
    assert_eq!(value_of("{ {1,2}, {3,4,5} }"), Err(Error::ShapeError));
    assert_eq!(value_of("{ 1, {2,3} }"), Err(Error::ShapeError));
    assert_eq!(value_of("{ { {1,2}, {3,4} } }"), Err(Error::ShapeError));
}

#[test]
fn rows_of_equal_length_make_a_matrix() {
    assert_eq!(value_of("{ {1,2}, {3,4} }"), Ok(matrix(&[&[1.0, 2.0], &[3.0, 4.0]])));
    assert_eq!(value_of("{1, 2, 3}"), Ok(matrix(&[&[1.0], &[2.0], &[3.0]])));
    assert_eq!(value_of("{1, {2}}"), Ok(matrix(&[&[1.0], &[2.0]])));
    assert_eq!(value_of("{}"), Ok(matrix(&[])));
    assert_eq!(value_of("{1 + 1}"), Ok(matrix(&[&[2.0]])));
}

#[test]
fn every_row_is_evaluated_before_the_shape_is_checked() {
    let (_, asked, result) = after(&["it = { {1,2}, {3,4,5}, print(6) }"]);
    assert_eq!(result, Err(Error::ShapeError));
    assert_eq!(printed(&asked), vec![6.0]);
}

#[test]
fn the_transpose_swaps_rows_and_columns() {
    assert_eq!(value_of("transpose({ {1,2}, {3,4} })"), value_of("{ {1,3}, {2,4} }"));
    assert_eq!(value_of("transpose({ {1,2}, {3,4} })"), Ok(matrix(&[&[1.0, 3.0], &[2.0, 4.0]])));
    assert_eq!(value_of("transpose({1, 2, 3})"), Ok(matrix(&[&[1.0, 2.0, 3.0]])));
    assert_eq!(value_of("transpose(5)"), Err(Error::TypeError));
    // The interpreter computes it by itself.
    let (_, asked, result) = after(&["it = transpose({ {1,2}, {3,4} })"]);
    assert_eq!(result, Ok(()));
    assert_eq!(asked, vec![]);
    assert_eq!(
        value_of("{ {1,2}, {3,4} }").unwrap().transpose(),
        Ok(matrix(&[&[1.0, 3.0], &[2.0, 4.0]]))
    );
}

#[test]
fn an_assignment_overwrites_a_constant() {
    let (interpreter, _, result) = after(&["pi = 3", "it = pi"]);
    assert_eq!(result, Ok(()));
    assert_eq!(global(&interpreter, "pi"), Some(scalar(3.0)));
    assert_eq!(global(&interpreter, "it"), Some(scalar(3.0)));
}

#[test]
fn an_assignment_overwrites_an_assignment() {
    let (interpreter, _, result) = after(&["x = 1", "x = x + 1", "x = x * 5"]);
    assert_eq!(result, Ok(()));
    assert_eq!(global(&interpreter, "x"), Some(scalar(10.0)));
}

#[test]
fn a_new_session_knows_the_constants() {
    let interpreter = Interpreter::new();
    assert_eq!(global(&interpreter, "i"), Some(Value::Number(number(0.0), number(1.0))));
    assert_eq!(global(&interpreter, "pi"), Some(scalar(std::f64::consts::PI)));
    assert_eq!(global(&interpreter, "π"), Some(scalar(std::f64::consts::PI)));
    assert_eq!(global(&interpreter, "e"), Some(scalar(std::f64::consts::E)));
    assert_eq!(global(&interpreter, "x"), None);
    assert!(interpreter.globals.contains_key(&"pi".to_string()));
    assert!(!interpreter.globals.contains_key(&"tau".to_string()));
    assert_eq!(interpreter.control, Control::Idle);
    assert!(interpreter.stack.is_empty());
    assert!(interpreter.program.is_empty());
}

#[test]
fn a_new_session_knows_the_library() {
    let interpreter = Interpreter::new();
    let names = [
        "print", "read", "int", "real", "add", "sub", "mul", "div", "pow", "rem", "is_eq", "neq",
        "gt", "gteq", "lt", "lteq", "abs", "round", "ceil", "floor", "ln", "log10", "log", "sin",
        "cos", "tan", "sqrt", "cbrt", "nrt", "graph", "transpose", "determinant", "adj",
        "inverse",
    ];
    assert_eq!(names.len(), 34);
    for name in names {
        assert_eq!(
            interpreter.functions.get(&name.to_string()),
            Some(&Function::STD(STDFunction { name: name.to_string() }))
        );
    }
    assert_eq!(interpreter.functions.get(&"f".to_string()), None);
}

#[test]
fn an_unknown_name_is_a_name_error() {
    assert_eq!(value_of("nothing + 1"), Err(Error::NameError("nothing".to_string())));
    assert_eq!(value_of("nothing(1)"), Err(Error::NameError("nothing".to_string())));
}

#[test]
fn a_library_function_gets_the_values_of_its_arguments() {
    let (_, asked, result) = after(&["it = sqrt(7 + 9)"]);
    assert_eq!(result, Ok(()));
    assert_eq!(
        asked,
        vec![
            Asked::Call(Builtin::Add, vec![scalar(7.0), scalar(9.0)]),
            Asked::Call(Builtin::Sqrt, vec![scalar(16.0)]),
        ]
    );
    assert_eq!(value_of("sqrt(7 + 9)"), Ok(scalar(4.0)));
    assert_eq!(value_of("read()"), Ok(scalar(42.0)));
    assert_eq!(value_of("add(2, 3)"), Ok(scalar(5.0)));
    assert_eq!(value_of("neq(2, 3)"), Ok(scalar(1.0)));
    assert_eq!(value_of("rem(7, 4)"), Ok(scalar(3.0)));
}

#[test]
fn a_library_function_takes_its_first_arguments() {
    // What it has no parameter for is evaluated and dropped.
    let (_, asked, result) = after(&["it = sqrt(16, print(2))"]);
    assert_eq!(result, Ok(()));
    assert_eq!(
        asked,
        vec![
            Asked::Call(Builtin::Print, vec![scalar(2.0)]),
            Asked::Call(Builtin::Sqrt, vec![scalar(16.0)]),
        ]
    );
    let (_, asked, result) = after(&["it = read(1)"]);
    assert_eq!(result, Ok(()));
    assert_eq!(asked, vec![Asked::Call(Builtin::Read, vec![])]);
    // `print` takes them all.
    let (_, asked, result) = after(&["print()", "print(1, 2, 3)"]);
    assert_eq!(result, Ok(()));
    assert_eq!(
        asked,
        vec![
            Asked::Call(Builtin::Print, vec![]),
            Asked::Call(Builtin::Print, vec![scalar(1.0), scalar(2.0), scalar(3.0)]),
        ]
    );
}

#[test]
fn a_library_function_needs_all_its_arguments() {
    for line in ["sqrt()", "add(1)", "add()", "log(8)", "transpose()", "graph()"] {
        let (_, asked, result) = after(&[&format!("it = {line}")]);
        assert_eq!(result, Err(Error::TypeError), "{line}");
        assert_eq!(asked, vec![], "{line}");
    }
}

#[test]
fn the_table_names_every_routine() {
    let names = [
        "print", "read", "int", "real", "add", "sub", "mul", "div", "pow", "rem", "is_eq", "neq",
        "gt", "gteq", "lt", "lteq", "abs", "round", "ceil", "floor", "ln", "log10", "log", "sin",
        "cos", "tan", "sqrt", "cbrt", "nrt", "graph", "transpose", "determinant", "adj",
        "inverse",
    ];
    assert_eq!(BUILTINS, 34);
    assert_eq!(entry(BUILTINS), None);
    let mut seen = Vec::new();
    for (i, name) in names.iter().enumerate() {
        let (known, routine) = entry(i).unwrap();
        assert_eq!(known, *name);
        assert_eq!(Builtin::resolve(&name.to_string()), Some(routine));
        assert_eq!(STDFunction { name: name.to_string() }.routine(), Some(routine));
        assert!(!seen.contains(&routine));
        seen.push(routine);
    }
    assert_eq!(Builtin::resolve(&"sqrt".to_string()), Some(Builtin::Sqrt));
    assert_eq!(Builtin::resolve(&"is_eq".to_string()), Some(Builtin::IsEq));
    assert_eq!(Builtin::resolve(&"inverse".to_string()), Some(Builtin::Inverse));
    assert_eq!(Builtin::resolve(&"Sqrt".to_string()), None);
    assert_eq!(Builtin::resolve(&"".to_string()), None);
}

#[test]
fn every_routine_has_its_arity() {
    assert_eq!(Builtin::Print.arity(), None);
    assert_eq!(Builtin::Read.arity(), Some(0));
    let binary = [
        Builtin::Add, Builtin::Sub, Builtin::Mul, Builtin::Div, Builtin::Pow, Builtin::Rem,
        Builtin::IsEq, Builtin::Neq, Builtin::Gt, Builtin::GtEq, Builtin::Lt, Builtin::LtEq,
        Builtin::Log, Builtin::Nrt,
    ];
    for i in 0..BUILTINS {
        let routine = entry(i).unwrap().1;
        if routine != Builtin::Print && routine != Builtin::Read {
            let expected = if binary.contains(&routine) { 2 } else { 1 };
            assert_eq!(routine.arity(), Some(expected), "{routine:?}");
        }
    }
    assert_eq!(Builtin::of_operator(Operator::Modulo), Builtin::Rem);
    assert_eq!(Builtin::of_operator(Operator::Pow), Builtin::Pow);
}

#[test]
fn a_library_function_of_no_known_name_is_a_name_error() {
    let mut interpreter = Interpreter::new();
    interpreter
        .functions
        .insert("g".to_string(), Function::STD(STDFunction { name: "nothing".to_string() }));
    interpreter.interpret(program(&["it = g(print(1))"]));
    let mut asked = Vec::new();
    assert_eq!(run(&mut interpreter, &mut asked), Err(Error::NameError("nothing".to_string())));
    assert_eq!(asked, vec![]);
}

#[test]
fn the_plot_gets_its_first_argument_unevaluated() {
    let (_, asked, result) = after(&["graph(x * x + print(1), 2)"]);
    assert_eq!(result, Ok(()));
    assert_eq!(asked, vec![Asked::Graph(expression("x * x + print(1)"))]);
    let (_, asked, result) = after(&["graph()"]);
    assert_eq!(result, Err(Error::TypeError));
    assert_eq!(asked, vec![]);
}

#[test]
fn a_declared_function_binds_its_parameters_in_the_globals() {
    let (interpreter, _, result) = after(&["x = 10", "f x y = x * y", "it = f(2, 3)"]);
    assert_eq!(result, Ok(()));
    assert_eq!(global(&interpreter, "it"), Some(scalar(6.0)));
    // The parameters stay bound after the call.
    assert_eq!(global(&interpreter, "x"), Some(scalar(2.0)));
    assert_eq!(global(&interpreter, "y"), Some(scalar(3.0)));
}

#[test]
fn arguments_are_evaluated_before_any_parameter_is_bound() {
    let (interpreter, _, result) = after(&["x = 1", "y = 2", "f x y = x - y", "it = f(y, x)"]);
    assert_eq!(result, Ok(()));
    assert_eq!(global(&interpreter, "it"), Some(scalar(1.0)));
    assert_eq!(global(&interpreter, "x"), Some(scalar(2.0)));
    assert_eq!(global(&interpreter, "y"), Some(scalar(1.0)));
}

#[test]
fn a_declared_function_may_call_itself() {
    let (interpreter, _, result) =
        after(&["fact n = if n then n * fact(n - 1) else 1 end", "it = fact(5)"]);
    assert_eq!(result, Ok(()));
    assert_eq!(global(&interpreter, "n"), Some(scalar(0.0)));
    assert_eq!(global(&interpreter, "it"), Some(scalar(120.0)));
    // The parameter is shared: read after the inner calls, it is zero.
    let (interpreter, _, result) =
        after(&["fact n = if n then fact(n - 1) * n else 1 end", "it = fact(5)"]);
    assert_eq!(result, Ok(()));
    assert_eq!(global(&interpreter, "it"), Some(scalar(0.0)));
    let (interpreter, _, result) =
        after(&["count n = if n then count(n - 1) + 1 else 0 end", "it = count(4)"]);
    assert_eq!(result, Ok(()));
    assert_eq!(global(&interpreter, "it"), Some(scalar(4.0)));
}

#[test]
fn a_declaration_overwrites_a_library_function() {
    let (interpreter, asked, result) = after(&["sqrt x = x + 1", "it = sqrt(8)"]);
    assert_eq!(result, Ok(()));
    assert_eq!(global(&interpreter, "it"), Some(scalar(9.0)));
    assert_eq!(asked, vec![Asked::Call(Builtin::Add, vec![scalar(8.0), scalar(1.0)])]);
    assert_eq!(
        interpreter.functions.get(&"sqrt".to_string()),
        Some(&Function::UserDefined(UserDefinedFunction {
            params: vec!["x".to_string()],
            code: expression("x + 1"),
        }))
    );
}

#[test]
fn a_declared_function_takes_its_first_arguments_and_needs_them_all() {
    let (interpreter, asked, result) = after(&["f x = x", "it = f(print(7), print(2))"]);
    assert_eq!(result, Ok(()));
    assert_eq!(printed(&asked), vec![7.0, 2.0]);
    assert_eq!(global(&interpreter, "it"), Some(scalar(7.0)));
    let (_, _, result) = after(&["f x = x", "it = f()"]);
    assert_eq!(result, Err(Error::TypeError));
    // The arguments are evaluated before they are found to be too few.
    let (interpreter, asked, result) = after(&["f x y = x", "it = f(print(7))"]);
    assert_eq!(result, Err(Error::TypeError));
    assert_eq!(printed(&asked), vec![7.0]);
    assert_eq!(global(&interpreter, "x"), None);
}

#[test]
fn a_failure_of_the_library_fails_the_evaluation() {
    assert_eq!(value_of("1 / 0"), Err(Error::ArithmeticError));
    assert_eq!(value_of("{1} + 1"), Err(Error::TypeError));
    assert_eq!(value_of("sqrt({4})"), Err(Error::TypeError));
}

#[test]
fn a_failure_gives_up_one_statement_only() {
    let (mut interpreter, _, result) = after(&["x = 1", "y = x / 0", "z = 3"]);
    assert_eq!(result, Err(Error::ArithmeticError));
    assert_eq!(global(&interpreter, "x"), Some(scalar(1.0)));
    assert_eq!(global(&interpreter, "y"), None);
    assert_eq!(global(&interpreter, "z"), None);
    assert_eq!(interpreter.control, Control::Idle);
    assert!(interpreter.stack.is_empty());
    // The statement after the failure still waits, and is carried out by
    // the steps that follow.
    assert_eq!(interpreter.program, program(&["z = 3"]));
    assert_eq!(run(&mut interpreter, &mut Vec::new()), Ok(()));
    assert_eq!(global(&interpreter, "z"), Some(scalar(3.0)));
    assert_eq!(global(&interpreter, "y"), None);
}

#[test]
fn a_new_program_takes_the_place_of_the_old() {
    let (mut interpreter, _, result) = after(&["x = 1", "y = x / 0", "z = 3"]);
    assert_eq!(result, Err(Error::ArithmeticError));
    interpreter.interpret(program(&["w = x + 1"]));
    assert_eq!(interpreter.program, program(&["w = x + 1"]));
    assert_eq!(run(&mut interpreter, &mut Vec::new()), Ok(()));
    assert_eq!(global(&interpreter, "w"), Some(scalar(2.0)));
    assert_eq!(global(&interpreter, "z"), None);

    // An evaluation under way is dropped as well.
    let mut interpreter = Interpreter::new();
    interpreter.interpret(program(&["x = 1 + 2"]));
    assert_eq!(interpreter.step(Event::Continue), Action::Continue);
    assert_eq!(interpreter.step(Event::Continue), Action::Continue);
    assert!(!interpreter.stack.is_empty());
    interpreter.interpret(program(&["y = 5"]));
    assert_eq!(interpreter.control, Control::Idle);
    assert!(interpreter.stack.is_empty());
    assert_eq!(run(&mut interpreter, &mut Vec::new()), Ok(()));
    assert_eq!(global(&interpreter, "x"), None);
    assert_eq!(global(&interpreter, "y"), Some(scalar(5.0)));
}

#[test]
fn statements_are_carried_out_in_order() {
    let (interpreter, _, result) = after(&["x = 1", "x = x + 1", "y = x"]);
    assert_eq!(result, Ok(()));
    assert_eq!(global(&interpreter, "y"), Some(scalar(2.0)));
}

#[test]
fn an_idle_session_with_nothing_to_do_is_finished() {
    let mut interpreter = Interpreter::new();
    assert_eq!(interpreter.step(Event::Continue), Action::Finished);
    assert_eq!(interpreter.step(Event::Reply(scalar(1.0))), Action::Finished);
    assert_eq!(interpreter.control, Control::Idle);
}

#[test]
fn the_steps_of_an_assignment() {
    let mut interpreter = Interpreter::new();
    interpreter.interpret(program(&["x = 1 + 2"]));
    assert_eq!(interpreter.step(Event::Continue), Action::Continue);
    assert_eq!(interpreter.control, Control::Evaluate(expression("1 + 2")));
    assert_eq!(interpreter.stack, vec![Frame::Assign("x".to_string())]);
    assert_eq!(interpreter.step(Event::Continue), Action::Continue);
    assert_eq!(interpreter.control, Control::Evaluate(expression("1")));
    assert_eq!(
        interpreter.stack,
        vec![Frame::Assign("x".to_string()), Frame::Right(Operator::Add, expression("2"))]
    );
    assert_eq!(interpreter.step(Event::Continue), Action::Continue);
    assert_eq!(interpreter.control, Control::Return(scalar(1.0)));
    assert_eq!(interpreter.step(Event::Continue), Action::Continue);
    assert_eq!(interpreter.control, Control::Evaluate(expression("2")));
    assert_eq!(
        interpreter.stack,
        vec![Frame::Assign("x".to_string()), Frame::Apply(Operator::Add, scalar(1.0))]
    );
    assert_eq!(interpreter.step(Event::Continue), Action::Continue);
    assert_eq!(
        interpreter.step(Event::Continue),
        Action::Request(Request::Call(Builtin::Add, vec![scalar(1.0), scalar(2.0)]))
    );
    assert_eq!(interpreter.control, Control::Waiting);
    // Without a reply the request stays open.
    assert_eq!(interpreter.step(Event::Continue), Action::Waiting);
    assert_eq!(interpreter.control, Control::Waiting);
    assert_eq!(interpreter.step(Event::Reply(scalar(3.0))), Action::Continue);
    assert_eq!(interpreter.control, Control::Return(scalar(3.0)));
    assert_eq!(global(&interpreter, "x"), None);
    assert_eq!(interpreter.step(Event::Continue), Action::Continue);
    assert_eq!(global(&interpreter, "x"), Some(scalar(3.0)));
    assert_eq!(interpreter.control, Control::Idle);
    assert!(interpreter.stack.is_empty());
    assert_eq!(interpreter.step(Event::Continue), Action::Finished);
}

#[test]
fn a_reply_that_nothing_asked_for_is_dropped() {
    let mut interpreter = Interpreter::new();
    interpreter.interpret(program(&["x = 1"]));
    assert_eq!(interpreter.step(Event::Reply(scalar(9.0))), Action::Continue);
    assert_eq!(interpreter.step(Event::Failure(Error::TypeError)), Action::Continue);
    assert_eq!(interpreter.step(Event::Reply(scalar(9.0))), Action::Continue);
    assert_eq!(interpreter.step(Event::Continue), Action::Finished);
    assert_eq!(global(&interpreter, "x"), Some(scalar(1.0)));
}

#[test]
fn a_function_runs_through_the_interpreter() {
    let mut interpreter = Interpreter::new();
    let f = UserDefinedFunction { params: vec![], code: expression("1 + 2") };
    assert_eq!(f.execute(&mut interpreter), Action::Continue);
    assert_eq!(interpreter.control, Control::Evaluate(expression("1 + 2")));

    let mut interpreter = Interpreter::new();
    let sqrt = STDFunction { name: "sqrt".to_string() };
    assert_eq!(sqrt.execute(&mut interpreter, vec![expression("4")]), Action::Continue);
    assert_eq!(interpreter.control, Control::Evaluate(expression("4")));
    assert_eq!(
        interpreter.stack,
        vec![Frame::Arguments(
            Function::STD(STDFunction { name: "sqrt".to_string() }),
            vec![],
            vec![]
        )]
    );

    let mut interpreter = Interpreter::new();
    let read = STDFunction { name: "read".to_string() };
    assert_eq!(
        read.execute(&mut interpreter, vec![]),
        Action::Request(Request::Call(Builtin::Read, vec![]))
    );
    assert_eq!(interpreter.control, Control::Waiting);

    let mut interpreter = Interpreter::new();
    let graph = STDFunction { name: "graph".to_string() };
    assert_eq!(
        graph.execute(&mut interpreter, vec![expression("x + 1")]),
        Action::Request(Request::Graph(expression("x + 1")))
    );
}

#[test]
fn reparsing_a_written_tree_gives_an_equal_value() {
    // The tree of `2 + 3 * 4`, written out with every operand grouped.
    assert_eq!(expression("(2) + ((3) * (4))"), expression("2 + 3 * 4"));
    assert_eq!(value_of("(2) + ((3) * (4))"), value_of("2 + 3 * 4"));
    assert_eq!(expression("(2) ^ ((3) ^ (2))"), expression("2 ^ 3 ^ 2"));
    assert_eq!(value_of("(2) ^ ((3) ^ (2))"), value_of("2 ^ 3 ^ 2"));
}

#[test]
fn a_copy_of_a_session_goes_its_own_way() {
    let (mut first, _, result) = after(&["x = 1", "f a = a + x"]);
    assert_eq!(result, Ok(()));
    let mut second = first.clone();
    first.interpret(program(&["x = 10", "it = f(1)"]));
    second.interpret(program(&["it = f(1)"]));
    assert_eq!(run(&mut first, &mut Vec::new()), Ok(()));
    assert_eq!(run(&mut second, &mut Vec::new()), Ok(()));
    assert_eq!(global(&first, "it"), Some(scalar(11.0)));
    assert_eq!(global(&second, "it"), Some(scalar(2.0)));
    assert_eq!(global(&second, "x"), Some(scalar(1.0)));
}

#[test]
fn the_default_session_is_a_new_session() {
    let session = Interpreter::default();
    assert_eq!(global(&session, "pi"), Some(scalar(std::f64::consts::PI)));
    assert_eq!(
        session.functions.get(&"sin".to_string()),
        Some(&Function::STD(STDFunction { name: "sin".to_string() }))
    );
    assert_eq!(session.control, Control::Idle);
}
