use calcagebra::ast::{Ast, Expression, Operator};
use calcagebra::error::{Expected, ParseError};
use calcagebra::parser::Parser;
use calcagebra::scalar::Real;
use calcagebra::token::Token;
use calcagebra::writing::unparse;

fn number(x: f64) -> Real {
    Real::from_bits(x.to_bits())
}

fn lit(x: f64) -> Expression {
    Expression::Number(number(x))
}

fn name(s: &str) -> Expression {
    Expression::Identifier(s.to_string())
}

fn binary(left: Expression, op: Operator, right: Expression) -> Expression {
    Expression::Binary(Box::new(left), op, Box::new(right))
}

fn call(callee: &str, args: Vec<Expression>) -> Expression {
    Expression::FunctionCall(callee.to_string(), args)
}

fn branched(condition: Expression, first: Expression, second: Expression) -> Expression {
    Expression::Branched(Box::new(condition), Box::new(first), Box::new(second))
}

/// Splits a line into tokens: names, unsigned numbers, operators,
/// delimiters and keywords.
fn lex(line: &str) -> Vec<Token> {
    let chars: Vec<char> = line.chars().collect();
    let mut tokens = Vec::new();
    let mut i = 0;
    while i < chars.len() {
        let c = chars[i];
        if c.is_whitespace() {
            i += 1;
        } else if c.is_ascii_digit() {
            let start = i;
            while i < chars.len() && (chars[i].is_ascii_digit() || chars[i] == '.') {
                i += 1;
            }
            let text: String = chars[start..i].iter().collect();
            tokens.push(Token::Number(number(text.parse::<f64>().unwrap())));
        } else if c.is_alphabetic() || c == '_' {
            let start = i;
            while i < chars.len() && (chars[i].is_alphanumeric() || chars[i] == '_') {
                i += 1;
            }
            let text: String = chars[start..i].iter().collect();
            tokens.push(match text.as_str() {
                "if" => Token::If,
                "then" => Token::Then,
                "else" => Token::Else,
                "end" => Token::End,
                _ => Token::Identifier(text),
            });
        } else {
            let two = i + 1 < chars.len() && chars[i + 1] == '=';
            let (token, width) = match c {
                '+' => (Token::Add, 1),
                '-' => (Token::Sub, 1),
                '*' => (Token::Mul, 1),
                '/' => (Token::Div, 1),
                '^' => (Token::Pow, 1),
                '%' => (Token::Modulo, 1),
                '=' if two => (Token::IsEq, 2),
                '=' => (Token::Eq, 1),
                '>' if two => (Token::GtEq, 2),
                '>' => (Token::Gt, 1),
                '<' if two => (Token::LtEq, 2),
                '<' => (Token::Lt, 1),
                '(' => (Token::LParen, 1),
                ')' => (Token::RParen, 1),
                '{' => (Token::LCurly, 1),
                '}' => (Token::RCurly, 1),
                ',' => (Token::Comma, 1),
                other => panic!("no token starts with {other:?}"),
            };
            tokens.push(token);
            i += width;
        }
    }
    tokens
}

fn parser() -> Parser {
    Parser::new(vec![])
}

/// The tree of a line that is one whole expression.
fn tree(line: &str) -> Expression {
    let tokens = lex(line);
    let (tree, next) = parser().pratt_parser(&tokens, 0, 0).unwrap();
    assert_eq!(next, tokens.len(), "the whole of {line:?} is one expression");
    tree
}

fn statement(line: &str) -> Result<Ast, ParseError> {
    parser().statement(&lex(line))
}

/// The error of the statement `line`, as what was expected, what was
/// found and where.
fn failure(line: &str) -> (Expected, Option<Token>, usize, usize) {
    let e = statement(line).unwrap_err();
    (e.expected, e.found, e.start, e.end)
}

#[test]
fn multiplication_binds_tighter_than_addition() {
    assert_eq!(
        tree("2 + 3 * 4"),
        binary(lit(2.0), Operator::Add, binary(lit(3.0), Operator::Mul, lit(4.0)))
    );
    assert_eq!(
        tree("2 * 3 + 4"),
        binary(binary(lit(2.0), Operator::Mul, lit(3.0)), Operator::Add, lit(4.0))
    );
}

#[test]
fn power_associates_to_the_right() {
    assert_eq!(
        tree("2 ^ 3 ^ 2"),
        binary(lit(2.0), Operator::Pow, binary(lit(3.0), Operator::Pow, lit(2.0)))
    );
}

#[test]
fn other_operators_associate_to_the_left() {
    assert_eq!(
        tree("8 - 2 - 1"),
        binary(binary(lit(8.0), Operator::Sub, lit(2.0)), Operator::Sub, lit(1.0))
    );
    assert_eq!(
        tree("8 / 2 / 2"),
        binary(binary(lit(8.0), Operator::Div, lit(2.0)), Operator::Div, lit(2.0))
    );
}

#[test]
fn each_operator_has_its_own_level() {
    // Subtraction binds tighter than addition, division than multiplication.
    assert_eq!(
        tree("1 + 2 - 3"),
        binary(lit(1.0), Operator::Add, binary(lit(2.0), Operator::Sub, lit(3.0)))
    );
    assert_eq!(
        tree("1 - 2 + 3"),
        binary(binary(lit(1.0), Operator::Sub, lit(2.0)), Operator::Add, lit(3.0))
    );
    assert_eq!(
        tree("2 * 6 / 3"),
        binary(lit(2.0), Operator::Mul, binary(lit(6.0), Operator::Div, lit(3.0)))
    );
    assert_eq!(
        tree("7 % 4 ^ 2"),
        binary(lit(7.0), Operator::Modulo, binary(lit(4.0), Operator::Pow, lit(2.0)))
    );
    assert_eq!(
        tree("2 ^ 3 % 4"),
        binary(binary(lit(2.0), Operator::Pow, lit(3.0)), Operator::Modulo, lit(4.0))
    );
}

#[test]
fn comparisons_bind_tightest() {
    assert_eq!(
        tree("1 + 2 == 3"),
        binary(lit(1.0), Operator::Add, binary(lit(2.0), Operator::IsEq, lit(3.0)))
    );
    assert_eq!(
        tree("1 < 2 ^ 3"),
        binary(binary(lit(1.0), Operator::Lt, lit(2.0)), Operator::Pow, lit(3.0))
    );
    assert_eq!(tree("1 > 2"), binary(lit(1.0), Operator::Gt, lit(2.0)));
    assert_eq!(tree("1 >= 2"), binary(lit(1.0), Operator::GtEq, lit(2.0)));
    assert_eq!(tree("1 <= 2"), binary(lit(1.0), Operator::LtEq, lit(2.0)));
}

#[test]
fn binding_powers_are_fixed() {
    let p = parser();
    assert_eq!(p.infix_binding_power(&Token::Add), 1);
    assert_eq!(p.infix_binding_power(&Token::Sub), 2);
    assert_eq!(p.infix_binding_power(&Token::Mul), 3);
    assert_eq!(p.infix_binding_power(&Token::Div), 4);
    assert_eq!(p.infix_binding_power(&Token::Modulo), 5);
    assert_eq!(p.infix_binding_power(&Token::Pow), 6);
    for t in [Token::IsEq, Token::Gt, Token::Lt, Token::GtEq, Token::LtEq] {
        assert_eq!(p.infix_binding_power(&t), 7);
    }
    for t in [Token::If, Token::Then, Token::Else, Token::End] {
        assert_eq!(p.infix_binding_power(&t), 8);
    }
    for t in [
        Token::Identifier("x".to_string()),
        Token::Number(number(1.0)),
        Token::Eq,
        Token::LParen,
        Token::RParen,
        Token::LCurly,
        Token::RCurly,
        Token::Comma,
    ] {
        assert_eq!(p.infix_binding_power(&t), 0);
    }
}

#[test]
fn grouping_yields_the_same_tree() {
    let lines = ["2 + 3 * 4", "x", "f(1, 2)", "if a then b else c end", "{1, 2}", "-5", "2 ^ 3 ^ 2"];
    for line in lines {
        assert_eq!(tree(&format!("({line})")), tree(line));
        assert_eq!(tree(&format!("(({line}))")), tree(line));
    }
}

#[test]
fn grouping_overrides_precedence() {
    assert_eq!(
        tree("(2 + 3) * 4"),
        binary(binary(lit(2.0), Operator::Add, lit(3.0)), Operator::Mul, lit(4.0))
    );
    assert_eq!(
        tree("(2 ^ 3) ^ 2"),
        binary(binary(lit(2.0), Operator::Pow, lit(3.0)), Operator::Pow, lit(2.0))
    );
}

#[test]
fn nested_call_splits_top_level_arguments() {
    let parsed = tree("f(g(1,2), 3)");
    match &parsed {
        Expression::FunctionCall(callee, args) => {
            assert_eq!(callee, "f");
            assert_eq!(args.len(), 2);
        }
        other => panic!("not a call: {other:?}"),
    }
    assert_eq!(parsed, call("f", vec![call("g", vec![lit(1.0), lit(2.0)]), lit(3.0)]));
}

#[test]
fn call_arguments_may_hold_matrices_and_conditionals() {
    assert_eq!(
        tree("f({1, 2}, if a then b else c end)"),
        call(
            "f",
            vec![
                Expression::SizedSet(vec![lit(1.0), lit(2.0)]),
                branched(name("a"), name("b"), name("c")),
            ]
        )
    );
    assert_eq!(tree("f()"), call("f", vec![]));
    assert_eq!(tree("f(x) + 1"), binary(call("f", vec![name("x")]), Operator::Add, lit(1.0)));
}

#[test]
fn names_before_operators_and_closers_are_variables() {
    assert_eq!(tree("x"), name("x"));
    assert_eq!(tree("x + y"), binary(name("x"), Operator::Add, name("y")));
    assert_eq!(tree("(x)"), name("x"));
}

#[test]
fn minus_before_a_number_is_a_negative_literal() {
    assert_eq!(tree("-5"), lit(-5.0));
    assert_eq!(tree("3 - -5"), binary(lit(3.0), Operator::Sub, lit(-5.0)));
    assert_eq!(tree("-0"), Expression::Number(Real::from_bits(0x8000_0000_0000_0000)));
}

#[test]
fn conditionals_nest() {
    assert_eq!(
        tree("if a then if b then 1 else 2 end else if c then 3 else 4 end end"),
        branched(
            name("a"),
            branched(name("b"), lit(1.0), lit(2.0)),
            branched(name("c"), lit(3.0), lit(4.0)),
        )
    );
    assert_eq!(
        tree("if if a then b else c end then 1 else 2 end"),
        branched(branched(name("a"), name("b"), name("c")), lit(1.0), lit(2.0))
    );
    assert_eq!(
        tree("if a then 1 else 2 end + 3"),
        binary(branched(name("a"), lit(1.0), lit(2.0)), Operator::Add, lit(3.0))
    );
}

#[test]
fn matrix_literals_split_rows_at_commas() {
    assert_eq!(
        tree("{ {1,2}, {3,4} }"),
        Expression::SizedSet(vec![
            Expression::SizedSet(vec![lit(1.0), lit(2.0)]),
            Expression::SizedSet(vec![lit(3.0), lit(4.0)]),
        ])
    );
    assert_eq!(tree("{}"), Expression::SizedSet(vec![]));
    assert_eq!(
        tree("{1 + 2, x}"),
        Expression::SizedSet(vec![binary(lit(1.0), Operator::Add, lit(2.0)), name("x")])
    );
}

#[test]
fn parsing_starts_at_the_cursor_and_stops_at_the_threshold() {
    let tokens = lex("3 + 4");
    let p = parser();
    assert_eq!(p.pratt_parser(&tokens, 0, 3).unwrap(), (lit(3.0), 1));
    assert_eq!(p.pratt_parser(&tokens, 2, 0).unwrap(), (lit(4.0), 3));
    let tokens = lex("2 ^ 3");
    assert_eq!(
        p.pratt_parser(&tokens, 0, 6).unwrap(),
        (binary(lit(2.0), Operator::Pow, lit(3.0)), 3)
    );
    assert_eq!(p.pratt_parser(&tokens, 0, 7).unwrap(), (lit(2.0), 1));
}

#[test]
fn parsing_stops_before_an_unmatched_closing_parenthesis() {
    let tokens = lex("1 + 2 ) 3");
    let (tree, next) = parser().pratt_parser(&tokens, 0, 0).unwrap();
    assert_eq!(tree, binary(lit(1.0), Operator::Add, lit(2.0)));
    assert_eq!(next, 3);
}

#[test]
fn a_cursor_past_the_end_is_an_error() {
    let tokens = lex("1");
    let e = parser().pratt_parser(&tokens, 1, 0).unwrap_err();
    assert_eq!((e.expected, e.found, e.start, e.end), (Expected::Expression, None, 1, 1));
    let e = parser().pratt_parser(&tokens, 7, 0).unwrap_err();
    assert_eq!((e.expected, e.found, e.start, e.end), (Expected::Expression, None, 7, 7));
}

#[test]
fn an_assignment_is_a_name_the_marker_and_an_expression() {
    assert_eq!(
        statement("x = 2 + 3").unwrap(),
        Ast::Assignment("x".to_string(), binary(lit(2.0), Operator::Add, lit(3.0)))
    );
}

#[test]
fn a_declaration_is_a_name_its_parameters_the_marker_and_a_body() {
    assert_eq!(
        statement("f x y = x + y").unwrap(),
        Ast::FunctionDeclaration(
            "f".to_string(),
            vec!["x".to_string(), "y".to_string()],
            binary(name("x"), Operator::Add, name("y")),
        )
    );
}

#[test]
fn any_other_statement_is_a_call() {
    assert_eq!(
        statement("print(1, x)").unwrap(),
        Ast::FunctionCall("print".to_string(), vec![lit(1.0), name("x")])
    );
    assert_eq!(
        failure("x"),
        (Expected::FunctionCall, Some(Token::Identifier("x".to_string())), 0, 1)
    );
    assert_eq!(failure("1 + 2"), (Expected::FunctionCall, Some(Token::Number(number(1.0))), 0, 3));
}

#[test]
fn a_program_is_parsed_line_by_line() {
    let program = Parser::new(vec![lex("x = 1"), lex("f a = a"), lex("print(x)")]);
    assert_eq!(
        program.ast().unwrap(),
        vec![
            Ast::Assignment("x".to_string(), lit(1.0)),
            Ast::FunctionDeclaration("f".to_string(), vec!["a".to_string()], name("a")),
            Ast::FunctionCall("print".to_string(), vec![name("x")]),
        ]
    );
    assert_eq!(Parser::new(vec![]).ast().unwrap(), vec![]);
}

#[test]
fn the_first_bad_line_fails_the_program() {
    let program = Parser::new(vec![lex("x = 1"), lex("y = (2"), lex("z = )")]);
    let (line, e) = program.ast().unwrap_err();
    assert_eq!(line, 1);
    assert_eq!((e.expected, e.found, e.start, e.end), (Expected::RParen, None, 4, 4));
}

#[test]
fn an_empty_line_is_no_statement() {
    assert_eq!(failure(""), (Expected::Expression, None, 0, 0));
}

#[test]
fn a_missing_closing_delimiter_is_an_error() {
    assert_eq!(failure("x = (1 + 2"), (Expected::RParen, None, 6, 6));
    assert_eq!(failure("x = f(1, 2"), (Expected::RParen, None, 7, 7));
    assert_eq!(failure("x = {1, 2"), (Expected::RCurly, None, 6, 6));
    assert_eq!(failure("x = f(1 }"), (Expected::RParen, Some(Token::RCurly), 5, 6));
}

#[test]
fn a_missing_keyword_is_an_error() {
    assert_eq!(failure("x = if 1"), (Expected::Then, None, 4, 4));
    assert_eq!(failure("x = if 1 else 2 end"), (Expected::Then, Some(Token::Else), 4, 5));
    assert_eq!(failure("x = if 1 then 2"), (Expected::Else, None, 6, 6));
    assert_eq!(failure("x = if 1 then 2 end"), (Expected::Else, Some(Token::End), 6, 7));
    assert_eq!(failure("x = if 1 then 2 else 3"), (Expected::End, None, 8, 8));
    assert_eq!(
        failure("x = if 1 then 2 else 3 else 4 end"),
        (Expected::End, Some(Token::Else), 8, 9)
    );
}

#[test]
fn an_empty_slot_is_an_error() {
    assert_eq!(failure("f(1,,2)"), (Expected::Expression, Some(Token::Comma), 4, 5));
    assert_eq!(failure("f(,1)"), (Expected::Expression, Some(Token::Comma), 2, 3));
    assert_eq!(failure("f(1,)"), (Expected::Expression, Some(Token::RParen), 4, 5));
    assert_eq!(failure("x = {1,}"), (Expected::Expression, Some(Token::RCurly), 5, 6));
    assert_eq!(
        failure("x = if then 1 else 2 end"),
        (Expected::Expression, Some(Token::Then), 3, 4)
    );
    assert_eq!(failure("x ="), (Expected::Expression, None, 2, 2));
}

#[test]
fn an_unexpected_token_is_an_error() {
    assert_eq!(failure("x = 1 2"), (Expected::Operator, Some(Token::Number(number(2.0))), 3, 4));
    assert_eq!(failure("x = 1 )"), (Expected::Operator, Some(Token::RParen), 3, 4));
    assert_eq!(failure("x = 1 then 2"), (Expected::Operator, Some(Token::Then), 3, 4));
    assert_eq!(failure("x = * 2"), (Expected::Expression, Some(Token::Mul), 2, 3));
    assert_eq!(failure("x = 1 + "), (Expected::Expression, None, 4, 4));
    assert_eq!(failure("x = f 1"), (Expected::LParen, Some(Token::Number(number(1.0))), 3, 4));
    assert_eq!(
        failure("x = - y"),
        (Expected::Number, Some(Token::Identifier("y".to_string())), 3, 4)
    );
    assert_eq!(failure("x = -"), (Expected::Number, None, 3, 3));
    assert_eq!(failure("x = 1 = 2"), (Expected::Operator, Some(Token::Eq), 3, 4));
}

#[test]
fn a_declaration_takes_names_only() {
    assert_eq!(failure("3 = 4"), (Expected::Identifier, Some(Token::Number(number(3.0))), 0, 1));
    assert_eq!(failure("f 1 = 2"), (Expected::Identifier, Some(Token::Number(number(1.0))), 1, 2));
    assert_eq!(failure("f x ( = 2"), (Expected::Identifier, Some(Token::LParen), 2, 3));
    assert_eq!(failure("(x) = 2"), (Expected::Identifier, Some(Token::LParen), 0, 1));
}

#[test]
fn a_row_does_not_see_parentheses() {
    // The rows of a literal end at every comma outside nested braces.
    assert_eq!(failure("x = {f(1, 2)}"), (Expected::RParen, Some(Token::Comma), 6, 7));
}

#[test]
fn expectations_have_words() {
    assert_eq!(Expected::LParen.message(), "expected `(`");
    assert_eq!(Expected::RParen.message(), "expected `)`");
    assert_eq!(Expected::RCurly.message(), "expected `}`");
    assert_eq!(Expected::Then.message(), "expected `then`");
    assert_eq!(Expected::Else.message(), "expected `else`");
    assert_eq!(Expected::End.message(), "expected `end`");
    assert_eq!(Expected::Expression.message(), "expected an expression");
    assert_eq!(Expected::Number.message(), "expected a number");
    assert_eq!(Expected::Operator.message(), "expected an operator");
    assert_eq!(Expected::Identifier.message(), "expected a name");
    assert_eq!(Expected::FunctionCall.message(), "expected a function call");
}

#[test]
fn copies_are_equal() {
    let parsed = tree("f(if a then {1, -2} else g(x) + 1 end, y)");
    assert_eq!(parsed.clone(), parsed);
    let s = statement("f x y = x + y").unwrap();
    assert_eq!(s.clone(), s);
    let t = Token::Identifier("k".to_string());
    assert_eq!(t.clone(), t);
}

#[test]
fn the_version_is_that_of_the_package() {
    assert_eq!(calcagebra::version(), "1.0.0");
}

#[test]
fn the_writing_of_a_tree_groups_every_operand() {
    assert_eq!(unparse(&tree("2 + 3 * 4")), lex("(2) + ((3) * (4))"));
    assert_eq!(unparse(&tree("2 ^ 3 ^ 2")), lex("(2) ^ ((3) ^ (2))"));
    assert_eq!(unparse(&tree("f(g(1,2), 3)")), lex("f(g(1, 2), 3)"));
    assert_eq!(unparse(&tree("f()")), lex("f()"));
    assert_eq!(unparse(&tree("{ {1,2}, {} }")), lex("{{1, 2}, {}}"));
    assert_eq!(unparse(&tree("if a then b else c end")), lex("if a then b else c end"));
    assert_eq!(unparse(&tree("x")), lex("x"));
    // A negative literal is one token.
    assert_eq!(unparse(&tree("-5")), vec![Token::Number(number(-5.0))]);
}

#[test]
fn writing_and_parsing_gives_the_tree_back() {
    for line in [
        "2 + 3 * 4",
        "2 ^ 3 ^ 2",
        "(2 + 3) * 4",
        "1 - 2 - 3 + 4 % 5 / 6",
        "a == b + c <= d",
        "-5",
        "x",
        "f()",
        "f(x)",
        "f(g(1,2), 3)",
        "f({1, 2}, if a then b else c end) + 1",
        "{}",
        "{1}",
        "{ {1,2}, {3,4} }",
        "{1 + 2, f(3) * 4, if a then {1, 2} else f({3, g(4)}) end}",
        "if a then if b then 1 else 2 end else if c then 3 else 4 end end",
        "if f(1, 2) > 0 then g(3, {4, 5}) else -6 end",
    ] {
        let parsed = tree(line);
        let tokens = unparse(&parsed);
        let (again, next) = parser().pratt_parser(&tokens, 0, 0).unwrap();
        assert_eq!(next, tokens.len(), "the writing of {line:?} is one expression");
        assert_eq!(again, parsed, "the writing of {line:?} parses to its tree");
    }
}

#[test]
fn a_row_with_an_open_comma_cannot_be_written() {
    // No line parses to this tree: the row would end at its comma.
    let made = Expression::SizedSet(vec![call("f", vec![lit(1.0), lit(2.0)])]);
    let tokens = unparse(&made);
    assert_eq!(tokens, lex("{f(1, 2)}"));
    assert!(parser().pratt_parser(&tokens, 0, 0).is_err());
}

#[test]
fn errors_have_words() {
    let message = |line: &str| statement(line).unwrap_err().message();
    assert_eq!(message("x = f 1"), "expected `(`, found `number`");
    assert_eq!(message("x = f y"), "expected `(`, found `y`");
    assert_eq!(message("x = (1 + 2"), "expected `)`, found the end of the line");
    assert_eq!(message("x = {1, 2"), "expected `}`, found the end of the line");
    assert_eq!(message("x = if 1 else 2 end"), "expected `then`, found `else`");
    assert_eq!(message("x = if 1 then 2 end"), "expected `else`, found `end`");
    assert_eq!(message("x = if 1 then 2 else 3"), "expected `end`, found the end of the line");
    assert_eq!(message("f(1,,2)"), "expected an expression, found `,`");
    assert_eq!(message("x = 1 )"), "expected an operator, found `)`");
    assert_eq!(message("x = - y"), "expected a number, found `y`");
    assert_eq!(message("3 = 4"), "expected a name, found `number`");
    assert_eq!(message("x"), "expected a function call, found `x`");
}

#[test]
fn tokens_have_signs() {
    let signs = [
        (Token::Add, "+"),
        (Token::Sub, "-"),
        (Token::Mul, "*"),
        (Token::Div, "/"),
        (Token::Pow, "^"),
        (Token::Modulo, "%"),
        (Token::Eq, "="),
        (Token::IsEq, "=="),
        (Token::Gt, ">"),
        (Token::Lt, "<"),
        (Token::GtEq, ">="),
        (Token::LtEq, "<="),
        (Token::LParen, "("),
        (Token::RParen, ")"),
        (Token::LCurly, "{"),
        (Token::RCurly, "}"),
        (Token::Comma, ","),
        (Token::If, "if"),
        (Token::Then, "then"),
        (Token::Else, "else"),
        (Token::End, "end"),
    ];
    for (token, sign) in signs {
        assert_eq!(token.to_text(), sign);
        // The sign of a token is what the token is read from.
        assert_eq!(lex(sign), vec![token]);
    }
    assert_eq!(Token::Identifier("speed".to_string()).to_text(), "speed");
    assert_eq!(Token::Number(number(2.5)).to_text(), "number");
}

/// A small generator of numbers, the same on every run.
struct Dice(u64);

impl Dice {
    fn roll(&mut self, sides: u64) -> u64 {
        self.0 = self.0.wrapping_mul(6364136223846793005).wrapping_add(1442695040888963407);
        (self.0 >> 33) % sides
    }
}

const OPERATORS: [Operator; 11] = [
    Operator::Add,
    Operator::Sub,
    Operator::Mul,
    Operator::Div,
    Operator::Modulo,
    Operator::Pow,
    Operator::IsEq,
    Operator::Gt,
    Operator::Lt,
    Operator::GtEq,
    Operator::LtEq,
];

/// A tree made by chance. Inside a matrix literal no call has two
/// arguments: no line parses to such a tree.
fn any_tree(dice: &mut Dice, depth: u32, in_row: bool) -> Expression {
    let kinds = if depth == 0 { 2 } else { 6 };
    match dice.roll(kinds) {
        0 => lit(dice.roll(100) as f64 - 50.0),
        1 => name(["x", "y", "speed"][dice.roll(3) as usize]),
        2 => binary(
            any_tree(dice, depth - 1, in_row),
            OPERATORS[dice.roll(11) as usize],
            any_tree(dice, depth - 1, in_row),
        ),
        3 => {
            let count = if in_row { dice.roll(2) } else { dice.roll(4) };
            call("f", (0..count).map(|_| any_tree(dice, depth - 1, in_row)).collect())
        }
        4 => branched(
            any_tree(dice, depth - 1, in_row),
            any_tree(dice, depth - 1, in_row),
            any_tree(dice, depth - 1, in_row),
        ),
        _ => {
            let count = dice.roll(4);
            Expression::SizedSet((0..count).map(|_| any_tree(dice, depth - 1, true)).collect())
        }
    }
}

#[test]
fn every_written_tree_parses_to_itself() {
    let mut dice = Dice(2024);
    for _ in 0..300 {
        let made = any_tree(&mut dice, 4, false);
        let tokens = unparse(&made);
        let (parsed, next) = parser().pratt_parser(&tokens, 0, 0).unwrap();
        assert_eq!(next, tokens.len());
        assert_eq!(parsed, made);
        // Between parentheses it is the same tree.
        let mut grouped = vec![Token::LParen];
        grouped.extend(tokens.iter().cloned());
        grouped.push(Token::RParen);
        let (again, next) = parser().pratt_parser(&grouped, 0, 0).unwrap();
        assert_eq!(next, grouped.len());
        assert_eq!(again, made);
    }
}
