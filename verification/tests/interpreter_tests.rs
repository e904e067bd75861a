use rlox::environment::Environment;
use rlox::expr::Binary;
use rlox::expr::Expr;
use rlox::expr::Grouping;
use rlox::expr::Literal as LiteralNode;
use rlox::expr::Unary;
use rlox::expr::Variable;
use rlox::interpreter::without_integral_suffix;
use rlox::interpreter::Interpreter;
use rlox::interpreter::RuntimeError;
use rlox::literal_object::Literal;
use rlox::number::Arithmetic;
use rlox::number::Comparison;
use rlox::parser::Parser;
use rlox::scanner::Scanner;
use rlox::stmt::Print;
use rlox::stmt::Stmt;
use rlox::token::Literal as TokenLiteral;
use rlox::token::Token;
use rlox::token_type::TokenType;

fn to_bits(text: String) -> u64 {
    text.parse::<f64>().unwrap().to_bits()
}

fn arithmetic(operation: Arithmetic, a: u64, b: u64) -> u64 {
    let (x, y) = (f64::from_bits(a), f64::from_bits(b));
    let result = match operation {
        Arithmetic::Add => x + y,
        Arithmetic::Subtract => x - y,
        Arithmetic::Multiply => x * y,
        Arithmetic::Divide => x / y,
    };
    result.to_bits()
}

fn decimal(bits: u64) -> String {
    f64::from_bits(bits).to_string()
}

fn program(source: &str) -> Vec<Stmt> {
    let mut scanner = Scanner::default(source);
    scanner.scan_tokens(&to_bits);
    assert!(scanner.errors.is_empty());
    let mut parser = Parser::new(scanner.tokens);
    let statements = parser.parse();
    assert!(parser.errors.is_empty(), "{:?}", parser.errors);
    statements
}

fn expression(source: &str) -> Expr {
    let mut statements = program(&format!("{};", source));
    assert_eq!(statements.len(), 1);
    match statements.remove(0) {
        Stmt::Expression(node) => {
            let node = *node;
            node.expression
        }
        _ => panic!("not an expression"),
    }
}

fn evaluate_in(interpreter: &mut Interpreter, source: &str) -> Result<Literal, RuntimeError> {
    let expr = expression(source);
    interpreter.evaluate(&expr, &arithmetic)
}

fn evaluate(source: &str) -> Result<Literal, RuntimeError> {
    evaluate_in(&mut Interpreter::new(), source)
}

fn value(source: &str) -> Literal {
    evaluate(source).unwrap()
}

fn number(x: f64) -> Literal {
    Literal::Number(x.to_bits())
}

fn text(s: &str) -> Literal {
    Literal::String(s.to_string())
}

fn bits_of(literal: &Literal) -> u64 {
    match literal {
        Literal::Number(bits) => *bits,
        _ => panic!("not a number"),
    }
}

fn run_program(source: &str) -> (Result<(), RuntimeError>, Vec<String>) {
    let mut interpreter = Interpreter::new();
    let result = interpreter.interpret(program(source), &arithmetic, &decimal);
    (result, interpreter.output)
}

fn printed(source: &str) -> Vec<String> {
    let (result, output) = run_program(source);
    assert!(result.is_ok(), "{:?}", result);
    output
}

fn failure(source: &str) -> RuntimeError {
    evaluate(source).unwrap_err()
}

#[test]
fn literals_evaluate_to_themselves() {
    assert!(value("1.5") == number(1.5));
    assert!(value("\"text\"") == text("text"));
    assert!(value("true") == Literal::Boolean(true));
    assert!(value("false") == Literal::Boolean(false));
    assert!(value("nil") == Literal::Null);
}

#[test]
fn star_binds_tighter_than_plus() {
    assert_eq!(bits_of(&value("1 + 2 * 3")), 7.0f64.to_bits());
}

#[test]
fn arithmetic_on_numbers() {
    assert_eq!(bits_of(&value("7 - 2")), 5.0f64.to_bits());
    assert_eq!(bits_of(&value("2 - 7")), (-5.0f64).to_bits());
    assert_eq!(bits_of(&value("6 * 7")), 42.0f64.to_bits());
    assert_eq!(bits_of(&value("7 / 2")), 3.5f64.to_bits());
    assert_eq!(bits_of(&value("0.1 + 0.2")), (0.1f64 + 0.2f64).to_bits());
    assert_eq!(bits_of(&value("(1 + 2) * (3 + 4)")), 21.0f64.to_bits());
    assert_eq!(bits_of(&value("10 - 4 - 3")), 3.0f64.to_bits());
}

#[test]
fn operands_reach_the_arithmetic_in_source_order() {
    let expr = expression("8 - 3");
    let first = |operation: Arithmetic, a: u64, _b: u64| {
        assert_eq!(operation, Arithmetic::Subtract);
        a
    };
    let second = |_operation: Arithmetic, _a: u64, b: u64| b;
    let mut interpreter = Interpreter::new();
    assert_eq!(bits_of(&interpreter.evaluate(&expr, &first).unwrap()), 8.0f64.to_bits());
    assert_eq!(bits_of(&interpreter.evaluate(&expr, &second).unwrap()), 3.0f64.to_bits());
}

#[test]
fn division_by_zero_follows_the_doubles() {
    assert_eq!(bits_of(&value("1 / 0")), f64::INFINITY.to_bits());
    assert_eq!(bits_of(&value("-1 / 0")), f64::NEG_INFINITY.to_bits());
    assert!(f64::from_bits(bits_of(&value("0 / 0"))).is_nan());
    assert_eq!(printed("print 1 / 0; print 0 / 0 == 0 / 0;"), vec!["inf", "false"]);
}

#[test]
fn plus_joins_two_strings_left_then_right() {
    assert!(value("\"a\" + \"b\"") == text("ab"));
    assert!(value("\"\" + \"b\"") == text("b"));
    assert!(value("\"a\" + \"b\" + \"c\"") == text("abc"));
}

#[test]
fn plus_on_a_number_and_a_string_fails_at_the_plus() {
    let error = failure("1 +\n\"a\"");
    assert_eq!(error.message, "Operands must be two numbers or two strings");
    assert_eq!(error.token.type_, TokenType::Plus);
    assert_eq!(error.token.lexeme, "+");
    assert_eq!(error.token.line, 1);
    assert_eq!(failure("\"a\" + 1").message, "Operands must be two numbers or two strings");
    assert_eq!(failure("nil + nil").message, "Operands must be two numbers or two strings");
    assert_eq!(failure("true + 1").message, "Operands must be two numbers or two strings");
}

#[test]
fn arithmetic_requires_two_numbers() {
    let error = failure("1 - \"a\"");
    assert_eq!(error.message, "Operator '-' requires two numbers");
    assert_eq!(error.token.type_, TokenType::Minus);
    assert_eq!(failure("\"a\" * 2").message, "Operator '*' requires two numbers");
    assert_eq!(failure("nil / 2").message, "Operator '/' requires two numbers");
    assert_eq!(failure("true - false").message, "Operator '-' requires two numbers");
    assert_eq!(failure("\"a\" - \"b\"").message, "Operator '-' requires two numbers");
}

#[test]
fn comparisons_of_numbers() {
    assert!(value("1 < 2") == Literal::Boolean(true));
    assert!(value("2 < 1") == Literal::Boolean(false));
    assert!(value("2 < 2") == Literal::Boolean(false));
    assert!(value("2 <= 2") == Literal::Boolean(true));
    assert!(value("3 <= 2") == Literal::Boolean(false));
    assert!(value("2 > 1") == Literal::Boolean(true));
    assert!(value("1 > 2") == Literal::Boolean(false));
    assert!(value("2 >= 2") == Literal::Boolean(true));
    assert!(value("1 >= 2") == Literal::Boolean(false));
    assert!(value("-1 < 0") == Literal::Boolean(true));
    assert!(value("-2 < -1") == Literal::Boolean(true));
    assert!(value("0 < -0") == Literal::Boolean(false));
    assert!(value("0 <= -0") == Literal::Boolean(true));
    assert!(value("0.5 > 0.25") == Literal::Boolean(true));
}

#[test]
fn comparisons_require_two_numbers() {
    let error = failure("1 < \"a\"");
    assert_eq!(error.message, "Operator '<' requires two numbers");
    assert_eq!(error.token.type_, TokenType::Less);
    assert_eq!(failure("\"a\" <= \"b\"").message, "Operator '<=' requires two numbers");
    assert_eq!(failure("nil > 1").message, "Operator '>' requires two numbers");
    assert_eq!(failure("true >= false").message, "Operator '>=' requires two numbers");
}

#[test]
fn equality_never_fails_and_never_crosses_kinds() {
    assert!(value("nil == nil") == Literal::Boolean(true));
    assert!(value("nil == false") == Literal::Boolean(false));
    assert!(value("false == nil") == Literal::Boolean(false));
    assert!(value("nil != nil") == Literal::Boolean(false));
    assert!(value("1 == 1") == Literal::Boolean(true));
    assert!(value("1 == 2") == Literal::Boolean(false));
    assert!(value("1 != 2") == Literal::Boolean(true));
    assert!(value("\"a\" == \"a\"") == Literal::Boolean(true));
    assert!(value("\"a\" == \"b\"") == Literal::Boolean(false));
    assert!(value("true == true") == Literal::Boolean(true));
    assert!(value("true == false") == Literal::Boolean(false));
    assert!(value("1 == \"1\"") == Literal::Boolean(false));
    assert!(value("0 == false") == Literal::Boolean(false));
    assert!(value("\"\" == nil") == Literal::Boolean(false));
    assert!(value("1 != \"1\"") == Literal::Boolean(true));
    assert!(value("0 == -0") == Literal::Boolean(true));
}

#[test]
fn bang_gives_the_complement_of_truthiness() {
    assert!(value("!nil") == Literal::Boolean(true));
    assert!(value("!0") == Literal::Boolean(false));
    assert!(value("!false") == Literal::Boolean(true));
    assert!(value("!true") == Literal::Boolean(false));
    assert!(value("!\"\"") == Literal::Boolean(false));
    assert!(value("!\"text\"") == Literal::Boolean(false));
    assert!(value("!!nil") == Literal::Boolean(false));
    assert!(value("!(1 < 2)") == Literal::Boolean(false));
}

#[test]
fn minus_negates_a_number_and_fails_on_anything_else() {
    assert!(value("-3") == number(-3.0));
    assert!(value("--3") == number(3.0));
    assert_eq!(bits_of(&value("-0")), (-0.0f64).to_bits());
    let error = failure("-\"a\"");
    assert_eq!(error.message, "Error casting number");
    assert_eq!(error.token.type_, TokenType::Minus);
    assert_eq!(failure("-nil").message, "Error casting number");
    assert_eq!(failure("-true").message, "Error casting number");
}

#[test]
fn grouping_gives_the_inner_value() {
    assert!(value("(1)") == number(1.0));
    assert!(value("((\"a\"))") == text("a"));
    assert!(value("(nil)") == Literal::Null);
}

#[test]
fn the_first_error_ends_the_evaluation() {
    assert_eq!(failure("(1 - \"a\") + (nil * 2)").message, "Operator '-' requires two numbers");
    assert_eq!(failure("-(1 < nil)").message, "Operator '<' requires two numbers");
    assert_eq!(failure("!(-nil)").message, "Error casting number");
    assert_eq!(failure("1 + missing").message, "Undefined variable 'missing'.");
}

#[test]
fn operators_that_the_parser_never_gives() {
    let token = |type_: TokenType, lexeme: &str| {
        Token::new(type_, lexeme.to_string(), TokenLiteral::Null, 1)
    };
    let one = || Expr::Literal(Box::new(LiteralNode::new(number(1.0))));
    let mut interpreter = Interpreter::new();
    let binary = Binary::new(one(), token(TokenType::Comma, ","), one());
    let error = interpreter.visit_binary_expr(&binary, &arithmetic).unwrap_err();
    assert_eq!(error.message, "Binary expression error");
    assert_eq!(error.token.lexeme, ",");
    let unary = Unary::new(token(TokenType::Plus, "+"), one());
    let error = interpreter.visit_unary_expr(&unary, &arithmetic).unwrap_err();
    assert_eq!(error.message, "Unary expression error");
    assert_eq!(error.token.lexeme, "+");
}

#[test]
fn nodes_written_by_hand() {
    let operator = Token::new(TokenType::Star, "*".to_string(), TokenLiteral::Null, 1);
    let minus = Token::new(TokenType::Minus, "-".to_string(), TokenLiteral::Null, 1);
    let expr = Expr::Binary(Box::new(Binary::new(
        Expr::Unary(Box::new(Unary::new(
            minus,
            Expr::Literal(Box::new(LiteralNode::new(number(123.0)))),
        ))),
        operator,
        Expr::Grouping(Box::new(Grouping::new(Expr::Literal(Box::new(LiteralNode::new(
            number(45.67),
        )))))),
    )));
    let result = Interpreter::new().evaluate(&expr, &arithmetic).unwrap();
    assert_eq!(bits_of(&result), (-123.0f64 * 45.67f64).to_bits());
}

#[test]
fn undefined_variable_is_a_runtime_error() {
    let error = failure("x");
    assert_eq!(error.message, "Undefined variable 'x'.");
    assert_eq!(error.token.type_, TokenType::Identifier);
    assert_eq!(error.token.lexeme, "x");
}

#[test]
fn assignment_to_an_undeclared_variable_fails() {
    let (result, output) = run_program("x = 5;");
    let error = result.unwrap_err();
    assert_eq!(error.message, "Undefined variable 'x'.");
    assert_eq!(error.token.lexeme, "x");
    assert_eq!(error.token.line, 1);
    assert!(output.is_empty());
}

#[test]
fn assignment_gives_the_assigned_value() {
    assert_eq!(printed("var x = 1; print x = 2; print x;"), vec!["2", "2"]);
    assert_eq!(printed("var a; var b; a = b = 3; print a; print b;"), vec!["3", "3"]);
    assert_eq!(printed("var x = 1; x = x + 1; print x;"), vec!["2"]);
}

#[test]
fn a_failing_right_side_assigns_nothing() {
    let (result, output) = run_program("var x = 1; print x; x = -nil; print x;");
    assert_eq!(result.unwrap_err().message, "Error casting number");
    assert_eq!(output, vec!["1"]);
}

#[test]
fn print_writes_each_kind_of_value() {
    assert_eq!(
        printed("print nil; print true; print false; print \"raw text\"; print \"\";"),
        vec!["nil", "true", "false", "raw text", ""]
    );
}

#[test]
fn print_strips_the_fraction_of_an_integral_number() {
    assert_eq!(printed("print 3.0; print 3; print 3.5; print 0.25;"), vec!["3", "3", "3.5", "0.25"]);
    assert_eq!(printed("print 1 + 2; print 7 / 2; print -4;"), vec!["3", "3.5", "-4"]);
    assert_eq!(printed("print 100; print 10.0; print 0;"), vec!["100", "10", "0"]);
}

#[test]
fn stringify_strips_a_final_point_zero_from_the_text_it_is_given() {
    let interpreter = Interpreter::new();
    let with_fraction = |_bits: u64| "12.0".to_string();
    assert_eq!(interpreter.stringify(Literal::Number(0), &with_fraction), "12");
    let without = |_bits: u64| "12.5".to_string();
    assert_eq!(interpreter.stringify(Literal::Number(0), &without), "12.5");
    let short = |_bits: u64| "0".to_string();
    assert_eq!(interpreter.stringify(Literal::Number(0), &short), "0");
    let only = |_bits: u64| ".0".to_string();
    assert_eq!(interpreter.stringify(Literal::Number(0), &only), "");
    let twice = |_bits: u64| "1.0.0".to_string();
    assert_eq!(interpreter.stringify(Literal::Number(0), &twice), "1.0");
    assert_eq!(interpreter.stringify(text("7.0"), &with_fraction), "7.0");
    assert_eq!(interpreter.stringify(Literal::Null, &with_fraction), "nil");
    assert_eq!(interpreter.stringify(Literal::Boolean(true), &with_fraction), "true");
    assert_eq!(interpreter.stringify(Literal::Boolean(false), &with_fraction), "false");
}

#[test]
fn a_final_point_zero_is_stripped_once() {
    assert_eq!(without_integral_suffix("3.0".to_string()), "3");
    assert_eq!(without_integral_suffix("3.5".to_string()), "3.5");
    assert_eq!(without_integral_suffix("3".to_string()), "3");
    assert_eq!(without_integral_suffix("30".to_string()), "30");
    assert_eq!(without_integral_suffix("3.00".to_string()), "3.00");
    assert_eq!(without_integral_suffix("3.0.0".to_string()), "3.0");
    assert_eq!(without_integral_suffix(".0".to_string()), "");
    assert_eq!(without_integral_suffix("0".to_string()), "0");
    assert_eq!(without_integral_suffix("".to_string()), "");
    assert_eq!(without_integral_suffix("-0.0".to_string()), "-0");
    assert_eq!(without_integral_suffix("inf".to_string()), "inf");
}

#[test]
fn every_number_literal_prints_as_its_decimal_form() {
    for literal in ["0", "1", "7", "10", "123", "45.67", "0.5", "2.50", "3.0", "1000000", "0.001"] {
        let expected = {
            let shown = literal.parse::<f64>().unwrap().to_string();
            match shown.strip_suffix(".0") {
                Some(stripped) => stripped.to_string(),
                None => shown,
            }
        };
        assert_eq!(printed(&format!("print {};", literal)), vec![expected], "{}", literal);
    }
    assert_eq!(printed("print 2.50;"), vec!["2.5"]);
    assert_eq!(printed("print 45.67;"), vec!["45.67"]);
}

#[test]
fn a_block_shadows_without_changing_the_outer_binding() {
    assert_eq!(printed("var x = 1; { var x = 2; print x; } print x;"), vec!["2", "1"]);
}

#[test]
fn a_block_reads_and_assigns_outer_variables() {
    assert_eq!(printed("var x = 1; { print x; x = 2; } print x;"), vec!["1", "2"]);
    assert_eq!(
        printed("var x = 1; { var y = 2; { x = x + y; y = 10; } print y; } print x;"),
        vec!["10", "3"]
    );
}

#[test]
fn a_variable_of_a_block_ends_with_the_block() {
    let (result, output) = run_program("{ var inner = 1; print inner; } print inner;");
    assert_eq!(result.unwrap_err().message, "Undefined variable 'inner'.");
    assert_eq!(output, vec!["1"]);
}

#[test]
fn the_scopes_are_restored_when_a_block_fails() {
    let mut interpreter = Interpreter::new();
    let result = interpreter.interpret(
        program("var x = 1; { var x = 2; var y = 3; print -nil; }"),
        &arithmetic,
        &decimal,
    );
    assert_eq!(result.unwrap_err().message, "Error casting number");
    assert!(interpreter.environment.enclosing.is_none());
    let result = interpreter.interpret(program("print x;"), &arithmetic, &decimal);
    assert!(result.is_ok());
    assert_eq!(interpreter.output, vec!["1"]);
    let result = interpreter.interpret(program("print y;"), &arithmetic, &decimal);
    assert_eq!(result.unwrap_err().message, "Undefined variable 'y'.");
}

#[test]
fn redeclaring_in_one_scope_replaces_the_binding() {
    assert_eq!(printed("var x = 1; var x = 2; print x;"), vec!["2"]);
    assert_eq!(printed("var x = 1; var x; print x;"), vec!["nil"]);
    assert_eq!(printed("var x = 1; var x = x + 1; print x;"), vec!["2"]);
}

#[test]
fn a_run_stops_at_the_first_failing_statement() {
    let (result, output) = run_program("print 1; print 2 - \"x\"; print 3;");
    let error = result.unwrap_err();
    assert_eq!(error.message, "Operator '-' requires two numbers");
    assert_eq!(output, vec!["1"]);
}

#[test]
fn an_interpreter_keeps_its_globals_between_runs() {
    let mut interpreter = Interpreter::new();
    assert!(interpreter.interpret(program("var total = 1;"), &arithmetic, &decimal).is_ok());
    assert!(interpreter
        .interpret(program("total = total + 41; print total;"), &arithmetic, &decimal)
        .is_ok());
    assert_eq!(interpreter.output, vec!["42"]);
}

#[test]
fn execute_runs_one_statement() {
    let mut interpreter = Interpreter::new();
    let statement = Stmt::Print(Box::new(Print::new(Expr::Literal(Box::new(LiteralNode::new(
        text("one"),
    ))))));
    assert!(interpreter.execute(statement, &arithmetic, &decimal).is_ok());
    assert_eq!(interpreter.output, vec!["one"]);
    let missing = Stmt::Print(Box::new(Print::new(Expr::Variable(Box::new(Variable::new(
        Token::new(TokenType::Identifier, "v".to_string(), TokenLiteral::Null, 2),
    ))))));
    let error = interpreter.execute(missing, &arithmetic, &decimal).unwrap_err();
    assert_eq!(error.message, "Undefined variable 'v'.");
    assert_eq!(error.token.line, 2);
    assert_eq!(interpreter.output, vec!["one"]);
}

#[test]
fn truthiness_and_equality_of_values() {
    let interpreter = Interpreter::new();
    assert!(!interpreter.is_truthy(Literal::Null));
    assert!(!interpreter.is_truthy(Literal::Boolean(false)));
    assert!(interpreter.is_truthy(Literal::Boolean(true)));
    assert!(interpreter.is_truthy(number(0.0)));
    assert!(interpreter.is_truthy(text("")));
    assert!(interpreter.is_equals(Literal::Null, Literal::Null));
    assert!(!interpreter.is_equals(Literal::Null, Literal::Boolean(false)));
    assert!(!interpreter.is_equals(number(1.0), text("1")));
    assert!(interpreter.is_equals(number(0.0), number(-0.0)));
    assert!(!interpreter.is_equals(number(f64::NAN), number(f64::NAN)));
    assert!(interpreter.is_equals(text("a"), text("a")));
    assert!(!interpreter.is_equals(text("a"), text("b")));
    assert!(interpreter.is_equals(Literal::Boolean(true), Literal::Boolean(true)));
}

#[test]
fn operators_on_values_given_directly() {
    let interpreter = Interpreter::new();
    let star = || Token::new(TokenType::Star, "*".to_string(), TokenLiteral::Null, 5);
    let product = interpreter
        .eval_number_binary_op(number(6.0), number(7.0), Arithmetic::Multiply, &arithmetic, "*", star())
        .unwrap();
    assert!(product == number(42.0));
    let error = interpreter
        .eval_number_binary_op(number(6.0), text("7"), Arithmetic::Multiply, &arithmetic, "*", star())
        .unwrap_err();
    assert_eq!(error.message, "Operator '*' requires two numbers");
    assert_eq!(error.token.line, 5);
    let less = interpreter
        .eval_comparison_binary_op(number(6.0), number(7.0), Comparison::Less, "<", star())
        .unwrap();
    assert!(less == Literal::Boolean(true));
    let error = interpreter
        .eval_comparison_binary_op(Literal::Null, number(7.0), Comparison::Less, "<", star())
        .unwrap_err();
    assert_eq!(error.message, "Operator '<' requires two numbers");
}

#[test]
fn runtime_error_keeps_its_token_and_message() {
    let token = Token::new(TokenType::Minus, "-".to_string(), TokenLiteral::Null, 8);
    let error = RuntimeError::new(token, "Error casting number");
    assert_eq!(error.message, "Error casting number");
    assert_eq!(error.token.type_, TokenType::Minus);
    assert_eq!(error.token.line, 8);
}

fn name(lexeme: &str) -> Token {
    Token::new(TokenType::Identifier, lexeme.to_string(), TokenLiteral::Null, 1)
}

#[test]
fn environment_defines_and_gets() {
    let mut environment = Environment::new(None);
    assert_eq!(environment.get(name("x")).unwrap_err().message, "Undefined variable 'x'.");
    environment.define("x", number(1.0));
    assert!(environment.get(name("x")).unwrap() == number(1.0));
    environment.define("x", text("again"));
    assert!(environment.get(name("x")).unwrap() == text("again"));
    environment.define("y", Literal::Null);
    assert!(environment.get(name("y")).unwrap() == Literal::Null);
    assert!(environment.get(name("x")).unwrap() == text("again"));
    assert_eq!(environment.values.len(), 2);
}

#[test]
fn environment_assigns_only_what_is_defined() {
    let mut environment = Environment::new(None);
    let error = environment.assign(name("x"), number(1.0)).unwrap_err();
    assert_eq!(error.message, "Undefined variable 'x'.");
    assert_eq!(error.token.lexeme, "x");
    assert!(environment.get(name("x")).is_err());
    environment.define("x", number(1.0));
    assert!(environment.assign(name("x"), number(2.0)).is_ok());
    assert!(environment.get(name("x")).unwrap() == number(2.0));
}

#[test]
fn environment_looks_outward_and_assigns_the_nearest_scope() {
    let mut globals = Environment::new(None);
    globals.define("x", number(1.0));
    globals.define("y", number(10.0));
    let mut inner = Environment::new_enclosed(globals);
    assert!(inner.get(name("x")).unwrap() == number(1.0));
    inner.define("x", number(2.0));
    assert!(inner.get(name("x")).unwrap() == number(2.0));
    assert!(inner.assign(name("x"), number(3.0)).is_ok());
    assert!(inner.assign(name("y"), number(30.0)).is_ok());
    assert!(inner.assign(name("z"), number(0.0)).is_err());
    assert!(inner.get(name("x")).unwrap() == number(3.0));
    let globals = *inner.enclosing.unwrap();
    assert!(globals.get(name("x")).unwrap() == number(1.0));
    assert!(globals.get(name("y")).unwrap() == number(30.0));
    assert!(globals.get(name("z")).is_err());
}

#[test]
fn environment_new_takes_an_enclosing_scope() {
    let mut globals = Environment::new(None);
    globals.define("g", text("global"));
    let inner = Environment::new(Some(Box::new(globals)));
    assert!(inner.values.is_empty());
    assert!(inner.get(name("g")).unwrap() == text("global"));
}
