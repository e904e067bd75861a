use rlox::ast_printer::is_closed;
use rlox::ast_printer::AstPrinter;
use rlox::expr::Binary;
use rlox::expr::Expr;
use rlox::expr::Grouping;
use rlox::expr::Literal as LiteralNode;
use rlox::expr::Unary;
use rlox::interpreter::Interpreter;
use rlox::literal_object::Literal;
use rlox::number::Arithmetic;
use rlox::parser::Parser;
use rlox::run;
use rlox::scanner::Scanner;
use rlox::stmt::Stmt;
use rlox::token::Literal as TokenLiteral;
use rlox::token::Token;
use rlox::token_type::TokenType;
use rlox::Failure;

fn number_bits(text: String) -> u64 {
    text.parse::<f64>().unwrap().to_bits()
}

fn double_arithmetic(operation: Arithmetic, a: u64, b: u64) -> u64 {
    let (x, y) = (f64::from_bits(a), f64::from_bits(b));
    let result = match operation {
        Arithmetic::Add => x + y,
        Arithmetic::Subtract => x - y,
        Arithmetic::Multiply => x * y,
        Arithmetic::Divide => x / y,
    };
    result.to_bits()
}

fn number_text(bits: u64) -> String {
    f64::from_bits(bits).to_string()
}

fn run_in(interpreter: &mut Interpreter, source: &str) -> Result<(), Failure> {
    run(interpreter, source, &number_bits, &double_arithmetic, &number_text)
}

fn run_fresh(source: &str) -> (Result<(), Failure>, Vec<String>) {
    let mut interpreter = Interpreter::new();
    let result = run_in(&mut interpreter, source);
    (result, interpreter.output)
}

#[test]
fn a_program_runs_from_source_to_output() {
    let (result, output) = run_fresh("var a = 1; var b = 2; print a + b * 3; print \"a\" + \"b\";");
    assert!(result.is_ok());
    assert_eq!(output, vec!["7", "ab"]);
}

#[test]
fn a_number_literal_prints_as_its_decimal_form() {
    assert_eq!(run_fresh("print 3;").1, vec!["3"]);
    assert_eq!(run_fresh("print 3.0;").1, vec!["3"]);
    assert_eq!(run_fresh("print 3.5;").1, vec!["3.5"]);
    assert_eq!(run_fresh("print 123.456;").1, vec!["123.456"]);
    assert_eq!(run_fresh("print 0.0;").1, vec!["0"]);
}

#[test]
fn block_scoping_from_source() {
    let (result, output) = run_fresh("var x = 1; { var x = 2; print x; } print x;");
    assert!(result.is_ok());
    assert_eq!(output, vec!["2", "1"]);
}

#[test]
fn a_lexical_error_suppresses_the_run() {
    let (result, output) = run_fresh("print 1; print 2 @ ;");
    match result {
        Err(Failure::Malformed { lexical, syntax }) => {
            assert_eq!(lexical.len(), 1);
            assert_eq!(lexical[0].message, "Unexpected character");
            assert_eq!(lexical[0].line, 1);
            assert!(syntax.is_empty());
        }
        other => panic!("{:?}", other),
    }
    assert!(output.is_empty());
}

#[test]
fn a_syntax_error_suppresses_the_run() {
    let mut interpreter = Interpreter::new();
    let result = run_in(&mut interpreter, "var x = 1; print x; print ;");
    match result {
        Err(Failure::Malformed { lexical, syntax }) => {
            assert!(lexical.is_empty());
            assert_eq!(syntax.len(), 1);
            assert_eq!(syntax[0].message, "Expect expression");
            assert_eq!(syntax[0].location(), " at ';'");
            assert_eq!(syntax[0].token.type_, TokenType::Semicolon);
        }
        other => panic!("{:?}", other),
    }
    assert!(interpreter.output.is_empty());
    assert!(interpreter.environment.values.is_empty());
}

#[test]
fn lexical_and_syntax_errors_are_kept_apart() {
    let (result, _) = run_fresh("print ;\n#\n\"open");
    match result {
        Err(Failure::Malformed { lexical, syntax }) => {
            let messages: Vec<&str> = lexical.iter().map(|error| error.message.as_str()).collect();
            assert_eq!(messages, vec!["Unexpected character", "Unterminated string"]);
            let lines: Vec<u64> = lexical.iter().map(|error| error.line).collect();
            assert_eq!(lines, vec![2, 3]);
            assert_eq!(syntax.len(), 1);
            assert_eq!(syntax[0].message, "Expect expression");
            assert_eq!(syntax[0].token.line, 1);
        }
        other => panic!("{:?}", other),
    }
}

#[test]
fn an_unterminated_string_is_one_lexical_error() {
    let (result, output) = run_fresh("\"abc");
    match result {
        Err(Failure::Malformed { lexical, syntax }) => {
            assert_eq!(lexical.len(), 1);
            assert_eq!(lexical[0].message, "Unterminated string");
            assert!(syntax.is_empty());
        }
        other => panic!("{:?}", other),
    }
    assert!(output.is_empty());
}

#[test]
fn a_runtime_error_ends_the_run_where_it_happens() {
    let (result, output) = run_fresh("print 1;\nprint 1 + \"a\";\nprint 3;");
    match result {
        Err(Failure::Runtime(error)) => {
            assert_eq!(error.message, "Operands must be two numbers or two strings");
            assert_eq!(error.token.type_, TokenType::Plus);
            assert_eq!(error.token.line, 2);
        }
        other => panic!("{:?}", other),
    }
    assert_eq!(output, vec!["1"]);
}

#[test]
fn assignment_to_an_undeclared_variable_from_source() {
    let (result, _) = run_fresh("x = 5;");
    match result {
        Err(Failure::Runtime(error)) => {
            assert_eq!(error.message, "Undefined variable 'x'.");
            assert_eq!(error.token.lexeme, "x");
        }
        other => panic!("{:?}", other),
    }
}

#[test]
fn runs_share_the_interpreter_they_are_given() {
    let mut interpreter = Interpreter::new();
    assert!(run_in(&mut interpreter, "var count = 1;").is_ok());
    assert!(run_in(&mut interpreter, "count = count + 1;").is_ok());
    assert!(run_in(&mut interpreter, "print count").is_err());
    assert!(run_in(&mut interpreter, "print count;").is_ok());
    assert_eq!(interpreter.output, vec!["2"]);
}

#[test]
fn an_empty_source_runs_to_nothing() {
    let (result, output) = run_fresh("  // nothing here\n");
    assert!(result.is_ok());
    assert!(output.is_empty());
}

fn literal(value: Literal) -> Expr {
    Expr::Literal(Box::new(LiteralNode::new(value)))
}

fn operator(type_: TokenType, lexeme: &str) -> Token {
    Token::new(type_, lexeme.to_string(), TokenLiteral::Null, 1)
}

#[test]
fn printer_writes_source_text() {
    let expr = Expr::Binary(Box::new(Binary::new(
        Expr::Unary(Box::new(Unary::new(
            operator(TokenType::Minus, "-"),
            literal(Literal::Number(123.0f64.to_bits())),
        ))),
        operator(TokenType::Star, "*"),
        Expr::Grouping(Box::new(Grouping::new(literal(Literal::Number(45.67f64.to_bits()))))),
    )));
    assert_eq!(AstPrinter.print(&expr, &number_text), "((- 123) * (45.67))");
}

#[test]
fn printer_writes_each_kind_of_literal() {
    assert_eq!(AstPrinter.print(&literal(Literal::Null), &number_text), "nil");
    assert_eq!(AstPrinter.print(&literal(Literal::Boolean(true)), &number_text), "true");
    assert_eq!(AstPrinter.print(&literal(Literal::Boolean(false)), &number_text), "false");
    assert_eq!(
        AstPrinter.print(&literal(Literal::String("a b".to_string())), &number_text),
        "\"a b\""
    );
    assert_eq!(AstPrinter.print(&literal(Literal::String(String::new())), &number_text), "\"\"");
    assert_eq!(AstPrinter.print(&literal(Literal::Number(2.5f64.to_bits())), &number_text), "2.5");
    assert_eq!(AstPrinter.print(&literal(Literal::Number(2.0f64.to_bits())), &number_text), "2");
}

#[test]
fn printer_takes_the_text_of_a_number_from_the_writer() {
    let hexadecimal = |bits: u64| format!("{:#x}", bits);
    assert_eq!(AstPrinter.print(&literal(Literal::Number(255)), &hexadecimal), "0xff");
}

#[test]
fn parenthesize_puts_a_space_between_one_part_and_the_next() {
    assert_eq!(AstPrinter.parenthesize("1", &vec![]), "(1)");
    assert_eq!(AstPrinter.parenthesize("-", &vec!["1".to_string()]), "(- 1)");
    assert_eq!(AstPrinter.parenthesize("1", &vec!["+".to_string(), "2".to_string()]), "(1 + 2)");
    assert_eq!(AstPrinter.parenthesize("", &vec!["x".to_string()]), "( x)");
}

fn parsed_expression(source: &str) -> Expr {
    let mut scanner = Scanner::default(source);
    scanner.scan_tokens(&number_bits);
    assert!(scanner.errors.is_empty());
    let mut parser = Parser::new(scanner.tokens);
    let mut statements = parser.parse();
    assert!(parser.errors.is_empty(), "{:?}", parser.errors);
    assert_eq!(statements.len(), 1);
    match statements.remove(0) {
        Stmt::Expression(node) => {
            let node = *node;
            node.expression
        }
        _ => panic!("not an expression"),
    }
}

#[test]
fn printer_shows_how_an_expression_was_parsed() {
    let print = |source: &str| AstPrinter.print(&parsed_expression(source), &number_text);
    assert_eq!(print("1 + 2 * 3;"), "(1 + (2 * 3))");
    assert_eq!(print("(1 + 2) * 3;"), "(((1 + 2)) * 3)");
    assert_eq!(print("!true == false;"), "((! true) == false)");
    assert_eq!(print("-1 - -2;"), "((- 1) - (- 2))");
    assert_eq!(print("1 <= 2 != nil;"), "((1 <= 2) != nil)");
    assert_eq!(print("\"a\" + \"b\";"), "(\"a\" + \"b\")");
    assert_eq!(print("8 / 4 / 2 >= 1;"), "(((8 / 4) / 2) >= 1)");
    assert_eq!(print("((nil));"), "((nil))");
}

fn read_back(text: &str) -> Expr {
    let mut scanner = Scanner::default(text);
    scanner.scan_tokens(&number_bits);
    assert!(scanner.errors.is_empty());
    let mut parser = Parser::new(scanner.tokens);
    let expr = parser.expression().unwrap();
    assert!(parser.errors.is_empty());
    assert_eq!(parser.current + 1, parser.tokens.len());
    expr
}

fn same_value(left: &Literal, right: &Literal) -> bool {
    match (left, right) {
        (Literal::Number(a), Literal::Number(b)) => a == b,
        (Literal::String(a), Literal::String(b)) => a == b,
        (Literal::Boolean(a), Literal::Boolean(b)) => a == b,
        (Literal::Null, Literal::Null) => true,
        _ => false,
    }
}

const CLOSED_SOURCES: [&str; 24] = [
    "nil;",
    "true;",
    "false;",
    "7;",
    "0.125;",
    "\"text\";",
    "\"\";",
    "\"two\nlines\";",
    "-5;",
    "--5;",
    "!nil;",
    "!!false;",
    "!-2.5;",
    "(1);",
    "((\"a\"));",
    "1 + 2;",
    "1 + 2 * 3;",
    "(1 + 2) * 3;",
    "10 - 4 - 3;",
    "8 / 4 / 2;",
    "\"a\" + \"b\" + \"c\";",
    "1 < 2 == 3 >= 4;",
    "nil == nil != (1 <= 2);",
    "-(1 + 2) * 3 > 0.5 / -4;",
];

#[test]
fn a_printed_expression_reads_back_to_the_same_value() {
    for source in CLOSED_SOURCES {
        let parsed = parsed_expression(source);
        let printed = AstPrinter.print(&parsed, &number_text);
        let reparsed = read_back(&printed);
        let mut interpreter = Interpreter::new();
        let first = interpreter.evaluate(&parsed, &double_arithmetic).unwrap();
        let second = interpreter.evaluate(&reparsed, &double_arithmetic).unwrap();
        assert!(same_value(&first, &second), "{} printed as {}", source, printed);
    }
}

#[test]
fn a_printed_expression_reads_back_as_a_statement() {
    for source in CLOSED_SOURCES {
        let parsed = parsed_expression(source);
        let printed = AstPrinter.print(&parsed, &number_text);
        let reparsed = parsed_expression(&format!("{};", printed));
        let mut interpreter = Interpreter::new();
        let first = interpreter.evaluate(&parsed, &double_arithmetic).unwrap();
        let second = interpreter.evaluate(&reparsed, &double_arithmetic).unwrap();
        assert!(same_value(&first, &second), "{} printed as {}", source, printed);
    }
}

#[test]
fn reading_back_puts_a_grouping_around_every_operator() {
    assert_eq!(AstPrinter.print(&parsed_expression("!-2.5;"), &number_text), "(! (- 2.5))");
    assert_eq!(AstPrinter.print(&read_back("(! (- 2.5))"), &number_text), "((! ((- 2.5))))");
    assert_eq!(AstPrinter.print(&read_back("(1 + 2)"), &number_text), "((1 + 2))");
    assert_eq!(AstPrinter.print(&read_back("nil"), &number_text), "nil");
    assert_eq!(AstPrinter.print(&read_back("\"a b\""), &number_text), "\"a b\"");
}

#[test]
fn a_printed_string_keeps_its_newlines() {
    let printed = AstPrinter.print(&parsed_expression("\"a\nb\" + \"c\";"), &number_text);
    assert_eq!(printed, "(\"a\nb\" + \"c\")");
    let reparsed = read_back(&printed);
    match &reparsed {
        Expr::Grouping(group) => match group.expression() {
            Expr::Binary(binary) => {
                assert_eq!(binary.operator().type_, TokenType::Plus);
                assert_eq!(binary.operator().line, 2);
            }
            _ => panic!("not a binary expression"),
        },
        _ => panic!("not a grouping"),
    }
    let value = Interpreter::new().evaluate(&reparsed, &double_arithmetic).unwrap();
    assert!(same_value(&value, &Literal::String("a\nbc".to_string())));
}

#[test]
fn closed_expressions_name_no_variable() {
    assert!(is_closed(&parsed_expression("1;")));
    assert!(is_closed(&parsed_expression("-(1 + 2) * 3 == !nil;")));
    assert!(is_closed(&parsed_expression("\"a\" + \"b\";")));
    assert!(!is_closed(&parsed_expression("a;")));
    assert!(!is_closed(&parsed_expression("1 + a;")));
    assert!(!is_closed(&parsed_expression("-(a);")));
    assert!(!is_closed(&parsed_expression("a = 1;")));
    assert!(!is_closed(&parsed_expression("(1 + (2 * -b));")));
}

#[test]
fn expression_parses_one_expression_and_stops() {
    let mut scanner = Scanner::default("1 + 2 3");
    scanner.scan_tokens(&number_bits);
    let mut parser = Parser::new(scanner.tokens);
    let expr = parser.expression().unwrap();
    assert_eq!(AstPrinter.print(&expr, &number_text), "(1 + 2)");
    assert_eq!(parser.current, 3);
    assert!(parser.errors.is_empty());
}
