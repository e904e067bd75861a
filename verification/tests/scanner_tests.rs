use rlox::error;
use rlox::scanner::keyword_type;
use rlox::support::same_text;
use rlox::scanner::Scanner;
use rlox::token::Literal;
use rlox::token::Token;
use rlox::token_error;
use rlox::token_type::TokenType;

fn read(text: String) -> u64 {
    text.parse::<f64>().unwrap().to_bits()
}

fn scan(source: &str) -> Scanner {
    let mut scanner = Scanner::default(source);
    scanner.scan_tokens(&read);
    scanner
}

fn types(scanner: &Scanner) -> Vec<TokenType> {
    scanner.tokens.iter().map(|token| token.type_).collect()
}

fn lexemes(scanner: &Scanner) -> Vec<String> {
    scanner.tokens.iter().map(|token| token.lexeme.clone()).collect()
}

fn number_of(token: &Token) -> f64 {
    match &token.literal {
        Literal::Number(bits) => f64::from_bits(*bits),
        _ => panic!("not a number literal"),
    }
}

#[test]
fn empty_source_gives_only_the_end_token() {
    let scanner = scan("");
    assert_eq!(types(&scanner), vec![TokenType::Eof]);
    assert_eq!(scanner.tokens[0].lexeme, "");
    assert_eq!(scanner.tokens[0].line, 1);
    assert!(matches!(scanner.tokens[0].literal, Literal::Null));
    assert!(scanner.errors.is_empty());
}

#[test]
fn single_character_tokens() {
    let scanner = scan("(){},.-+;*/");
    assert_eq!(
        types(&scanner),
        vec![
            TokenType::LeftParen,
            TokenType::RightParen,
            TokenType::LeftBrace,
            TokenType::RightBrace,
            TokenType::Comma,
            TokenType::Dot,
            TokenType::Minus,
            TokenType::Plus,
            TokenType::Semicolon,
            TokenType::Star,
            TokenType::Slash,
            TokenType::Eof,
        ]
    );
    assert_eq!(
        lexemes(&scanner),
        vec!["(", ")", "{", "}", ",", ".", "-", "+", ";", "*", "/", ""]
    );
    assert!(scanner.errors.is_empty());
}

#[test]
fn operators_with_and_without_equal() {
    let scanner = scan("! != = == < <= > >=");
    assert_eq!(
        types(&scanner),
        vec![
            TokenType::Bang,
            TokenType::BangEqual,
            TokenType::Equal,
            TokenType::EqualEqual,
            TokenType::Less,
            TokenType::LessEqual,
            TokenType::Greater,
            TokenType::GreaterEqual,
            TokenType::Eof,
        ]
    );
    assert_eq!(lexemes(&scanner), vec!["!", "!=", "=", "==", "<", "<=", ">", ">=", ""]);
}

#[test]
fn equal_signs_pair_up_from_the_left() {
    let scanner = scan("===");
    assert_eq!(types(&scanner), vec![TokenType::EqualEqual, TokenType::Equal, TokenType::Eof]);
    let scanner = scan("!");
    assert_eq!(types(&scanner), vec![TokenType::Bang, TokenType::Eof]);
}

#[test]
fn whitespace_is_skipped_and_newlines_are_counted() {
    let scanner = scan(" \t\r\n+\n\n-");
    assert_eq!(types(&scanner), vec![TokenType::Plus, TokenType::Minus, TokenType::Eof]);
    assert_eq!(scanner.tokens[0].line, 2);
    assert_eq!(scanner.tokens[1].line, 4);
    assert_eq!(scanner.tokens[2].line, 4);
}

#[test]
fn line_comment_runs_to_the_end_of_the_line() {
    let scanner = scan("+ // - * /\n;// to the end");
    assert_eq!(types(&scanner), vec![TokenType::Plus, TokenType::Semicolon, TokenType::Eof]);
    assert_eq!(scanner.tokens[1].line, 2);
    assert!(scanner.errors.is_empty());
}

#[test]
fn block_comment_is_skipped_and_counts_its_lines() {
    let scanner = scan("1 /* one\ntwo * / \n*/ 2");
    assert_eq!(types(&scanner), vec![TokenType::Number, TokenType::Number, TokenType::Eof]);
    assert_eq!(scanner.tokens[0].line, 1);
    assert_eq!(scanner.tokens[1].line, 3);
    assert!(scanner.errors.is_empty());
}

#[test]
fn unclosed_block_comment_runs_to_the_end() {
    let scanner = scan("+ /* never\nclosed *");
    assert_eq!(types(&scanner), vec![TokenType::Plus, TokenType::Eof]);
    assert_eq!(scanner.tokens[1].line, 2);
    assert!(scanner.errors.is_empty());
}

#[test]
fn slash_alone_is_division() {
    let scanner = scan("8 / 2");
    assert_eq!(
        types(&scanner),
        vec![TokenType::Number, TokenType::Slash, TokenType::Number, TokenType::Eof]
    );
}

#[test]
fn string_literal_holds_the_text_between_the_quotes() {
    let scanner = scan("\"hello world\"");
    assert_eq!(types(&scanner), vec![TokenType::String, TokenType::Eof]);
    assert_eq!(scanner.tokens[0].lexeme, "\"hello world\"");
    match &scanner.tokens[0].literal {
        Literal::String(text) => assert_eq!(text, "hello world"),
        _ => panic!("not a string literal"),
    }
}

#[test]
fn string_literal_has_no_escapes_and_may_span_lines() {
    let scanner = scan("\"a\\n\nb\" +");
    assert_eq!(types(&scanner), vec![TokenType::String, TokenType::Plus, TokenType::Eof]);
    match &scanner.tokens[0].literal {
        Literal::String(text) => assert_eq!(text, "a\\n\nb"),
        _ => panic!("not a string literal"),
    }
    assert_eq!(scanner.tokens[0].line, 2);
    assert_eq!(scanner.tokens[1].line, 2);
}

#[test]
fn empty_string_literal() {
    let scanner = scan("\"\"");
    assert_eq!(types(&scanner), vec![TokenType::String, TokenType::Eof]);
    match &scanner.tokens[0].literal {
        Literal::String(text) => assert_eq!(text, ""),
        _ => panic!("not a string literal"),
    }
}

#[test]
fn string_with_characters_beyond_ascii() {
    let scanner = scan("\"héllo ✓\" x");
    assert_eq!(types(&scanner), vec![TokenType::String, TokenType::Identifier, TokenType::Eof]);
    assert_eq!(scanner.tokens[0].lexeme, "\"héllo ✓\"");
    match &scanner.tokens[0].literal {
        Literal::String(text) => assert_eq!(text, "héllo ✓"),
        _ => panic!("not a string literal"),
    }
    assert_eq!(scanner.tokens[1].lexeme, "x");
}

#[test]
fn unterminated_string_is_one_error_and_no_token() {
    let scanner = scan("\"abc");
    assert_eq!(types(&scanner), vec![TokenType::Eof]);
    assert_eq!(scanner.errors.len(), 1);
    assert_eq!(scanner.errors[0].line, 1);
    assert_eq!(scanner.errors[0].message, "Unterminated string");
}

#[test]
fn unterminated_string_is_reported_on_its_last_line() {
    let scanner = scan("+ \"abc\n\ndef");
    assert_eq!(types(&scanner), vec![TokenType::Plus, TokenType::Eof]);
    assert_eq!(scanner.errors.len(), 1);
    assert_eq!(scanner.errors[0].line, 3);
    assert_eq!(scanner.tokens[1].line, 3);
}

#[test]
fn number_literals() {
    let scanner = scan("0 7 123 45.67 9.0 100.25");
    assert_eq!(
        lexemes(&scanner),
        vec!["0", "7", "123", "45.67", "9.0", "100.25", ""]
    );
    let values: Vec<f64> = scanner.tokens[..6].iter().map(number_of).collect();
    assert_eq!(values, vec![0.0, 7.0, 123.0, 45.67, 9.0, 100.25]);
    for token in &scanner.tokens[..6] {
        assert_eq!(token.type_, TokenType::Number);
    }
}

#[test]
fn every_digit_is_a_digit() {
    let scanner = scan("9 89 1234567890");
    assert_eq!(lexemes(&scanner), vec!["9", "89", "1234567890", ""]);
    assert_eq!(number_of(&scanner.tokens[2]), 1234567890.0);
}

#[test]
fn a_point_without_a_digit_after_it_is_not_part_of_the_number() {
    let scanner = scan("1.");
    assert_eq!(types(&scanner), vec![TokenType::Number, TokenType::Dot, TokenType::Eof]);
    assert_eq!(scanner.tokens[0].lexeme, "1");
    assert_eq!(number_of(&scanner.tokens[0]), 1.0);
    let scanner = scan("1.x");
    assert_eq!(
        types(&scanner),
        vec![TokenType::Number, TokenType::Dot, TokenType::Identifier, TokenType::Eof]
    );
}

#[test]
fn a_number_has_one_fraction_at_most() {
    let scanner = scan("1.2.3");
    assert_eq!(
        types(&scanner),
        vec![TokenType::Number, TokenType::Dot, TokenType::Number, TokenType::Eof]
    );
    assert_eq!(lexemes(&scanner), vec!["1.2", ".", "3", ""]);
    let scanner = scan(".5");
    assert_eq!(types(&scanner), vec![TokenType::Dot, TokenType::Number, TokenType::Eof]);
}

#[test]
fn the_value_of_a_number_comes_from_the_reader() {
    let mut scanner = Scanner::default("12 3.5");
    scanner.scan_tokens(&|text: String| text.len() as u64);
    match &scanner.tokens[0].literal {
        Literal::Number(bits) => assert_eq!(*bits, 2),
        _ => panic!("not a number literal"),
    }
    match &scanner.tokens[1].literal {
        Literal::Number(bits) => assert_eq!(*bits, 3),
        _ => panic!("not a number literal"),
    }
}

#[test]
fn identifiers() {
    let scanner = scan("x _y z9 camelCase snake_case");
    assert_eq!(
        types(&scanner),
        vec![
            TokenType::Identifier,
            TokenType::Identifier,
            TokenType::Identifier,
            TokenType::Identifier,
            TokenType::Identifier,
            TokenType::Eof,
        ]
    );
    assert_eq!(lexemes(&scanner), vec!["x", "_y", "z9", "camelCase", "snake_case", ""]);
}

#[test]
fn reserved_words() {
    let scanner =
        scan("and class else false for fun if nil or print return super this true var while");
    assert_eq!(
        types(&scanner),
        vec![
            TokenType::And,
            TokenType::Class,
            TokenType::Else,
            TokenType::False,
            TokenType::For,
            TokenType::Fun,
            TokenType::If,
            TokenType::Nil,
            TokenType::Or,
            TokenType::Print,
            TokenType::Return,
            TokenType::Super,
            TokenType::This,
            TokenType::True,
            TokenType::Var,
            TokenType::While,
            TokenType::Eof,
        ]
    );
}

#[test]
fn a_reserved_word_inside_a_longer_word_is_an_identifier() {
    let scanner = scan("orchid printer variable nil_ If");
    assert_eq!(
        types(&scanner),
        vec![
            TokenType::Identifier,
            TokenType::Identifier,
            TokenType::Identifier,
            TokenType::Identifier,
            TokenType::Identifier,
            TokenType::Eof,
        ]
    );
}

#[test]
fn a_keyword_is_emitted_once() {
    let scanner = scan("print");
    assert_eq!(types(&scanner), vec![TokenType::Print, TokenType::Eof]);
}

#[test]
fn unexpected_character_is_reported_and_scanning_goes_on() {
    let scanner = scan("1 @ 2 #\n$ 3");
    assert_eq!(
        types(&scanner),
        vec![TokenType::Number, TokenType::Number, TokenType::Number, TokenType::Eof]
    );
    assert_eq!(scanner.errors.len(), 3);
    assert_eq!(scanner.errors[0].line, 1);
    assert_eq!(scanner.errors[1].line, 1);
    assert_eq!(scanner.errors[2].line, 2);
    for diagnostic in &scanner.errors {
        assert_eq!(diagnostic.message, "Unexpected character");
    }
}

#[test]
fn tokens_come_in_source_order() {
    let scanner = scan("var answer = 6 * 7; // comment\nprint answer;");
    assert_eq!(
        lexemes(&scanner),
        vec!["var", "answer", "=", "6", "*", "7", ";", "print", "answer", ";", ""]
    );
    assert_eq!(scanner.tokens[7].line, 2);
    assert_eq!(scanner.tokens[10].line, 2);
}

#[test]
fn scanning_again_appends_only_an_end_token() {
    let mut scanner = Scanner::default("1 + 2");
    let first = scanner.scan_tokens(&read).len();
    assert_eq!(first, 4);
    let second = scanner.scan_tokens(&read).len();
    assert_eq!(second, 5);
    assert_eq!(scanner.tokens[4].type_, TokenType::Eof);
}

#[test]
fn a_new_scanner_has_scanned_nothing() {
    let scanner = Scanner::default("print 1;");
    assert_eq!(scanner.source, "print 1;");
    assert_eq!(scanner.characters.len(), 8);
    assert!(scanner.tokens.is_empty());
    assert!(scanner.errors.is_empty());
    assert_eq!(scanner.start, 0);
    assert_eq!(scanner.current, 0);
    assert_eq!(scanner.line, 1);
}

#[test]
fn same_text_compares_characters() {
    assert!(same_text("", ""));
    assert!(same_text("print", "print"));
    assert!(!same_text("print", "prin"));
    assert!(!same_text("print", "prinT"));
    assert!(same_text("é✓", "é✓"));
    assert!(!same_text("é", "e"));
}

#[test]
fn keyword_type_knows_the_reserved_words_only() {
    assert_eq!(keyword_type("while"), Some(TokenType::While));
    assert_eq!(keyword_type("nil"), Some(TokenType::Nil));
    assert_eq!(keyword_type("Nil"), None);
    assert_eq!(keyword_type(""), None);
    assert_eq!(keyword_type("whil"), None);
}

#[test]
fn lexical_error_names_a_line() {
    let diagnostic = error(12, "Unexpected character");
    assert_eq!(diagnostic.line, 12);
    assert_eq!(diagnostic.message, "Unexpected character");
}

#[test]
fn syntax_error_names_the_token_or_the_end() {
    let token = Token::new(TokenType::Plus, "+".to_string(), Literal::Null, 3);
    let diagnostic = token_error(&token, "Expect expression");
    assert_eq!(diagnostic.token.type_, TokenType::Plus);
    assert_eq!(diagnostic.token.lexeme, "+");
    assert_eq!(diagnostic.token.line, 3);
    assert_eq!(diagnostic.location(), " at '+'");
    assert_eq!(diagnostic.message, "Expect expression");
    let end = Token::new(TokenType::Eof, String::new(), Literal::Null, 9);
    let diagnostic = token_error(&end, "Expect ';' after value.");
    assert_eq!(diagnostic.token.line, 9);
    assert_eq!(diagnostic.location(), " at end");
    assert_eq!(diagnostic.message, "Expect ';' after value.");
    let quoted = Token::new(TokenType::String, "\"a b\"".to_string(), Literal::String("a b".to_string()), 1);
    assert_eq!(token_error(&quoted, "Expect ';' after value.").location(), " at '\"a b\"'");
}

#[test]
fn token_new_keeps_its_parts() {
    let token = Token::new(TokenType::Number, "1.5".to_string(), Literal::Number(1.5f64.to_bits()), 4);
    assert_eq!(token.type_, TokenType::Number);
    assert_eq!(token.lexeme, "1.5");
    assert_eq!(token.line, 4);
    assert_eq!(number_of(&token), 1.5);
    let copy = token.clone();
    assert_eq!(copy.type_, TokenType::Number);
    assert_eq!(copy.lexeme, "1.5");
    assert_eq!(copy.line, 4);
    assert_eq!(number_of(&copy), 1.5);
}
