//! What holds of the scanner, the parser and the interpreter taken together.
use vstd::prelude::*;
use crate::ran_source;
use crate::LexicalErrorView;
use crate::SyntaxErrorView;
use crate::Failure;
use crate::expr::ExprView;
use crate::grammar::accepted;
use crate::grammar::lemma_assignment;
use crate::grammar::lemma_chain;
use crate::grammar::lemma_comparison;
use crate::grammar::lemma_declaration;
use crate::grammar::lemma_equality;
use crate::grammar::lemma_expression;
use crate::grammar::lemma_factor;
use crate::grammar::lemma_list;
use crate::grammar::lemma_primary;
use crate::grammar::lemma_statement;
use crate::grammar::lemma_term;
use crate::grammar::lemma_terminated;
use crate::grammar::lemma_unary;
use crate::grammar::parse_tokens;
use crate::interpreter::execute_from;
use crate::interpreter::execute_program;
use crate::interpreter::line_views;
use crate::interpreter::strip_integral;
use crate::interpreter::Interpreter;
use crate::interpreter::Outcome;
use crate::literal_object::Value;
use crate::number::Arithmetic;
use crate::environment::Scopes;
use crate::scanner::alpha_numeric;
use crate::scanner::char_at;
use crate::scanner::digit;
use crate::scanner::end_token;
use crate::scanner::keyword;
use crate::scanner::lemma_span_end;
use crate::scanner::lemma_span_end_is;
use crate::scanner::number_end;
use crate::scanner::number_lexeme;
use crate::scanner::scan_from;
use crate::scanner::scan_step;
use crate::scanner::scan_text;
use crate::scanner::span_end;
use crate::scanner::ScanOutput;
use crate::stmt::StmtView;
use crate::token::TokenView;
use crate::token_type::TokenType;

verus! {

/// The source `print n;`.
pub open spec fn print_source(literal: Seq<char>) -> Seq<char> {
    "print "@ + literal + ";"@
}

/// The tokens of `print n;`, where `bits` is the value of `n`.
pub open spec fn print_tokens(literal: Seq<char>, bits: u64) -> Seq<TokenView> {
    seq![
        TokenView { type_: TokenType::Print, lexeme: "print"@, literal: Value::Null, line: 1 },
        TokenView {
            type_: TokenType::Number,
            lexeme: literal,
            literal: Value::Number(bits),
            line: 1,
        },
        TokenView { type_: TokenType::Semicolon, lexeme: ";"@, literal: Value::Null, line: 1 },
        end_token(1),
    ]
}

/// The statement that prints the number `bits`.
pub open spec fn print_statement(bits: u64) -> StmtView {
    StmtView::Print { expression: ExprView::Literal { literal: Value::Number(bits) } }
}

/// `print` is a reserved word.
pub proof fn lemma_print_is_reserved()
    ensures
        keyword("print"@) == Some(TokenType::Print),
{
    reveal_strlit("print");
    reveal_strlit("and");
    reveal_strlit("class");
    reveal_strlit("else");
    reveal_strlit("false");
    reveal_strlit("for");
    reveal_strlit("fun");
    reveal_strlit("if");
    reveal_strlit("nil");
    reveal_strlit("or");
    assert("print"@[0] == 'p');
    assert("class"@[0] == 'c');
    assert("false"@[0] == 'f');
}

/// A number literal ends where the source does, or before a character that
/// is neither a digit nor a point.
pub proof fn lemma_number_ends(source: Seq<char>, start: int, literal: Seq<char>)
    requires
        number_lexeme(literal),
        0 <= start,
        start + literal.len() <= source.len(),
        source.subrange(start, start + literal.len()) == literal,
        !digit(char_at(source, start + literal.len())),
        char_at(source, start + literal.len()) != '.',
    ensures
        number_end(source, start) == start + literal.len(),
{
    let class = |c: char| digit(c);
    let length = literal.len() as int;
    let whole = span_end(literal, 1, class);
    lemma_span_end(literal, 1, class);
    assert forall|i: int| 0 <= i < length implies source[start + i] == literal[i] by {
        assert(source.subrange(start, start + length)[i] == source[start + i]);
    }
    assert forall|i: int| start + 1 <= i < start + whole implies class(#[trigger] source[i]) by {
        assert(source[i] == literal[i - start]);
    }
    lemma_span_end_is(source, start + 1, start + whole, class);
    if char_at(literal, whole) == '.' && digit(char_at(literal, whole + 1)) {
        lemma_span_end(literal, whole + 1, class);
        assert forall|i: int| start + whole + 1 <= i < start + length implies class(
            #[trigger] source[i],
        ) by {
            assert(source[i] == literal[i - start]);
        }
        lemma_span_end_is(source, start + whole + 1, start + length, class);
    } else {
        if whole + 1 < length {
            assert(source[start + whole + 1] == literal[whole + 1]);
        }
    }
}

/// Scanning `print n;` gives the four tokens of it and no error.
pub proof fn lemma_scan_print(literal: Seq<char>, number: spec_fn(Seq<char>) -> u64)
    requires
        number_lexeme(literal),
    ensures
        scan_text(print_source(literal), number) == (ScanOutput {
            tokens: print_tokens(literal, number(literal)),
            errors: Seq::empty(),
        }),
{
    reveal_strlit("print ");
    reveal_strlit("print");
    reveal_strlit(";");
    let source = print_source(literal);
    let length = literal.len() as int;
    assert(source.len() == length + 7);
    assert(source[0] == 'p' && source[1] == 'r' && source[2] == 'i' && source[3] == 'n'
        && source[4] == 't' && source[5] == ' ');
    assert(source[6] == literal[0]);
    assert(source[6 + length] == ';');
    assert(source.subrange(6, 6 + length) =~= literal);
    assert(source.subrange(0, 5) =~= "print"@);
    assert(source.subrange(6 + length, 7 + length) =~= ";"@);
    // The word `print`.
    lemma_span_end_is(source, 1, 5, |c: char| alpha_numeric(c));
    lemma_print_is_reserved();
    let first = scan_step(source, 0, 1, number);
    assert(first.next == 5 && first.line == 1 && first.error.is_none());
    assert(first.token == Some(print_tokens(literal, number(literal))[0]));
    // The space.
    let second = scan_step(source, 5, 1, number);
    assert(second.next == 6 && second.line == 1 && second.token.is_none()
        && second.error.is_none());
    // The number.
    lemma_number_ends(source, 6, literal);
    let third = scan_step(source, 6, 1, number);
    assert(third.next == 6 + length && third.line == 1 && third.error.is_none());
    assert(third.token == Some(print_tokens(literal, number(literal))[1]));
    // The semicolon.
    let fourth = scan_step(source, 6 + length, 1, number);
    assert(fourth.next == 7 + length && fourth.line == 1 && fourth.error.is_none());
    assert(fourth.token == Some(print_tokens(literal, number(literal))[2]));
    // The end.
    let at_end = scan_from(source, 7 + length, 1, number);
    assert(at_end.tokens =~= seq![end_token(1)]);
    let from_semicolon = scan_from(source, 6 + length, 1, number);
    assert(from_semicolon.tokens =~= print_tokens(literal, number(literal)).subrange(2, 4));
    assert(from_semicolon.errors =~= Seq::<LexicalErrorView>::empty());
    let from_number = scan_from(source, 6, 1, number);
    assert(from_number.tokens =~= print_tokens(literal, number(literal)).subrange(1, 4));
    assert(from_number.errors =~= Seq::<LexicalErrorView>::empty());
    let from_space = scan_from(source, 5, 1, number);
    assert(from_space.tokens =~= from_number.tokens);
    assert(from_space.errors =~= Seq::<LexicalErrorView>::empty());
    let whole = scan_from(source, 0, 1, number);
    assert(whole.tokens =~= print_tokens(literal, number(literal)));
    assert(whole.errors =~= Seq::<LexicalErrorView>::empty());
}

/// Parsing the tokens of `print n;` gives the one statement that prints the
/// value of `n`, and no error.
pub proof fn lemma_parse_print(literal: Seq<char>, bits: u64)
    ensures
        parse_tokens(print_tokens(literal, bits)) == accepted(seq![print_statement(bits)], 3),
{
    let tokens = print_tokens(literal, bits);
    let number = ExprView::Literal { literal: Value::Number(bits) };
    lemma_primary(tokens, 1);
    lemma_unary(tokens, 1);
    lemma_chain(tokens, 2, number, 3);
    lemma_factor(tokens, 1);
    lemma_chain(tokens, 2, number, 2);
    lemma_term(tokens, 1);
    lemma_chain(tokens, 2, number, 1);
    lemma_comparison(tokens, 1);
    lemma_chain(tokens, 2, number, 0);
    lemma_equality(tokens, 1);
    lemma_assignment(tokens, 1);
    lemma_expression(tokens, 1);
    lemma_terminated(tokens, 1, "Expect ';' after value."@);
    lemma_statement(tokens, 0);
    lemma_declaration(tokens, 0);
    lemma_list(tokens, 0, false);
    lemma_list(tokens, 3, false);
    let parsed = parse_tokens(tokens);
    assert(parsed.node->0 =~= seq![print_statement(bits)]);
    assert(parsed.errors =~= Seq::<SyntaxErrorView>::empty());
}

/// Running the statement that prints a number appends one line: the decimal
/// text of the number without a final ".0".
pub proof fn lemma_execute_print(
    bits: u64,
    scopes: Scopes,
    output: Seq<Seq<char>>,
    arithmetic: spec_fn(Arithmetic, u64, u64) -> u64,
    text: spec_fn(u64) -> Seq<char>,
)
    ensures
        execute_program(seq![print_statement(bits)], scopes, output, arithmetic, text) == (Outcome {
            result: Ok(()),
            scopes,
            output: output.push(strip_integral(text(bits))),
        }),
{
    reveal_with_fuel(execute_from, 2);
}

/// For every number literal `n`, running the source `print n;` reports no
/// error, leaves the scopes as they were, and prints one line: the decimal
/// text of the value of `n`, without its final ".0" where it has one.
pub proof fn theorem_print_number_literal(
    literal: Seq<char>,
    before: Interpreter,
    after: Interpreter,
    result: Result<(), Failure>,
    number: spec_fn(Seq<char>) -> u64,
    arithmetic: spec_fn(Arithmetic, u64, u64) -> u64,
    text: spec_fn(u64) -> Seq<char>,
)
    requires
        number_lexeme(literal),
        ran_source(before, after, result, print_source(literal), number, arithmetic, text),
    ensures
        result is Ok,
        after.environment@ == before.environment@,
        line_views(after.output@) == line_views(before.output@).push(
            strip_integral(text(number(literal))),
        ),
{
    lemma_scan_print(literal, number);
    lemma_parse_print(literal, number(literal));
    lemma_execute_print(
        number(literal),
        before.environment@,
        line_views(before.output@),
        arithmetic,
        text,
    );
}

} // verus!
