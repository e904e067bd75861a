//! A scanner, recursive-descent parser and tree-walking interpreter for a small
//! dynamically typed language of expressions, `print`, `var` and blocks.
//!
//! Numbers of the language are IEEE 754 double-precision values. The library
//! holds each as its 64-bit pattern and never rounds one itself: callers hand in
//! the three operations that do (reading a literal, the four arithmetic
//! operators, writing a number as decimal text), and every contract states its
//! result for whatever those operations return.
use vstd::prelude::*;
use vstd::string::StringExecFns;
use crate::grammar::parse_tokens;
use crate::interpreter::computes;
use crate::interpreter::execute_program;
use crate::interpreter::line_views;
use crate::interpreter::writes_as;
use crate::interpreter::Interpreter;
use crate::interpreter::RuntimeError;
use crate::interpreter::RuntimeErrorView;
use crate::number::Arithmetic;
use crate::parser::Parser;
use crate::scanner::number_lexeme;
use crate::scanner::reads_as;
use crate::scanner::scan_text;
use crate::scanner::Scanner;
use crate::token::Token;
use crate::token::TokenView;
use crate::token_type::TokenType;

pub mod support;
pub mod number;
pub mod token_type;
pub mod literal_object;
pub mod token;
pub mod expr;
pub mod stmt;
pub mod scanner;
pub mod grammar;
pub mod parser;
pub mod environment;
pub mod interpreter;
pub mod ast_printer;
pub mod theorems;
pub mod round_trip;


verus! {

/// A lexical error as contracts speak of it.
pub struct LexicalErrorView {
    pub line: u64,
    pub message: Seq<char>,
}

/// What the scanner reports: the line of a text that it cannot read, and
/// what is wrong there.
#[derive(Debug)]
pub struct LexicalError {
    pub line: u64,
    pub message: String,
}

impl View for LexicalError {
    type V = LexicalErrorView;

    open spec fn view(&self) -> LexicalErrorView {
        LexicalErrorView { line: self.line, message: self.message@ }
    }
}

/// The lexical errors of a list, each as contracts speak of it.
pub open spec fn lexical_views(errors: Seq<LexicalError>) -> Seq<LexicalErrorView> {
    Seq::new(errors.len(), |i: int| errors[i]@)
}

/// Pushing a lexical error pushes its view.
pub proof fn lemma_lexical_views_push(errors: Seq<LexicalError>, error: LexicalError)
    ensures
        lexical_views(errors.push(error)) == lexical_views(errors).push(error@),
{
    assert(lexical_views(errors.push(error)) =~= lexical_views(errors).push(error@));
}

/// A syntax error as contracts speak of it.
pub struct SyntaxErrorView {
    pub token: TokenView,
    pub message: Seq<char>,
}

/// What the parser reports: the token at which the grammar is broken, and
/// what it expected there.
#[derive(Debug)]
pub struct SyntaxError {
    pub token: Token,
    pub message: String,
}

impl View for SyntaxError {
    type V = SyntaxErrorView;

    open spec fn view(&self) -> SyntaxErrorView {
        SyntaxErrorView { token: self.token@, message: self.message@ }
    }
}

/// The syntax errors of a list, each as contracts speak of it.
pub open spec fn syntax_views(errors: Seq<SyntaxError>) -> Seq<SyntaxErrorView> {
    Seq::new(errors.len(), |i: int| errors[i]@)
}

/// Pushing a syntax error pushes its view.
pub proof fn lemma_syntax_views_push(errors: Seq<SyntaxError>, error: SyntaxError)
    ensures
        syntax_views(errors.push(error)) == syntax_views(errors).push(error@),
{
    assert(syntax_views(errors.push(error)) =~= syntax_views(errors).push(error@));
}

/// Where a syntax error at `token` is said to be: at the end of the input, or
/// at the token's own text in single quotes.
pub open spec fn token_location(token: TokenView) -> Seq<char> {
    if token.type_ == TokenType::Eof {
        " at end"@
    } else {
        " at '"@ + token.lexeme + "'"@
    }
}

impl SyntaxError {
    /// Where the error is said to be, for a message to the user.
    pub fn location(&self) -> (location: String)
        ensures
            location@ == token_location(self.token@),
    {
        if self.token.type_ == TokenType::Eof {
            String::from_str(" at end")
        } else {
            let mut location = String::from_str(" at '");
            location.append(self.token.lexeme.as_str());
            location.append("'");
            location
        }
    }
}

/// Builds the lexical error `message` on `line`.
pub fn error(line: u64, message: &str) -> (error: LexicalError)
    ensures
        error@ == (LexicalErrorView { line, message: message@ }),
{
    LexicalError { line, message: String::from_str(message) }
}

/// Builds the syntax error `message` at `token`.
pub fn token_error(token: &Token, message: &str) -> (error: SyntaxError)
    ensures
        error@ == (SyntaxErrorView { token: token@, message: message@ }),
{
    SyntaxError { token: token.clone(), message: String::from_str(message) }
}

/// Why a run did not finish: the source does not scan or does not parse, or
/// a statement failed. The three kinds of error stay apart.
#[derive(Debug)]
pub enum Failure {
    /// The source was not run. The errors of each kind are in source order,
    /// and one of the two lists is not empty.
    Malformed { lexical: Vec<LexicalError>, syntax: Vec<SyntaxError> },
    /// The runtime error that ended the run.
    Runtime(RuntimeError),
}

/// What a run that did not finish reports, as contracts speak of it.
pub enum FailureView {
    Malformed { lexical: Seq<LexicalErrorView>, syntax: Seq<SyntaxErrorView> },
    Runtime(RuntimeErrorView),
}

impl View for Failure {
    type V = FailureView;

    open spec fn view(&self) -> FailureView {
        match self {
            Failure::Malformed { lexical, syntax } => FailureView::Malformed {
                lexical: lexical_views(lexical@),
                syntax: syntax_views(syntax@),
            },
            Failure::Runtime(error) => FailureView::Runtime(error@),
        }
    }
}

/// Whether `result` and the interpreter `after` are what running `source`
/// gives from the interpreter `before`. A source with a lexical or a syntax
/// error is not run at all: the interpreter stays as it was. Any other source
/// is run to its end or to the first statement that fails.
pub open spec fn ran_source(
    before: Interpreter,
    after: Interpreter,
    result: Result<(), Failure>,
    source: Seq<char>,
    number: spec_fn(Seq<char>) -> u64,
    arithmetic: spec_fn(Arithmetic, u64, u64) -> u64,
    text: spec_fn(u64) -> Seq<char>,
) -> bool {
    let scanned = scan_text(source, number);
    let parsed = parse_tokens(scanned.tokens);
    if scanned.errors.len() + parsed.errors.len() > 0 {
        &&& result is Err
        &&& result->Err_0@ == (FailureView::Malformed {
            lexical: scanned.errors,
            syntax: parsed.errors,
        })
        &&& after.environment@ == before.environment@
        &&& line_views(after.output@) == line_views(before.output@)
    } else {
        let outcome = execute_program(
            parsed.node->0,
            before.environment@,
            line_views(before.output@),
            arithmetic,
            text,
        );
        &&& after.environment@ == outcome.scopes
        &&& line_views(after.output@) == outcome.output
        &&& match outcome.result {
            Ok(_) => result is Ok,
            Err(error) => result is Err && result->Err_0@ == FailureView::Runtime(error),
        }
    }
}

/// Scans, parses and runs `source` in `interpreter`. The three operations on
/// numbers are the caller's: `read_number` gives the value of a number
/// literal, `apply` the result of an arithmetic operator, `show` the decimal
/// text of a number.
pub fn run<P: Fn(String) -> u64, A: Fn(Arithmetic, u64, u64) -> u64, S: Fn(u64) -> String>(
    interpreter: &mut Interpreter,
    source: &str,
    read_number: &P,
    apply: &A,
    show: &S,
) -> (result: Result<(), Failure>)
    requires
        forall|text: String| number_lexeme(text@) ==> #[trigger] read_number.requires((text,)),
        forall|operation: Arithmetic, a: u64, b: u64| #[trigger] apply.requires((operation, a, b)),
        forall|bits: u64| #[trigger] show.requires((bits,)),
    ensures
        forall|
            number: spec_fn(Seq<char>) -> u64,
            arithmetic: spec_fn(Arithmetic, u64, u64) -> u64,
            text: spec_fn(u64) -> Seq<char>,
        |
            #![trigger reads_as(*read_number, number), computes(*apply, arithmetic), writes_as(*show, text)]
            reads_as(*read_number, number) && computes(*apply, arithmetic) && writes_as(
                *show,
                text,
            ) ==> ran_source(
                *old(interpreter),
                *final(interpreter),
                result,
                source@,
                number,
                arithmetic,
                text,
            ),
{
    let mut scanner = Scanner::default(source);
    scanner.scan_tokens(read_number);
    let Scanner { tokens, errors: lexical, .. } = scanner;
    let mut parser = Parser::new(tokens);
    let statements = parser.parse();
    let Parser { errors: syntax, .. } = parser;
    if lexical.len() > 0 || syntax.len() > 0 {
        return Err(Failure::Malformed { lexical, syntax });
    }
    match interpreter.interpret(statements, apply, show) {
        Ok(_) => Ok(()),
        Err(error) => Err(Failure::Runtime(error)),
    }
}

} // verus!
