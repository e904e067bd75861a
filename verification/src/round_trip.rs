//! Printing an expression and reading the text back.
//!
//! The printer writes source text: every operator with its operands in one
//! pair of parentheses, `nil` as `nil`, a string between double quotes. The
//! scanner and the parser read that text back as the same tree with a
//! grouping around every operator, which has the same value.
//!
//! This holds of expressions as the parser gives them from scanned text: the
//! lexeme of an operator token is the operator, and a string literal holds no
//! double quote, which the language has no way to write inside a string.
use vstd::prelude::*;
use crate::LexicalErrorView;
use crate::SyntaxErrorView;
use crate::ast_printer::closed;
use crate::ast_printer::printed;
use crate::ast_printer::spaced;
use crate::environment::Scopes;
use crate::expr::ExprView;
use crate::grammar::accepted;
use crate::grammar::is_operator;
use crate::grammar::lemma_assignment;
use crate::grammar::lemma_chain;
use crate::grammar::lemma_comparison;
use crate::grammar::lemma_declaration;
use crate::grammar::lemma_equality;
use crate::grammar::lemma_expression;
use crate::grammar::lemma_factor;
use crate::grammar::lemma_list;
use crate::grammar::lemma_operand;
use crate::grammar::lemma_primary;
use crate::grammar::lemma_statement;
use crate::grammar::lemma_term;
use crate::grammar::lemma_terminated;
use crate::grammar::lemma_unary;
use crate::grammar::parse_comparison;
use crate::grammar::parse_equality;
use crate::grammar::parse_expression;
use crate::grammar::parse_factor;
use crate::grammar::parse_term;
use crate::grammar::parse_tokens;
use crate::grammar::parse_unary;
use crate::grammar::type_at;
use crate::grammar::Parsed;
use crate::interpreter::evaluate_expr;
use crate::literal_object::Value;
use crate::number::Arithmetic;
use crate::support::optional;
use crate::scanner::alpha;
use crate::scanner::alpha_numeric;
use crate::scanner::char_at;
use crate::scanner::end_token;
use crate::scanner::keyword;
use crate::scanner::lemma_span_end_is;
use crate::scanner::line_after;
use crate::scanner::not_quote;
use crate::scanner::number_lexeme;
use crate::scanner::scan_from;
use crate::scanner::scan_step;
use crate::scanner::scan_text;
use crate::stmt::StmtView;
use crate::theorems::lemma_number_ends;
use crate::token::TokenView;
use crate::token_type::TokenType;

verus! {

/// How an operator is written.
pub open spec fn symbol(type_: TokenType) -> Seq<char> {
    match type_ {
        TokenType::Minus => "-"@,
        TokenType::Plus => "+"@,
        TokenType::Slash => "/"@,
        TokenType::Star => "*"@,
        TokenType::Bang => "!"@,
        TokenType::BangEqual => "!="@,
        TokenType::EqualEqual => "=="@,
        TokenType::Greater => ">"@,
        TokenType::GreaterEqual => ">="@,
        TokenType::Less => "<"@,
        TokenType::LessEqual => "<="@,
        _ => Seq::empty(),
    }
}

/// The operators that take one operand.
pub open spec fn unary_operator(type_: TokenType) -> bool {
    type_ == TokenType::Minus || type_ == TokenType::Bang
}

/// The operators that take two operands.
pub open spec fn binary_operator(type_: TokenType) -> bool {
    is_operator(0, type_) || is_operator(1, type_) || is_operator(2, type_) || is_operator(
        3,
        type_,
    )
}

/// The precedence level of an operator that takes two operands.
pub open spec fn level_of(type_: TokenType) -> nat {
    if is_operator(0, type_) {
        0
    } else if is_operator(1, type_) {
        1
    } else if is_operator(2, type_) {
        2
    } else {
        3
    }
}

/// Whether the expression is as the parser gives it from scanned text: every
/// operator token is an operator of its node's kind and has the operator as
/// its lexeme, and no string literal holds a double quote.
pub open spec fn spelled(expr: ExprView) -> bool
    decreases expr,
{
    match expr {
        ExprView::Assign { name, value } => spelled(*value),
        ExprView::Binary { left, operator, right } => {
            &&& binary_operator(operator.type_)
            &&& operator.lexeme == symbol(operator.type_)
            &&& spelled(*left)
            &&& spelled(*right)
        },
        ExprView::Grouping { expression } => spelled(*expression),
        ExprView::Literal { literal } => match literal {
            Value::String(text) => forall|i: int| 0 <= i < text.len() ==> text[i] != '"',
            _ => true,
        },
        ExprView::Unary { operator, right } => {
            &&& unary_operator(operator.type_)
            &&& operator.lexeme == symbol(operator.type_)
            &&& spelled(*right)
        },
        ExprView::Variable { name } => true,
    }
}

/// Whether the decimal text of every number literal of the expression is a
/// number literal that has the number as its value. `number` gives the value
/// of a number literal, `text` the decimal text of a number.
pub open spec fn numbers_read_back(
    expr: ExprView,
    number: spec_fn(Seq<char>) -> u64,
    text: spec_fn(u64) -> Seq<char>,
) -> bool
    decreases expr,
{
    match expr {
        ExprView::Assign { name, value } => numbers_read_back(*value, number, text),
        ExprView::Binary { left, operator, right } => numbers_read_back(*left, number, text)
            && numbers_read_back(*right, number, text),
        ExprView::Grouping { expression } => numbers_read_back(*expression, number, text),
        ExprView::Literal { literal } => match literal {
            Value::Number(bits) => number_lexeme(text(bits)) && number(text(bits)) == bits,
            _ => true,
        },
        ExprView::Unary { operator, right } => numbers_read_back(*right, number, text),
        ExprView::Variable { name } => true,
    }
}

/// The line after the printed form of an expression that begins on `line`:
/// only a string literal can hold a newline.
pub open spec fn end_line(expr: ExprView, line: u64) -> u64
    decreases expr,
{
    match expr {
        ExprView::Binary { left, operator, right } => end_line(*right, end_line(*left, line)),
        ExprView::Grouping { expression } => end_line(*expression, line),
        ExprView::Literal { literal } => match literal {
            Value::String(text) => line_after(text, 0, text.len() as int, line),
            _ => line,
        },
        ExprView::Unary { operator, right } => end_line(*right, line),
        _ => line,
    }
}

/// A token without a literal on `line`.
pub open spec fn plain_token(type_: TokenType, lexeme: Seq<char>, line: u64) -> TokenView {
    TokenView { type_, lexeme, literal: Value::Null, line }
}

/// The token of a literal whose printed form begins on `line`.
pub open spec fn literal_token(
    literal: Value,
    line: u64,
    text: spec_fn(u64) -> Seq<char>,
) -> TokenView {
    match literal {
        Value::Null => plain_token(TokenType::Nil, "nil"@, line),
        Value::Boolean(b) => if b {
            plain_token(TokenType::True, "true"@, line)
        } else {
            plain_token(TokenType::False, "false"@, line)
        },
        Value::Number(bits) => TokenView {
            type_: TokenType::Number,
            lexeme: text(bits),
            literal: Value::Number(bits),
            line,
        },
        Value::String(string) => TokenView {
            type_: TokenType::String,
            lexeme: "\""@ + string + "\""@,
            literal: Value::String(string),
            line: line_after(string, 0, string.len() as int, line),
        },
    }
}

/// The tokens of the printed form of a closed expression that begins on
/// `line`.
pub open spec fn printed_tokens(
    expr: ExprView,
    line: u64,
    text: spec_fn(u64) -> Seq<char>,
) -> Seq<TokenView>
    decreases expr,
{
    match expr {
        ExprView::Binary { left, operator, right } => {
            let middle = end_line(*left, line);
            seq![plain_token(TokenType::LeftParen, "("@, line)] + printed_tokens(*left, line, text)
                + seq![plain_token(operator.type_, operator.lexeme, middle)] + printed_tokens(
                *right,
                middle,
                text,
            ) + seq![plain_token(TokenType::RightParen, ")"@, end_line(*right, middle))]
        },
        ExprView::Grouping { expression } => seq![
            plain_token(TokenType::LeftParen, "("@, line),
        ] + printed_tokens(*expression, line, text) + seq![
            plain_token(TokenType::RightParen, ")"@, end_line(*expression, line)),
        ],
        ExprView::Literal { literal } => seq![literal_token(literal, line, text)],
        ExprView::Unary { operator, right } => seq![
            plain_token(TokenType::LeftParen, "("@, line),
            plain_token(operator.type_, operator.lexeme, line),
        ] + printed_tokens(*right, line, text) + seq![
            plain_token(TokenType::RightParen, ")"@, end_line(*right, line)),
        ],
        _ => Seq::empty(),
    }
}

/// The expression that the printed form of a closed expression parses to,
/// the form beginning on `line`: the same tree with a grouping around every
/// operator, and every operator token on the line where it is printed.
pub open spec fn read_back(expr: ExprView, line: u64) -> ExprView
    decreases expr,
{
    match expr {
        ExprView::Binary { left, operator, right } => {
            let middle = end_line(*left, line);
            ExprView::Grouping {
                expression: Box::new(
                    ExprView::Binary {
                        left: Box::new(read_back(*left, line)),
                        operator: plain_token(operator.type_, operator.lexeme, middle),
                        right: Box::new(read_back(*right, middle)),
                    },
                ),
            }
        },
        ExprView::Grouping { expression } => ExprView::Grouping {
            expression: Box::new(read_back(*expression, line)),
        },
        ExprView::Unary { operator, right } => ExprView::Grouping {
            expression: Box::new(
                ExprView::Unary {
                    operator: plain_token(operator.type_, operator.lexeme, line),
                    right: Box::new(read_back(*right, line)),
                },
            ),
        },
        _ => expr,
    }
}

/// A character that ends a word or a number: no letter, no digit, no
/// underscore and no point.
pub open spec fn boundary(c: char) -> bool {
    !alpha_numeric(c) && c != '.'
}

/// `nil`, `true` and `false` are reserved words.
pub proof fn lemma_literals_are_reserved()
    ensures
        keyword("nil"@) == Some(TokenType::Nil),
        keyword("true"@) == Some(TokenType::True),
        keyword("false"@) == Some(TokenType::False),
{
    reveal_strlit("and");
    reveal_strlit("class");
    reveal_strlit("else");
    reveal_strlit("false");
    reveal_strlit("for");
    reveal_strlit("fun");
    reveal_strlit("if");
    reveal_strlit("nil");
    reveal_strlit("or");
    reveal_strlit("print");
    reveal_strlit("return");
    reveal_strlit("super");
    reveal_strlit("this");
    reveal_strlit("true");
    assert("true"@[0] == 't' && "true"@[1] == 'r');
    assert("else"@[0] == 'e');
    assert("this"@[1] == 'h');
    assert("false"@[0] == 'f');
    assert("class"@[0] == 'c');
    assert("nil"@[0] == 'n');
    assert("and"@[0] == 'a');
    assert("for"@[0] == 'f');
    assert("fun"@[0] == 'f');
}

/// The line after a stretch of text depends on the characters of the
/// stretch alone.
pub proof fn lemma_line_after_text(
    source: Seq<char>,
    from: int,
    to: int,
    text: Seq<char>,
    line: u64,
)
    requires
        0 <= from <= to <= source.len(),
        to - from <= text.len(),
        forall|i: int| 0 <= i < to - from ==> source[from + i] == text[i],
    ensures
        line_after(source, from, to, line) == line_after(text, 0, to - from, line),
    decreases to - from,
{
    if from < to {
        lemma_line_after_text(source, from, to - 1, text, line);
        assert(source[from + (to - 1 - from)] == text[to - 1 - from]);
    }
}

/// Scanning is one lexeme, then what follows it.
pub proof fn lemma_scan_one(
    source: Seq<char>,
    at: int,
    line: u64,
    number: spec_fn(Seq<char>) -> u64,
)
    requires
        0 <= at < source.len(),
    ensures
        ({
            let step = scan_step(source, at, line, number);
            let rest = scan_from(source, step.next, step.line, number);
            let whole = scan_from(source, at, line, number);
            &&& whole.tokens == optional(step.token) + rest.tokens
            &&& whole.errors == optional(step.error) + rest.errors
        }),
{
}

/// A lexeme that gives the token `token` and no error, and ends at `next` on
/// the line `after`, puts the token before what scanning gives from there on.
pub proof fn lemma_scan_token(
    source: Seq<char>,
    at: int,
    line: u64,
    number: spec_fn(Seq<char>) -> u64,
    token: TokenView,
    next: int,
    after: u64,
)
    requires
        0 <= at < source.len(),
        scan_step(source, at, line, number).token == Some(token),
        scan_step(source, at, line, number).error.is_none(),
        scan_step(source, at, line, number).next == next,
        scan_step(source, at, line, number).line == after,
    ensures
        scan_from(source, at, line, number).tokens == seq![token] + scan_from(
            source,
            next,
            after,
            number,
        ).tokens,
        scan_from(source, at, line, number).errors == scan_from(source, next, after, number).errors,
{
    lemma_scan_one(source, at, line, number);
    let rest = scan_from(source, next, after, number);
    assert(Seq::<LexicalErrorView>::empty() + rest.errors =~= rest.errors);
}

/// A space gives no token.
pub proof fn lemma_scan_space(
    source: Seq<char>,
    at: int,
    line: u64,
    number: spec_fn(Seq<char>) -> u64,
)
    requires
        0 <= at < source.len(),
        source[at] == ' ',
    ensures
        scan_from(source, at, line, number).tokens == scan_from(source, at + 1, line, number).tokens,
        scan_from(source, at, line, number).errors == scan_from(source, at + 1, line, number).errors,
{
    lemma_scan_one(source, at, line, number);
    let rest = scan_from(source, at + 1, line, number);
    assert(Seq::<TokenView>::empty() + rest.tokens =~= rest.tokens);
    assert(Seq::<LexicalErrorView>::empty() + rest.errors =~= rest.errors);
}

/// A parenthesis is a token by itself.
pub proof fn lemma_step_parenthesis(
    source: Seq<char>,
    at: int,
    line: u64,
    number: spec_fn(Seq<char>) -> u64,
)
    requires
        0 <= at < source.len(),
        source[at] == '(' || source[at] == ')',
    ensures
        scan_step(source, at, line, number).next == at + 1,
        scan_step(source, at, line, number).line == line,
        scan_step(source, at, line, number).error.is_none(),
        source[at] == '(' ==> scan_step(source, at, line, number).token == Some(
            plain_token(TokenType::LeftParen, "("@, line),
        ),
        source[at] == ')' ==> scan_step(source, at, line, number).token == Some(
            plain_token(TokenType::RightParen, ")"@, line),
        ),
{
    reveal_strlit("(");
    reveal_strlit(")");
    if source[at] == '(' {
        assert(source.subrange(at, at + 1) =~= "("@);
    } else {
        assert(source.subrange(at, at + 1) =~= ")"@);
    }
}

/// An operator that a space follows is a token by itself.
pub proof fn lemma_step_operator(
    source: Seq<char>,
    at: int,
    line: u64,
    number: spec_fn(Seq<char>) -> u64,
    type_: TokenType,
)
    requires
        unary_operator(type_) || binary_operator(type_),
        0 <= at,
        at + symbol(type_).len() < source.len(),
        source.subrange(at, at + symbol(type_).len()) == symbol(type_),
        source[at + symbol(type_).len()] == ' ',
    ensures
        symbol(type_).len() > 0,
        scan_step(source, at, line, number).next == at + symbol(type_).len(),
        scan_step(source, at, line, number).line == line,
        scan_step(source, at, line, number).error.is_none(),
        scan_step(source, at, line, number).token == Some(
            plain_token(type_, symbol(type_), line),
        ),
{
    reveal_strlit("-");
    reveal_strlit("+");
    reveal_strlit("/");
    reveal_strlit("*");
    reveal_strlit("!");
    reveal_strlit("!=");
    reveal_strlit("==");
    reveal_strlit(">");
    reveal_strlit(">=");
    reveal_strlit("<");
    reveal_strlit("<=");
    let written = symbol(type_);
    let length = written.len() as int;
    assert(source.subrange(at, at + length)[0] == source[at]);
    if length == 2 {
        assert(source.subrange(at, at + length)[1] == source[at + 1]);
    }
    assert(source.subrange(at, at + length) =~= written);
}

/// A reserved word that no letter or digit follows is a token by itself.
pub proof fn lemma_step_word(
    source: Seq<char>,
    at: int,
    line: u64,
    number: spec_fn(Seq<char>) -> u64,
    word: Seq<char>,
    type_: TokenType,
)
    requires
        0 <= at,
        word.len() > 0,
        at + word.len() <= source.len(),
        source.subrange(at, at + word.len()) == word,
        alpha(word[0]),
        forall|i: int| 0 <= i < word.len() ==> alpha_numeric(#[trigger] word[i]),
        keyword(word) == Some(type_),
        !alpha_numeric(char_at(source, at + word.len())),
    ensures
        scan_step(source, at, line, number).next == at + word.len(),
        scan_step(source, at, line, number).line == line,
        scan_step(source, at, line, number).error.is_none(),
        scan_step(source, at, line, number).token == Some(plain_token(type_, word, line)),
{
    let length = word.len() as int;
    assert forall|i: int| 0 <= i < length implies source[at + i] == word[i] by {
        assert(source.subrange(at, at + length)[i] == source[at + i]);
    }
    assert forall|i: int| at + 1 <= i < at + length implies alpha_numeric(
        #[trigger] source[i],
    ) by {
        assert(source[i] == word[i - at]);
    }
    lemma_span_end_is(source, at + 1, at + length, |c: char| alpha_numeric(c));
    assert(source[at] == word[0]);
}

/// A string literal without a double quote inside is a token by itself.
pub proof fn lemma_step_string(
    source: Seq<char>,
    at: int,
    line: u64,
    number: spec_fn(Seq<char>) -> u64,
    string: Seq<char>,
)
    requires
        0 <= at,
        at + string.len() + 2 <= source.len(),
        source.subrange(at, at + string.len() + 2) == "\""@ + string + "\""@,
        forall|i: int| 0 <= i < string.len() ==> string[i] != '"',
    ensures
        scan_step(source, at, line, number).next == at + string.len() + 2,
        scan_step(source, at, line, number).line == line_after(
            string,
            0,
            string.len() as int,
            line,
        ),
        scan_step(source, at, line, number).error.is_none(),
        scan_step(source, at, line, number).token == Some(
            literal_token(Value::String(string), line, |bits: u64| Seq::<char>::empty()),
        ),
{
    reveal_strlit("\"");
    let form = "\""@ + string + "\""@;
    let length = string.len() as int;
    assert forall|i: int| 0 <= i < length + 2 implies source[at + i] == form[i] by {
        assert(source.subrange(at, at + length + 2)[i] == source[at + i]);
    }
    assert(source[at] == form[0]);
    assert(source[at + length + 1] == form[length + 1]);
    assert forall|i: int| at + 1 <= i < at + 1 + length implies not_quote(#[trigger] source[i]) by {
        assert(source[i] == form[i - at]);
        assert(form[i - at] == string[i - at - 1]);
    }
    lemma_span_end_is(source, at + 1, at + 1 + length, |c: char| not_quote(c));
    assert forall|i: int| 0 <= i < length implies source[at + 1 + i] == string[i] by {
        assert(source[at + 1 + i] == form[1 + i]);
    }
    lemma_line_after_text(source, at + 1, at + 1 + length, string, line);
    assert(source.subrange(at + 1, at + 1 + length) =~= string);
    assert(source.subrange(at, at + length + 2) =~= form);
}

/// The printed form of an expression with an operator, taken apart.
pub proof fn lemma_printed_parts(expr: ExprView, text: spec_fn(u64) -> Seq<char>)
    ensures
        expr matches ExprView::Grouping { expression } ==> printed(expr, text) == seq!['(']
            + printed(*expression, text) + seq![')'],
        expr matches ExprView::Unary { operator, right } ==> printed(expr, text) == seq!['(']
            + operator.lexeme + seq![' '] + printed(*right, text) + seq![')'],
        expr matches ExprView::Binary { left, operator, right } ==> printed(expr, text) == seq![
            '(',
        ] + printed(*left, text) + seq![' '] + operator.lexeme + seq![' '] + printed(
            *right,
            text,
        ) + seq![')'],
{
    reveal_strlit("(");
    reveal_strlit(" ");
    reveal_strlit(")");
    assert("("@ =~= seq!['(']);
    assert(" "@ =~= seq![' ']);
    assert(")"@ =~= seq![')']);
    match expr {
        ExprView::Grouping { expression } => {
            let inner = printed(*expression, text);
            assert(spaced(Seq::<Seq<char>>::empty(), 0) =~= Seq::<char>::empty());
            assert(printed(expr, text) =~= seq!['('] + inner + seq![')']);
        },
        ExprView::Unary { operator, right } => {
            let inner = printed(*right, text);
            let parts = seq![inner];
            assert(spaced(parts, 1) =~= Seq::<char>::empty());
            assert(spaced(parts, 0) =~= seq![' '] + inner);
            assert(printed(expr, text) =~= seq!['('] + operator.lexeme + seq![' '] + inner + seq![
                ')',
            ]);
        },
        ExprView::Binary { left, operator, right } => {
            let first = printed(*left, text);
            let second = printed(*right, text);
            let parts = seq![operator.lexeme, second];
            assert(spaced(parts, 2) =~= Seq::<char>::empty());
            assert(spaced(parts, 1) =~= seq![' '] + second);
            assert(spaced(parts, 0) =~= seq![' '] + operator.lexeme + seq![' '] + second);
            assert(printed(expr, text) =~= seq!['('] + first + seq![' '] + operator.lexeme + seq![
                ' ',
            ] + second + seq![')']);
        },
        _ => {},
    }
}

/// Whether the printed form of the expression stands in the source at `at`
/// and what follows it ends a word.
pub open spec fn stands_at(
    expr: ExprView,
    source: Seq<char>,
    at: int,
    text: spec_fn(u64) -> Seq<char>,
) -> bool {
    &&& 0 <= at
    &&& at + printed(expr, text).len() <= source.len()
    &&& source.subrange(at, at + printed(expr, text).len()) == printed(expr, text)
    &&& boundary(char_at(source, at + printed(expr, text).len()))
}

/// Whether scanning from `at` on gives the tokens of the printed form of the
/// expression, then what scanning gives behind the form.
pub open spec fn scans_at(
    expr: ExprView,
    source: Seq<char>,
    at: int,
    line: u64,
    number: spec_fn(Seq<char>) -> u64,
    text: spec_fn(u64) -> Seq<char>,
) -> bool {
    let behind = scan_from(source, at + printed(expr, text).len(), end_line(expr, line), number);
    &&& printed(expr, text).len() > 0
    &&& scan_from(source, at, line, number).tokens == printed_tokens(expr, line, text)
        + behind.tokens
    &&& scan_from(source, at, line, number).errors == behind.errors
}

/// Where the printed form of an expression with an operator stands, the
/// printed forms of its operands stand inside it.
pub proof fn lemma_operands_stand(
    expr: ExprView,
    source: Seq<char>,
    at: int,
    text: spec_fn(u64) -> Seq<char>,
)
    requires
        spelled(expr),
        stands_at(expr, source, at, text),
    ensures
        expr matches ExprView::Grouping { expression } ==> {
            &&& source[at] == '('
            &&& stands_at(*expression, source, at + 1, text)
            &&& source[at + 1 + printed(*expression, text).len()] == ')'
            &&& printed(expr, text).len() == printed(*expression, text).len() + 2
        },
        expr matches ExprView::Unary { operator, right } ==> {
            &&& source[at] == '('
            &&& source.subrange(at + 1, at + 2) == operator.lexeme
            &&& source[at + 2] == ' '
            &&& stands_at(*right, source, at + 3, text)
            &&& source[at + 3 + printed(*right, text).len()] == ')'
            &&& printed(expr, text).len() == printed(*right, text).len() + 4
        },
        expr matches ExprView::Binary { left, operator, right } ==> {
            let space = at + 1 + printed(*left, text).len();
            let gap = space + 1 + operator.lexeme.len();
            let close = gap + 1 + printed(*right, text).len();
            &&& source[at] == '('
            &&& stands_at(*left, source, at + 1, text)
            &&& source[space] == ' '
            &&& source.subrange(space + 1, gap) == operator.lexeme
            &&& source[gap] == ' '
            &&& stands_at(*right, source, gap + 1, text)
            &&& source[close] == ')'
            &&& printed(expr, text).len() == close + 1 - at
        },
{
    let form = printed(expr, text);
    let length = form.len() as int;
    assert forall|i: int| 0 <= i < length implies source[at + i] == form[i] by {
        assert(source.subrange(at, at + length)[i] == source[at + i]);
    }
    lemma_printed_parts(expr, text);
    match expr {
        ExprView::Grouping { expression } => {
            let inner = printed(*expression, text);
            assert(source[at] == form[0]);
            assert(source[at + length - 1] == form[length - 1]);
            assert forall|i: int| 0 <= i < inner.len() implies source[at + 1 + i] == inner[i] by {
                assert(source[at + 1 + i] == form[1 + i]);
            }
            assert(source.subrange(at + 1, at + 1 + inner.len()) =~= inner);
        },
        ExprView::Unary { operator, right } => {
            reveal_strlit("-");
            reveal_strlit("!");
            let inner = printed(*right, text);
            assert(operator.lexeme.len() == 1);
            assert(source[at] == form[0]);
            assert(source[at + 1] == form[1]);
            assert(source[at + 2] == form[2]);
            assert(source[at + length - 1] == form[length - 1]);
            assert(source.subrange(at + 1, at + 2) =~= operator.lexeme);
            assert forall|i: int| 0 <= i < inner.len() implies source[at + 3 + i] == inner[i] by {
                assert(source[at + 3 + i] == form[3 + i]);
            }
            assert(source.subrange(at + 3, at + 3 + inner.len()) =~= inner);
        },
        ExprView::Binary { left, operator, right } => {
            let first = printed(*left, text);
            let second = printed(*right, text);
            let written = operator.lexeme;
            let space = at + 1 + first.len();
            let sign = space + 1;
            let gap = sign + written.len();
            let operand = gap + 1;
            let close = operand + second.len();
            assert(length == first.len() + written.len() + second.len() + 4);
            assert(source[at] == form[0]);
            assert(source[space] == form[space - at]);
            assert(source[gap] == form[gap - at]);
            assert(source[close] == form[close - at]);
            assert forall|i: int| 0 <= i < first.len() implies source[at + 1 + i] == first[i] by {
                assert(source[at + 1 + i] == form[1 + i]);
            }
            assert(source.subrange(at + 1, space) =~= first);
            assert forall|i: int| 0 <= i < written.len() implies source[sign + i]
                == written[i] by {
                assert(source[sign + i] == form[sign - at + i]);
            }
            assert(source.subrange(sign, gap) =~= written);
            assert forall|i: int| 0 <= i < second.len() implies source[operand + i]
                == second[i] by {
                assert(source[operand + i] == form[operand - at + i]);
            }
            assert(source.subrange(operand, close) =~= second);
        },
        _ => {},
    }
}

/// Scanning goes over a printed literal as one token.
pub proof fn lemma_scan_literal(
    expr: ExprView,
    source: Seq<char>,
    at: int,
    line: u64,
    number: spec_fn(Seq<char>) -> u64,
    text: spec_fn(u64) -> Seq<char>,
)
    requires
        expr is Literal,
        spelled(expr),
        numbers_read_back(expr, number, text),
        stands_at(expr, source, at, text),
    ensures
        scans_at(expr, source, at, line, number, text),
{
    let literal = expr->Literal_literal;
    let form = printed(expr, text);
    let length = form.len() as int;
    let token = literal_token(literal, line, text);
    assert forall|i: int| 0 <= i < length implies source[at + i] == form[i] by {
        assert(source.subrange(at, at + length)[i] == source[at + i]);
    }
    match literal {
        Value::Null => {
            reveal_strlit("nil");
            lemma_literals_are_reserved();
            lemma_step_word(source, at, line, number, "nil"@, TokenType::Nil);
        },
        Value::Boolean(b) => {
            reveal_strlit("true");
            reveal_strlit("false");
            lemma_literals_are_reserved();
            if b {
                lemma_step_word(source, at, line, number, "true"@, TokenType::True);
            } else {
                lemma_step_word(source, at, line, number, "false"@, TokenType::False);
            }
        },
        Value::Number(bits) => {
            assert(source[at] == form[0]);
            lemma_number_ends(source, at, form);
            assert(source.subrange(at, at + length) =~= form);
        },
        Value::String(string) => {
            reveal_strlit("\"");
            lemma_step_string(source, at, line, number, string);
        },
    }
    let step = scan_step(source, at, line, number);
    assert(step.token == Some(token));
    lemma_scan_token(source, at, line, number, token, at + length, end_line(expr, line));
    assert(printed_tokens(expr, line, text) =~= seq![token]);
}

/// Scanning goes over a printed grouping: `(`, what stands inside, `)`.
pub proof fn lemma_scan_grouping(
    expr: ExprView,
    source: Seq<char>,
    at: int,
    line: u64,
    number: spec_fn(Seq<char>) -> u64,
    text: spec_fn(u64) -> Seq<char>,
)
    requires
        expr is Grouping,
        spelled(expr),
        stands_at(expr, source, at, text),
        scans_at(*expr->Grouping_expression, source, at + 1, line, number, text),
    ensures
        scans_at(expr, source, at, line, number, text),
{
    let inner = *expr->Grouping_expression;
    let length = printed(expr, text).len() as int;
    let last = end_line(inner, line);
    let behind = scan_from(source, at + length, last, number);
    lemma_operands_stand(expr, source, at, text);
    lemma_step_parenthesis(source, at, line, number);
    lemma_step_parenthesis(source, at + length - 1, last, number);
    let open = plain_token(TokenType::LeftParen, "("@, line);
    let close = plain_token(TokenType::RightParen, ")"@, last);
    lemma_scan_token(source, at, line, number, open, at + 1, line);
    lemma_scan_token(source, at + length - 1, last, number, close, at + length, last);
    assert(scan_from(source, at, line, number).tokens =~= printed_tokens(expr, line, text)
        + behind.tokens);
}

/// Scanning goes over a printed unary expression: `(`, the operator, the
/// operand, `)`.
pub proof fn lemma_scan_unary(
    expr: ExprView,
    source: Seq<char>,
    at: int,
    line: u64,
    number: spec_fn(Seq<char>) -> u64,
    text: spec_fn(u64) -> Seq<char>,
)
    requires
        expr is Unary,
        spelled(expr),
        stands_at(expr, source, at, text),
        scans_at(*expr->Unary_right, source, at + 3, line, number, text),
    ensures
        scans_at(expr, source, at, line, number, text),
{
    let operator = expr->Unary_operator;
    let right = *expr->Unary_right;
    let length = printed(expr, text).len() as int;
    let last = end_line(right, line);
    let behind = scan_from(source, at + length, last, number);
    lemma_operands_stand(expr, source, at, text);
    lemma_symbol_length(operator.type_);
    lemma_step_parenthesis(source, at, line, number);
    lemma_step_operator(source, at + 1, line, number, operator.type_);
    lemma_step_parenthesis(source, at + length - 1, last, number);
    let open = plain_token(TokenType::LeftParen, "("@, line);
    let sign = plain_token(operator.type_, operator.lexeme, line);
    let close = plain_token(TokenType::RightParen, ")"@, last);
    lemma_scan_token(source, at, line, number, open, at + 1, line);
    lemma_scan_token(source, at + 1, line, number, sign, at + 2, line);
    lemma_scan_space(source, at + 2, line, number);
    lemma_scan_token(source, at + length - 1, last, number, close, at + length, last);
    assert(scan_from(source, at, line, number).tokens =~= printed_tokens(expr, line, text)
        + behind.tokens);
}

/// Scanning goes over a printed binary expression: `(`, the left operand,
/// the operator, the right operand, `)`.
pub proof fn lemma_scan_binary(
    expr: ExprView,
    source: Seq<char>,
    at: int,
    line: u64,
    number: spec_fn(Seq<char>) -> u64,
    text: spec_fn(u64) -> Seq<char>,
)
    requires
        expr is Binary,
        spelled(expr),
        stands_at(expr, source, at, text),
        scans_at(*expr->Binary_left, source, at + 1, line, number, text),
        scans_at(
            *expr->Binary_right,
            source,
            at + 1 + printed(*expr->Binary_left, text).len() + 1
                + expr->Binary_operator.lexeme.len() + 1,
            end_line(*expr->Binary_left, line),
            number,
            text,
        ),
    ensures
        scans_at(expr, source, at, line, number, text),
{
    let left = *expr->Binary_left;
    let operator = expr->Binary_operator;
    let right = *expr->Binary_right;
    let length = printed(expr, text).len() as int;
    let middle = end_line(left, line);
    let last = end_line(right, middle);
    let space = at + 1 + printed(left, text).len();
    let sign = space + 1;
    let gap = sign + operator.lexeme.len();
    let behind = scan_from(source, at + length, last, number);
    lemma_operands_stand(expr, source, at, text);
    lemma_symbol_length(operator.type_);
    lemma_step_parenthesis(source, at, line, number);
    lemma_step_operator(source, sign, middle, number, operator.type_);
    lemma_step_parenthesis(source, at + length - 1, last, number);
    let open = plain_token(TokenType::LeftParen, "("@, line);
    let between = plain_token(operator.type_, operator.lexeme, middle);
    let close = plain_token(TokenType::RightParen, ")"@, last);
    lemma_scan_token(source, at, line, number, open, at + 1, line);
    lemma_scan_space(source, space, middle, number);
    lemma_scan_token(source, sign, middle, number, between, gap, middle);
    lemma_scan_space(source, gap, middle, number);
    lemma_scan_token(source, at + length - 1, last, number, close, at + length, last);
    assert(scan_from(source, at, line, number).tokens =~= printed_tokens(expr, line, text)
        + behind.tokens);
}

/// Scanning goes over the printed form of a closed expression token by
/// token, wherever the form stands in a source, as long as what follows it
/// ends a word.
pub proof fn lemma_scan_printed(
    expr: ExprView,
    source: Seq<char>,
    at: int,
    line: u64,
    number: spec_fn(Seq<char>) -> u64,
    text: spec_fn(u64) -> Seq<char>,
)
    requires
        closed(expr),
        spelled(expr),
        numbers_read_back(expr, number, text),
        stands_at(expr, source, at, text),
    ensures
        scans_at(expr, source, at, line, number, text),
    decreases expr,
{
    lemma_operands_stand(expr, source, at, text);
    match expr {
        ExprView::Literal { literal } => {
            lemma_scan_literal(expr, source, at, line, number, text);
        },
        ExprView::Grouping { expression } => {
            lemma_scan_printed(*expression, source, at + 1, line, number, text);
            lemma_scan_grouping(expr, source, at, line, number, text);
        },
        ExprView::Unary { operator, right } => {
            lemma_scan_printed(*right, source, at + 3, line, number, text);
            lemma_scan_unary(expr, source, at, line, number, text);
        },
        ExprView::Binary { left, operator, right } => {
            let operand = at + 1 + printed(*left, text).len() + 1 + operator.lexeme.len() + 1;
            lemma_scan_printed(*left, source, at + 1, line, number, text);
            lemma_scan_printed(*right, source, operand, end_line(*left, line), number, text);
            lemma_scan_binary(expr, source, at, line, number, text);
        },
        _ => {},
    }
}

/// An operator is written with one or two characters.
pub proof fn lemma_symbol_length(type_: TokenType)
    requires
        unary_operator(type_) || binary_operator(type_),
    ensures
        1 <= symbol(type_).len() <= 2,
{
    reveal_strlit("-");
    reveal_strlit("+");
    reveal_strlit("/");
    reveal_strlit("*");
    reveal_strlit("!");
    reveal_strlit("!=");
    reveal_strlit("==");
    reveal_strlit(">");
    reveal_strlit(">=");
    reveal_strlit("<");
    reveal_strlit("<=");
}

/// The production of a precedence level: equality (0), comparison (1), term
/// (2), factor (3), and unary above them.
pub open spec fn parse_level(tokens: Seq<TokenView>, at: int, level: nat) -> Parsed<ExprView> {
    if level == 0 {
        parse_equality(tokens, at)
    } else if level == 1 {
        parse_comparison(tokens, at)
    } else if level == 2 {
        parse_term(tokens, at)
    } else if level == 3 {
        parse_factor(tokens, at)
    } else {
        parse_unary(tokens, at)
    }
}

/// Where no operator of the levels from `low` on follows what a level above
/// them parsed, every level down to `low` parses the same.
pub proof fn lemma_climb(
    tokens: Seq<TokenView>,
    at: int,
    low: nat,
    high: nat,
    expr: ExprView,
    consumed: nat,
)
    requires
        low <= high <= 4,
        parse_level(tokens, at, high) == accepted(expr, consumed),
        forall|level: nat|
            low <= level < high ==> !#[trigger] is_operator(level, type_at(tokens, at + consumed)),
    ensures
        parse_level(tokens, at, low) == accepted(expr, consumed),
    decreases high - low,
{
    if low < high {
        lemma_climb(tokens, at, low + 1, high, expr, consumed);
        assert(!is_operator(low, type_at(tokens, at + consumed)));
        lemma_chain(tokens, at + consumed, expr, low);
        lemma_factor(tokens, at);
        lemma_term(tokens, at);
        lemma_comparison(tokens, at);
        lemma_equality(tokens, at);
    }
}

/// What ends an expression: `)`, `;` or the end of the tokens.
pub open spec fn closes(type_: TokenType) -> bool {
    type_ == TokenType::RightParen || type_ == TokenType::Semicolon || type_ == TokenType::Eof
}

/// A unary expression that is followed by what ends an expression is a whole
/// expression.
pub proof fn lemma_whole_expression(
    tokens: Seq<TokenView>,
    at: int,
    level: nat,
    expr: ExprView,
    consumed: nat,
)
    requires
        level <= 4,
        parse_level(tokens, at, level) == accepted(expr, consumed),
        closes(type_at(tokens, at + consumed)),
    ensures
        parse_expression(tokens, at) == accepted(expr, consumed),
{
    lemma_climb(tokens, at, 0, level, expr, consumed);
    lemma_assignment(tokens, at);
    lemma_expression(tokens, at);
}

/// Two operands with an operator between them, followed by what ends an
/// expression, are one binary expression.
pub proof fn lemma_binary_expression(
    tokens: Seq<TokenView>,
    at: int,
    left: ExprView,
    left_consumed: nat,
    right: ExprView,
    right_consumed: nat,
)
    requires
        0 <= at,
        at + left_consumed < tokens.len(),
        parse_unary(tokens, at) == accepted(left, left_consumed),
        binary_operator(type_at(tokens, at + left_consumed)),
        parse_unary(tokens, at + left_consumed + 1) == accepted(right, right_consumed),
        closes(type_at(tokens, at + left_consumed + 1 + right_consumed)),
    ensures
        parse_expression(tokens, at) == accepted(
            ExprView::Binary {
                left: Box::new(left),
                operator: tokens[at + left_consumed],
                right: Box::new(right),
            },
            left_consumed + 1 + right_consumed,
        ),
{
    let sign = at + left_consumed;
    let level = level_of(type_at(tokens, sign));
    let end = sign + 1 + right_consumed;
    let whole = ExprView::Binary {
        left: Box::new(left),
        operator: tokens[sign],
        right: Box::new(right),
    };
    lemma_climb(tokens, at, level + 1, 4, left, left_consumed);
    lemma_climb(tokens, sign + 1, level + 1, 4, right, right_consumed);
    lemma_operand(tokens, sign + 1, level);
    lemma_chain(tokens, sign, left, level);
    lemma_chain(tokens, end, whole, level);
    lemma_factor(tokens, at);
    lemma_term(tokens, at);
    lemma_comparison(tokens, at);
    lemma_equality(tokens, at);
    assert(parse_level(tokens, at, level) == accepted(
        whole,
        left_consumed + 1 + right_consumed,
    ));
    lemma_whole_expression(tokens, at, level, whole, left_consumed + 1 + right_consumed);
}

/// Parsing takes the tokens of the printed form of a closed expression for
/// the expression read back, wherever they stand in a token list.
pub proof fn lemma_parse_printed(
    expr: ExprView,
    tokens: Seq<TokenView>,
    at: int,
    line: u64,
    text: spec_fn(u64) -> Seq<char>,
)
    requires
        closed(expr),
        spelled(expr),
        0 <= at,
        at + printed_tokens(expr, line, text).len() <= tokens.len(),
        tokens.subrange(at, at + printed_tokens(expr, line, text).len()) == printed_tokens(
            expr,
            line,
            text,
        ),
    ensures
        printed_tokens(expr, line, text).len() > 0,
        parse_unary(tokens, at) == accepted(
            read_back(expr, line),
            printed_tokens(expr, line, text).len(),
        ),
    decreases expr,
{
    let form = printed_tokens(expr, line, text);
    let length = form.len() as int;
    assert forall|i: int| 0 <= i < length implies tokens[at + i] == form[i] by {
        assert(tokens.subrange(at, at + length)[i] == tokens[at + i]);
    }
    match expr {
        ExprView::Literal { literal } => {
            assert(tokens[at] == form[0]);
            lemma_primary(tokens, at);
            lemma_unary(tokens, at);
        },
        ExprView::Grouping { expression } => {
            let inner = printed_tokens(*expression, line, text);
            let inner_length = inner.len() as int;
            assert(length == inner_length + 2);
            assert(tokens[at] == form[0]);
            assert(tokens[at + length - 1] == form[length - 1]);
            assert(tokens.subrange(at + 1, at + 1 + inner_length) =~= inner) by {
                assert forall|i: int| 0 <= i < inner_length implies tokens[at + 1 + i]
                    == inner[i] by {
                    assert(tokens[at + 1 + i] == form[1 + i]);
                }
            }
            lemma_parse_printed(*expression, tokens, at + 1, line, text);
            lemma_whole_expression(
                tokens,
                at + 1,
                4,
                read_back(*expression, line),
                inner_length as nat,
            );
            lemma_primary(tokens, at);
            lemma_unary(tokens, at);
        },
        ExprView::Unary { operator, right } => {
            let inner = printed_tokens(*right, line, text);
            let inner_length = inner.len() as int;
            assert(length == inner_length + 3);
            assert(tokens[at] == form[0]);
            assert(tokens[at + 1] == form[1]);
            assert(tokens[at + length - 1] == form[length - 1]);
            assert(tokens.subrange(at + 2, at + 2 + inner_length) =~= inner) by {
                assert forall|i: int| 0 <= i < inner_length implies tokens[at + 2 + i]
                    == inner[i] by {
                    assert(tokens[at + 2 + i] == form[2 + i]);
                }
            }
            lemma_parse_printed(*right, tokens, at + 2, line, text);
            lemma_unary(tokens, at + 1);
            let signed = ExprView::Unary {
                operator: tokens[at + 1],
                right: Box::new(read_back(*right, line)),
            };
            lemma_whole_expression(tokens, at + 1, 4, signed, (1 + inner_length) as nat);
            lemma_primary(tokens, at);
            lemma_unary(tokens, at);
        },
        ExprView::Binary { left, operator, right } => {
            let middle = end_line(*left, line);
            let first = printed_tokens(*left, line, text);
            let second = printed_tokens(*right, middle, text);
            let sign = at + 1 + first.len();
            let close = sign + 1 + second.len();
            assert(length == first.len() + second.len() + 3);
            assert(tokens[at] == form[0]);
            assert(tokens[sign] == form[sign - at]);
            assert(tokens[close] == form[close - at]);
            assert(tokens.subrange(at + 1, sign) =~= first) by {
                assert forall|i: int| 0 <= i < first.len() implies tokens[at + 1 + i]
                    == first[i] by {
                    assert(tokens[at + 1 + i] == form[1 + i]);
                }
            }
            assert(tokens.subrange(sign + 1, close) =~= second) by {
                assert forall|i: int| 0 <= i < second.len() implies tokens[sign + 1 + i]
                    == second[i] by {
                    assert(tokens[sign + 1 + i] == form[sign + 1 - at + i]);
                }
            }
            lemma_parse_printed(*left, tokens, at + 1, line, text);
            lemma_parse_printed(*right, tokens, sign + 1, middle, text);
            lemma_binary_expression(
                tokens,
                at + 1,
                read_back(*left, line),
                first.len(),
                read_back(*right, middle),
                second.len(),
            );
            lemma_primary(tokens, at);
            lemma_unary(tokens, at);
        },
        _ => {},
    }
}

/// A closed expression leaves the scopes as they are, and so does the
/// expression read back; where the first has a value, the second has the
/// same.
pub proof fn lemma_evaluate_read_back(
    expr: ExprView,
    line: u64,
    scopes: Scopes,
    arithmetic: spec_fn(Arithmetic, u64, u64) -> u64,
)
    requires
        closed(expr),
    ensures
        evaluate_expr(expr, scopes, arithmetic).scopes == scopes,
        evaluate_expr(read_back(expr, line), scopes, arithmetic).scopes == scopes,
        evaluate_expr(expr, scopes, arithmetic).result is Ok ==> evaluate_expr(
            read_back(expr, line),
            scopes,
            arithmetic,
        ).result == evaluate_expr(expr, scopes, arithmetic).result,
    decreases expr,
{
    match expr {
        ExprView::Grouping { expression } => {
            lemma_evaluate_read_back(*expression, line, scopes, arithmetic);
        },
        ExprView::Unary { operator, right } => {
            lemma_evaluate_read_back(*right, line, scopes, arithmetic);
            let grouped = read_back(expr, line);
            assert(evaluate_expr(grouped, scopes, arithmetic) == evaluate_expr(
                *grouped->Grouping_expression,
                scopes,
                arithmetic,
            ));
        },
        ExprView::Binary { left, operator, right } => {
            let middle = end_line(*left, line);
            lemma_evaluate_read_back(*left, line, scopes, arithmetic);
            lemma_evaluate_read_back(*right, middle, scopes, arithmetic);
            let grouped = read_back(expr, line);
            assert(evaluate_expr(grouped, scopes, arithmetic) == evaluate_expr(
                *grouped->Grouping_expression,
                scopes,
                arithmetic,
            ));
        },
        _ => {},
    }
}

/// Every closed expression as the parser gives it keeps its value through
/// printing, scanning and parsing, where the decimal text of each of its
/// numbers is a number literal with the number as its value. Its printed
/// form scans without an error and parses, as a whole, to an expression that
/// has the same value; and the printed form with `;` behind it parses to
/// that expression as one statement.
pub proof fn theorem_value_survives_round_trip(
    expr: ExprView,
    scopes: Scopes,
    number: spec_fn(Seq<char>) -> u64,
    arithmetic: spec_fn(Arithmetic, u64, u64) -> u64,
    text: spec_fn(u64) -> Seq<char>,
)
    requires
        closed(expr),
        spelled(expr),
        numbers_read_back(expr, number, text),
        evaluate_expr(expr, scopes, arithmetic).result is Ok,
    ensures
        ({
            let scanned = scan_text(printed(expr, text), number);
            let parsed = parse_expression(scanned.tokens, 0);
            &&& scanned.errors.len() == 0
            &&& parsed.node is Some
            &&& parsed.errors.len() == 0
            &&& parsed.consumed + 1 == scanned.tokens.len()
            &&& evaluate_expr(parsed.node->0, scopes, arithmetic).result == evaluate_expr(
                expr,
                scopes,
                arithmetic,
            ).result
        }),
        ({
            let scanned = scan_text(printed(expr, text) + ";"@, number);
            let parsed = parse_tokens(scanned.tokens);
            &&& scanned.errors.len() == 0
            &&& parsed.errors.len() == 0
            &&& parsed.node is Some
            &&& parsed.node->0.len() == 1
            &&& parsed.node->0[0] is Expression
            &&& evaluate_expr(
                parsed.node->0[0]->Expression_expression,
                scopes,
                arithmetic,
            ).result == evaluate_expr(expr, scopes, arithmetic).result
        }),
{
    let form = printed(expr, text);
    let tokens = printed_tokens(expr, 1, text);
    let last = end_line(expr, 1);
    let back = read_back(expr, 1);
    lemma_evaluate_read_back(expr, 1, scopes, arithmetic);
    // The printed form by itself.
    assert(form.subrange(0, form.len() as int) =~= form);
    assert(stands_at(expr, form, 0, text));
    lemma_scan_printed(expr, form, 0, 1, number, text);
    let scanned = scan_text(form, number);
    assert(scan_from(form, form.len() as int, last, number).tokens =~= seq![end_token(last)]);
    assert(scanned.tokens =~= tokens + seq![end_token(last)]);
    assert(scanned.tokens.subrange(0, tokens.len() as int) =~= tokens);
    assert(scanned.tokens[tokens.len() as int] == end_token(last));
    lemma_parse_printed(expr, scanned.tokens, 0, 1, text);
    lemma_whole_expression(scanned.tokens, 0, 4, back, tokens.len());
    // The printed form as a statement.
    reveal_strlit(";");
    let source = form + ";"@;
    assert(source.subrange(0, form.len() as int) =~= form);
    assert(source[form.len() as int] == ';');
    assert(stands_at(expr, source, 0, text));
    lemma_scan_printed(expr, source, 0, 1, number, text);
    let semicolon = plain_token(TokenType::Semicolon, ";"@, last);
    assert(source.subrange(form.len() as int, form.len() as int + 1) =~= ";"@);
    lemma_scan_token(source, form.len() as int, last, number, semicolon, form.len() as int + 1, last);
    assert(scan_from(source, form.len() as int + 1, last, number).tokens =~= seq![end_token(last)]);
    let listed = scan_text(source, number).tokens;
    assert(listed =~= tokens + seq![semicolon, end_token(last)]);
    assert(listed.subrange(0, tokens.len() as int) =~= tokens);
    assert(listed[tokens.len() as int] == semicolon);
    assert(listed[tokens.len() as int + 1] == end_token(last));
    lemma_parse_printed(expr, listed, 0, 1, text);
    lemma_whole_expression(listed, 0, 4, back, tokens.len());
    lemma_first_token(expr, 1, text);
    assert(listed[0] == tokens[0]);
    lemma_terminated(listed, 0, "Expect ';' after expression"@);
    lemma_statement(listed, 0);
    lemma_declaration(listed, 0);
    lemma_list(listed, 0, false);
    lemma_list(listed, tokens.len() as int + 1, false);
    let parsed = parse_tokens(listed);
    assert(parsed.node->0 =~= seq![StmtView::Expression { expression: back }]);
    assert(parsed.errors =~= Seq::<SyntaxErrorView>::empty());
}

/// The printed form of a closed expression begins with `(` or with a
/// literal.
pub proof fn lemma_first_token(expr: ExprView, line: u64, text: spec_fn(u64) -> Seq<char>)
    requires
        closed(expr),
    ensures
        printed_tokens(expr, line, text).len() > 0,
        ({
            let first = printed_tokens(expr, line, text)[0].type_;
            first == TokenType::LeftParen || first == TokenType::Nil || first == TokenType::True
                || first == TokenType::False || first == TokenType::Number || first
                == TokenType::String
        }),
{
}

} // verus!
