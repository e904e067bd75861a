//! The scanner: source text to tokens, in one pass from left to right.
use vstd::prelude::*;
use vstd::string::StrSliceExecFns;
use vstd::string::StringExecFns;
use crate::error;
use crate::support::optional;
use crate::support::same_text;
use crate::support::with_item;
use crate::lexical_views;
use crate::lemma_lexical_views_push;
use crate::LexicalError;
use crate::LexicalErrorView;
use crate::literal_object::Value;
use crate::token::lemma_token_views_push;
use crate::token::token_views;
use crate::token::Literal;
use crate::token::Token;
use crate::token::TokenView;
use crate::token_type::TokenType;

verus! {

pub open spec fn digit(c: char) -> bool {
    '0' <= c && c <= '9'
}

pub open spec fn alpha(c: char) -> bool {
    ('a' <= c && c <= 'z') || ('A' <= c && c <= 'Z') || c == '_'
}

pub open spec fn alpha_numeric(c: char) -> bool {
    alpha(c) || digit(c)
}

pub open spec fn not_newline(c: char) -> bool {
    c != '\n'
}

pub open spec fn not_quote(c: char) -> bool {
    c != '"'
}

/// The character at `index`, or NUL past the end of the text.
pub open spec fn char_at(source: Seq<char>, index: int) -> char {
    if 0 <= index < source.len() {
        source[index]
    } else {
        '\0'
    }
}

/// The end of the longest run of characters of `class` that starts at `from`.
pub open spec fn span_end(source: Seq<char>, from: int, class: spec_fn(char) -> bool) -> int
    decreases source.len() - from,
{
    if 0 <= from < source.len() && class(source[from]) {
        span_end(source, from + 1, class)
    } else {
        from
    }
}

/// The position after the first `*/` at or after `from`, or the end of the
/// text where the comment is never closed.
pub open spec fn comment_end(source: Seq<char>, from: int) -> int
    decreases source.len() - from,
{
    if from < 0 || from >= source.len() {
        from
    } else if source[from] == '*' && char_at(source, from + 1) == '/' {
        from + 2
    } else {
        comment_end(source, from + 1)
    }
}

/// The line number after one more newline. It stops at the largest number.
pub open spec fn bump(line: u64) -> u64 {
    if line < u64::MAX {
        (line + 1) as u64
    } else {
        line
    }
}

/// The line number after the characters from `from` up to `to`, having been
/// `line` before them.
pub open spec fn line_after(source: Seq<char>, from: int, to: int, line: u64) -> u64
    decreases to - from,
{
    if to <= from {
        line
    } else if char_at(source, to - 1) == '\n' {
        bump(line_after(source, from, to - 1, line))
    } else {
        line_after(source, from, to - 1, line)
    }
}

/// The token type of a character that is a token by itself.
pub open spec fn punctuation(c: char) -> Option<TokenType> {
    if c == '(' {
        Some(TokenType::LeftParen)
    } else if c == ')' {
        Some(TokenType::RightParen)
    } else if c == '{' {
        Some(TokenType::LeftBrace)
    } else if c == '}' {
        Some(TokenType::RightBrace)
    } else if c == ',' {
        Some(TokenType::Comma)
    } else if c == '.' {
        Some(TokenType::Dot)
    } else if c == '-' {
        Some(TokenType::Minus)
    } else if c == '+' {
        Some(TokenType::Plus)
    } else if c == ';' {
        Some(TokenType::Semicolon)
    } else if c == '*' {
        Some(TokenType::Star)
    } else {
        None
    }
}

/// For a character that may be followed by `=`: the token type without and
/// with it.
pub open spec fn operator_pair(c: char) -> Option<(TokenType, TokenType)> {
    if c == '!' {
        Some((TokenType::Bang, TokenType::BangEqual))
    } else if c == '=' {
        Some((TokenType::Equal, TokenType::EqualEqual))
    } else if c == '<' {
        Some((TokenType::Less, TokenType::LessEqual))
    } else if c == '>' {
        Some((TokenType::Greater, TokenType::GreaterEqual))
    } else {
        None
    }
}

/// The token type of a reserved word, `None` for any other text.
pub open spec fn keyword(text: Seq<char>) -> Option<TokenType> {
    if text == "and"@ {
        Some(TokenType::And)
    } else if text == "class"@ {
        Some(TokenType::Class)
    } else if text == "else"@ {
        Some(TokenType::Else)
    } else if text == "false"@ {
        Some(TokenType::False)
    } else if text == "for"@ {
        Some(TokenType::For)
    } else if text == "fun"@ {
        Some(TokenType::Fun)
    } else if text == "if"@ {
        Some(TokenType::If)
    } else if text == "nil"@ {
        Some(TokenType::Nil)
    } else if text == "or"@ {
        Some(TokenType::Or)
    } else if text == "print"@ {
        Some(TokenType::Print)
    } else if text == "return"@ {
        Some(TokenType::Return)
    } else if text == "super"@ {
        Some(TokenType::Super)
    } else if text == "this"@ {
        Some(TokenType::This)
    } else if text == "true"@ {
        Some(TokenType::True)
    } else if text == "var"@ {
        Some(TokenType::Var)
    } else if text == "while"@ {
        Some(TokenType::While)
    } else {
        None
    }
}

/// The end of the number literal whose first digit is at `start`: the digits,
/// and a fraction only where a digit follows the point.
pub open spec fn number_end(source: Seq<char>, start: int) -> int {
    let whole = span_end(source, start + 1, |c: char| digit(c));
    if char_at(source, whole) == '.' && digit(char_at(source, whole + 1)) {
        span_end(source, whole + 1, |c: char| digit(c))
    } else {
        whole
    }
}

/// Whether the whole text is one number literal: digits, and after them at
/// most one point with digits behind it.
pub open spec fn number_lexeme(text: Seq<char>) -> bool {
    text.len() > 0 && digit(text[0]) && number_end(text, 0) == text.len()
}

/// What the scanner makes of one lexeme: where the next one starts, the line
/// number there, and the token or the error that the lexeme gives, if any.
pub struct ScanStep {
    pub next: int,
    pub line: u64,
    pub token: Option<TokenView>,
    pub error: Option<LexicalErrorView>,
}

/// A step that emits the text from `start` up to `next` as a token.
pub open spec fn token_step(
    source: Seq<char>,
    start: int,
    next: int,
    line: u64,
    type_: TokenType,
    literal: Value,
) -> ScanStep {
    ScanStep {
        next,
        line,
        token: Some(TokenView { type_, lexeme: source.subrange(start, next), literal, line }),
        error: None,
    }
}

/// A step that emits nothing: white space or a comment.
pub open spec fn skip_step(next: int, line: u64) -> ScanStep {
    ScanStep { next, line, token: None, error: None }
}

/// A step that reports a lexical error and emits no token.
pub open spec fn error_step(next: int, line: u64, message: Seq<char>) -> ScanStep {
    ScanStep { next, line, token: None, error: Some(LexicalErrorView { line, message }) }
}

/// The string literal whose opening quote is at `start`: the text up to the
/// next quote, newlines included, or an error where no quote follows.
pub open spec fn string_step(source: Seq<char>, start: int, line: u64) -> ScanStep {
    let close = span_end(source, start + 1, |c: char| not_quote(c));
    let last_line = line_after(source, start + 1, close, line);
    if close >= source.len() {
        error_step(close, last_line, "Unterminated string"@)
    } else {
        token_step(
            source,
            start,
            close + 1,
            last_line,
            TokenType::String,
            Value::String(source.subrange(start + 1, close)),
        )
    }
}

/// The lexeme that starts at `start`, which lies inside the text. `number`
/// gives the value of a number literal from its text.
pub open spec fn scan_step(
    source: Seq<char>,
    start: int,
    line: u64,
    number: spec_fn(Seq<char>) -> u64,
) -> ScanStep {
    let c = source[start];
    let second = char_at(source, start + 1);
    if punctuation(c) is Some {
        token_step(source, start, start + 1, line, punctuation(c)->0, Value::Null)
    } else if let Some((bare, with_equal)) = operator_pair(c) {
        if second == '=' {
            token_step(source, start, start + 2, line, with_equal, Value::Null)
        } else {
            token_step(source, start, start + 1, line, bare, Value::Null)
        }
    } else if c == '/' {
        if second == '/' {
            skip_step(span_end(source, start + 2, |c: char| not_newline(c)), line)
        } else if second == '*' {
            let end = comment_end(source, start + 2);
            skip_step(end, line_after(source, start + 2, end, line))
        } else {
            token_step(source, start, start + 1, line, TokenType::Slash, Value::Null)
        }
    } else if c == ' ' || c == '\r' || c == '\t' {
        skip_step(start + 1, line)
    } else if c == '\n' {
        skip_step(start + 1, bump(line))
    } else if c == '"' {
        string_step(source, start, line)
    } else if digit(c) {
        let end = number_end(source, start);
        token_step(
            source,
            start,
            end,
            line,
            TokenType::Number,
            Value::Number(number(source.subrange(start, end))),
        )
    } else if alpha(c) {
        let end = span_end(source, start + 1, |c: char| alpha_numeric(c));
        let type_ = match keyword(source.subrange(start, end)) {
            Some(reserved) => reserved,
            None => TokenType::Identifier,
        };
        token_step(source, start, end, line, type_, Value::Null)
    } else {
        error_step(start + 1, line, "Unexpected character"@)
    }
}

/// The tokens and the lexical errors of a text, each in the order of the text.
pub struct ScanOutput {
    pub tokens: Seq<TokenView>,
    pub errors: Seq<LexicalErrorView>,
}

/// The token that ends every token list.
pub open spec fn end_token(line: u64) -> TokenView {
    TokenView { type_: TokenType::Eof, lexeme: Seq::empty(), literal: Value::Null, line }
}

/// Characters that are no newlines leave the line number as it is.
pub proof fn lemma_line_after_same(source: Seq<char>, from: int, to: int, line: u64)
    requires
        forall|i: int| from <= i < to ==> char_at(source, i) != '\n',
    ensures
        line_after(source, from, to, line) == line,
    decreases to - from,
{
    if from < to {
        lemma_line_after_same(source, from, to - 1, line);
    }
}

/// What scanning gives from position `from` on, the line number being `line`
/// there: the lexemes one after another, then the end token.
pub open spec fn scan_from(
    source: Seq<char>,
    from: int,
    line: u64,
    number: spec_fn(Seq<char>) -> u64,
) -> ScanOutput
    decreases source.len() - from,
{
    if from < 0 || from >= source.len() {
        ScanOutput { tokens: seq![end_token(line)], errors: Seq::empty() }
    } else {
        let step = scan_step(source, from, line, number);
        proof {
            lemma_step_moves(source, from, line, number);
        }
        let rest = scan_from(source, step.next, step.line, number);
        ScanOutput {
            tokens: optional(step.token) + rest.tokens,
            errors: optional(step.error) + rest.errors,
        }
    }
}

/// What scanning a whole text gives.
pub open spec fn scan_text(source: Seq<char>, number: spec_fn(Seq<char>) -> u64) -> ScanOutput {
    scan_from(source, 0, 1, number)
}

/// A run ends inside the text, at the first character outside the class.
pub proof fn lemma_span_end(source: Seq<char>, from: int, class: spec_fn(char) -> bool)
    requires
        0 <= from <= source.len(),
    ensures
        from <= span_end(source, from, class) <= source.len(),
        forall|i: int| from <= i < span_end(source, from, class) ==> class(#[trigger] source[i]),
        span_end(source, from, class) < source.len() ==> !class(
            source[span_end(source, from, class)],
        ),
    decreases source.len() - from,
{
    if from < source.len() && class(source[from]) {
        lemma_span_end(source, from + 1, class);
    }
}

/// A run that holds only characters of the class and stops at `end` is the
/// longest one.
pub proof fn lemma_span_end_is(
    source: Seq<char>,
    from: int,
    end: int,
    class: spec_fn(char) -> bool,
)
    requires
        0 <= from <= end <= source.len(),
        forall|i: int| from <= i < end ==> class(#[trigger] source[i]),
        end < source.len() ==> !class(source[end]),
    ensures
        span_end(source, from, class) == end,
    decreases end - from,
{
    if from < end {
        lemma_span_end_is(source, from + 1, end, class);
    }
}

/// The text of a number literal, taken by itself, is a number literal.
pub proof fn lemma_number_lexeme(source: Seq<char>, start: int)
    requires
        0 <= start < source.len(),
        digit(source[start]),
    ensures
        start < number_end(source, start) <= source.len(),
        number_lexeme(source.subrange(start, number_end(source, start))),
{
    let class = |c: char| digit(c);
    let whole = span_end(source, start + 1, class);
    let end = number_end(source, start);
    lemma_span_end(source, start + 1, class);
    if whole + 1 <= source.len() {
        lemma_span_end(source, whole + 1, class);
    }
    let text = source.subrange(start, end);
    assert forall|i: int| 1 <= i < whole - start implies class(#[trigger] text[i]) by {
        assert(text[i] == source[start + i]);
    }
    if char_at(source, whole) == '.' && digit(char_at(source, whole + 1)) {
        assert(text[whole - start] == source[whole]);
        assert(text[whole - start + 1] == source[whole + 1]);
        lemma_span_end_is(text, 1, whole - start, class);
        assert forall|i: int| whole - start + 1 <= i < end - start implies class(
            #[trigger] text[i],
        ) by {
            assert(text[i] == source[start + i]);
        }
        lemma_span_end_is(text, whole - start + 1, end - start, class);
    } else {
        lemma_span_end_is(text, 1, whole - start, class);
    }
}

/// A block comment ends inside the text, after where it began.
pub proof fn lemma_comment_end(source: Seq<char>, from: int)
    requires
        0 <= from <= source.len(),
    ensures
        from <= comment_end(source, from) <= source.len(),
    decreases source.len() - from,
{
    if from < source.len() && !(source[from] == '*' && char_at(source, from + 1) == '/') {
        lemma_comment_end(source, from + 1);
    }
}

/// Every lexeme is at least one character long and ends inside the text.
pub proof fn lemma_step_moves(
    source: Seq<char>,
    start: int,
    line: u64,
    number: spec_fn(Seq<char>) -> u64,
)
    requires
        0 <= start < source.len(),
    ensures
        start < scan_step(source, start, line, number).next <= source.len(),
{
    lemma_span_end(source, start + 1, |c: char| digit(c));
    lemma_span_end(source, start + 1, |c: char| alpha_numeric(c));
    lemma_span_end(source, start + 1, |c: char| not_quote(c));
    let whole = span_end(source, start + 1, |c: char| digit(c));
    if whole + 1 <= source.len() {
        lemma_span_end(source, whole + 1, |c: char| digit(c));
    }
    if start + 2 <= source.len() {
        lemma_span_end(source, start + 2, |c: char| not_newline(c));
        lemma_comment_end(source, start + 2);
    }
}

/// Every token list that scanning gives ends with the end token, which
/// stands nowhere else in it.
pub proof fn lemma_scan_ends(
    source: Seq<char>,
    from: int,
    line: u64,
    number: spec_fn(Seq<char>) -> u64,
)
    ensures
        scan_from(source, from, line, number).tokens.len() > 0,
        scan_from(source, from, line, number).tokens.last().type_ == TokenType::Eof,
        forall|i: int|
            0 <= i < scan_from(source, from, line, number).tokens.len() - 1 ==> (
            #[trigger] scan_from(source, from, line, number).tokens[i]).type_ != TokenType::Eof,
    decreases source.len() - from,
{
    if 0 <= from < source.len() {
        let step = scan_step(source, from, line, number);
        lemma_step_moves(source, from, line, number);
        lemma_scan_ends(source, step.next, step.line, number);
        let rest = scan_from(source, step.next, step.line, number).tokens;
        let whole = scan_from(source, from, line, number).tokens;
        assert(whole == optional(step.token) + rest);
        assert(whole.last() == rest.last());
        assert forall|i: int| 0 <= i < whole.len() - 1 implies (#[trigger] whole[i]).type_
            != TokenType::Eof by {
            if step.token is Some {
                if i > 0 {
                    assert(whole[i] == rest[i - 1]);
                }
            } else {
                assert(whole[i] == rest[i]);
            }
        }
    }
}

/// Whether `read_number` returns, for every text, what `number` gives for it.
pub open spec fn reads_as<P: Fn(String) -> u64>(
    read_number: P,
    number: spec_fn(Seq<char>) -> u64,
) -> bool {
    forall|text: String, bits: u64| #[trigger]
        read_number.ensures((text,), bits) ==> bits == number(text@)
}

/// The token type of a reserved word.
pub fn keyword_type(text: &str) -> (reserved: Option<TokenType>)
    ensures
        reserved == keyword(text@),
{
    if same_text(text, "and") {
        Some(TokenType::And)
    } else if same_text(text, "class") {
        Some(TokenType::Class)
    } else if same_text(text, "else") {
        Some(TokenType::Else)
    } else if same_text(text, "false") {
        Some(TokenType::False)
    } else if same_text(text, "for") {
        Some(TokenType::For)
    } else if same_text(text, "fun") {
        Some(TokenType::Fun)
    } else if same_text(text, "if") {
        Some(TokenType::If)
    } else if same_text(text, "nil") {
        Some(TokenType::Nil)
    } else if same_text(text, "or") {
        Some(TokenType::Or)
    } else if same_text(text, "print") {
        Some(TokenType::Print)
    } else if same_text(text, "return") {
        Some(TokenType::Return)
    } else if same_text(text, "super") {
        Some(TokenType::Super)
    } else if same_text(text, "this") {
        Some(TokenType::This)
    } else if same_text(text, "true") {
        Some(TokenType::True)
    } else if same_text(text, "var") {
        Some(TokenType::Var)
    } else if same_text(text, "while") {
        Some(TokenType::While)
    } else {
        None
    }
}

/// A scanner over one source text. `start` is where the lexeme being scanned
/// begins, `current` the character about to be read, `line` the line of
/// `current`. Tokens and lexical errors gather in `tokens` and `errors`.
pub struct Scanner {
    pub source: String,
    pub characters: Vec<char>,
    pub tokens: Vec<Token>,
    pub errors: Vec<LexicalError>,
    pub start: usize,
    pub current: usize,
    pub line: u64,
}

impl Scanner {
    /// `characters` holds the source, and the two cursors lie in it in order.
    pub open spec fn well_formed(&self) -> bool {
        &&& self.characters@ == self.source@
        &&& self.start <= self.current <= self.characters.len()
    }

    /// `after` is `self` with its cursors and line changed at most.
    pub open spec fn moved_to(&self, after: Scanner) -> bool {
        &&& after.source == self.source
        &&& after.characters == self.characters
        &&& after.tokens == self.tokens
        &&& after.errors == self.errors
        &&& after.start == self.start
    }

    /// `after` is `self` past the lexeme that `step` describes.
    pub open spec fn stepped_to(&self, after: Scanner, step: ScanStep) -> bool {
        &&& after.well_formed()
        &&& after.source == self.source
        &&& after.characters == self.characters
        &&& after.current == step.next
        &&& after.line == step.line
        &&& token_views(after.tokens@) == with_item(token_views(self.tokens@), step.token)
        &&& lexical_views(after.errors@) == with_item(
            lexical_views(self.errors@),
            step.error,
        )
    }

    /// `after` holds the tokens and errors of `self`, then those of `output`.
    pub open spec fn extended_by(&self, after: Scanner, output: ScanOutput) -> bool {
        &&& token_views(after.tokens@) == token_views(self.tokens@) + output.tokens
        &&& lexical_views(after.errors@) == lexical_views(self.errors@) + output.errors
    }

    /// A scanner at the start of `source`, on line 1, with nothing scanned.
    pub fn default(source: &str) -> (scanner: Self)
        ensures
            scanner.well_formed(),
            scanner.source@ == source@,
            scanner.tokens@.len() == 0,
            scanner.errors@.len() == 0,
            scanner.start == 0,
            scanner.current == 0,
            scanner.line == 1,
    {
        let mut characters: Vec<char> = Vec::new();
        for c in all: source.chars()
            invariant
                all.seq() == source@,
                characters@ == source@.subrange(0, all.index() as int),
        {
            characters.push(c);
            assert(characters@ =~= source@.subrange(0, all.index() + 1));
        }
        assert(characters@ =~= source@);
        Scanner {
            source: String::from_str(source),
            characters,
            tokens: Vec::new(),
            errors: Vec::new(),
            start: 0,
            current: 0,
            line: 1,
        }
    }

    /// Scans from `current` to the end of the source and closes the token
    /// list with the end token. The tokens and errors found are appended to
    /// those already there, in the order of the text.
    pub fn scan_tokens<P: Fn(String) -> u64>(&mut self, read_number: &P) -> (tokens: &Vec<Token>)
        requires
            old(self).well_formed(),
            forall|text: String| number_lexeme(text@) ==> #[trigger] read_number.requires((text,)),
        ensures
            final(self).well_formed(),
            final(self).source == old(self).source,
            final(self).current == final(self).characters@.len(),
            final(self).tokens@.len() > 0,
            final(self).tokens@[final(self).tokens@.len() - 1].type_ == TokenType::Eof,
            final(self).tokens@[final(self).tokens@.len() - 1].line == final(self).line,
            *tokens == final(self).tokens,
            forall|number: spec_fn(Seq<char>) -> u64| #[trigger]
                reads_as(*read_number, number) ==> old(self).extended_by(
                    *final(self),
                    scan_from(
                        old(self).source@,
                        old(self).current as int,
                        old(self).line,
                        number,
                    ),
                ),
    {
        let ghost before = *self;
        while !self.is_at_end()
            invariant
                self.well_formed(),
                self.source == before.source,
                self.characters == before.characters,
                forall|text: String| number_lexeme(text@) ==> #[trigger] read_number.requires((text,)),
                forall|number: spec_fn(Seq<char>) -> u64| #[trigger]
                    reads_as(*read_number, number) ==> {
                        let output = scan_from(
                            before.source@,
                            before.current as int,
                            before.line,
                            number,
                        );
                        let rest = scan_from(
                            before.source@,
                            self.current as int,
                            self.line,
                            number,
                        );
                        &&& token_views(before.tokens@) + output.tokens == token_views(
                            self.tokens@,
                        ) + rest.tokens
                        &&& lexical_views(before.errors@) + output.errors == lexical_views(
                            self.errors@,
                        ) + rest.errors
                    },
            decreases self.characters@.len() - self.current,
        {
            // We are at the beginning of the next lexeme.
            self.start = self.current;
            let ghost at_start = *self;
            self.scan_token(read_number);
            proof {
                assert forall|number: spec_fn(Seq<char>) -> u64| #[trigger]
                    reads_as(*read_number, number) implies {
                    let output = scan_from(
                        before.source@,
                        before.current as int,
                        before.line,
                        number,
                    );
                    let rest = scan_from(before.source@, self.current as int, self.line, number);
                    &&& token_views(before.tokens@) + output.tokens == token_views(self.tokens@)
                        + rest.tokens
                    &&& lexical_views(before.errors@) + output.errors == lexical_views(
                        self.errors@,
                    ) + rest.errors
                } by {
                    let step = scan_step(
                        before.source@,
                        at_start.current as int,
                        at_start.line,
                        number,
                    );
                    let here = scan_from(
                        before.source@,
                        at_start.current as int,
                        at_start.line,
                        number,
                    );
                    let rest = scan_from(before.source@, self.current as int, self.line, number);
                    assert(at_start.stepped_to(*self, step));
                    assert(here.tokens == optional(step.token) + rest.tokens);
                    assert(with_item(token_views(at_start.tokens@), step.token) + rest.tokens
                        =~= token_views(at_start.tokens@) + here.tokens);
                    assert(with_item(lexical_views(at_start.errors@), step.error)
                        + rest.errors =~= lexical_views(at_start.errors@) + here.errors);
                    assert(token_views(at_start.tokens@) + here.tokens =~= token_views(
                        self.tokens@,
                    ) + rest.tokens);
                    assert(lexical_views(at_start.errors@) + here.errors =~= lexical_views(
                        self.errors@,
                    ) + rest.errors);
                }
            }
        }
        let end = Token::new(TokenType::Eof, String::new(), Literal::Null, self.line);
        proof {
            lemma_token_views_push(self.tokens@, end);
            assert(end@ == end_token(self.line));
        }
        self.tokens.push(end);
        proof {
            assert forall|number: spec_fn(Seq<char>) -> u64| #[trigger]
                reads_as(*read_number, number) implies {
                let output = scan_from(
                    before.source@,
                    before.current as int,
                    before.line,
                    number,
                );
                &&& token_views(self.tokens@) == token_views(before.tokens@) + output.tokens
                &&& lexical_views(self.errors@) == lexical_views(before.errors@)
                    + output.errors
            } by {
                let output = scan_from(
                    before.source@,
                    before.current as int,
                    before.line,
                    number,
                );
                assert(token_views(self.tokens@) =~= token_views(before.tokens@) + output.tokens);
                assert(lexical_views(self.errors@) =~= lexical_views(before.errors@)
                    + output.errors);
            }
        }
        &self.tokens
    }

    /// Scans the one lexeme that starts at `current`.
    fn scan_token<P: Fn(String) -> u64>(&mut self, read_number: &P)
        requires
            old(self).well_formed(),
            old(self).start == old(self).current,
            old(self).current < old(self).characters@.len(),
            forall|text: String| number_lexeme(text@) ==> #[trigger] read_number.requires((text,)),
        ensures
            final(self).well_formed(),
            final(self).source == old(self).source,
            final(self).characters == old(self).characters,
            old(self).current < final(self).current,
            forall|number: spec_fn(Seq<char>) -> u64| #[trigger]
                reads_as(*read_number, number) ==> old(self).stepped_to(
                    *final(self),
                    scan_step(old(self).source@, old(self).current as int, old(self).line, number),
                ),
    {
        let ghost before = *self;
        let ghost source = self.source@;
        let ghost start = self.start as int;
        let c = self.characters[self.current];
        self.current = self.current + 1;
        if c == '(' {
            self.add_token(TokenType::LeftParen);
        } else if c == ')' {
            self.add_token(TokenType::RightParen);
        } else if c == '{' {
            self.add_token(TokenType::LeftBrace);
        } else if c == '}' {
            self.add_token(TokenType::RightBrace);
        } else if c == ',' {
            self.add_token(TokenType::Comma);
        } else if c == '.' {
            self.add_token(TokenType::Dot);
        } else if c == '-' {
            self.add_token(TokenType::Minus);
        } else if c == '+' {
            self.add_token(TokenType::Plus);
        } else if c == ';' {
            self.add_token(TokenType::Semicolon);
        } else if c == '*' {
            self.add_token(TokenType::Star);
        } else if c == '!' {
            let type_ = if self.match_lexeme('=') {
                TokenType::BangEqual
            } else {
                TokenType::Bang
            };
            self.add_token(type_);
        } else if c == '=' {
            let type_ = if self.match_lexeme('=') {
                TokenType::EqualEqual
            } else {
                TokenType::Equal
            };
            self.add_token(type_);
        } else if c == '<' {
            let type_ = if self.match_lexeme('=') {
                TokenType::LessEqual
            } else {
                TokenType::Less
            };
            self.add_token(type_);
        } else if c == '>' {
            let type_ = if self.match_lexeme('=') {
                TokenType::GreaterEqual
            } else {
                TokenType::Greater
            };
            self.add_token(type_);
        } else if c == '/' {
            if self.match_lexeme('/') {
                // A comment goes until the end of the line.
                self.skip_while_not('\n');
                assert(span_end(source, start + 2, |c: char| c != '\n') == span_end(
                    source,
                    start + 2,
                    |c: char| not_newline(c),
                )) by {
                    assert((|c: char| c != '\n') =~= (|c: char| not_newline(c)));
                }
                proof {
                    lemma_span_end(source, start + 2, |c: char| c != '\n');
                    lemma_line_after_same(source, start + 2, self.current as int, before.line);
                }
            } else if self.match_lexeme('*') {
                self.block_comment();
            } else {
                self.add_token(TokenType::Slash);
            }
        } else if c == ' ' || c == '\r' || c == '\t' {
            // Ignore whitespace.
        } else if c == '\n' {
            self.line = if self.line < u64::MAX {
                self.line + 1
            } else {
                self.line
            };
        } else if c == '"' {
            self.string();
        } else if self.is_digit(c) {
            self.number(read_number);
        } else if self.is_alpha(c) {
            self.identifier();
        } else {
            let diagnostic = error(self.line, "Unexpected character");
            proof {
                lemma_lexical_views_push(self.errors@, diagnostic);
            }
            self.errors.push(diagnostic);
        }
    }

    /// Moves `current` to the next `stop`, or to the end of the source,
    /// counting the newlines passed.
    fn skip_while_not(&mut self, stop: char)
        requires
            old(self).well_formed(),
        ensures
            final(self).well_formed(),
            old(self).moved_to(*final(self)),
            old(self).current <= final(self).current,
            final(self).current == span_end(
                old(self).source@,
                old(self).current as int,
                |c: char| c != stop,
            ),
            final(self).line == line_after(
                old(self).source@,
                old(self).current as int,
                final(self).current as int,
                old(self).line,
            ),
    {
        let ghost before = *self;
        let ghost class = |c: char| c != stop;
        while self.peek() != stop && !self.is_at_end()
            invariant
                self.well_formed(),
                before.well_formed(),
                before.moved_to(*self),
                before.current <= self.current,
                class == (|c: char| c != stop),
                span_end(before.source@, before.current as int, class) == span_end(
                    before.source@,
                    self.current as int,
                    class,
                ),
                self.line == line_after(
                    before.source@,
                    before.current as int,
                    self.current as int,
                    before.line,
                ),
            decreases self.characters@.len() - self.current,
        {
            if self.peek() == '\n' {
                self.line = if self.line < u64::MAX {
                    self.line + 1
                } else {
                    self.line
                };
            }
            self.advance();
        }
    }

    /// Moves `current` past the `*/` that closes a block comment, or to the
    /// end of the source, counting the newlines passed.
    fn block_comment(&mut self)
        requires
            old(self).well_formed(),
        ensures
            final(self).well_formed(),
            old(self).moved_to(*final(self)),
            old(self).current <= final(self).current,
            final(self).current == comment_end(old(self).source@, old(self).current as int),
            final(self).line == line_after(
                old(self).source@,
                old(self).current as int,
                final(self).current as int,
                old(self).line,
            ),
    {
        let ghost before = *self;
        while !self.is_at_end()
            invariant
                self.well_formed(),
                before.well_formed(),
                before == *old(self),
                before.moved_to(*self),
                before.current <= self.current,
                comment_end(before.source@, before.current as int) == comment_end(
                    before.source@,
                    self.current as int,
                ),
                self.line == line_after(
                    before.source@,
                    before.current as int,
                    self.current as int,
                    before.line,
                ),
            decreases self.characters@.len() - self.current,
        {
            if self.peek() == '*' && self.peek_next() == '/' {
                let ghost star = self.current as int;
                self.advance();
                self.advance();
                assert(line_after(before.source@, before.current as int, star + 1, before.line)
                    == line_after(before.source@, before.current as int, star, before.line));
                return ;
            }
            if self.peek() == '\n' {
                self.line = if self.line < u64::MAX {
                    self.line + 1
                } else {
                    self.line
                };
            }
            self.advance();
        }
    }

    fn peek(&self) -> (c: char)
        requires
            self.well_formed(),
        ensures
            c == char_at(self.source@, self.current as int),
    {
        if self.is_at_end() {
            return '\0';
        }
        self.characters[self.current]
    }

    fn peek_next(&self) -> (c: char)
        requires
            self.well_formed(),
        ensures
            c == char_at(self.source@, self.current + 1),
    {
        if self.current >= self.characters.len() || self.current + 1 >= self.characters.len() {
            return '\0';
        }
        self.characters[self.current + 1]
    }

    fn identifier(&mut self)
        requires
            old(self).well_formed(),
        ensures
            final(self).well_formed(),
            final(self).source == old(self).source,
            final(self).characters == old(self).characters,
            final(self).errors == old(self).errors,
            final(self).line == old(self).line,
            old(self).current <= final(self).current,
            final(self).current == span_end(
                old(self).source@,
                old(self).current as int,
                |c: char| alpha_numeric(c),
            ),
            token_views(final(self).tokens@) == token_views(old(self).tokens@).push(
                TokenView {
                    type_: match keyword(
                        old(self).source@.subrange(
                            old(self).start as int,
                            final(self).current as int,
                        ),
                    ) {
                        Some(reserved) => reserved,
                        None => TokenType::Identifier,
                    },
                    lexeme: old(self).source@.subrange(
                        old(self).start as int,
                        final(self).current as int,
                    ),
                    literal: Value::Null,
                    line: old(self).line,
                },
            ),
    {
        self.skip_digits_or_letters(true);
        let text = self.source.as_str().substring_char(self.start, self.current);
        let type_ = match keyword_type(text) {
            Some(reserved) => reserved,
            None => TokenType::Identifier,
        };
        self.add_token(type_);
    }

    /// Moves `current` past the digits there, and past the letters and
    /// underscores too where `letters` is set.
    fn skip_digits_or_letters(&mut self, letters: bool)
        requires
            old(self).well_formed(),
        ensures
            final(self).well_formed(),
            old(self).moved_to(*final(self)),
            final(self).line == old(self).line,
            old(self).current <= final(self).current,
            letters ==> final(self).current == span_end(
                old(self).source@,
                old(self).current as int,
                |c: char| alpha_numeric(c),
            ),
            !letters ==> final(self).current == span_end(
                old(self).source@,
                old(self).current as int,
                |c: char| digit(c),
            ),
    {
        let ghost before = *self;
        let ghost class = if letters {
            |c: char| alpha_numeric(c)
        } else {
            |c: char| digit(c)
        };
        while !self.is_at_end() && self.continues(self.peek(), letters)
            invariant
                self.well_formed(),
                before.well_formed(),
                before.moved_to(*self),
                self.line == before.line,
                before.current <= self.current,
                class == if letters {
                    |c: char| alpha_numeric(c)
                } else {
                    |c: char| digit(c)
                },
                span_end(before.source@, before.current as int, class) == span_end(
                    before.source@,
                    self.current as int,
                    class,
                ),
            decreases self.characters@.len() - self.current,
        {
            self.advance();
        }
    }

    /// Whether `c` goes on a word, where `letters` is set, or a run of digits.
    fn continues(&self, c: char, letters: bool) -> (r: bool)
        ensures
            r == if letters {
                alpha_numeric(c)
            } else {
                digit(c)
            },
    {
        if letters {
            self.is_alpha_numeric(c)
        } else {
            self.is_digit(c)
        }
    }

    fn is_digit(&self, c: char) -> (r: bool)
        ensures
            r == digit(c),
    {
        c >= '0' && c <= '9'
    }

    fn is_alpha(&self, c: char) -> (r: bool)
        ensures
            r == alpha(c),
    {
        (c >= 'a' && c <= 'z') || (c >= 'A' && c <= 'Z') || c == '_'
    }

    fn is_alpha_numeric(&self, c: char) -> (r: bool)
        ensures
            r == alpha_numeric(c),
    {
        self.is_alpha(c) || self.is_digit(c)
    }

    fn number<P: Fn(String) -> u64>(&mut self, read_number: &P)
        requires
            old(self).well_formed(),
            old(self).current == old(self).start + 1,
            digit(old(self).source@[old(self).start as int]),
            forall|text: String| number_lexeme(text@) ==> #[trigger] read_number.requires((text,)),
        ensures
            final(self).well_formed(),
            final(self).source == old(self).source,
            final(self).characters == old(self).characters,
            final(self).errors == old(self).errors,
            final(self).line == old(self).line,
            old(self).current <= final(self).current,
            final(self).current == number_end(old(self).source@, old(self).start as int),
            forall|number: spec_fn(Seq<char>) -> u64| #[trigger]
                reads_as(*read_number, number) ==> token_views(final(self).tokens@) == token_views(
                    old(self).tokens@,
                ).push(
                    TokenView {
                        type_: TokenType::Number,
                        lexeme: old(self).source@.subrange(
                            old(self).start as int,
                            final(self).current as int,
                        ),
                        literal: Value::Number(
                            number(
                                old(self).source@.subrange(
                                    old(self).start as int,
                                    final(self).current as int,
                                ),
                            ),
                        ),
                        line: old(self).line,
                    },
                ),
    {
        self.skip_digits_or_letters(false);
        // Look for a fractional part.
        if self.peek() == '.' && self.is_digit(self.peek_next()) {
            // Consume the ".".
            self.advance();
            self.skip_digits_or_letters(false);
        }
        let text = self.source.as_str().substring_char(self.start, self.current);
        proof {
            lemma_number_lexeme(self.source@, self.start as int);
        }
        let bits = read_number(String::from_str(text));
        self.add_token_literal(TokenType::Number, Literal::Number(bits));
    }

    fn string(&mut self)
        requires
            old(self).well_formed(),
            old(self).current == old(self).start + 1,
        ensures
            old(self).current <= final(self).current,
            old(self).stepped_to(
                *final(self),
                string_step(old(self).source@, old(self).start as int, old(self).line),
            ),
    {
        let ghost source = self.source@;
        let ghost start = self.start as int;
        self.skip_while_not('"');
        proof {
            assert((|c: char| c != '"') =~= (|c: char| not_quote(c)));
            lemma_span_end(source, start + 1, |c: char| not_quote(c));
        }
        if self.is_at_end() {
            let diagnostic = error(self.line, "Unterminated string");
            proof {
                lemma_lexical_views_push(self.errors@, diagnostic);
            }
            self.errors.push(diagnostic);
            return ;
        }
        // The closing ".
        self.advance();

        // Trim the surrounding quotes.
        let value = self.source.as_str().substring_char(self.start + 1, self.current - 1);
        self.add_token_literal(TokenType::String, Literal::String(String::from_str(value)));

    }

    fn match_lexeme(&mut self, expected: char) -> (matched: bool)
        requires
            old(self).well_formed(),
        ensures
            final(self).well_formed(),
            old(self).moved_to(*final(self)),
            final(self).line == old(self).line,
            matched == (char_at(old(self).source@, old(self).current as int) == expected
                && old(self).current < old(self).source@.len()),
            final(self).current == if matched {
                old(self).current + 1
            } else {
                old(self).current as int
            },
    {
        if self.is_at_end() {
            return false;
        }
        if self.characters[self.current] != expected {
            return false;
        }
        self.current = self.current + 1;
        true
    }

    fn advance(&mut self) -> (c: Option<char>)
        requires
            old(self).well_formed(),
        ensures
            final(self).well_formed(),
            old(self).moved_to(*final(self)),
            final(self).line == old(self).line,
            old(self).current < old(self).source@.len() ==> c == Some(
                old(self).source@[old(self).current as int],
            ) && final(self).current == old(self).current + 1,
            old(self).current >= old(self).source@.len() ==> c.is_none() && final(self).current
                == old(self).current,
    {
        if self.is_at_end() {
            return None;
        }
        let c = self.characters[self.current];
        self.current = self.current + 1;
        Some(c)
    }

    fn add_token(&mut self, type_: TokenType)
        requires
            old(self).well_formed(),
        ensures
            final(self).well_formed(),
            final(self).source == old(self).source,
            final(self).characters == old(self).characters,
            final(self).errors == old(self).errors,
            final(self).start == old(self).start,
            final(self).current == old(self).current,
            final(self).line == old(self).line,
            token_views(final(self).tokens@) == token_views(old(self).tokens@).push(
                TokenView {
                    type_,
                    lexeme: old(self).source@.subrange(
                        old(self).start as int,
                        old(self).current as int,
                    ),
                    literal: Value::Null,
                    line: old(self).line,
                },
            ),
    {
        self.add_token_literal(type_, Literal::Null);
    }

    fn add_token_literal(&mut self, type_: TokenType, literal: Literal)
        requires
            old(self).well_formed(),
        ensures
            final(self).well_formed(),
            final(self).source == old(self).source,
            final(self).characters == old(self).characters,
            final(self).errors == old(self).errors,
            final(self).start == old(self).start,
            final(self).current == old(self).current,
            final(self).line == old(self).line,
            token_views(final(self).tokens@) == token_views(old(self).tokens@).push(
                TokenView {
                    type_,
                    lexeme: old(self).source@.subrange(
                        old(self).start as int,
                        old(self).current as int,
                    ),
                    literal: literal@,
                    line: old(self).line,
                },
            ),
    {
        let text = self.source.as_str().substring_char(self.start, self.current);
        let token = Token::new(type_, String::from_str(text), literal, self.line);
        proof {
            lemma_token_views_push(self.tokens@, token);
        }
        self.tokens.push(token);
    }

    fn is_at_end(&self) -> (at_end: bool)
        ensures
            at_end == (self.current >= self.characters.len()),
    {
        self.current >= self.characters.len()
    }
}

} // verus!
