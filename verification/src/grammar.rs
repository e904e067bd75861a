//! The grammar: what each production makes of a token list.
//!
//! ```text
//! declaration -> "var" IDENTIFIER ("=" expression)? ";" | statement
//! statement   -> "print" expression ";" | "{" declaration* "}" | expression ";"
//! expression  -> assignment
//! assignment  -> IDENTIFIER "=" assignment | equality
//! equality    -> comparison (("!=" | "==") comparison)*
//! comparison  -> term (("<" | "<=" | ">" | ">=") term)*
//! term        -> factor (("-" | "+") factor)*
//! factor      -> unary (("/" | "*") unary)*
//! unary       -> ("!" | "-") unary | primary
//! primary     -> NUMBER | STRING | "true" | "false" | "nil" | IDENTIFIER
//!              | "(" expression ")"
//! ```
use vstd::prelude::*;
use crate::SyntaxErrorView;
use crate::expr::ExprView;
use crate::literal_object::Value;
use crate::support::optional;
use crate::stmt::StmtView;
use crate::token::TokenView;
use crate::token_type::TokenType;

verus! {

/// What a production makes of the tokens from some position on: the node, or
/// `None` where the tokens break the grammar; the number of tokens that it
/// went over; and the errors it reported, in order.
pub struct Parsed<T> {
    pub node: Option<T>,
    pub consumed: nat,
    pub errors: Seq<SyntaxErrorView>,
}

/// The syntax error `message` at `token`.
pub open spec fn syntax_error(token: TokenView, message: Seq<char>) -> SyntaxErrorView {
    SyntaxErrorView { token, message }
}

/// The type of the token at `at`. Past the list it is the end of input.
pub open spec fn type_at(tokens: Seq<TokenView>, at: int) -> TokenType {
    if 0 <= at < tokens.len() {
        tokens[at].type_
    } else {
        TokenType::Eof
    }
}

/// The number of tokens from `at` on.
pub open spec fn remaining(tokens: Seq<TokenView>, at: int) -> nat {
    if at <= tokens.len() {
        (tokens.len() - at) as nat
    } else {
        0
    }
}

/// A production that went over `consumed` tokens and gave `node`.
pub open spec fn accepted<T>(node: T, consumed: nat) -> Parsed<T> {
    Parsed { node: Some(node), consumed, errors: Seq::empty() }
}

/// A production that began at `start` and broke off after `consumed` tokens,
/// reporting `message` at the token it stopped at.
pub open spec fn rejected<T>(
    tokens: Seq<TokenView>,
    start: int,
    consumed: nat,
    message: Seq<char>,
) -> Parsed<T> {
    Parsed {
        node: None,
        consumed,
        errors: seq![syntax_error(tokens[start + consumed], message)],
    }
}

/// The failure of an inner production, seen from one that began `before`
/// tokens earlier.
pub open spec fn failed<T, U>(before: nat, inner: Parsed<T>) -> Parsed<U> {
    Parsed { node: None, consumed: before + inner.consumed, errors: inner.errors }
}

/// What `rest` gave, seen from a production that began `before` tokens
/// earlier.
pub open spec fn after<T>(before: nat, rest: Parsed<T>) -> Parsed<T> {
    Parsed { node: rest.node, consumed: before + rest.consumed, errors: rest.errors }
}

/// The binary operators of a precedence level, from equality (0), the
/// loosest, over comparison (1) and term (2) to factor (3).
pub open spec fn is_operator(level: nat, type_: TokenType) -> bool {
    if level == 0 {
        type_ == TokenType::BangEqual || type_ == TokenType::EqualEqual
    } else if level == 1 {
        type_ == TokenType::Greater || type_ == TokenType::GreaterEqual || type_
            == TokenType::Less || type_ == TokenType::LessEqual
    } else if level == 2 {
        type_ == TokenType::Minus || type_ == TokenType::Plus
    } else {
        type_ == TokenType::Slash || type_ == TokenType::Star
    }
}

/// `primary -> NUMBER | STRING | "true" | "false" | "nil" | IDENTIFIER |
/// "(" expression ")"`
pub closed spec fn parse_primary(tokens: Seq<TokenView>, at: int) -> Parsed<ExprView>
    decreases remaining(tokens, at), 1nat,
{
    match type_at(tokens, at) {
        TokenType::False => accepted(ExprView::Literal { literal: Value::Boolean(false) }, 1),
        TokenType::True => accepted(ExprView::Literal { literal: Value::Boolean(true) }, 1),
        TokenType::Nil => accepted(ExprView::Literal { literal: Value::Null }, 1),
        TokenType::Number => accepted(ExprView::Literal { literal: tokens[at].literal }, 1),
        TokenType::String => accepted(ExprView::Literal { literal: tokens[at].literal }, 1),
        TokenType::Identifier => accepted(ExprView::Variable { name: tokens[at] }, 1),
        TokenType::LeftParen => {
            let inner = parse_expression(tokens, at + 1);
            match inner.node {
                Some(expression) => if type_at(tokens, at + 1 + inner.consumed)
                    == TokenType::RightParen {
                    accepted(
                        ExprView::Grouping { expression: Box::new(expression) },
                        inner.consumed + 2,
                    )
                } else {
                    rejected(tokens, at, 1 + inner.consumed, "Expect ')' after expression"@)
                },
                None => failed(1, inner),
            }
        },
        _ => rejected(tokens, at, 0, "Expect expression"@),
    }
}

/// `unary -> ("!" | "-") unary | primary`
pub closed spec fn parse_unary(tokens: Seq<TokenView>, at: int) -> Parsed<ExprView>
    decreases remaining(tokens, at), 2nat,
{
    if type_at(tokens, at) == TokenType::Bang || type_at(tokens, at) == TokenType::Minus {
        let inner = parse_unary(tokens, at + 1);
        match inner.node {
            Some(right) => accepted(
                ExprView::Unary { operator: tokens[at], right: Box::new(right) },
                1 + inner.consumed,
            ),
            None => failed(1, inner),
        }
    } else {
        parse_primary(tokens, at)
    }
}

/// An operand of the operators of `level`: an expression of the next level.
pub closed spec fn parse_operand(tokens: Seq<TokenView>, at: int, level: nat) -> Parsed<ExprView>
    decreases remaining(tokens, at), 7nat,
{
    if level == 0 {
        parse_comparison(tokens, at)
    } else if level == 1 {
        parse_term(tokens, at)
    } else if level == 2 {
        parse_factor(tokens, at)
    } else {
        parse_unary(tokens, at)
    }
}

/// The rest of a left-associative chain of `level`: `left` is what stands
/// before `at`, and every further operator of the level takes what stands to
/// its left as its left operand.
pub closed spec fn parse_chain(tokens: Seq<TokenView>, at: int, left: ExprView, level: nat) -> Parsed<
    ExprView,
>
    decreases remaining(tokens, at), 0nat,
{
    if is_operator(level, type_at(tokens, at)) {
        let second = parse_operand(tokens, at + 1, level);
        match second.node {
            Some(right) => after(
                1 + second.consumed,
                parse_chain(
                    tokens,
                    at + 1 + second.consumed,
                    ExprView::Binary {
                        left: Box::new(left),
                        operator: tokens[at],
                        right: Box::new(right),
                    },
                    level,
                ),
            ),
            None => failed(1, second),
        }
    } else {
        accepted(left, 0)
    }
}

/// `factor -> unary (("/" | "*") unary)*`
pub closed spec fn parse_factor(tokens: Seq<TokenView>, at: int) -> Parsed<ExprView>
    decreases remaining(tokens, at), 3nat,
{
    let first = parse_unary(tokens, at);
    match first.node {
        Some(left) => after(first.consumed, parse_chain(tokens, at + first.consumed, left, 3)),
        None => first,
    }
}

/// `term -> factor (("-" | "+") factor)*`
pub closed spec fn parse_term(tokens: Seq<TokenView>, at: int) -> Parsed<ExprView>
    decreases remaining(tokens, at), 4nat,
{
    let first = parse_factor(tokens, at);
    match first.node {
        Some(left) => after(first.consumed, parse_chain(tokens, at + first.consumed, left, 2)),
        None => first,
    }
}

/// `comparison -> term (("<" | "<=" | ">" | ">=") term)*`
pub closed spec fn parse_comparison(tokens: Seq<TokenView>, at: int) -> Parsed<ExprView>
    decreases remaining(tokens, at), 5nat,
{
    let first = parse_term(tokens, at);
    match first.node {
        Some(left) => after(first.consumed, parse_chain(tokens, at + first.consumed, left, 1)),
        None => first,
    }
}

/// `equality -> comparison (("!=" | "==") comparison)*`
pub closed spec fn parse_equality(tokens: Seq<TokenView>, at: int) -> Parsed<ExprView>
    decreases remaining(tokens, at), 6nat,
{
    let first = parse_comparison(tokens, at);
    match first.node {
        Some(left) => after(first.consumed, parse_chain(tokens, at + first.consumed, left, 0)),
        None => first,
    }
}

/// `assignment -> IDENTIFIER "=" assignment | equality`. What stands left of
/// `=` is parsed as an equality and must be a bare variable: anything else is
/// an error at the `=`, reported once the right side has been parsed.
pub closed spec fn parse_assignment(tokens: Seq<TokenView>, at: int) -> Parsed<ExprView>
    decreases remaining(tokens, at), 8nat,
{
    let left = parse_equality(tokens, at);
    match left.node {
        Some(target) => if type_at(tokens, at + left.consumed) == TokenType::Equal {
            let right = parse_assignment(tokens, at + left.consumed + 1);
            match right.node {
                Some(value) => match target {
                    ExprView::Variable { name } => accepted(
                        ExprView::Assign { name, value: Box::new(value) },
                        left.consumed + 1 + right.consumed,
                    ),
                    _ => Parsed {
                        node: None,
                        consumed: left.consumed + 1 + right.consumed,
                        errors: seq![
                            syntax_error(
                                tokens[at + left.consumed],
                                "Invalid assignment target"@,
                            ),
                        ],
                    },
                },
                None => failed(left.consumed + 1, right),
            }
        } else {
            left
        },
        None => left,
    }
}

/// `expression -> assignment`
pub closed spec fn parse_expression(tokens: Seq<TokenView>, at: int) -> Parsed<ExprView>
    decreases remaining(tokens, at), 9nat,
{
    parse_assignment(tokens, at)
}

/// An expression and the `;` that must follow it, `before` tokens into a
/// statement that `wrap` builds from the expression.
pub closed spec fn parse_terminated(
    tokens: Seq<TokenView>,
    at: int,
    message: Seq<char>,
) -> Parsed<ExprView>
    decreases remaining(tokens, at), 10nat,
{
    let value = parse_expression(tokens, at);
    match value.node {
        Some(expression) => if type_at(tokens, at + value.consumed) == TokenType::Semicolon {
            accepted(expression, value.consumed + 1)
        } else {
            rejected(tokens, at, value.consumed, message)
        },
        None => value,
    }
}

/// `"var" IDENTIFIER ("=" expression)? ";"`, from the token after `var` on.
/// Without an initializer the variable starts as `nil`.
pub closed spec fn parse_var_declaration(tokens: Seq<TokenView>, at: int) -> Parsed<StmtView>
    decreases remaining(tokens, at), 11nat,
{
    if type_at(tokens, at) != TokenType::Identifier {
        rejected(tokens, at, 0, "Expect variable name."@)
    } else if type_at(tokens, at + 1) == TokenType::Equal {
        let value = parse_terminated(tokens, at + 2, "Expect ';' after variable declaration"@);
        match value.node {
            Some(initializer) => accepted(
                StmtView::Var { name: tokens[at], initializer },
                2 + value.consumed,
            ),
            None => failed(2, value),
        }
    } else if type_at(tokens, at + 1) == TokenType::Semicolon {
        accepted(
            StmtView::Var {
                name: tokens[at],
                initializer: ExprView::Literal { literal: Value::Null },
            },
            2,
        )
    } else {
        rejected(tokens, at, 1, "Expect ';' after variable declaration"@)
    }
}

/// `statement -> "print" expression ";" | "{" declaration* "}" |
/// expression ";"`
pub closed spec fn parse_statement(tokens: Seq<TokenView>, at: int) -> Parsed<StmtView>
    decreases remaining(tokens, at), 11nat,
{
    if type_at(tokens, at) == TokenType::Print {
        let value = parse_terminated(tokens, at + 1, "Expect ';' after value."@);
        match value.node {
            Some(expression) => accepted(StmtView::Print { expression }, 1 + value.consumed),
            None => failed(1, value),
        }
    } else if type_at(tokens, at) == TokenType::LeftBrace {
        let items = parse_list(tokens, at + 1, true);
        if type_at(tokens, at + 1 + items.consumed) == TokenType::RightBrace {
            Parsed {
                node: Some(StmtView::Block { statements: items.node->0 }),
                consumed: items.consumed + 2,
                errors: items.errors,
            }
        } else {
            Parsed {
                node: None,
                consumed: 1 + items.consumed,
                errors: items.errors.push(
                    syntax_error(tokens[at + 1 + items.consumed], "Expect '}' after block"@),
                ),
            }
        }
    } else {
        let value = parse_terminated(tokens, at, "Expect ';' after expression"@);
        match value.node {
            Some(expression) => accepted(StmtView::Expression { expression }, value.consumed),
            None => failed(0, value),
        }
    }
}

/// Whether a statement may begin with a token of this type.
pub open spec fn starts_statement(type_: TokenType) -> bool {
    type_ == TokenType::Class || type_ == TokenType::Fun || type_ == TokenType::Var || type_
        == TokenType::For || type_ == TokenType::If || type_ == TokenType::While || type_
        == TokenType::Print || type_ == TokenType::Return
}

/// The number of tokens from `at` up to the next statement boundary: the end
/// of input, the token after a `;`, or a token that begins a statement.
pub open spec fn span_to_boundary(tokens: Seq<TokenView>, at: int) -> nat
    decreases remaining(tokens, at),
{
    if type_at(tokens, at) == TokenType::Eof || type_at(tokens, at - 1) == TokenType::Semicolon
        || starts_statement(type_at(tokens, at)) {
        0
    } else {
        1 + span_to_boundary(tokens, at + 1)
    }
}

/// The number of tokens that are skipped after an error at `at`: the token
/// there, unless it is the end of input, and those up to the next boundary.
pub open spec fn synchronize_span(tokens: Seq<TokenView>, at: int) -> nat {
    if type_at(tokens, at) == TokenType::Eof {
        0
    } else {
        1 + span_to_boundary(tokens, at + 1)
    }
}

/// `declaration -> "var" IDENTIFIER ("=" expression)? ";" | statement`.
/// Where the tokens break the grammar, the declaration gives no statement and
/// goes on to the next statement boundary.
pub closed spec fn parse_declaration(tokens: Seq<TokenView>, at: int) -> Parsed<StmtView>
    decreases remaining(tokens, at), 12nat,
{
    let attempt = if type_at(tokens, at) == TokenType::Var {
        after(1, parse_var_declaration(tokens, at + 1))
    } else {
        parse_statement(tokens, at)
    };
    match attempt.node {
        Some(_) => attempt,
        None => Parsed {
            node: None,
            consumed: attempt.consumed + synchronize_span(tokens, at + attempt.consumed),
            errors: attempt.errors,
        },
    }
}

/// `declaration*`, up to the end of input, and inside a block up to its `}`.
/// The node is the list of the statements that parsed.
pub closed spec fn parse_list(tokens: Seq<TokenView>, at: int, in_block: bool) -> Parsed<
    Seq<StmtView>,
>
    decreases remaining(tokens, at), 13nat,
{
    if type_at(tokens, at) == TokenType::Eof || (in_block && type_at(tokens, at)
        == TokenType::RightBrace) {
        accepted(Seq::empty(), 0)
    } else {
        let first = parse_declaration(tokens, at);
        if first.consumed == 0 {
            Parsed { node: Some(optional(first.node)), consumed: 0, errors: first.errors }
        } else {
            let rest = parse_list(tokens, at + first.consumed, in_block);
            Parsed {
                node: Some(optional(first.node) + rest.node->0),
                consumed: first.consumed + rest.consumed,
                errors: first.errors + rest.errors,
            }
        }
    }
}

/// What parsing a whole token list gives.
pub open spec fn parse_tokens(tokens: Seq<TokenView>) -> Parsed<Seq<StmtView>> {
    parse_list(tokens, 0, false)
}

// The productions above are closed: outside this file a proof unfolds one by
// calling its lemma below, which states the rule once more as an equation.

/// The rule of `parse_primary`, as an equation.
pub proof fn lemma_primary(tokens: Seq<TokenView>, at: int)
    ensures
        parse_primary(tokens, at) == ({
            match type_at(tokens, at) {
                TokenType::False => accepted(ExprView::Literal { literal: Value::Boolean(false) }, 1),
                TokenType::True => accepted(ExprView::Literal { literal: Value::Boolean(true) }, 1),
                TokenType::Nil => accepted(ExprView::Literal { literal: Value::Null }, 1),
                TokenType::Number => accepted(ExprView::Literal { literal: tokens[at].literal }, 1),
                TokenType::String => accepted(ExprView::Literal { literal: tokens[at].literal }, 1),
                TokenType::Identifier => accepted(ExprView::Variable { name: tokens[at] }, 1),
                TokenType::LeftParen => {
                    let inner = parse_expression(tokens, at + 1);
                    match inner.node {
                        Some(expression) => if type_at(tokens, at + 1 + inner.consumed)
                            == TokenType::RightParen {
                            accepted(
                                ExprView::Grouping { expression: Box::new(expression) },
                                inner.consumed + 2,
                            )
                        } else {
                            rejected(tokens, at, 1 + inner.consumed, "Expect ')' after expression"@)
                        },
                        None => failed(1, inner),
                    }
                },
                _ => rejected(tokens, at, 0, "Expect expression"@),
            }
        }),
{
}

/// The rule of `parse_unary`, as an equation.
pub proof fn lemma_unary(tokens: Seq<TokenView>, at: int)
    ensures
        parse_unary(tokens, at) == ({
            if type_at(tokens, at) == TokenType::Bang || type_at(tokens, at) == TokenType::Minus {
                let inner = parse_unary(tokens, at + 1);
                match inner.node {
                    Some(right) => accepted(
                        ExprView::Unary { operator: tokens[at], right: Box::new(right) },
                        1 + inner.consumed,
                    ),
                    None => failed(1, inner),
                }
            } else {
                parse_primary(tokens, at)
            }
        }),
{
}

/// The rule of `parse_operand`, as an equation.
pub proof fn lemma_operand(tokens: Seq<TokenView>, at: int, level: nat)
    ensures
        parse_operand(tokens, at, level) == ({
            if level == 0 {
                parse_comparison(tokens, at)
            } else if level == 1 {
                parse_term(tokens, at)
            } else if level == 2 {
                parse_factor(tokens, at)
            } else {
                parse_unary(tokens, at)
            }
        }),
{
}

/// The rule of `parse_chain`, as an equation.
pub proof fn lemma_chain(tokens: Seq<TokenView>, at: int, left: ExprView, level: nat)
    ensures
        parse_chain(tokens, at, left, level) == ({
            if is_operator(level, type_at(tokens, at)) {
                let second = parse_operand(tokens, at + 1, level);
                match second.node {
                    Some(right) => after(
                        1 + second.consumed,
                        parse_chain(
                            tokens,
                            at + 1 + second.consumed,
                            ExprView::Binary {
                                left: Box::new(left),
                                operator: tokens[at],
                                right: Box::new(right),
                            },
                            level,
                        ),
                    ),
                    None => failed(1, second),
                }
            } else {
                accepted(left, 0)
            }
        }),
{
}

/// The rule of `parse_factor`, as an equation.
pub proof fn lemma_factor(tokens: Seq<TokenView>, at: int)
    ensures
        parse_factor(tokens, at) == ({
            let first = parse_unary(tokens, at);
            match first.node {
                Some(left) => after(first.consumed, parse_chain(tokens, at + first.consumed, left, 3)),
                None => first,
            }
        }),
{
}

/// The rule of `parse_term`, as an equation.
pub proof fn lemma_term(tokens: Seq<TokenView>, at: int)
    ensures
        parse_term(tokens, at) == ({
            let first = parse_factor(tokens, at);
            match first.node {
                Some(left) => after(first.consumed, parse_chain(tokens, at + first.consumed, left, 2)),
                None => first,
            }
        }),
{
}

/// The rule of `parse_comparison`, as an equation.
pub proof fn lemma_comparison(tokens: Seq<TokenView>, at: int)
    ensures
        parse_comparison(tokens, at) == ({
            let first = parse_term(tokens, at);
            match first.node {
                Some(left) => after(first.consumed, parse_chain(tokens, at + first.consumed, left, 1)),
                None => first,
            }
        }),
{
}

/// The rule of `parse_equality`, as an equation.
pub proof fn lemma_equality(tokens: Seq<TokenView>, at: int)
    ensures
        parse_equality(tokens, at) == ({
            let first = parse_comparison(tokens, at);
            match first.node {
                Some(left) => after(first.consumed, parse_chain(tokens, at + first.consumed, left, 0)),
                None => first,
            }
        }),
{
}

/// The rule of `parse_assignment`, as an equation.
pub proof fn lemma_assignment(tokens: Seq<TokenView>, at: int)
    ensures
        parse_assignment(tokens, at) == ({
            let left = parse_equality(tokens, at);
            match left.node {
                Some(target) => if type_at(tokens, at + left.consumed) == TokenType::Equal {
                    let right = parse_assignment(tokens, at + left.consumed + 1);
                    match right.node {
                        Some(value) => match target {
                            ExprView::Variable { name } => accepted(
                                ExprView::Assign { name, value: Box::new(value) },
                                left.consumed + 1 + right.consumed,
                            ),
                            _ => Parsed {
                                node: None,
                                consumed: left.consumed + 1 + right.consumed,
                                errors: seq![
                                    syntax_error(
                                        tokens[at + left.consumed],
                                        "Invalid assignment target"@,
                                    ),
                                ],
                            },
                        },
                        None => failed(left.consumed + 1, right),
                    }
                } else {
                    left
                },
                None => left,
            }
        }),
{
}

/// The rule of `parse_expression`, as an equation.
pub proof fn lemma_expression(tokens: Seq<TokenView>, at: int)
    ensures
        parse_expression(tokens, at) == ({
            parse_assignment(tokens, at)
        }),
{
}

/// The rule of `parse_terminated`, as an equation.
pub proof fn lemma_terminated(tokens: Seq<TokenView>, at: int, message: Seq<char>)
    ensures
        parse_terminated(tokens, at, message) == ({
            let value = parse_expression(tokens, at);
            match value.node {
                Some(expression) => if type_at(tokens, at + value.consumed) == TokenType::Semicolon {
                    accepted(expression, value.consumed + 1)
                } else {
                    rejected(tokens, at, value.consumed, message)
                },
                None => value,
            }
        }),
{
}

/// The rule of `parse_var_declaration`, as an equation.
pub proof fn lemma_var_declaration(tokens: Seq<TokenView>, at: int)
    ensures
        parse_var_declaration(tokens, at) == ({
            if type_at(tokens, at) != TokenType::Identifier {
                rejected(tokens, at, 0, "Expect variable name."@)
            } else if type_at(tokens, at + 1) == TokenType::Equal {
                let value = parse_terminated(tokens, at + 2, "Expect ';' after variable declaration"@);
                match value.node {
                    Some(initializer) => accepted(
                        StmtView::Var { name: tokens[at], initializer },
                        2 + value.consumed,
                    ),
                    None => failed(2, value),
                }
            } else if type_at(tokens, at + 1) == TokenType::Semicolon {
                accepted(
                    StmtView::Var {
                        name: tokens[at],
                        initializer: ExprView::Literal { literal: Value::Null },
                    },
                    2,
                )
            } else {
                rejected(tokens, at, 1, "Expect ';' after variable declaration"@)
            }
        }),
{
}

/// The rule of `parse_statement`, as an equation.
pub proof fn lemma_statement(tokens: Seq<TokenView>, at: int)
    ensures
        parse_statement(tokens, at) == ({
            if type_at(tokens, at) == TokenType::Print {
                let value = parse_terminated(tokens, at + 1, "Expect ';' after value."@);
                match value.node {
                    Some(expression) => accepted(StmtView::Print { expression }, 1 + value.consumed),
                    None => failed(1, value),
                }
            } else if type_at(tokens, at) == TokenType::LeftBrace {
                let items = parse_list(tokens, at + 1, true);
                if type_at(tokens, at + 1 + items.consumed) == TokenType::RightBrace {
                    Parsed {
                        node: Some(StmtView::Block { statements: items.node->0 }),
                        consumed: items.consumed + 2,
                        errors: items.errors,
                    }
                } else {
                    Parsed {
                        node: None,
                        consumed: 1 + items.consumed,
                        errors: items.errors.push(
                            syntax_error(tokens[at + 1 + items.consumed], "Expect '}' after block"@),
                        ),
                    }
                }
            } else {
                let value = parse_terminated(tokens, at, "Expect ';' after expression"@);
                match value.node {
                    Some(expression) => accepted(StmtView::Expression { expression }, value.consumed),
                    None => failed(0, value),
                }
            }
        }),
{
}

/// The rule of `parse_declaration`, as an equation.
pub proof fn lemma_declaration(tokens: Seq<TokenView>, at: int)
    ensures
        parse_declaration(tokens, at) == ({
            let attempt = if type_at(tokens, at) == TokenType::Var {
                after(1, parse_var_declaration(tokens, at + 1))
            } else {
                parse_statement(tokens, at)
            };
            match attempt.node {
                Some(_) => attempt,
                None => Parsed {
                    node: None,
                    consumed: attempt.consumed + synchronize_span(tokens, at + attempt.consumed),
                    errors: attempt.errors,
                },
            }
        }),
{
}

/// The rule of `parse_list`, as an equation.
pub proof fn lemma_list(tokens: Seq<TokenView>, at: int, in_block: bool)
    ensures
        parse_list(tokens, at, in_block) == ({
            if type_at(tokens, at) == TokenType::Eof || (in_block && type_at(tokens, at)
                == TokenType::RightBrace) {
                accepted(Seq::empty(), 0)
            } else {
                let first = parse_declaration(tokens, at);
                if first.consumed == 0 {
                    Parsed { node: Some(optional(first.node)), consumed: 0, errors: first.errors }
                } else {
                    let rest = parse_list(tokens, at + first.consumed, in_block);
                    Parsed {
                        node: Some(optional(first.node) + rest.node->0),
                        consumed: first.consumed + rest.consumed,
                        errors: first.errors + rest.errors,
                    }
                }
            }
        }),
{
}

/// A declaration that does not begin at the end of input goes over a token
/// at least.
pub proof fn lemma_declaration_moves(tokens: Seq<TokenView>, at: int)
    requires
        type_at(tokens, at) != TokenType::Eof,
    ensures
        parse_declaration(tokens, at).consumed > 0,
{
}

} // verus!
