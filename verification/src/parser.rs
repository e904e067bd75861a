//! The parser: tokens to statements, by recursive descent with one token of
//! lookahead.
use vstd::prelude::*;
use vstd::string::StringExecFns;
use crate::syntax_views;
use crate::lemma_syntax_views_push;
use crate::token_error;
use crate::SyntaxError;
use crate::expr::Assign;
use crate::expr::Binary;
use crate::expr::Expr;
use crate::expr::ExprView;
use crate::expr::Grouping;
use crate::expr::Literal;
use crate::expr::Unary;
use crate::expr::Variable;
use crate::literal_object::Literal as LiteralValue;
use crate::grammar::accepted;
use crate::grammar::after;
use crate::grammar::failed;
use crate::grammar::is_operator;
use crate::grammar::lemma_declaration_moves;
use crate::grammar::lemma_primary;
use crate::grammar::lemma_unary;
use crate::grammar::lemma_operand;
use crate::grammar::lemma_chain;
use crate::grammar::lemma_factor;
use crate::grammar::lemma_term;
use crate::grammar::lemma_comparison;
use crate::grammar::lemma_equality;
use crate::grammar::lemma_assignment;
use crate::grammar::lemma_expression;
use crate::grammar::lemma_terminated;
use crate::grammar::lemma_var_declaration;
use crate::grammar::lemma_statement;
use crate::grammar::lemma_declaration;
use crate::grammar::lemma_list;
use crate::grammar::parse_assignment;
use crate::grammar::parse_chain;
use crate::grammar::parse_comparison;
use crate::grammar::parse_declaration;
use crate::grammar::parse_equality;
use crate::grammar::parse_expression;
use crate::grammar::parse_factor;
use crate::grammar::parse_list;
use crate::grammar::parse_operand;
use crate::grammar::parse_primary;
use crate::grammar::parse_statement;
use crate::grammar::parse_term;
use crate::grammar::parse_terminated;
use crate::grammar::parse_unary;
use crate::grammar::parse_var_declaration;
use crate::grammar::span_to_boundary;
use crate::grammar::syntax_error;
use crate::grammar::synchronize_span;
use crate::grammar::type_at;
use crate::grammar::Parsed;
use crate::support::optional;
use crate::stmt::lemma_block_view;
use crate::stmt::statement_views;
use crate::stmt::Block;
use crate::stmt::Expression;
use crate::stmt::Print;
use crate::stmt::Stmt;
use crate::stmt::StmtView;
use crate::stmt::Var;
use crate::token::token_views;
use crate::token::Token;
use crate::token::TokenView;
use crate::token_type::TokenType;

verus! {

/// The failure of a production: the message of the error that ended it.
#[derive(Debug)]
pub struct ParseError {
    pub message: String,
}

impl ParseError {
    /// The failure with the message `msg`.
    pub fn new(msg: String) -> (error: Self)
        ensures
            error.message == msg,
    {
        Self { message: msg }
    }
}

/// Whether `result` is what `parse` says of an expression: the node it gave,
/// or a failure with the message of its last error.
pub open spec fn expr_outcome(result: Result<Expr, ParseError>, parse: Parsed<ExprView>) -> bool {
    match result {
        Ok(expr) => parse.node == Some(expr@),
        Err(error) => parse.node.is_none() && parse.errors.len() > 0 && error.message@
            == parse.errors.last().message,
    }
}

/// Whether `result` is what `parse` says of a statement.
pub open spec fn stmt_outcome(result: Result<Stmt, ParseError>, parse: Parsed<StmtView>) -> bool {
    match result {
        Ok(stmt) => parse.node == Some(stmt@),
        Err(error) => parse.node.is_none() && parse.errors.len() > 0 && error.message@
            == parse.errors.last().message,
    }
}

/// The value that a token carries, as a runtime value.
pub fn literal_value(literal: &crate::token::Literal) -> (value: LiteralValue)
    ensures
        value@ == literal@,
{
    match literal {
        crate::token::Literal::Number(bits) => LiteralValue::Number(*bits),
        crate::token::Literal::String(text) => LiteralValue::String(text.clone()),
        crate::token::Literal::Null => LiteralValue::Null,
    }
}

/// A parser over a token list that ends with the end token. `current` is the
/// token about to be read; syntax errors gather in `errors`.
pub struct Parser {
    pub tokens: Vec<Token>,
    pub current: usize,
    pub errors: Vec<SyntaxError>,
}

impl Parser {
    /// The list ends with the end token, and `current` lies in it.
    pub open spec fn well_formed(&self) -> bool {
        &&& self.tokens.len() > 0
        &&& self.tokens@[self.tokens.len() - 1].type_ == TokenType::Eof
        &&& self.current < self.tokens.len()
    }

    /// The tokens as contracts speak of them.
    pub open spec fn views(&self) -> Seq<TokenView> {
        token_views(self.tokens@)
    }

    /// `after` is `self` past a production that went as `parse` says.
    pub open spec fn advanced<T>(&self, after: Parser, parse: Parsed<T>) -> bool {
        &&& after.well_formed()
        &&& after.tokens == self.tokens
        &&& after.current == self.current + parse.consumed
        &&& syntax_views(after.errors@) =~= syntax_views(self.errors@) + parse.errors
    }

    /// A parser at the first token of `tokens`.
    pub fn new(tokens: Vec<Token>) -> (parser: Self)
        requires
            tokens.len() > 0,
            tokens@[tokens.len() - 1].type_ == TokenType::Eof,
        ensures
            parser.well_formed(),
            parser.tokens == tokens,
            parser.current == 0,
            parser.errors@.len() == 0,
    {
        Self { tokens, current: 0, errors: Vec::new() }
    }

    /// Parses declarations up to the end of input. A declaration that breaks
    /// the grammar is reported in `errors` and gives no statement; parsing
    /// goes on at the next statement boundary.
    pub fn parse(&mut self) -> (statements: Vec<Stmt>)
        requires
            old(self).well_formed(),
        ensures
            old(self).advanced(
                *final(self),
                parse_list(old(self).views(), old(self).current as int, false),
            ),
            Some(statement_views(statements@)) == parse_list(
                old(self).views(),
                old(self).current as int,
                false,
            ).node,
    {
        self.declarations(false)
    }

    /// `declaration*`, up to the end of input, and inside a block up to its
    /// `}`.
    fn declarations(&mut self, in_block: bool) -> (statements: Vec<Stmt>)
        requires
            old(self).well_formed(),
        ensures
            old(self).advanced(
                *final(self),
                parse_list(old(self).views(), old(self).current as int, in_block),
            ),
            Some(statement_views(statements@)) == parse_list(
                old(self).views(),
                old(self).current as int,
                in_block,
            ).node,
        decreases old(self).tokens.len() - old(self).current, 13nat,
    {
        let ghost views = self.views();
        let ghost start = self.current as int;
        let ghost whole = parse_list(views, start, in_block);
        let ghost reported = syntax_views(self.errors@);
        let mut statements: Vec<Stmt> = Vec::new();
        proof {
            lemma_list(views, start, in_block);
            assert(statement_views(statements@) + whole.node->0 =~= whole.node->0);
        }
        while !self.is_at_end() && !(in_block && self.check(TokenType::RightBrace))
            invariant
                self.well_formed(),
                self.tokens == old(self).tokens,
                views == old(self).views(),
                start == old(self).current,
                start <= self.current,
                whole == parse_list(views, start, in_block),
                reported == syntax_views(old(self).errors@),
                ({
                    let rest = parse_list(views, self.current as int, in_block);
                    &&& whole.node == Some(statement_views(statements@) + rest.node->0)
                    &&& whole.consumed == (self.current - start) + rest.consumed
                    &&& reported + whole.errors == syntax_views(self.errors@) + rest.errors
                }),
            decreases self.tokens.len() - self.current,
        {
            let ghost here = self.current as int;
            let ghost rest = parse_list(views, here, in_block);
            let ghost first = parse_declaration(views, here);
            let ghost before = statement_views(statements@);
            let ghost errors_before = syntax_views(self.errors@);
            proof {
                lemma_declaration_moves(views, here);
                lemma_list(views, here, in_block);
            }
            match self.declaration() {
                Ok(statement) => {
                    proof {
                        lemma_statement_views_push(statements@, statement);
                    }
                    statements.push(statement);
                },
                Err(_) => {},
            }
            proof {
                let next = parse_list(views, self.current as int, in_block);
                assert(statement_views(statements@) =~= before + optional(first.node));
                assert(before + rest.node->0 =~= statement_views(statements@) + next.node->0);
                assert(errors_before + rest.errors =~= syntax_views(self.errors@)
                    + next.errors);
            }
        }
        proof {
            let rest = parse_list(views, self.current as int, in_block);
            lemma_list(views, self.current as int, in_block);
            assert(statement_views(statements@) + rest.node->0 =~= statement_views(statements@));
            assert(syntax_views(self.errors@) + rest.errors =~= syntax_views(
                self.errors@,
            ));
        }
        statements
    }

    /// `declaration -> "var" IDENTIFIER ("=" expression)? ";" | statement`,
    /// with the skip to the next statement boundary after an error.
    fn declaration(&mut self) -> (result: Result<Stmt, ParseError>)
        requires
            old(self).well_formed(),
        ensures
            old(self).advanced(
                *final(self),
                parse_declaration(old(self).views(), old(self).current as int),
            ),
            stmt_outcome(result, parse_declaration(old(self).views(), old(self).current as int)),
        decreases old(self).tokens.len() - old(self).current, 12nat,
    {
        proof {
            lemma_declaration(self.views(), self.current as int);
        }
        let attempt = if self.match_one(TokenType::Var) {
            self.var_declaration()
        } else {
            self.statement()
        };
        match attempt {
            Ok(statement) => Ok(statement),
            Err(error) => {
                self.synchronize();
                Err(error)
            },
        }
    }

    /// `statement -> "print" expression ";" | "{" declaration* "}" |
    /// expression ";"`
    fn statement(&mut self) -> (result: Result<Stmt, ParseError>)
        requires
            old(self).well_formed(),
        ensures
            old(self).advanced(
                *final(self),
                parse_statement(old(self).views(), old(self).current as int),
            ),
            stmt_outcome(result, parse_statement(old(self).views(), old(self).current as int)),
        decreases old(self).tokens.len() - old(self).current, 11nat,
    {
        proof {
            lemma_statement(self.views(), self.current as int);
            lemma_terminated(self.views(), self.current + 1, "Expect ';' after value."@);
            lemma_terminated(self.views(), self.current as int, "Expect ';' after expression"@);
        }
        if self.match_one(TokenType::Print) {
            return self.print_statement();
        }
        if self.match_one(TokenType::LeftBrace) {
            return match self.block() {
                Ok(statements) => {
                    let block = Box::new(Block::new(statements));
                    proof {
                        lemma_block_view(block);
                    }
                    Ok(Stmt::Block(block))
                },
                Err(error) => Err(error),
            };
        }
        self.expression_statement()
    }

    /// The rest of a `print` statement.
    fn print_statement(&mut self) -> (result: Result<Stmt, ParseError>)
        requires
            old(self).well_formed(),
        ensures
            old(self).advanced(
                *final(self),
                parse_terminated(
                    old(self).views(),
                    old(self).current as int,
                    "Expect ';' after value."@,
                ),
            ),
            match result {
                Ok(stmt) => {
                    let parse = parse_terminated(
                        old(self).views(),
                        old(self).current as int,
                        "Expect ';' after value."@,
                    );
                    parse.node is Some && stmt@ == (StmtView::Print { expression: parse.node->0 })
                },
                Err(error) => {
                    let parse = parse_terminated(
                        old(self).views(),
                        old(self).current as int,
                        "Expect ';' after value."@,
                    );
                    parse.node.is_none() && parse.errors.len() > 0 && error.message@
                        == parse.errors.last().message
                },
            },
        decreases old(self).tokens.len() - old(self).current, 10nat,
    {
        proof {
            lemma_terminated(self.views(), self.current as int, "Expect ';' after value."@);
        }
        let value = match self.expression() {
            Ok(expr) => expr,
            Err(error) => {
                return Err(error);
            },
        };
        match self.consume(TokenType::Semicolon, "Expect ';' after value.") {
            Ok(_) => Ok(Stmt::Print(Box::new(Print::new(value)))),
            Err(error) => Err(error),
        }
    }

    /// The rest of a variable declaration, after `var`.
    fn var_declaration(&mut self) -> (result: Result<Stmt, ParseError>)
        requires
            old(self).well_formed(),
        ensures
            old(self).advanced(
                *final(self),
                parse_var_declaration(old(self).views(), old(self).current as int),
            ),
            stmt_outcome(
                result,
                parse_var_declaration(old(self).views(), old(self).current as int),
            ),
        decreases old(self).tokens.len() - old(self).current, 11nat,
    {
        proof {
            lemma_var_declaration(self.views(), self.current as int);
            lemma_terminated(self.views(), self.current + 2, "Expect ';' after variable declaration"@);
        }
        match self.consume(TokenType::Identifier, "Expect variable name.") {
            Ok(_) => {},
            Err(error) => {
                return Err(error);
            },
        }
        let name = self.previous().clone();
        let initializer = if self.match_one(TokenType::Equal) {
            match self.expression() {
                Ok(expr) => expr,
                Err(error) => {
                    return Err(error);
                },
            }
        } else {
            Expr::Literal(Box::new(Literal::new(LiteralValue::Null)))
        };
        match self.consume(TokenType::Semicolon, "Expect ';' after variable declaration") {
            Ok(_) => Ok(Stmt::Var(Box::new(Var::new(name, initializer)))),
            Err(error) => Err(error),
        }
    }

    /// An expression as a statement.
    fn expression_statement(&mut self) -> (result: Result<Stmt, ParseError>)
        requires
            old(self).well_formed(),
        ensures
            old(self).advanced(
                *final(self),
                parse_terminated(
                    old(self).views(),
                    old(self).current as int,
                    "Expect ';' after expression"@,
                ),
            ),
            match result {
                Ok(stmt) => {
                    let parse = parse_terminated(
                        old(self).views(),
                        old(self).current as int,
                        "Expect ';' after expression"@,
                    );
                    parse.node is Some && stmt@ == (StmtView::Expression {
                        expression: parse.node->0,
                    })
                },
                Err(error) => {
                    let parse = parse_terminated(
                        old(self).views(),
                        old(self).current as int,
                        "Expect ';' after expression"@,
                    );
                    parse.node.is_none() && parse.errors.len() > 0 && error.message@
                        == parse.errors.last().message
                },
            },
        decreases old(self).tokens.len() - old(self).current, 10nat,
    {
        proof {
            lemma_terminated(self.views(), self.current as int, "Expect ';' after expression"@);
        }
        let expr = match self.expression() {
            Ok(expr) => expr,
            Err(error) => {
                return Err(error);
            },
        };
        match self.consume(TokenType::Semicolon, "Expect ';' after expression") {
            Ok(_) => Ok(Stmt::Expression(Box::new(Expression::new(expr)))),
            Err(error) => Err(error),
        }
    }

    /// The rest of a block, after `{`.
    fn block(&mut self) -> (result: Result<Vec<Stmt>, ParseError>)
        requires
            old(self).well_formed(),
        ensures
            final(self).well_formed(),
            final(self).tokens == old(self).tokens,
            ({
                let views = old(self).views();
                let at = old(self).current as int;
                let items = parse_list(views, at, true);
                let closed = type_at(views, at + items.consumed) == TokenType::RightBrace;
                &&& final(self).current == at + items.consumed + if closed {
                    1int
                } else {
                    0int
                }
                &&& match result {
                    Ok(statements) => {
                        &&& closed
                        &&& Some(statement_views(statements@)) == items.node
                        &&& syntax_views(final(self).errors@) == syntax_views(
                            old(self).errors@,
                        ) + items.errors
                    },
                    Err(error) => {
                        &&& !closed
                        &&& error.message@ == "Expect '}' after block"@
                        &&& syntax_views(final(self).errors@) == syntax_views(
                            old(self).errors@,
                        ) + items.errors.push(
                            syntax_error(views[at + items.consumed], "Expect '}' after block"@),
                        )
                    },
                }
            }),
        decreases old(self).tokens.len() - old(self).current, 14nat,
    {
        let statements = self.declarations(true);
        let ghost reported = syntax_views(self.errors@);
        match self.consume(TokenType::RightBrace, "Expect '}' after block") {
            Ok(_) => Ok(statements),
            Err(error) => {
                assert(syntax_views(self.errors@) =~= syntax_views(old(self).errors@)
                    + parse_list(old(self).views(), old(self).current as int, true).errors.push(
                    syntax_error(self.views()[self.current as int], "Expect '}' after block"@),
                ));
                Err(error)
            },
        }
    }

    /// `assignment -> IDENTIFIER "=" assignment | equality`
    fn assignment(&mut self) -> (result: Result<Expr, ParseError>)
        requires
            old(self).well_formed(),
        ensures
            old(self).advanced(
                *final(self),
                parse_assignment(old(self).views(), old(self).current as int),
            ),
            expr_outcome(result, parse_assignment(old(self).views(), old(self).current as int)),
            result is Ok ==> final(self).errors == old(self).errors,
        decreases old(self).tokens.len() - old(self).current, 8nat,
    {
        proof {
            lemma_assignment(self.views(), self.current as int);
        }
        let expr = match self.equality() {
            Ok(expr) => expr,
            Err(error) => {
                return Err(error);
            },
        };
        if self.match_one(TokenType::Equal) {
            let equals = self.current - 1;
            let value = match self.assignment() {
                Ok(value) => value,
                Err(error) => {
                    return Err(error);
                },
            };
            return match expr {
                Expr::Variable(variable) => {
                    let name = variable.name().clone();
                    Ok(Expr::Assign(Box::new(Assign::new(name, value))))
                },
                _ => Err(self.error(equals, "Invalid assignment target")),
            };
        }
        Ok(expr)
    }

    /// Parses one expression from the current token on:
    /// `expression -> assignment`. Where the tokens break the grammar, the
    /// error is reported in `errors` and the parser stays at the token it
    /// stopped at.
    pub fn expression(&mut self) -> (result: Result<Expr, ParseError>)
        requires
            old(self).well_formed(),
        ensures
            old(self).advanced(
                *final(self),
                parse_expression(old(self).views(), old(self).current as int),
            ),
            expr_outcome(result, parse_expression(old(self).views(), old(self).current as int)),
            result is Ok ==> final(self).errors == old(self).errors,
        decreases old(self).tokens.len() - old(self).current, 9nat,
    {
        proof {
            lemma_expression(self.views(), self.current as int);
        }
        self.assignment()
    }

    /// `equality -> comparison (("!=" | "==") comparison)*`
    fn equality(&mut self) -> (result: Result<Expr, ParseError>)
        requires
            old(self).well_formed(),
        ensures
            old(self).advanced(
                *final(self),
                parse_equality(old(self).views(), old(self).current as int),
            ),
            expr_outcome(result, parse_equality(old(self).views(), old(self).current as int)),
            result is Ok ==> final(self).errors == old(self).errors,
        decreases old(self).tokens.len() - old(self).current, 6nat,
    {
        proof {
            lemma_equality(self.views(), self.current as int);
        }
        let expr = match self.comparison() {
            Ok(expr) => expr,
            Err(error) => {
                return Err(error);
            },
        };
        let ghost first = parse_comparison(old(self).views(), old(self).current as int);
        let result = self.chain(expr, 0);
        result
    }

    /// `comparison -> term (("<" | "<=" | ">" | ">=") term)*`
    fn comparison(&mut self) -> (result: Result<Expr, ParseError>)
        requires
            old(self).well_formed(),
        ensures
            old(self).advanced(
                *final(self),
                parse_comparison(old(self).views(), old(self).current as int),
            ),
            expr_outcome(result, parse_comparison(old(self).views(), old(self).current as int)),
            result is Ok ==> final(self).errors == old(self).errors,
        decreases old(self).tokens.len() - old(self).current, 5nat,
    {
        proof {
            lemma_comparison(self.views(), self.current as int);
        }
        let expr = match self.term() {
            Ok(expr) => expr,
            Err(error) => {
                return Err(error);
            },
        };
        let ghost first = parse_term(old(self).views(), old(self).current as int);
        let result = self.chain(expr, 1);
        result
    }

    /// `term -> factor (("-" | "+") factor)*`
    fn term(&mut self) -> (result: Result<Expr, ParseError>)
        requires
            old(self).well_formed(),
        ensures
            old(self).advanced(
                *final(self),
                parse_term(old(self).views(), old(self).current as int),
            ),
            expr_outcome(result, parse_term(old(self).views(), old(self).current as int)),
            result is Ok ==> final(self).errors == old(self).errors,
        decreases old(self).tokens.len() - old(self).current, 4nat,
    {
        proof {
            lemma_term(self.views(), self.current as int);
        }
        let expr = match self.factor() {
            Ok(expr) => expr,
            Err(error) => {
                return Err(error);
            },
        };
        let ghost first = parse_factor(old(self).views(), old(self).current as int);
        let result = self.chain(expr, 2);
        result
    }

    /// `factor -> unary (("/" | "*") unary)*`
    fn factor(&mut self) -> (result: Result<Expr, ParseError>)
        requires
            old(self).well_formed(),
        ensures
            old(self).advanced(
                *final(self),
                parse_factor(old(self).views(), old(self).current as int),
            ),
            expr_outcome(result, parse_factor(old(self).views(), old(self).current as int)),
            result is Ok ==> final(self).errors == old(self).errors,
        decreases old(self).tokens.len() - old(self).current, 3nat,
    {
        proof {
            lemma_factor(self.views(), self.current as int);
        }
        let expr = match self.unary() {
            Ok(expr) => expr,
            Err(error) => {
                return Err(error);
            },
        };
        let ghost first = parse_unary(old(self).views(), old(self).current as int);
        let result = self.chain(expr, 3);
        result
    }

    /// The operators of a precedence level.
    fn operators(level: u8) -> (types: Vec<TokenType>)
        ensures
            forall|type_: TokenType| types@.contains(type_) <==> is_operator(level as nat, type_),
    {
        if level == 0 {
            let types = vec![TokenType::BangEqual, TokenType::EqualEqual];
            assert(types@[0] == TokenType::BangEqual && types@[1] == TokenType::EqualEqual);
            types
        } else if level == 1 {
            let types = vec![
                TokenType::Greater,
                TokenType::GreaterEqual,
                TokenType::Less,
                TokenType::LessEqual,
            ];
            assert(types@[0] == TokenType::Greater && types@[1] == TokenType::GreaterEqual);
            assert(types@[2] == TokenType::Less && types@[3] == TokenType::LessEqual);
            types
        } else if level == 2 {
            let types = vec![TokenType::Minus, TokenType::Plus];
            assert(types@[0] == TokenType::Minus && types@[1] == TokenType::Plus);
            types
        } else {
            let types = vec![TokenType::Slash, TokenType::Star];
            assert(types@[0] == TokenType::Slash && types@[1] == TokenType::Star);
            types
        }
    }

    /// An operand of the operators of `level`.
    fn operand(&mut self, level: u8) -> (result: Result<Expr, ParseError>)
        requires
            old(self).well_formed(),
        ensures
            old(self).advanced(
                *final(self),
                parse_operand(old(self).views(), old(self).current as int, level as nat),
            ),
            expr_outcome(
                result,
                parse_operand(old(self).views(), old(self).current as int, level as nat),
            ),
            result is Ok ==> final(self).errors == old(self).errors,
        decreases old(self).tokens.len() - old(self).current, 7nat,
    {
        proof {
            lemma_operand(self.views(), self.current as int, level as nat);
        }
        if level == 0 {
            self.comparison()
        } else if level == 1 {
            self.term()
        } else if level == 2 {
            self.factor()
        } else {
            self.unary()
        }
    }

    /// The rest of a left-associative chain of `level`, `left` being what
    /// was parsed so far.
    fn chain(&mut self, left: Expr, level: u8) -> (result: Result<Expr, ParseError>)
        requires
            old(self).well_formed(),
        ensures
            old(self).advanced(
                *final(self),
                parse_chain(old(self).views(), old(self).current as int, left@, level as nat),
            ),
            expr_outcome(
                result,
                parse_chain(old(self).views(), old(self).current as int, left@, level as nat),
            ),
            result is Ok ==> final(self).errors == old(self).errors,
        decreases old(self).tokens.len() - old(self).current, 0nat,
    {
        let ghost views = self.views();
        let ghost start = self.current as int;
        let ghost whole = parse_chain(views, start, left@, level as nat);
        let mut expr = left;
        loop
            invariant_except_break
                self.well_formed(),
                self.tokens == old(self).tokens,
                self.errors == old(self).errors,
                views == old(self).views(),
                start == old(self).current,
                start <= self.current,
                whole == parse_chain(views, start, left@, level as nat),
                whole == after(
                    (self.current - start) as nat,
                    parse_chain(views, self.current as int, expr@, level as nat),
                ),
            ensures
                self.well_formed(),
                self.tokens == old(self).tokens,
                self.errors == old(self).errors,
                start <= self.current,
                whole == accepted(expr@, (self.current - start) as nat),
            decreases self.tokens.len() - self.current,
        {
            proof {
                lemma_chain(views, self.current as int, expr@, level as nat);
            }
            if !self.match_token(Self::operators(level)) {
                break ;
            }
            let ghost at = self.current - 1;
            let ghost left_view = expr@;
            let operator = self.previous().clone();
            let right = match self.operand(level) {
                Ok(right) => right,
                Err(error) => {
                    proof {
                        let second = parse_operand(views, at + 1, level as nat);
                        assert(whole == after((at - start) as nat, failed::<ExprView, ExprView>(1, second)));
                        assert(syntax_views(old(self).errors@) + whole.errors
                            =~= syntax_views(self.errors@));
                    }
                    return Err(error);
                },
            };
            expr = Expr::Binary(Box::new(Binary::new(expr, operator, right)));
        }
        proof {
            assert(syntax_views(old(self).errors@) + whole.errors =~= syntax_views(
                self.errors@,
            ));
        }
        Ok(expr)
    }

    /// `unary -> ("!" | "-") unary | primary`
    fn unary(&mut self) -> (result: Result<Expr, ParseError>)
        requires
            old(self).well_formed(),
        ensures
            old(self).advanced(
                *final(self),
                parse_unary(old(self).views(), old(self).current as int),
            ),
            expr_outcome(result, parse_unary(old(self).views(), old(self).current as int)),
            result is Ok ==> final(self).errors == old(self).errors,
        decreases old(self).tokens.len() - old(self).current, 2nat,
    {
        proof {
            lemma_unary(self.views(), self.current as int);
        }
        if self.match_one(TokenType::Bang) || self.match_one(TokenType::Minus) {
            let operator = self.previous().clone();
            let right = match self.unary() {
                Ok(right) => right,
                Err(error) => {
                    return Err(error);
                },
            };
            return Ok(Expr::Unary(Box::new(Unary::new(operator, right))));
        }
        self.primary()
    }

    /// `primary -> NUMBER | STRING | "true" | "false" | "nil" | IDENTIFIER |
    /// "(" expression ")"`
    fn primary(&mut self) -> (result: Result<Expr, ParseError>)
        requires
            old(self).well_formed(),
        ensures
            old(self).advanced(
                *final(self),
                parse_primary(old(self).views(), old(self).current as int),
            ),
            expr_outcome(result, parse_primary(old(self).views(), old(self).current as int)),
            result is Ok ==> final(self).errors == old(self).errors,
        decreases old(self).tokens.len() - old(self).current, 1nat,
    {
        proof {
            lemma_primary(self.views(), self.current as int);
        }
        if self.match_one(TokenType::False) {
            return Ok(Expr::Literal(Box::new(Literal::new(LiteralValue::Boolean(false)))));
        }
        if self.match_one(TokenType::True) {
            return Ok(Expr::Literal(Box::new(Literal::new(LiteralValue::Boolean(true)))));
        }
        if self.match_one(TokenType::Nil) {
            return Ok(Expr::Literal(Box::new(Literal::new(LiteralValue::Null))));
        }
        if self.match_one(TokenType::Number) || self.match_one(TokenType::String) {
            return Ok(
                Expr::Literal(Box::new(Literal::new(literal_value(&self.previous().literal)))),
            );
        }
        if self.match_one(TokenType::Identifier) {
            return Ok(Expr::Variable(Box::new(Variable::new(self.previous().clone()))));
        }
        if self.match_one(TokenType::LeftParen) {
            let expr = match self.expression() {
                Ok(expr) => expr,
                Err(error) => {
                    return Err(error);
                },
            };
            return match self.consume(TokenType::RightParen, "Expect ')' after expression") {
                Ok(_) => Ok(Expr::Grouping(Box::new(Grouping::new(expr)))),
                Err(error) => Err(error),
            };
        }
        Err(self.error(self.current, "Expect expression"))
    }

    /// Goes over the current token if it is of `type_`, and reports
    /// `message` at it otherwise.
    fn consume(&mut self, type_: TokenType, message: &str) -> (result: Result<(), ParseError>)
        requires
            old(self).well_formed(),
            type_ != TokenType::Eof,
        ensures
            final(self).well_formed(),
            final(self).tokens == old(self).tokens,
            match result {
                Ok(_) => {
                    &&& type_at(old(self).views(), old(self).current as int) == type_
                    &&& final(self).current == old(self).current + 1
                    &&& final(self).errors == old(self).errors
                },
                Err(error) => {
                    &&& type_at(old(self).views(), old(self).current as int) != type_
                    &&& final(self).current == old(self).current
                    &&& error.message@ == message@
                    &&& syntax_views(final(self).errors@) == syntax_views(
                        old(self).errors@,
                    ).push(syntax_error(old(self).views()[old(self).current as int], message@))
                },
            },
    {
        if self.check(type_) {
            self.advance();
            return Ok(());
        }
        Err(self.error(self.current, message))
    }

    /// Reports `message` at the token at `at`.
    fn error(&mut self, at: usize, message: &str) -> (error: ParseError)
        requires
            old(self).well_formed(),
            at < old(self).tokens.len(),
        ensures
            final(self).well_formed(),
            final(self).tokens == old(self).tokens,
            final(self).current == old(self).current,
            error.message@ == message@,
            syntax_views(final(self).errors@) == syntax_views(old(self).errors@).push(
                syntax_error(old(self).views()[at as int], message@),
            ),
    {
        let diagnostic = token_error(&self.tokens[at], message);
        proof {
            lemma_syntax_views_push(self.errors@, diagnostic);
        }
        self.errors.push(diagnostic);
        ParseError::new(String::from_str(message))
    }

    /// Goes over the current token if it is of `type_`.
    fn match_one(&mut self, type_: TokenType) -> (matched: bool)
        requires
            old(self).well_formed(),
        ensures
            final(self).well_formed(),
            final(self).tokens == old(self).tokens,
            final(self).errors == old(self).errors,
            matched == (type_at(old(self).views(), old(self).current as int) == type_ && type_
                != TokenType::Eof),
            final(self).current == if matched {
                old(self).current + 1
            } else {
                old(self).current as int
            },
    {
        if self.check(type_) {
            self.advance();
            return true;
        }
        false
    }

    /// Goes over the current token if its type is one of `types`.
    fn match_token(&mut self, types: Vec<TokenType>) -> (matched: bool)
        requires
            old(self).well_formed(),
        ensures
            final(self).well_formed(),
            final(self).tokens == old(self).tokens,
            final(self).errors == old(self).errors,
            matched == (types@.contains(type_at(old(self).views(), old(self).current as int))
                && type_at(old(self).views(), old(self).current as int) != TokenType::Eof),
            final(self).current == if matched {
                old(self).current + 1
            } else {
                old(self).current as int
            },
    {
        let mut index: usize = 0;
        while index < types.len()
            invariant
                index <= types.len(),
                self.well_formed(),
                *self == *old(self),
                forall|i: int|
                    0 <= i < index ==> !(types@[i] == type_at(self.views(), self.current as int)
                        && types@[i] != TokenType::Eof),
            decreases types.len() - index,
        {
            if self.check(types[index]) {
                self.advance();
                return true;
            }
            index = index + 1;
        }
        false
    }

    /// Whether the current token is of `type_`. The end token never is.
    fn check(&self, type_: TokenType) -> (r: bool)
        requires
            self.well_formed(),
        ensures
            r == (type_at(self.views(), self.current as int) == type_ && type_ != TokenType::Eof),
    {
        if self.is_at_end() {
            return false;
        }
        self.peek().type_ == type_
    }

    /// Goes over the current token, unless it is the end token.
    fn advance(&mut self)
        requires
            old(self).well_formed(),
        ensures
            final(self).well_formed(),
            final(self).tokens == old(self).tokens,
            final(self).errors == old(self).errors,
            final(self).current == if type_at(old(self).views(), old(self).current as int)
                == TokenType::Eof {
                old(self).current as int
            } else {
                old(self).current + 1
            },
    {
        if !self.is_at_end() {
            self.current = self.current + 1;
        }
    }

    /// Goes on to the next statement boundary: past the current token, then
    /// up to the end of input, the token after a `;`, or a token that begins
    /// a statement.
    fn synchronize(&mut self)
        requires
            old(self).well_formed(),
        ensures
            final(self).well_formed(),
            final(self).tokens == old(self).tokens,
            final(self).errors == old(self).errors,
            final(self).current == old(self).current + synchronize_span(
                old(self).views(),
                old(self).current as int,
            ),
    {
        let ghost views = self.views();
        let ghost start = self.current as int;
        if self.is_at_end() {
            return ;
        }
        self.advance();
        while !self.is_at_end()
            invariant
                self.well_formed(),
                self.tokens == old(self).tokens,
                self.errors == old(self).errors,
                views == old(self).views(),
                start == old(self).current,
                start < self.current,
                type_at(views, start) != TokenType::Eof,
                span_to_boundary(views, start + 1) == (self.current - start - 1) + span_to_boundary(
                    views,
                    self.current as int,
                ),
            decreases self.tokens.len() - self.current,
        {
            assert(type_at(views, self.current - 1) == self.tokens@[self.current - 1].type_);
            if self.previous().type_ == TokenType::Semicolon {
                return ;
            }
            match self.peek().type_ {
                TokenType::Class
                | TokenType::Fun
                | TokenType::Var
                | TokenType::For
                | TokenType::If
                | TokenType::While
                | TokenType::Print
                | TokenType::Return => {
                    return ;
                },
                _ => {},
            }
            self.advance();
        }
    }

    fn is_at_end(&self) -> (r: bool)
        requires
            self.well_formed(),
        ensures
            r == (type_at(self.views(), self.current as int) == TokenType::Eof),
    {
        self.peek().type_ == TokenType::Eof
    }

    fn peek(&self) -> (token: &Token)
        requires
            self.well_formed(),
        ensures
            *token == self.tokens@[self.current as int],
    {
        &self.tokens[self.current]
    }

    fn previous(&self) -> (token: &Token)
        requires
            self.well_formed(),
            self.current > 0,
        ensures
            *token == self.tokens@[self.current - 1],
    {
        &self.tokens[self.current - 1]
    }
}

/// Pushing a statement pushes its view.
pub proof fn lemma_statement_views_push(statements: Seq<Stmt>, statement: Stmt)
    ensures
        statement_views(statements.push(statement)) == statement_views(statements).push(
            statement@,
        ),
{
    assert(statement_views(statements.push(statement)) =~= statement_views(statements).push(
        statement@,
    ));
}

} // verus!
