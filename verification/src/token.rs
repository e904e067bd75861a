//! Tokens: what the scanner gives and the parser takes.
use vstd::prelude::*;
use crate::literal_object::Value;
use crate::token_type::TokenType;

verus! {

/// The scalar that a token carries: the value of a number or string literal,
/// nothing for every other token.
#[derive(Debug)]
pub enum Literal {
    Number(u64),
    String(String),
    Null,
}

impl View for Literal {
    type V = Value;

    open spec fn view(&self) -> Value {
        match self {
            Literal::Number(bits) => Value::Number(*bits),
            Literal::String(text) => Value::String(text@),
            Literal::Null => Value::Null,
        }
    }
}

impl Clone for Literal {
    fn clone(&self) -> (copy: Self)
        ensures
            copy == *self,
    {
        match self {
            Literal::Number(bits) => Literal::Number(*bits),
            Literal::String(text) => Literal::String(text.clone()),
            Literal::Null => Literal::Null,
        }
    }
}

/// A token as contracts speak of it.
pub struct TokenView {
    pub type_: TokenType,
    pub lexeme: Seq<char>,
    pub literal: Value,
    pub line: u64,
}

/// One lexical unit of the source, with the line it ends on.
#[derive(Debug)]
pub struct Token {
    pub type_: TokenType,
    pub lexeme: String,
    pub literal: Literal,
    pub line: u64,
}

impl View for Token {
    type V = TokenView;

    open spec fn view(&self) -> TokenView {
        TokenView {
            type_: self.type_,
            lexeme: self.lexeme@,
            literal: self.literal@,
            line: self.line,
        }
    }
}

impl Clone for Token {
    fn clone(&self) -> (copy: Self)
        ensures
            copy == *self,
    {
        Token {
            type_: self.type_,
            lexeme: self.lexeme.clone(),
            literal: self.literal.clone(),
            line: self.line,
        }
    }
}

impl Token {
    /// The token of these four parts.
    pub fn new(type_: TokenType, lexeme: String, literal: Literal, line: u64) -> (token: Self)
        ensures
            token.type_ == type_,
            token.lexeme == lexeme,
            token.literal == literal,
            token.line == line,
    {
        Token { type_, lexeme, literal, line }
    }
}

/// The tokens of a list, each as contracts speak of it.
pub open spec fn token_views(tokens: Seq<Token>) -> Seq<TokenView> {
    Seq::new(tokens.len(), |i: int| tokens[i]@)
}

/// Pushing a token pushes its view.
pub proof fn lemma_token_views_push(tokens: Seq<Token>, token: Token)
    ensures
        token_views(tokens.push(token)) == token_views(tokens).push(token@),
{
    assert(token_views(tokens.push(token)) =~= token_views(tokens).push(token@));
}

} // verus!
