//! Expressions: the nodes of the tree, and the tree as contracts speak of it.
use vstd::prelude::*;
use crate::literal_object::Literal as LiteralValue;
use crate::literal_object::Value;
use crate::token::Token;
use crate::token::TokenView;

verus! {

/// An expression as contracts speak of it.
pub enum ExprView {
    Assign { name: TokenView, value: Box<ExprView> },
    Binary { left: Box<ExprView>, operator: TokenView, right: Box<ExprView> },
    Grouping { expression: Box<ExprView> },
    Literal { literal: Value },
    Unary { operator: TokenView, right: Box<ExprView> },
    Variable { name: TokenView },
}

/// An expression node. Each node owns its children.
#[derive(Debug)]
pub enum Expr {
    Assign(Box<Assign>),
    Binary(Box<Binary>),
    Grouping(Box<Grouping>),
    Literal(Box<Literal>),
    Unary(Box<Unary>),
    Variable(Box<Variable>),
}

/// `name = value`
#[derive(Debug)]
pub struct Assign {
    pub name: Token,
    pub value: Expr,
}

/// `left operator right`
#[derive(Debug)]
pub struct Binary {
    pub left: Expr,
    pub operator: Token,
    pub right: Expr,
}

/// `( expression )`
#[derive(Debug)]
pub struct Grouping {
    pub expression: Expr,
}

/// A value written in the source.
#[derive(Debug)]
pub struct Literal {
    pub value: LiteralValue,
}

/// `operator right`
#[derive(Debug)]
pub struct Unary {
    pub operator: Token,
    pub right: Expr,
}

/// A variable, by its name.
#[derive(Debug)]
pub struct Variable {
    pub name: Token,
}

impl Expr {
    /// The expression as contracts speak of it.
    pub open spec fn model(&self) -> ExprView
        decreases self,
    {
        match self {
            Expr::Assign(node) => ExprView::Assign {
                name: node.name@,
                value: Box::new(node.value.model()),
            },
            Expr::Binary(node) => ExprView::Binary {
                left: Box::new(node.left.model()),
                operator: node.operator@,
                right: Box::new(node.right.model()),
            },
            Expr::Grouping(node) => ExprView::Grouping {
                expression: Box::new(node.expression.model()),
            },
            Expr::Literal(node) => ExprView::Literal { literal: node.value@ },
            Expr::Unary(node) => ExprView::Unary {
                operator: node.operator@,
                right: Box::new(node.right.model()),
            },
            Expr::Variable(node) => ExprView::Variable { name: node.name@ },
        }
    }
}

impl View for Expr {
    type V = ExprView;

    open spec fn view(&self) -> ExprView {
        self.model()
    }
}

impl View for Assign {
    type V = ExprView;

    open spec fn view(&self) -> ExprView {
        ExprView::Assign { name: self.name@, value: Box::new(self.value@) }
    }
}

impl View for Binary {
    type V = ExprView;

    open spec fn view(&self) -> ExprView {
        ExprView::Binary {
            left: Box::new(self.left@),
            operator: self.operator@,
            right: Box::new(self.right@),
        }
    }
}

impl View for Grouping {
    type V = ExprView;

    open spec fn view(&self) -> ExprView {
        ExprView::Grouping { expression: Box::new(self.expression@) }
    }
}

impl View for Literal {
    type V = ExprView;

    open spec fn view(&self) -> ExprView {
        ExprView::Literal { literal: self.value@ }
    }
}

impl View for Unary {
    type V = ExprView;

    open spec fn view(&self) -> ExprView {
        ExprView::Unary { operator: self.operator@, right: Box::new(self.right@) }
    }
}

impl View for Variable {
    type V = ExprView;

    open spec fn view(&self) -> ExprView {
        ExprView::Variable { name: self.name@ }
    }
}

impl Assign {
    pub fn new(name: Token, value: Expr) -> (node: Self)
        ensures
            node.name == name,
            node.value == value,
    {
        Self { name, value }
    }

    pub fn name(&self) -> (name: &Token)
        ensures
            *name == self.name,
    {
        &self.name
    }

    pub fn value(&self) -> (value: &Expr)
        ensures
            *value == self.value,
    {
        &self.value
    }
}

impl Binary {
    pub fn new(left: Expr, operator: Token, right: Expr) -> (node: Self)
        ensures
            node.left == left,
            node.operator == operator,
            node.right == right,
    {
        Self { left, operator, right }
    }

    pub fn left(&self) -> (left: &Expr)
        ensures
            *left == self.left,
    {
        &self.left
    }

    pub fn right(&self) -> (right: &Expr)
        ensures
            *right == self.right,
    {
        &self.right
    }

    pub fn operator(&self) -> (operator: &Token)
        ensures
            *operator == self.operator,
    {
        &self.operator
    }
}

impl Grouping {
    pub fn new(expr: Expr) -> (node: Self)
        ensures
            node.expression == expr,
    {
        Self { expression: expr }
    }

    pub fn expression(&self) -> (expression: &Expr)
        ensures
            *expression == self.expression,
    {
        &self.expression
    }
}

impl Literal {
    pub fn new(literal: LiteralValue) -> (node: Self)
        ensures
            node.value == literal,
    {
        Self { value: literal }
    }

    pub fn value(&self) -> (value: &LiteralValue)
        ensures
            *value == self.value,
    {
        &self.value
    }
}

impl Unary {
    pub fn new(operator: Token, right: Expr) -> (node: Self)
        ensures
            node.operator == operator,
            node.right == right,
    {
        Self { operator, right }
    }

    pub fn operator(&self) -> (operator: &Token)
        ensures
            *operator == self.operator,
    {
        &self.operator
    }

    pub fn right(&self) -> (right: &Expr)
        ensures
            *right == self.right,
    {
        &self.right
    }
}

impl Variable {
    pub fn new(name: Token) -> (node: Self)
        ensures
            node.name == name,
    {
        Self { name }
    }

    pub fn name(&self) -> (name: &Token)
        ensures
            *name == self.name,
    {
        &self.name
    }
}

} // verus!
