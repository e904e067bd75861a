//! Statements: the nodes of the tree, and the tree as contracts speak of it.
use vstd::prelude::*;
use crate::expr::Expr;
use crate::expr::ExprView;
use crate::token::Token;
use crate::token::TokenView;

verus! {

/// A statement as contracts speak of it.
pub enum StmtView {
    Block { statements: Seq<StmtView> },
    Expression { expression: ExprView },
    Print { expression: ExprView },
    Var { name: TokenView, initializer: ExprView },
}

/// A statement node.
#[derive(Debug)]
pub enum Stmt {
    Block(Box<Block>),
    Expression(Box<Expression>),
    Print(Box<Print>),
    Var(Box<Var>),
}

/// `expression ;`
#[derive(Debug)]
pub struct Expression {
    pub expression: Expr,
}

/// `print expression ;`
#[derive(Debug)]
pub struct Print {
    pub expression: Expr,
}

/// `var name = initializer ;`
#[derive(Debug)]
pub struct Var {
    pub name: Token,
    pub initializer: Expr,
}

/// `{ statements }`
#[derive(Debug)]
pub struct Block {
    pub statements: Vec<Stmt>,
}

impl Stmt {
    /// The statement as contracts speak of it.
    pub open spec fn model(&self) -> StmtView
        decreases self,
    {
        match self {
            Stmt::Block(node) => StmtView::Block {
                statements: Seq::new(
                    node.statements@.len(),
                    |i: int|
                        if 0 <= i < node.statements@.len() {
                            node.statements@[i].model()
                        } else {
                            arbitrary()
                        },
                ),
            },
            Stmt::Expression(node) => StmtView::Expression { expression: node.expression@ },
            Stmt::Print(node) => StmtView::Print { expression: node.expression@ },
            Stmt::Var(node) => StmtView::Var { name: node.name@, initializer: node.initializer@ },
        }
    }
}

impl View for Stmt {
    type V = StmtView;

    open spec fn view(&self) -> StmtView {
        self.model()
    }
}

/// The statements of a list, each as contracts speak of it.
pub open spec fn statement_views(statements: Seq<Stmt>) -> Seq<StmtView> {
    Seq::new(statements.len(), |i: int| statements[i]@)
}

/// A block as a statement is its statements, each as contracts speak of it.
pub proof fn lemma_block_view(block: Box<Block>)
    ensures
        Stmt::Block(block)@ == (StmtView::Block { statements: statement_views(block.statements@) }),
{
    let direct = statement_views(block.statements@);
    assert(Stmt::Block(block).model()->Block_statements =~= direct);
}

impl Expression {
    pub fn new(expression: Expr) -> (node: Self)
        ensures
            node.expression == expression,
    {
        Expression { expression }
    }

    pub fn expression(&self) -> (expression: &Expr)
        ensures
            *expression == self.expression,
    {
        &self.expression
    }
}

impl Print {
    pub fn new(expression: Expr) -> (node: Self)
        ensures
            node.expression == expression,
    {
        Print { expression }
    }

    pub fn expression(&self) -> (expression: &Expr)
        ensures
            *expression == self.expression,
    {
        &self.expression
    }
}

impl Var {
    pub fn new(name: Token, initializer: Expr) -> (node: Self)
        ensures
            node.name == name,
            node.initializer == initializer,
    {
        Var { name, initializer }
    }

    pub fn name(&self) -> (name: &Token)
        ensures
            *name == self.name,
    {
        &self.name
    }

    pub fn initializer(&self) -> (initializer: &Expr)
        ensures
            *initializer == self.initializer,
    {
        &self.initializer
    }
}

impl Block {
    pub fn new(statements: Vec<Stmt>) -> (node: Self)
        ensures
            node.statements == statements,
    {
        Block { statements }
    }

    pub fn statements(&self) -> (statements: &Vec<Stmt>)
        ensures
            *statements == self.statements,
    {
        &self.statements
    }
}

} // verus!
