//! The interpreter: a walk over the tree that evaluates expressions and runs
//! statements.
use vstd::prelude::*;
use vstd::string::StringExecFns;
use vstd::string::StrSliceExecFns;
use crate::environment::assigned;
use crate::environment::defined;
use crate::environment::lemma_scope_count;
use crate::environment::lookup;
use crate::environment::undefined_variable;
use crate::environment::Environment;
use crate::environment::Scopes;
use crate::expr::Assign;
use crate::expr::Binary;
use crate::expr::Expr;
use crate::expr::ExprView;
use crate::expr::Grouping;
use crate::expr::Unary;
use crate::expr::Variable;
use crate::literal_object::truthy;
use crate::literal_object::values_equal;
use crate::literal_object::Literal;
use crate::literal_object::Value;
use crate::number::compares;
use crate::number::negated;
use crate::number::number_compare;
use crate::number::number_negate;
use crate::number::Arithmetic;
use crate::number::Comparison;
use crate::stmt::lemma_block_view;
use crate::stmt::statement_views;
use crate::stmt::Block;
use crate::stmt::Expression;
use crate::stmt::Print;
use crate::stmt::Stmt;
use crate::stmt::StmtView;
use crate::stmt::Var;
use crate::token::Token;
use crate::token::TokenView;
use crate::token_type::TokenType;

verus! {

/// A runtime error as contracts speak of it.
pub struct RuntimeErrorView {
    pub token: TokenView,
    pub message: Seq<char>,
}

/// The failure that ends a run: the token it happened at, and why.
#[derive(Debug)]
pub struct RuntimeError {
    pub token: Token,
    pub message: String,
}

impl View for RuntimeError {
    type V = RuntimeErrorView;

    open spec fn view(&self) -> RuntimeErrorView {
        RuntimeErrorView { token: self.token@, message: self.message@ }
    }
}

/// A runtime error at `token`.
pub open spec fn failure(token: TokenView, message: Seq<char>) -> RuntimeErrorView {
    RuntimeErrorView { token, message }
}

/// The error of an operator that takes two numbers and got something else.
pub open spec fn numbers_required(operator: TokenView, symbol: Seq<char>) -> RuntimeErrorView {
    failure(operator, "Operator '"@ + symbol + "' requires two numbers"@)
}

/// What the arithmetic operator `operation`, written `symbol`, gives: the
/// rounded result on two numbers, an error on anything else.
pub open spec fn number_result(
    operator: TokenView,
    operation: Arithmetic,
    symbol: Seq<char>,
    left: Value,
    right: Value,
    apply: spec_fn(Arithmetic, u64, u64) -> u64,
) -> Result<Value, RuntimeErrorView> {
    match (left, right) {
        (Value::Number(a), Value::Number(b)) => Ok(Value::Number(apply(operation, a, b))),
        _ => Err(numbers_required(operator, symbol)),
    }
}

/// What the ordering operator `comparison`, written `symbol`, gives: a
/// Boolean on two numbers, an error on anything else.
pub open spec fn comparison_result(
    operator: TokenView,
    comparison: Comparison,
    symbol: Seq<char>,
    left: Value,
    right: Value,
) -> Result<Value, RuntimeErrorView> {
    match (left, right) {
        (Value::Number(a), Value::Number(b)) => Ok(Value::Boolean(compares(comparison, a, b))),
        _ => Err(numbers_required(operator, symbol)),
    }
}

/// What `+` gives: the sum of two numbers, two strings joined left then
/// right, an error on any other pair.
pub open spec fn plus_result(
    operator: TokenView,
    left: Value,
    right: Value,
    apply: spec_fn(Arithmetic, u64, u64) -> u64,
) -> Result<Value, RuntimeErrorView> {
    match (left, right) {
        (Value::Number(a), Value::Number(b)) => Ok(Value::Number(apply(Arithmetic::Add, a, b))),
        (Value::String(a), Value::String(b)) => Ok(Value::String(a + b)),
        _ => Err(failure(operator, "Operands must be two numbers or two strings"@)),
    }
}

/// What a binary operator gives on the values of its two operands.
pub open spec fn binary_result(
    operator: TokenView,
    left: Value,
    right: Value,
    apply: spec_fn(Arithmetic, u64, u64) -> u64,
) -> Result<Value, RuntimeErrorView> {
    match operator.type_ {
        TokenType::Greater => comparison_result(operator, Comparison::Greater, ">"@, left, right),
        TokenType::GreaterEqual => comparison_result(
            operator,
            Comparison::GreaterEqual,
            ">="@,
            left,
            right,
        ),
        TokenType::Less => comparison_result(operator, Comparison::Less, "<"@, left, right),
        TokenType::LessEqual => comparison_result(
            operator,
            Comparison::LessEqual,
            "<="@,
            left,
            right,
        ),
        TokenType::Minus => number_result(operator, Arithmetic::Subtract, "-"@, left, right, apply),
        TokenType::Slash => number_result(operator, Arithmetic::Divide, "/"@, left, right, apply),
        TokenType::Star => number_result(operator, Arithmetic::Multiply, "*"@, left, right, apply),
        TokenType::Plus => plus_result(operator, left, right, apply),
        TokenType::BangEqual => Ok(Value::Boolean(!values_equal(left, right))),
        TokenType::EqualEqual => Ok(Value::Boolean(values_equal(left, right))),
        _ => Err(failure(operator, "Binary expression error"@)),
    }
}

/// What a unary operator gives on the value of its operand: `-` negates a
/// number and fails on anything else, `!` gives the complement of truthiness.
pub open spec fn unary_result(operator: TokenView, right: Value) -> Result<
    Value,
    RuntimeErrorView,
> {
    match operator.type_ {
        TokenType::Minus => match right {
            Value::Number(bits) => Ok(Value::Number(negated(bits))),
            _ => Err(failure(operator, "Error casting number"@)),
        },
        TokenType::Bang => Ok(Value::Boolean(!truthy(right))),
        _ => Err(failure(operator, "Unary expression error"@)),
    }
}

/// The value or error of an expression, and the scopes after it.
pub struct Evaluation {
    pub result: Result<Value, RuntimeErrorView>,
    pub scopes: Scopes,
}

/// What evaluating `expr` in `scopes` gives, where `apply` is the rounded
/// arithmetic. Operands are evaluated left to right, and the first error
/// ends the evaluation.
pub open spec fn evaluate_expr(
    expr: ExprView,
    scopes: Scopes,
    apply: spec_fn(Arithmetic, u64, u64) -> u64,
) -> Evaluation
    decreases expr,
{
    match expr {
        ExprView::Literal { literal } => Evaluation { result: Ok(literal), scopes },
        ExprView::Grouping { expression } => evaluate_expr(*expression, scopes, apply),
        ExprView::Variable { name } => Evaluation {
            result: match lookup(scopes, name.lexeme) {
                Some(value) => Ok(value),
                None => Err(undefined_variable(name)),
            },
            scopes,
        },
        ExprView::Assign { name, value } => {
            let inner = evaluate_expr(*value, scopes, apply);
            match inner.result {
                Ok(value) => match assigned(inner.scopes, name.lexeme, value) {
                    Some(scopes) => Evaluation { result: Ok(value), scopes },
                    None => Evaluation {
                        result: Err(undefined_variable(name)),
                        scopes: inner.scopes,
                    },
                },
                Err(_) => inner,
            }
        },
        ExprView::Unary { operator, right } => {
            let inner = evaluate_expr(*right, scopes, apply);
            match inner.result {
                Ok(value) => Evaluation {
                    result: unary_result(operator, value),
                    scopes: inner.scopes,
                },
                Err(_) => inner,
            }
        },
        ExprView::Binary { left, operator, right } => {
            let first = evaluate_expr(*left, scopes, apply);
            match first.result {
                Ok(left_value) => {
                    let second = evaluate_expr(*right, first.scopes, apply);
                    match second.result {
                        Ok(right_value) => Evaluation {
                            result: binary_result(operator, left_value, right_value, apply),
                            scopes: second.scopes,
                        },
                        Err(_) => second,
                    }
                },
                Err(_) => first,
            }
        },
    }
}

/// The text without a final ".0".
pub open spec fn strip_integral(text: Seq<char>) -> Seq<char> {
    if text.len() >= 2 && text[text.len() - 2] == '.' && text[text.len() - 1] == '0' {
        text.subrange(0, text.len() - 2)
    } else {
        text
    }
}

/// The text that `print` writes for a value, where `show` gives the decimal
/// text of a number.
pub open spec fn stringified(value: Value, show: spec_fn(u64) -> Seq<char>) -> Seq<char> {
    match value {
        Value::Null => "nil"@,
        Value::Number(bits) => strip_integral(show(bits)),
        Value::String(text) => text,
        Value::Boolean(b) => if b {
            "true"@
        } else {
            "false"@
        },
    }
}

/// How a run ended, with the scopes and the lines printed after it.
pub struct Outcome {
    pub result: Result<(), RuntimeErrorView>,
    pub scopes: Scopes,
    pub output: Seq<Seq<char>>,
}

/// What running one statement gives. A block runs in a fresh innermost scope,
/// which is dropped when the block ends, however it ends.
pub open spec fn execute_stmt(
    stmt: StmtView,
    scopes: Scopes,
    output: Seq<Seq<char>>,
    apply: spec_fn(Arithmetic, u64, u64) -> u64,
    show: spec_fn(u64) -> Seq<char>,
) -> Outcome
    decreases stmt, 0nat,
{
    match stmt {
        StmtView::Expression { expression } => {
            let evaluation = evaluate_expr(expression, scopes, apply);
            match evaluation.result {
                Ok(_) => Outcome { result: Ok(()), scopes: evaluation.scopes, output },
                Err(error) => Outcome { result: Err(error), scopes: evaluation.scopes, output },
            }
        },
        StmtView::Print { expression } => {
            let evaluation = evaluate_expr(expression, scopes, apply);
            match evaluation.result {
                Ok(value) => Outcome {
                    result: Ok(()),
                    scopes: evaluation.scopes,
                    output: output.push(stringified(value, show)),
                },
                Err(error) => Outcome { result: Err(error), scopes: evaluation.scopes, output },
            }
        },
        StmtView::Var { name, initializer } => {
            let evaluation = evaluate_expr(initializer, scopes, apply);
            match evaluation.result {
                Ok(value) => Outcome {
                    result: Ok(()),
                    scopes: defined(evaluation.scopes, name.lexeme, value),
                    output,
                },
                Err(error) => Outcome { result: Err(error), scopes: evaluation.scopes, output },
            }
        },
        StmtView::Block { statements } => {
            let inner = execute_from(
                statements,
                0,
                seq![Map::<Seq<char>, Value>::empty()] + scopes,
                output,
                apply,
                show,
            );
            Outcome { result: inner.result, scopes: inner.scopes.drop_first(), output: inner.output }
        },
    }
}

/// What running the statements from `index` on gives: one after another,
/// until the first that fails.
pub open spec fn execute_from(
    statements: Seq<StmtView>,
    index: int,
    scopes: Scopes,
    output: Seq<Seq<char>>,
    apply: spec_fn(Arithmetic, u64, u64) -> u64,
    show: spec_fn(u64) -> Seq<char>,
) -> Outcome
    decreases statements, statements.len() - index,
{
    if index < 0 || index >= statements.len() {
        Outcome { result: Ok(()), scopes, output }
    } else {
        let first = execute_stmt(statements[index], scopes, output, apply, show);
        if first.result is Err {
            first
        } else {
            execute_from(statements, index + 1, first.scopes, first.output, apply, show)
        }
    }
}

/// What running a program gives.
pub open spec fn execute_program(
    statements: Seq<StmtView>,
    scopes: Scopes,
    output: Seq<Seq<char>>,
    apply: spec_fn(Arithmetic, u64, u64) -> u64,
    show: spec_fn(u64) -> Seq<char>,
) -> Outcome {
    execute_from(statements, 0, scopes, output, apply, show)
}

/// Whether `apply` returns, on every operator and operands, what `model`
/// gives for them.
pub open spec fn computes<A: Fn(Arithmetic, u64, u64) -> u64>(
    apply: A,
    model: spec_fn(Arithmetic, u64, u64) -> u64,
) -> bool {
    forall|operation: Arithmetic, a: u64, b: u64, bits: u64| #[trigger]
        apply.ensures((operation, a, b), bits) ==> bits == model(operation, a, b)
}

/// Whether `show` returns, for every number, the text that `model` gives
/// for it.
pub open spec fn writes_as<S: Fn(u64) -> String>(show: S, model: spec_fn(u64) -> Seq<char>) -> bool {
    forall|bits: u64, text: String| #[trigger]
        show.ensures((bits,), text) ==> text@ == model(bits)
}

/// The result of an evaluation as contracts speak of it.
pub open spec fn value_result(result: Result<Literal, RuntimeError>) -> Result<
    Value,
    RuntimeErrorView,
> {
    match result {
        Ok(value) => Ok(value@),
        Err(error) => Err(error@),
    }
}

/// The result of a run as contracts speak of it.
pub open spec fn unit_result(result: Result<(), RuntimeError>) -> Result<(), RuntimeErrorView> {
    match result {
        Ok(_) => Ok(()),
        Err(error) => Err(error@),
    }
}

/// The lines of a list, each as contracts speak of it.
pub open spec fn line_views(lines: Seq<String>) -> Seq<Seq<char>> {
    Seq::new(lines.len(), |i: int| lines[i]@)
}

/// Pushing a line pushes its view.
pub proof fn lemma_line_views_push(lines: Seq<String>, line: String)
    ensures
        line_views(lines.push(line)) == line_views(lines).push(line@),
{
    assert(line_views(lines.push(line)) =~= line_views(lines).push(line@));
}

impl RuntimeError {
    /// The error `msg` at `token`.
    pub fn new(token: Token, msg: &str) -> (error: Self)
        ensures
            error.token == token,
            error.message@ == msg@,
    {
        Self { token, message: String::from_str(msg) }
    }
}

/// The interpreter: the scopes in force, and the lines printed so far.
pub struct Interpreter {
    pub environment: Environment,
    pub output: Vec<String>,
}

impl Interpreter {
    /// After an evaluation that gave `result`, `self` is as `evaluation` says.
    pub open spec fn evaluated(
        &self,
        result: Result<Literal, RuntimeError>,
        evaluation: Evaluation,
    ) -> bool {
        &&& value_result(result) == evaluation.result
        &&& self.environment@ == evaluation.scopes
    }

    /// After a run that gave `result`, `self` is as `outcome` says.
    pub open spec fn ran(&self, result: Result<(), RuntimeError>, outcome: Outcome) -> bool {
        &&& unit_result(result) == outcome.result
        &&& self.environment@ == outcome.scopes
        &&& line_views(self.output@) == outcome.output
    }

    /// After the run of a block that gave `result`, `self` is as `outcome`
    /// says, less the block's own scope.
    pub open spec fn left_block(&self, result: Result<(), RuntimeError>, outcome: Outcome) -> bool {
        &&& unit_result(result) == outcome.result
        &&& self.environment@ == outcome.scopes.drop_first()
        &&& line_views(self.output@) == outcome.output
    }

    /// An interpreter with an empty global scope and nothing printed.
    pub fn new() -> (interpreter: Self)
        ensures
            interpreter.environment@ == seq![Map::<Seq<char>, Value>::empty()],
            interpreter.output@.len() == 0,
    {
        Interpreter { environment: Environment::new(None), output: Vec::new() }
    }

    /// Runs the statements in order and stops at the first that fails. The
    /// lines printed are appended to `output`.
    pub fn interpret<A: Fn(Arithmetic, u64, u64) -> u64, S: Fn(u64) -> String>(
        &mut self,
        statements: Vec<Stmt>,
        apply: &A,
        show: &S,
    ) -> (result: Result<(), RuntimeError>)
        requires
            forall|operation: Arithmetic, a: u64, b: u64| #[trigger]
                apply.requires((operation, a, b)),
            forall|bits: u64| #[trigger] show.requires((bits,)),
        ensures
            final(self).environment@.len() == old(self).environment@.len(),
            forall|arithmetic: spec_fn(Arithmetic, u64, u64) -> u64, text: spec_fn(u64) -> Seq<char>|
                #![trigger computes(*apply, arithmetic), writes_as(*show, text)]
                computes(*apply, arithmetic) && writes_as(*show, text) ==> final(self).ran(
                    result,
                    execute_program(
                        statement_views(statements@),
                        old(self).environment@,
                        line_views(old(self).output@),
                        arithmetic,
                        text,
                    ),
                ),
    {
        self.run(&statements, apply, show)
    }

    /// Runs one statement.
    pub fn execute<A: Fn(Arithmetic, u64, u64) -> u64, S: Fn(u64) -> String>(
        &mut self,
        stmt: Stmt,
        apply: &A,
        show: &S,
    ) -> (result: Result<(), RuntimeError>)
        requires
            forall|operation: Arithmetic, a: u64, b: u64| #[trigger]
                apply.requires((operation, a, b)),
            forall|bits: u64| #[trigger] show.requires((bits,)),
        ensures
            final(self).environment@.len() == old(self).environment@.len(),
            forall|arithmetic: spec_fn(Arithmetic, u64, u64) -> u64, text: spec_fn(u64) -> Seq<char>|
                #![trigger computes(*apply, arithmetic), writes_as(*show, text)]
                computes(*apply, arithmetic) && writes_as(*show, text) ==> final(self).ran(
                    result,
                    execute_stmt(
                        stmt@,
                        old(self).environment@,
                        line_views(old(self).output@),
                        arithmetic,
                        text,
                    ),
                ),
    {
        self.execute_statement(&stmt, apply, show)
    }

    /// Runs the statements of a list in the scopes in force.
    fn run<A: Fn(Arithmetic, u64, u64) -> u64, S: Fn(u64) -> String>(
        &mut self,
        statements: &Vec<Stmt>,
        apply: &A,
        show: &S,
    ) -> (result: Result<(), RuntimeError>)
        requires
            forall|operation: Arithmetic, a: u64, b: u64| #[trigger]
                apply.requires((operation, a, b)),
            forall|bits: u64| #[trigger] show.requires((bits,)),
        ensures
            final(self).environment@.len() == old(self).environment@.len(),
            forall|arithmetic: spec_fn(Arithmetic, u64, u64) -> u64, text: spec_fn(u64) -> Seq<char>|
                #![trigger computes(*apply, arithmetic), writes_as(*show, text)]
                computes(*apply, arithmetic) && writes_as(*show, text) ==> final(self).ran(
                    result,
                    execute_program(
                        statement_views(statements@),
                        old(self).environment@,
                        line_views(old(self).output@),
                        arithmetic,
                        text,
                    ),
                ),
        decreases statements, 0nat,
    {
        let ghost views = statement_views(statements@);
        let ghost scopes = self.environment@;
        let ghost lines = line_views(self.output@);
        let mut index: usize = 0;
        while index < statements.len()
            invariant
                index <= statements.len(),
                views == statement_views(statements@),
                scopes == old(self).environment@,
                lines == line_views(old(self).output@),
                forall|operation: Arithmetic, a: u64, b: u64| #[trigger]
                    apply.requires((operation, a, b)),
                forall|bits: u64| #[trigger] show.requires((bits,)),
                self.environment@.len() == scopes.len(),
                forall|arithmetic: spec_fn(Arithmetic, u64, u64) -> u64, text: spec_fn(u64) -> Seq<char>|
                    #![trigger computes(*apply, arithmetic), writes_as(*show, text)]
                    computes(*apply, arithmetic) && writes_as(*show, text) ==> execute_from(
                        views,
                        0,
                        scopes,
                        lines,
                        arithmetic,
                        text,
                    ) == execute_from(
                        views,
                        index as int,
                        self.environment@,
                        line_views(self.output@),
                        arithmetic,
                        text,
                    ),
            decreases statements.len() - index,
        {
            let ghost scopes_here = self.environment@;
            let ghost lines_here = line_views(self.output@);
            let result = self.execute_statement(&statements[index], apply, show);
            proof {
                assert(views[index as int] == statements@[index as int]@);
            }
            match result {
                Ok(_) => {},
                Err(error) => {
                    return Err(error);
                },
            }
            index = index + 1;
        }
        Ok(())
    }

    /// Runs one statement.
    fn execute_statement<A: Fn(Arithmetic, u64, u64) -> u64, S: Fn(u64) -> String>(
        &mut self,
        stmt: &Stmt,
        apply: &A,
        show: &S,
    ) -> (result: Result<(), RuntimeError>)
        requires
            forall|operation: Arithmetic, a: u64, b: u64| #[trigger]
                apply.requires((operation, a, b)),
            forall|bits: u64| #[trigger] show.requires((bits,)),
        ensures
            final(self).environment@.len() == old(self).environment@.len(),
            forall|arithmetic: spec_fn(Arithmetic, u64, u64) -> u64, text: spec_fn(u64) -> Seq<char>|
                #![trigger computes(*apply, arithmetic), writes_as(*show, text)]
                computes(*apply, arithmetic) && writes_as(*show, text) ==> final(self).ran(
                    result,
                    execute_stmt(
                        stmt@,
                        old(self).environment@,
                        line_views(old(self).output@),
                        arithmetic,
                        text,
                    ),
                ),
        decreases stmt, 0nat,
    {
        match stmt {
            Stmt::Expression(expression) => self.visit_expression_stmt(expression, apply),
            Stmt::Print(print) => self.visit_print_stmt(print, apply, show),
            Stmt::Var(var) => self.visit_var_stmt(var, apply),
            Stmt::Block(block) => {
                proof {
                    lemma_block_view(*block);
                }
                self.visit_block_stmt(block, apply, show)
            },
        }
    }

    /// Evaluates the expression for its effect and drops its value.
    pub fn visit_expression_stmt<A: Fn(Arithmetic, u64, u64) -> u64>(
        &mut self,
        stmt: &Expression,
        apply: &A,
    ) -> (result: Result<(), RuntimeError>)
        requires
            forall|operation: Arithmetic, a: u64, b: u64| #[trigger]
                apply.requires((operation, a, b)),
        ensures
            final(self).environment@.len() == old(self).environment@.len(),
            final(self).output == old(self).output,
            forall|arithmetic: spec_fn(Arithmetic, u64, u64) -> u64| #[trigger]
                computes(*apply, arithmetic) ==> {
                    let evaluation = evaluate_expr(
                        stmt.expression@,
                        old(self).environment@,
                        arithmetic,
                    );
                    &&& final(self).environment@ == evaluation.scopes
                    &&& unit_result(result) == match evaluation.result {
                        Ok(_) => Ok::<(), RuntimeErrorView>(()),
                        Err(error) => Err(error),
                    }
                },
    {
        match self.evaluate(&stmt.expression, apply) {
            Ok(_) => Ok(()),
            Err(error) => Err(error),
        }
    }

    /// Evaluates the expression and appends the text of its value to `output`.
    pub fn visit_print_stmt<A: Fn(Arithmetic, u64, u64) -> u64, S: Fn(u64) -> String>(
        &mut self,
        stmt: &Print,
        apply: &A,
        show: &S,
    ) -> (result: Result<(), RuntimeError>)
        requires
            forall|operation: Arithmetic, a: u64, b: u64| #[trigger]
                apply.requires((operation, a, b)),
            forall|bits: u64| #[trigger] show.requires((bits,)),
        ensures
            final(self).environment@.len() == old(self).environment@.len(),
            forall|arithmetic: spec_fn(Arithmetic, u64, u64) -> u64, text: spec_fn(u64) -> Seq<char>|
                #![trigger computes(*apply, arithmetic), writes_as(*show, text)]
                computes(*apply, arithmetic) && writes_as(*show, text) ==> final(self).ran(
                    result,
                    execute_stmt(
                        (StmtView::Print { expression: stmt.expression@ }),
                        old(self).environment@,
                        line_views(old(self).output@),
                        arithmetic,
                        text,
                    ),
                ),
    {
        match self.evaluate(&stmt.expression, apply) {
            Ok(value) => {
                let line = self.stringify(value, show);
                proof {
                    lemma_line_views_push(self.output@, line);
                }
                self.output.push(line);
                Ok(())
            },
            Err(error) => Err(error),
        }
    }

    /// Evaluates the initializer and defines the variable in the innermost
    /// scope.
    pub fn visit_var_stmt<A: Fn(Arithmetic, u64, u64) -> u64>(
        &mut self,
        stmt: &Var,
        apply: &A,
    ) -> (result: Result<(), RuntimeError>)
        requires
            forall|operation: Arithmetic, a: u64, b: u64| #[trigger]
                apply.requires((operation, a, b)),
        ensures
            final(self).environment@.len() == old(self).environment@.len(),
            final(self).output == old(self).output,
            forall|arithmetic: spec_fn(Arithmetic, u64, u64) -> u64| #[trigger]
                computes(*apply, arithmetic) ==> {
                    let evaluation = evaluate_expr(
                        stmt.initializer@,
                        old(self).environment@,
                        arithmetic,
                    );
                    match evaluation.result {
                        Ok(value) => result is Ok && final(self).environment@ == defined(
                            evaluation.scopes,
                            stmt.name@.lexeme,
                            value,
                        ),
                        Err(error) => unit_result(result) == Err::<(), RuntimeErrorView>(error)
                            && final(self).environment@ == evaluation.scopes,
                    }
                },
    {
        match self.evaluate(&stmt.initializer, apply) {
            Ok(value) => {
                self.environment.define(stmt.name.lexeme.as_str(), value);
                Ok(())
            },
            Err(error) => Err(error),
        }
    }

    /// Runs the statements of the block in a fresh scope inside the scopes in
    /// force, and drops that scope when the block ends, however it ends.
    pub fn visit_block_stmt<A: Fn(Arithmetic, u64, u64) -> u64, S: Fn(u64) -> String>(
        &mut self,
        stmt: &Block,
        apply: &A,
        show: &S,
    ) -> (result: Result<(), RuntimeError>)
        requires
            forall|operation: Arithmetic, a: u64, b: u64| #[trigger]
                apply.requires((operation, a, b)),
            forall|bits: u64| #[trigger] show.requires((bits,)),
        ensures
            final(self).environment@.len() == old(self).environment@.len(),
            forall|arithmetic: spec_fn(Arithmetic, u64, u64) -> u64, text: spec_fn(u64) -> Seq<char>|
                #![trigger computes(*apply, arithmetic), writes_as(*show, text)]
                computes(*apply, arithmetic) && writes_as(*show, text) ==> final(self).ran(
                    result,
                    execute_stmt(
                        (StmtView::Block { statements: statement_views(stmt.statements@) }),
                        old(self).environment@,
                        line_views(old(self).output@),
                        arithmetic,
                        text,
                    ),
                ),
        decreases stmt, 0nat,
    {
        let mut outer = Environment::new(None);
        core::mem::swap(&mut self.environment, &mut outer);
        let environment = Environment::new_enclosed(outer);
        self.execute_block(&stmt.statements, environment, apply, show)
    }

    /// Runs the statements with `environment` as the scopes in force, then
    /// puts the scopes around `environment` back in force, however the run
    /// ended.
    fn execute_block<A: Fn(Arithmetic, u64, u64) -> u64, S: Fn(u64) -> String>(
        &mut self,
        statements: &Vec<Stmt>,
        environment: Environment,
        apply: &A,
        show: &S,
    ) -> (result: Result<(), RuntimeError>)
        requires
            environment.enclosing is Some,
            forall|operation: Arithmetic, a: u64, b: u64| #[trigger]
                apply.requires((operation, a, b)),
            forall|bits: u64| #[trigger] show.requires((bits,)),
        ensures
            final(self).environment@.len() == environment@.len() - 1,
            forall|arithmetic: spec_fn(Arithmetic, u64, u64) -> u64, text: spec_fn(u64) -> Seq<char>|
                #![trigger computes(*apply, arithmetic), writes_as(*show, text)]
                computes(*apply, arithmetic) && writes_as(*show, text) ==> final(self).left_block(
                    result,
                    execute_program(
                        statement_views(statements@),
                        environment@,
                        line_views(old(self).output@),
                        arithmetic,
                        text,
                    ),
                ),
        decreases statements, 1nat,
    {
        proof {
            lemma_scope_count(environment);
        }
        self.environment = environment;
        let result = self.run(statements, apply, show);
        let mut inner = Environment::new(None);
        core::mem::swap(&mut self.environment, &mut inner);
        proof {
            lemma_scope_count(inner);
        }
        match inner.enclosing {
            Some(outer) => {
                assert(inner@.drop_first() =~= outer@);
                self.environment = *outer;
            },
            None => {},
        }
        result
    }

    /// Evaluates an expression in the scopes in force.
    pub fn evaluate<A: Fn(Arithmetic, u64, u64) -> u64>(&mut self, expr: &Expr, apply: &A) -> (result:
        Result<Literal, RuntimeError>)
        requires
            forall|operation: Arithmetic, a: u64, b: u64| #[trigger]
                apply.requires((operation, a, b)),
        ensures
            final(self).environment@.len() == old(self).environment@.len(),
            final(self).output == old(self).output,
            forall|arithmetic: spec_fn(Arithmetic, u64, u64) -> u64| #[trigger]
                computes(*apply, arithmetic) ==> final(self).evaluated(
                    result,
                    evaluate_expr(expr@, old(self).environment@, arithmetic),
                ),
        decreases expr, 0nat,
    {
        match expr {
            Expr::Binary(binary) => self.visit_binary_expr(binary, apply),
            Expr::Grouping(grouping) => self.visit_grouping_expr(grouping, apply),
            Expr::Literal(literal) => self.visit_literal_expr(literal),
            Expr::Unary(unary) => self.visit_unary_expr(unary, apply),
            Expr::Variable(variable) => self.visit_variable_expr(variable),
            Expr::Assign(assign) => self.visit_assign_expr(assign, apply),
        }
    }

    /// Evaluates the left operand, then the right one, then applies the
    /// operator to the two values.
    pub fn visit_binary_expr<A: Fn(Arithmetic, u64, u64) -> u64>(
        &mut self,
        expr: &Binary,
        apply: &A,
    ) -> (result: Result<Literal, RuntimeError>)
        requires
            forall|operation: Arithmetic, a: u64, b: u64| #[trigger]
                apply.requires((operation, a, b)),
        ensures
            final(self).environment@.len() == old(self).environment@.len(),
            final(self).output == old(self).output,
            forall|arithmetic: spec_fn(Arithmetic, u64, u64) -> u64| #[trigger]
                computes(*apply, arithmetic) ==> final(self).evaluated(
                    result,
                    evaluate_expr(expr@, old(self).environment@, arithmetic),
                ),
        decreases expr, 0nat,
    {
        let left = match self.evaluate(&expr.left, apply) {
            Ok(value) => value,
            Err(error) => {
                return Err(error);
            },
        };
        let right = match self.evaluate(&expr.right, apply) {
            Ok(value) => value,
            Err(error) => {
                return Err(error);
            },
        };
        match expr.operator.type_ {
            TokenType::Greater => self.eval_comparison_binary_op(
                left,
                right,
                Comparison::Greater,
                ">",
                expr.operator.clone(),
            ),
            TokenType::GreaterEqual => self.eval_comparison_binary_op(
                left,
                right,
                Comparison::GreaterEqual,
                ">=",
                expr.operator.clone(),
            ),
            TokenType::Less => self.eval_comparison_binary_op(
                left,
                right,
                Comparison::Less,
                "<",
                expr.operator.clone(),
            ),
            TokenType::LessEqual => self.eval_comparison_binary_op(
                left,
                right,
                Comparison::LessEqual,
                "<=",
                expr.operator.clone(),
            ),
            TokenType::Minus => self.eval_number_binary_op(
                left,
                right,
                Arithmetic::Subtract,
                apply,
                "-",
                expr.operator.clone(),
            ),
            TokenType::Slash => self.eval_number_binary_op(
                left,
                right,
                Arithmetic::Divide,
                apply,
                "/",
                expr.operator.clone(),
            ),
            TokenType::Star => self.eval_number_binary_op(
                left,
                right,
                Arithmetic::Multiply,
                apply,
                "*",
                expr.operator.clone(),
            ),
            TokenType::Plus => match (left, right) {
                (Literal::Number(l), Literal::Number(r)) => self.eval_number_binary_op(
                    Literal::Number(l),
                    Literal::Number(r),
                    Arithmetic::Add,
                    apply,
                    "+",
                    expr.operator.clone(),
                ),
                (Literal::String(l), Literal::String(r)) => Ok(
                    Literal::String(l.concat(r.as_str())),
                ),
                _ => Err(
                    RuntimeError::new(
                        expr.operator.clone(),
                        "Operands must be two numbers or two strings",
                    ),
                ),
            },
            TokenType::BangEqual => Ok(Literal::Boolean(!self.is_equals(left, right))),
            TokenType::EqualEqual => Ok(Literal::Boolean(self.is_equals(left, right))),
            _ => Err(RuntimeError::new(expr.operator.clone(), "Binary expression error")),
        }
    }

    /// Evaluates what stands in the parentheses.
    pub fn visit_grouping_expr<A: Fn(Arithmetic, u64, u64) -> u64>(
        &mut self,
        expr: &Grouping,
        apply: &A,
    ) -> (result: Result<Literal, RuntimeError>)
        requires
            forall|operation: Arithmetic, a: u64, b: u64| #[trigger]
                apply.requires((operation, a, b)),
        ensures
            final(self).environment@.len() == old(self).environment@.len(),
            final(self).output == old(self).output,
            forall|arithmetic: spec_fn(Arithmetic, u64, u64) -> u64| #[trigger]
                computes(*apply, arithmetic) ==> final(self).evaluated(
                    result,
                    evaluate_expr(expr@, old(self).environment@, arithmetic),
                ),
        decreases expr, 0nat,
    {
        self.evaluate(&expr.expression, apply)
    }

    /// The value that the literal holds.
    pub fn visit_literal_expr(&self, expr: &crate::expr::Literal) -> (result: Result<
        Literal,
        RuntimeError,
    >)
        ensures
            result is Ok,
            result->Ok_0 == expr.value,
    {
        Ok(expr.value.clone())
    }

    /// Evaluates the operand, then applies the operator to its value.
    pub fn visit_unary_expr<A: Fn(Arithmetic, u64, u64) -> u64>(
        &mut self,
        expr: &Unary,
        apply: &A,
    ) -> (result: Result<Literal, RuntimeError>)
        requires
            forall|operation: Arithmetic, a: u64, b: u64| #[trigger]
                apply.requires((operation, a, b)),
        ensures
            final(self).environment@.len() == old(self).environment@.len(),
            final(self).output == old(self).output,
            forall|arithmetic: spec_fn(Arithmetic, u64, u64) -> u64| #[trigger]
                computes(*apply, arithmetic) ==> final(self).evaluated(
                    result,
                    evaluate_expr(expr@, old(self).environment@, arithmetic),
                ),
        decreases expr, 0nat,
    {
        let right = match self.evaluate(&expr.right, apply) {
            Ok(value) => value,
            Err(error) => {
                return Err(error);
            },
        };
        match expr.operator.type_ {
            TokenType::Minus => match right {
                Literal::Number(n) => Ok(Literal::Number(number_negate(n))),
                _ => Err(RuntimeError::new(expr.operator.clone(), "Error casting number")),
            },
            TokenType::Bang => Ok(Literal::Boolean(!self.is_truthy(right))),
            _ => Err(RuntimeError::new(expr.operator.clone(), "Unary expression error")),
        }
    }

    /// The value of the variable in the nearest scope that defines it.
    pub fn visit_variable_expr(&mut self, expr: &Variable) -> (result: Result<
        Literal,
        RuntimeError,
    >)
        ensures
            *final(self) == *old(self),
            value_result(result) == match lookup(old(self).environment@, expr.name@.lexeme) {
                Some(value) => Ok::<Value, RuntimeErrorView>(value),
                None => Err(undefined_variable(expr.name@)),
            },
    {
        self.environment.get(expr.name.clone())
    }

    /// Evaluates the right side, then assigns its value to the variable in the
    /// nearest scope that defines it. The value is that of the assignment too.
    pub fn visit_assign_expr<A: Fn(Arithmetic, u64, u64) -> u64>(
        &mut self,
        expr: &Assign,
        apply: &A,
    ) -> (result: Result<Literal, RuntimeError>)
        requires
            forall|operation: Arithmetic, a: u64, b: u64| #[trigger]
                apply.requires((operation, a, b)),
        ensures
            final(self).environment@.len() == old(self).environment@.len(),
            final(self).output == old(self).output,
            forall|arithmetic: spec_fn(Arithmetic, u64, u64) -> u64| #[trigger]
                computes(*apply, arithmetic) ==> final(self).evaluated(
                    result,
                    evaluate_expr(expr@, old(self).environment@, arithmetic),
                ),
        decreases expr, 0nat,
    {
        let value = match self.evaluate(&expr.value, apply) {
            Ok(value) => value,
            Err(error) => {
                return Err(error);
            },
        };
        match self.environment.assign(expr.name.clone(), value.clone()) {
            Ok(_) => Ok(value),
            Err(error) => Err(error),
        }
    }

    /// Whether the value counts as true: everything but `nil` and `false` does.
    pub fn is_truthy(&self, literal: Literal) -> (r: bool)
        ensures
            r == truthy(literal@),
    {
        match literal {
            Literal::Null => false,
            Literal::Boolean(value) => value,
            _ => true,
        }
    }

    /// Applies the arithmetic operator `operation`, written `op_name`, to two
    /// values: `apply` computes the result where both are numbers.
    pub fn eval_number_binary_op<A: Fn(Arithmetic, u64, u64) -> u64>(
        &self,
        left: Literal,
        right: Literal,
        operation: Arithmetic,
        apply: &A,
        op_name: &str,
        token: Token,
    ) -> (result: Result<Literal, RuntimeError>)
        requires
            forall|operation: Arithmetic, a: u64, b: u64| #[trigger]
                apply.requires((operation, a, b)),
        ensures
            forall|arithmetic: spec_fn(Arithmetic, u64, u64) -> u64| #[trigger]
                computes(*apply, arithmetic) ==> value_result(result) == number_result(
                    token@,
                    operation,
                    op_name@,
                    left@,
                    right@,
                    arithmetic,
                ),
    {
        match (left, right) {
            (Literal::Number(left), Literal::Number(right)) => Ok(
                Literal::Number(apply(operation, left, right)),
            ),
            _ => Err(requires_numbers(token, op_name)),
        }
    }

    /// Applies the ordering operator `comparison`, written `op_name`, to two
    /// values.
    pub fn eval_comparison_binary_op(
        &self,
        left: Literal,
        right: Literal,
        comparison: Comparison,
        op_name: &str,
        token: Token,
    ) -> (result: Result<Literal, RuntimeError>)
        ensures
            value_result(result) == comparison_result(token@, comparison, op_name@, left@, right@),
    {
        match (left, right) {
            (Literal::Number(left), Literal::Number(right)) => Ok(
                Literal::Boolean(number_compare(comparison, left, right)),
            ),
            _ => Err(requires_numbers(token, op_name)),
        }
    }

    /// Whether two values are equal in the language.
    pub fn is_equals(&self, left: Literal, right: Literal) -> (r: bool)
        ensures
            r == values_equal(left@, right@),
    {
        left == right
    }

    /// The text that `print` writes for `value`.
    pub fn stringify<S: Fn(u64) -> String>(&self, value: Literal, show: &S) -> (text: String)
        requires
            forall|bits: u64| #[trigger] show.requires((bits,)),
        ensures
            forall|model: spec_fn(u64) -> Seq<char>| #[trigger]
                writes_as(*show, model) ==> text@ == stringified(value@, model),
    {
        match value {
            Literal::Null => String::from_str("nil"),
            Literal::Number(bits) => without_integral_suffix(show(bits)),
            Literal::String(text) => text,
            Literal::Boolean(b) => if b {
                String::from_str("true")
            } else {
                String::from_str("false")
            },
        }
    }
}

/// The decimal text of a number as `print` writes it: without a final ".0".
pub fn without_integral_suffix(text: String) -> (stripped: String)
    ensures
        stripped@ == strip_integral(text@),
{
    let length = text.as_str().unicode_len();
    if length >= 2 && text.as_str().get_char(length - 2) == '.' && text.as_str().get_char(
        length - 1,
    ) == '0' {
        String::from_str(text.as_str().substring_char(0, length - 2))
    } else {
        text
    }
}

/// Builds the error of an operator that takes two numbers.
fn requires_numbers(token: Token, op_name: &str) -> (error: RuntimeError)
    ensures
        error@ == numbers_required(token@, op_name@),
{
    let mut message = String::from_str("Operator '");
    message.append(op_name);
    message.append("' requires two numbers");
    RuntimeError::new(token, message.as_str())
}

} // verus!
