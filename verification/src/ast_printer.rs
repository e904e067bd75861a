//! A printer that writes an expression as source text, every operator with
//! its operands in one pair of parentheses, so that the text reads back as
//! the same tree.
use vstd::prelude::*;
use vstd::string::StringExecFns;
use crate::expr::Binary;
use crate::expr::Expr;
use crate::expr::ExprView;
use crate::expr::Grouping;
use crate::expr::Literal;
use crate::expr::Unary;
use crate::interpreter::writes_as;
use crate::literal_object::Literal as LiteralValue;
use crate::literal_object::Value;

verus! {

/// Whether the expression names no variable: it holds no variable reference
/// and no assignment.
pub open spec fn closed(expr: ExprView) -> bool
    decreases expr,
{
    match expr {
        ExprView::Assign { .. } => false,
        ExprView::Binary { left, operator, right } => closed(*left) && closed(*right),
        ExprView::Grouping { expression } => closed(*expression),
        ExprView::Literal { .. } => true,
        ExprView::Unary { operator, right } => closed(*right),
        ExprView::Variable { .. } => false,
    }
}

/// Whether the expression names no variable.
pub fn is_closed(expr: &Expr) -> (r: bool)
    ensures
        r == closed(expr@),
    decreases expr,
{
    match expr {
        Expr::Assign(_) => false,
        Expr::Binary(node) => is_closed(node.left()) && is_closed(node.right()),
        Expr::Grouping(node) => is_closed(node.expression()),
        Expr::Literal(_) => true,
        Expr::Unary(node) => is_closed(node.right()),
        Expr::Variable(_) => false,
    }
}

/// The parts from `from` on, each after a space.
pub open spec fn spaced(parts: Seq<Seq<char>>, from: int) -> Seq<char>
    decreases parts.len() - from,
{
    if from < 0 || from >= parts.len() {
        Seq::empty()
    } else {
        " "@ + parts[from] + spaced(parts, from + 1)
    }
}

/// `first` and the parts in one pair of parentheses, with a space between
/// one and the next.
pub open spec fn parenthesized(first: Seq<char>, parts: Seq<Seq<char>>) -> Seq<char> {
    "("@ + first + spaced(parts, 0) + ")"@
}

/// The text of a literal as the language writes it: `nil`, the decimal text
/// of a number, a string between double quotes, `true` or `false`.
pub open spec fn printed_literal(literal: Value, show: spec_fn(u64) -> Seq<char>) -> Seq<char> {
    match literal {
        Value::Null => "nil"@,
        Value::Number(bits) => show(bits),
        Value::String(text) => "\""@ + text + "\""@,
        Value::Boolean(b) => if b {
            "true"@
        } else {
            "false"@
        },
    }
}

/// The text of a closed expression, where `show` gives the decimal text of a
/// number: `(left operator right)`, `(operator operand)`, `(inner)` for a
/// grouping, and a literal as the language writes it.
pub open spec fn printed(expr: ExprView, show: spec_fn(u64) -> Seq<char>) -> Seq<char>
    decreases expr,
{
    match expr {
        ExprView::Binary { left, operator, right } => parenthesized(
            printed(*left, show),
            seq![operator.lexeme, printed(*right, show)],
        ),
        ExprView::Grouping { expression } => parenthesized(
            printed(*expression, show),
            Seq::empty(),
        ),
        ExprView::Literal { literal } => printed_literal(literal, show),
        ExprView::Unary { operator, right } => parenthesized(
            operator.lexeme,
            seq![printed(*right, show)],
        ),
        _ => Seq::empty(),
    }
}

/// The texts of a list, each as contracts speak of it.
pub open spec fn text_views(texts: Seq<String>) -> Seq<Seq<char>> {
    Seq::new(texts.len(), |i: int| texts[i]@)
}

/// The printer. It holds no state.
pub struct AstPrinter;

impl AstPrinter {
    /// Writes a closed expression as source text.
    pub fn print<S: Fn(u64) -> String>(&self, expr: &Expr, show: &S) -> (text: String)
        requires
            closed(expr@),
            forall|bits: u64| #[trigger] show.requires((bits,)),
        ensures
            forall|model: spec_fn(u64) -> Seq<char>| #[trigger]
                writes_as(*show, model) ==> text@ == printed(expr@, model),
        decreases expr, 1nat,
    {
        match expr {
            Expr::Binary(binary) => self.visit_binary_expr(binary, show),
            Expr::Grouping(grouping) => self.visit_grouping_expr(grouping, show),
            Expr::Literal(literal) => self.visit_literal_expr(literal, show),
            Expr::Unary(unary) => self.visit_unary_expr(unary, show),
            Expr::Variable(_) => String::new(),
            Expr::Assign(_) => String::new(),
        }
    }

    /// `(left operator right)`
    pub fn visit_binary_expr<S: Fn(u64) -> String>(&self, expr: &Binary, show: &S) -> (text:
        String)
        requires
            closed(expr@),
            forall|bits: u64| #[trigger] show.requires((bits,)),
        ensures
            forall|model: spec_fn(u64) -> Seq<char>| #[trigger]
                writes_as(*show, model) ==> text@ == printed(expr@, model),
        decreases expr, 0nat,
    {
        let left = self.print(expr.left(), show);
        let mut parts: Vec<String> = Vec::new();
        parts.push(expr.operator().lexeme.clone());
        parts.push(self.print(expr.right(), show));
        let text = self.parenthesize(left.as_str(), &parts);
        proof {
            assert forall|model: spec_fn(u64) -> Seq<char>| #[trigger]
                writes_as(*show, model) implies text@ == printed(expr@, model) by {
                assert(text_views(parts@) =~= seq![
                    expr.operator@.lexeme,
                    printed(expr.right@, model),
                ]);
            }
        }
        text
    }

    /// `(inner)`
    pub fn visit_grouping_expr<S: Fn(u64) -> String>(&self, expr: &Grouping, show: &S) -> (text:
        String)
        requires
            closed(expr@),
            forall|bits: u64| #[trigger] show.requires((bits,)),
        ensures
            forall|model: spec_fn(u64) -> Seq<char>| #[trigger]
                writes_as(*show, model) ==> text@ == printed(expr@, model),
        decreases expr, 0nat,
    {
        let inner = self.print(expr.expression(), show);
        let parts: Vec<String> = Vec::new();
        let text = self.parenthesize(inner.as_str(), &parts);
        proof {
            assert(text_views(parts@) =~= Seq::<Seq<char>>::empty());
        }
        text
    }

    /// The text of the literal.
    pub fn visit_literal_expr<S: Fn(u64) -> String>(&self, expr: &Literal, show: &S) -> (text:
        String)
        requires
            forall|bits: u64| #[trigger] show.requires((bits,)),
        ensures
            forall|model: spec_fn(u64) -> Seq<char>| #[trigger]
                writes_as(*show, model) ==> text@ == printed_literal(expr.value@, model),
    {
        match expr.value() {
            LiteralValue::Null => String::from_str("nil"),
            LiteralValue::Number(number) => show(*number),
            LiteralValue::String(string) => {
                let mut text = String::from_str("\"");
                text.append(string.as_str());
                text.append("\"");
                text
            },
            LiteralValue::Boolean(boolean) => if *boolean {
                String::from_str("true")
            } else {
                String::from_str("false")
            },
        }
    }

    /// `(operator operand)`
    pub fn visit_unary_expr<S: Fn(u64) -> String>(&self, expr: &Unary, show: &S) -> (text: String)
        requires
            closed(expr@),
            forall|bits: u64| #[trigger] show.requires((bits,)),
        ensures
            forall|model: spec_fn(u64) -> Seq<char>| #[trigger]
                writes_as(*show, model) ==> text@ == printed(expr@, model),
        decreases expr, 0nat,
    {
        let mut parts: Vec<String> = Vec::new();
        parts.push(self.print(expr.right(), show));
        let text = self.parenthesize(expr.operator().lexeme.as_str(), &parts);
        proof {
            assert forall|model: spec_fn(u64) -> Seq<char>| #[trigger]
                writes_as(*show, model) implies text@ == printed(expr@, model) by {
                assert(text_views(parts@) =~= seq![printed(expr.right@, model)]);
            }
        }
        text
    }

    /// `first` and the parts in one pair of parentheses, with a space between
    /// one and the next.
    pub fn parenthesize(&self, first: &str, parts: &Vec<String>) -> (text: String)
        ensures
            text@ == parenthesized(first@, text_views(parts@)),
    {
        let ghost views = text_views(parts@);
        let mut builder = String::new();
        builder.append("(");
        builder.append(first);
        let mut index: usize = 0;
        while index < parts.len()
            invariant
                index <= parts.len(),
                views == text_views(parts@),
                builder@ + spaced(views, index as int) == "("@ + first@ + spaced(views, 0),
            decreases parts.len() - index,
        {
            let ghost before = builder@;
            builder.append(" ");
            builder.append(parts[index].as_str());
            index = index + 1;
            assert(builder@ + spaced(views, index as int) =~= before + spaced(
                views,
                index - 1,
            ));
        }
        assert(builder@ + spaced(views, index as int) =~= builder@);
        builder.append(")");
        builder
    }
}

} // verus!
