//! Runtime values, their truthiness and their equality.
use vstd::prelude::*;
use crate::number::same_number;
use crate::number::number_equals;

verus! {

/// A runtime value as contracts speak of it: text is a sequence of characters,
/// a number is its IEEE 754 binary64 bit pattern.
pub enum Value {
    String(Seq<char>),
    Boolean(bool),
    Number(u64),
    Null,
}

/// A runtime value. `Number` holds the bit pattern of a double.
#[derive(Debug)]
pub enum Literal {
    String(String),
    Boolean(bool),
    Number(u64),
    Null,
}

impl View for Literal {
    type V = Value;

    open spec fn view(&self) -> Value {
        match self {
            Literal::String(text) => Value::String(text@),
            Literal::Boolean(b) => Value::Boolean(*b),
            Literal::Number(bits) => Value::Number(*bits),
            Literal::Null => Value::Null,
        }
    }
}

impl Clone for Literal {
    fn clone(&self) -> (copy: Self)
        ensures
            copy == *self,
    {
        match self {
            Literal::String(text) => Literal::String(text.clone()),
            Literal::Boolean(b) => Literal::Boolean(*b),
            Literal::Number(bits) => Literal::Number(*bits),
            Literal::Null => Literal::Null,
        }
    }
}

/// Only `nil` and `false` are falsy; zero and the empty string are truthy.
pub open spec fn truthy(value: Value) -> bool {
    match value {
        Value::Null => false,
        Value::Boolean(b) => b,
        _ => true,
    }
}

/// Equality of the language: values of different kinds are never equal, `nil`
/// equals `nil`, numbers compare as doubles do, the others by content.
pub open spec fn values_equal(left: Value, right: Value) -> bool {
    match (left, right) {
        (Value::Null, Value::Null) => true,
        (Value::Boolean(a), Value::Boolean(b)) => a == b,
        (Value::Number(a), Value::Number(b)) => same_number(a, b),
        (Value::String(a), Value::String(b)) => a == b,
        _ => false,
    }
}

impl PartialEq for Literal {
    fn eq(&self, other: &Self) -> (equal: bool)
    {
        match (self, other) {
            (Literal::Null, Literal::Null) => true,
            (Literal::Boolean(a), Literal::Boolean(b)) => *a == *b,
            (Literal::Number(a), Literal::Number(b)) => number_equals(*a, *b),
            (Literal::String(a), Literal::String(b)) => *a == *b,
            _ => false,
        }
    }
}

impl vstd::std_specs::cmp::PartialEqSpecImpl for Literal {
    open spec fn obeys_eq_spec() -> bool {
        true
    }

    open spec fn eq_spec(&self, other: &Self) -> bool {
        values_equal(self@, other@)
    }
}

} // verus!
