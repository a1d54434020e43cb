//! Expressions: the sketched input language of the evaluator.

use vstd::prelude::*;

verus! {

/// An evaluator-level expression.  `Float` holds an IEEE 754 binary64 bit
/// pattern.
#[derive(Debug)]
pub enum Expression {
    Nil,
    Boolean(bool),
    Int(i64),
    Float(u64),
    Str(String),
    Cons(Box<Expression>, Box<Expression>),
    Symbol(String),
    NoMatch,
}

} // verus!
