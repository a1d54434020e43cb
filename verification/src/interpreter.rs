//! The evaluator: sketched, deliberately empty.

use vstd::prelude::*;
use crate::expression::Expression;

verus! {

/// An evaluator instance.  Evaluation is not implemented; the type exists so
/// that a driver can be wired up against it.
pub struct Interpreter {
    _private: (),
}

impl Interpreter {
    /// A fresh evaluator.
    pub fn new() -> Self {
        Self { _private: () }
    }

    /// Evaluates nothing yet.
    pub fn eval(&mut self, exp: &Expression)
        ensures
            *final(self) == *old(self),
    {
        let _ = exp;
    }
}

} // verus!
