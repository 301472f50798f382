//! Evaluating a clause at execution time: compute the wrapped expression in
//! the ambient context, then validate the produced value as a non-negative
//! skip count.

use vstd::prelude::*;
use crate::clause::Start;
use crate::value::{Value, ValueView, raw_text};

verus! {

/// The ambient evaluation bundle. The closed expression vocabulary consists
/// of literal values only, so no variable bindings, transaction handle or
/// current-document reference are needed to evaluate them.
pub struct Context {}

impl Context {
    /// An empty evaluation context.
    pub fn new() -> Context {
        Context {  }
    }
}

/// The one error kind this clause produces: the expression evaluated to a
/// value that is not a non-negative integer; the payload is the offending
/// value's plain-text rendering.
#[derive(Debug, PartialEq, Eq)]
pub enum Error {
    InvalidStart { value: String },
}

impl Value {
    /// Evaluate this expression in `ctx`. A literal evaluates to itself; an
    /// error from the engine would be handed through unchanged.
    #[allow(unused_variables)]
    pub fn compute(&self, ctx: &Context) -> (r: Result<Value, Error>)
        ensures
            r matches Ok(v) && v@ == self@,
    {
        Ok(self.clone())
    }
}

/// The validated skip count of a value: defined exactly when the value is a
/// non-negative integer number.
pub open spec fn clause_count(v: ValueView) -> Option<int> {
    match v {
        ValueView::Number(n) => if n >= 0 {
            Some(n)
        } else {
            None
        },
        ValueView::Strand(s) => None,
    }
}

impl Start {
    /// Evaluate the wrapped expression and validate the outcome: a
    /// non-negative integer number that fits the machine becomes the skip
    /// count; any other value is an invalid-value error carrying the value's
    /// plain-text rendering; an error raised by evaluation itself is handed
    /// through unchanged.
    pub fn process(&self, ctx: &Context) -> (r: Result<usize, Error>)
        ensures
            match r {
                Ok(c) => clause_count(self@) == Some(c as int),
                Err(e) => {
                    &&& e matches Error::InvalidStart { value } && value@ == raw_text(self@)
                    &&& clause_count(self@) matches Some(n) ==> n > usize::MAX
                },
            },
    {
        match self.0.compute(ctx) {
            Ok(Value::Number(v)) if v >= 0 && v as u64 <= usize::MAX as u64 => Ok(v as usize),
            Ok(v) => Err(Error::InvalidStart { value: v.as_string() }),
            Err(e) => Err(e),
        }
    }
}

} // verus!
