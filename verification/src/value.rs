//! Runtime values of the expression language, as this clause sees them: the
//! closed vocabulary is an integer number or a string, the two shapes the
//! validation policy distinguishes (a non-negative integer succeeds, anything
//! else is an invalid clause value).

use vstd::prelude::*;
use vstd::string::StringExecFns;
use crate::text::{render_int, render_i64};

verus! {

/// Shape of a runtime value, as contracts see it.
pub enum ValueView {
    Number(int),
    Strand(Seq<char>),
}

/// A runtime value produced by the expression engine.
#[derive(Debug, PartialEq, Eq, PartialOrd, Ord, Hash)]
pub enum Value {
    /// An integer number.
    Number(i64),
    /// A string.
    Strand(String),
}

impl View for Value {
    type V = ValueView;

    open spec fn view(&self) -> ValueView {
        match self {
            Value::Number(n) => ValueView::Number(*n as int),
            Value::Strand(s) => ValueView::Strand(s@),
        }
    }
}

impl Clone for Value {
    fn clone(&self) -> (r: Self)
        ensures
            r@ == self@,
    {
        match self {
            Value::Number(n) => Value::Number(*n),
            Value::Strand(s) => Value::Strand(s.clone()),
        }
    }
}

/// Bounds that every view of an actual `Value` observes: the number fits the
/// machine integer, the string fits in memory.
pub open spec fn wf_view(v: ValueView) -> bool {
    match v {
        ValueView::Number(n) => i64::MIN <= n <= i64::MAX,
        ValueView::Strand(s) => s.len() <= usize::MAX,
    }
}

/// Canonical text of a value: numbers in decimal, strings quoted.
pub open spec fn render_value(v: ValueView) -> Seq<char> {
    match v {
        ValueView::Number(n) => render_int(n),
        ValueView::Strand(s) => seq!['"'] + s + seq!['"'],
    }
}

/// Plain text of a value, as diagnostics show it: strings unquoted.
pub open spec fn raw_text(v: ValueView) -> Seq<char> {
    match v {
        ValueView::Number(n) => render_int(n),
        ValueView::Strand(s) => s,
    }
}

impl Value {
    /// Canonical text rendering of this value.
    pub fn render(&self) -> (r: String)
        ensures
            r@ == render_value(self@),
    {
        match self {
            Value::Number(n) => render_i64(*n),
            Value::Strand(s) => {
                let quoted = String::from_str("\"").concat(s.as_str()).concat("\"");
                proof {
                    reveal_strlit("\"");
                    assert("\""@ =~= seq!['"']);
                    assert(quoted@ =~= seq!['"'] + s@ + seq!['"']);
                }
                quoted
            },
        }
    }

    /// Plain-text form of this value, used in diagnostics.
    pub fn as_string(&self) -> (r: String)
        ensures
            r@ == raw_text(self@),
    {
        match self {
            Value::Number(n) => render_i64(*n),
            Value::Strand(s) => s.clone(),
        }
    }
}

} // verus!
