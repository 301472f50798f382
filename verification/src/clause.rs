//! The clause node itself: an immutable wrapper around one expression value,
//! with structural equality, a total order, a stable hash, and a canonical
//! text rendering.

use vstd::prelude::*;
use vstd::string::StringExecFns;
use crate::value::{Value, ValueView, render_value};

verus! {

/// The pagination-offset clause: wraps the expression whose evaluation gives
/// the number of leading result rows to skip.
#[derive(Debug, PartialEq, Eq, PartialOrd, Ord, Hash)]
pub struct Start(pub Value);

impl View for Start {
    type V = ValueView;

    open spec fn view(&self) -> ValueView {
        self.0@
    }
}

impl Clone for Start {
    fn clone(&self) -> (r: Self)
        ensures
            r@ == self@,
    {
        Start(self.0.clone())
    }
}

/// Canonical text of a clause: the keyword, one separator, then the
/// expression's canonical text. The `AT` sugar is never emitted.
pub open spec fn render_start(v: ValueView) -> Seq<char> {
    seq!['S', 'T', 'A', 'R', 'T', ' '] + render_value(v)
}

impl Start {
    /// Canonical text rendering of this clause.
    pub fn to_string(&self) -> (r: String)
        ensures
            r@ == render_start(self@),
    {
        let tail = self.0.render();
        let r = String::from_str("START ").concat(tail.as_str());
        proof {
            reveal_strlit("START ");
            assert("START "@ =~= seq!['S', 'T', 'A', 'R', 'T', ' ']);
            assert(r@ =~= render_start(self@));
        }
        r
    }
}

} // verus!
