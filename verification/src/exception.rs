//! The errors that built-in functions raise.

use vstd::prelude::*;

use crate::term::Term;

verus! {

/// An Erlang exception raised by a built-in function.
#[derive(Debug, PartialEq, Eq)]
pub enum Exception {
    /// `error:badarg`: an argument has the wrong type or value.
    Badarg,
    /// `throw:Reason`: a non-local return with the given reason.
    Throw(Term),
}

} // verus!
