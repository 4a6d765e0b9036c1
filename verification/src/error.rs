//! The ways in which a parse fails.

use vstd::prelude::*;

verus! {

/// Why a token stream was rejected. A rejected stream yields no expressions.
#[derive(Clone, Copy, Debug, PartialEq, Eq, Structural)]
pub enum ParseError {
    /// The address instruction at `index` names a symbol that the table does not bind.
    UnresolvedSymbol { index: usize },
    /// No instruction can start with the token at `index`, or the token that
    /// must follow it is not there.
    GrammarViolation { index: usize },
}

} // verus!
