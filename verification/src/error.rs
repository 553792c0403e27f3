use vstd::prelude::*;

verus! {

/// Errors surfaced to the caller of the externally invokable operations.
#[derive(Clone, Copy, Debug, PartialEq, Eq, Structural)]
pub enum ContractError {
    /// A submitted order carried no funds, or no pair is registered for the
    /// canonical key formed by the supplied and requested denominations.
    InvalidOrder,
    /// The query surface defines no operations; any query is refused.
    UnsupportedQuery,
}

} // verus!
