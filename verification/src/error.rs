use vstd::prelude::*;

verus! {

/// Typed failures of the registry engine. Every failing operation returns
/// exactly one of these, leaves the store unchanged, and records no event.
#[derive(Clone, Copy, Debug, PartialEq, Eq, Structural)]
pub enum RegistryError {
    /// A registration targeted a name that is already present in the domain table.
    AlreadyExists,
    /// The operation targeted a name absent from the domain table.
    NotFound,
    /// The caller is not the stored owner of an owner-gated domain.
    NotOwner,
    /// The fee ledger could not debit the caller without dropping the account
    /// below its minimum-existence threshold; propagated unchanged.
    InsufficientFunds,
}

} // verus!
