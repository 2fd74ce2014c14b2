//! The protocol's closed error taxonomy. Every operation of either service
//! fails with exactly one of these kinds, rolls its own changes back entirely,
//! and surfaces the kind verbatim to the caller.

use vstd::prelude::*;

verus! {

#[derive(Clone, Copy, Debug, PartialEq, Eq, Structural)]
pub enum CounterError {
    /// A link attempt on a counter whose whitelist is already set.
    AlreadyLinked,
    /// A gated operation on a counter that has no linked whitelist.
    NotInitialized,
    /// Adding a wallet that is already a member of the whitelist.
    DuplicateMember,
    /// Removing or checking a wallet that is not a member, or a gated
    /// increment whose membership check failed.
    NotAMember,
    /// Checked increment of a member count or counter at its numeric ceiling.
    CounterOverflow,
    /// Checked decrement of a member count that would go negative.
    CounterUnderflow,
    /// The caller is not the declared owner or controller of the record.
    AuthorityMismatch,
    /// The supplied bump does not match the deterministic derivation, or no
    /// derivation exists because the bump search space is exhausted.
    AddressDerivationMismatch,
    /// A record already occupies the address a creation would allocate.
    RecordExists,
}

} // verus!
