use vstd::prelude::*;

verus! {

/// Every way an operation of the pool can be rejected.
///
/// A function that returns one of these has changed nothing: every rejection
/// happens before any state mutation, so a failed call leaves the pool
/// exactly as it was.
#[derive(Clone, Copy, Debug, PartialEq, Eq, Structural)]
pub enum Error {
    /// An account name does not follow the host's account-name rules.
    InvalidAccount,
    /// A transfer or burn of zero was requested.
    ZeroAmount,
    /// Source and destination of a transfer are the same account.
    SameAccount,
    /// An owner tried to set an allowance for itself.
    SelfApproval,
    /// The debited account holds less credit than requested.
    InsufficientBalance,
    /// The caller's allowance from the owner is below the requested amount.
    InsufficientAllowance,
    /// A credit, weight or epoch computation would exceed its integer type.
    Overflow,
    /// The caller is not the governance account.
    NotGovernance,
    /// `add_validator` was called for an id that is already registered.
    DuplicateValidator,
    /// `remove_validator` or `update_validator` was called for an id that is
    /// not registered.
    UnknownValidator,
    /// A deposit or burn was asked to split over a table whose total weight
    /// is zero.
    EmptyValidatorSet,
    /// `release` was called before the claim's unlock epoch.
    NotYetUnlocked,
    /// `release` was called for an owner with no pending claim.
    NoClaim,
    /// A stake or unstake result arrived for a correlation id that is not in
    /// the pending-operations table.
    UnknownOperation,
    /// A stake or unstake result arrived for an entry that already reached a
    /// terminal status.
    OperationAlreadyResolved,
    /// A retry was requested for an operation group that still has results
    /// outstanding.
    OperationPending,
}

} // verus!
