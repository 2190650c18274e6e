use vstd::prelude::*;

verus! {

/// Why a staking operation was rejected.
///
/// Every failure aborts the whole operation: no rejected request leaves a
/// partial mutation behind.
#[derive(Clone, Copy, Debug, PartialEq, Eq, Structural)]
pub enum StakingError {
    /// The caller is not the designated owner, funder or origin for an
    /// owner-only or funding operation.
    Unauthorized,
    /// No account exists for the given staker.
    NotFound,
    /// The stake index is not below the account's stake count.
    IndexOutOfRange,
    /// A structurally invalid input: an empty item set, a zero funding
    /// amount, or an amount exceeding the available pool.
    InvalidInput,
    /// The stake's lockup period has not elapsed yet.
    LockupActive,
    /// The stake has no accrued reward to pay out.
    NothingToClaim,
    /// The ledger holds no weight to distribute over.
    NothingToDistribute,
    /// An external call returned a failure, the wrong number of results, or
    /// a malformed payload.
    ExternalCallFailed,
    /// The registry-reported owner differs from the requesting staker.
    OwnershipMismatch,
    /// A counter would exceed its machine representation; the operation is
    /// rejected rather than allowed to wrap.
    AmountOverflow,
}

} // verus!
