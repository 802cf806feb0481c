use vstd::prelude::*;

verus! {

/// Every way an operation of this crate can fail.
///
/// The first eight variants are raised by the lease state machine itself;
/// the last three are token-interface failures, which abort the enclosing
/// operation verbatim and are never reinterpreted.
#[derive(Clone, Copy, Debug, PartialEq, Eq, Structural)]
pub enum Error {
    /// A configuration read happened before `initialize`.
    NotInitialized,
    /// `initialize` was called a second time.
    AlreadyInitialized,
    /// No lease record in the required state exists for the asset.
    LeaseNotFound,
    /// A lease record already exists for the asset.
    LeaseAlreadyExists,
    /// The operation is not valid for the record's current state.
    InvalidState,
    /// A requested rental duration is zero or exceeds the listing's bound.
    InvalidDuration,
    /// A claim was attempted before the rental's expiry time.
    NotExpired,
    /// The acting principal does not match the required one.
    Unauthorized,
    /// A token movement asked for more than the sender holds.
    InsufficientBalance,
    /// A token movement would push the receiver's balance past `i128::MAX`.
    BalanceOverflow,
    /// An administrative token primitive was invoked by a non-admin.
    NotAuthorized,
}

} // verus!
