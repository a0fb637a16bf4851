//! The ways in which a ledger operation fails.

use vstd::prelude::*;

verus! {

/// Why an operation was refused. A refused operation leaves the ledger as it
/// was.
#[derive(Debug, Clone, Copy, PartialEq, Eq, Structural)]
pub enum LedgerError {
    /// The catalog holds no item under the given identifier.
    ItemNotFound,
    /// The account has no entry in the ownership index.
    NoHoldings,
    /// The account has holdings, but not of the given item.
    TokenNotOwned,
    /// The attached payment does not cover the amount carried here.
    InsufficientDeposit(u128),
    /// The caller is not the privileged account.
    Unauthorized,
    /// A holding identifier lacks the delimiter between account and item.
    MalformedHoldingId,
    /// The account part of a holding identifier is not a valid account name.
    InvalidAccount,
    /// The operation is disabled for good: holdings are soulbound.
    UnsupportedOperation,
}

} // verus!
