//! Storage rent: what a call owes for the bytes by which it made the stored
//! state grow, and what of its attached payment goes back to the caller.

use vstd::prelude::*;
use crate::error::LedgerError;

verus! {

/// The price of one byte of stored state, in the smallest currency unit.
pub const BYTE_UNIT_COST: u128 = 10_000_000_000_000_000_000;

/// A refund of this amount or less is not paid out.
pub const SMALLEST_UNIT: u128 = 1;

/// Trusted: `near_sdk::env::storage_byte_cost`, which returns the constant
/// `STORAGE_PRICE_PER_BYTE` of that crate, ten to the power of nineteen.
#[verifier::external_body]
pub(crate) fn storage_byte_cost() -> (cost: u128)
    ensures
        cost == BYTE_UNIT_COST,
{
    near_sdk::env::storage_byte_cost()
}

/// How a settled call ends: the rent that was due, what is left of the
/// payment after it, and whether that rest is sent back.
#[derive(Debug, Clone, Copy, PartialEq, Eq, Structural)]
pub struct Settlement {
    /// The rent for the bytes added.
    pub required: u128,
    /// The attached payment, less what was spent already, less the rent.
    pub refund: u128,
    /// Whether `refund` is transferred to the caller.
    pub paid_out: bool,
}

/// The rent for a change of `bytes_delta` bytes: shrinking costs nothing.
pub open spec fn required_rent(bytes_delta: int) -> int {
    BYTE_UNIT_COST * (if bytes_delta > 0 {
        bytes_delta
    } else {
        0
    })
}

/// The settlement of a call that changed the stored state by `bytes_delta`
/// bytes, spent `already_spent` elsewhere and came with `attached`.
pub open spec fn settle_spec(bytes_delta: int, already_spent: int, attached: int) -> Result<
    Settlement,
    LedgerError,
> {
    let required = required_rent(bytes_delta);
    let payable = attached - already_spent;
    if required > payable {
        Err(LedgerError::InsufficientDeposit(required as u128))
    } else {
        Ok(
            Settlement {
                required: required as u128,
                refund: (payable - required) as u128,
                paid_out: payable - required > SMALLEST_UNIT,
            },
        )
    }
}

/// Charges the rent for `bytes_delta` bytes against what `attached` leaves
/// after `already_spent`. The byte counts of the host are 64 bits wide, which
/// bounds the change from above.
pub fn settle(bytes_delta: i128, already_spent: u128, attached: u128) -> (r: Result<
    Settlement,
    LedgerError,
>)
    requires
        bytes_delta <= u64::MAX,
    ensures
        r == settle_spec(bytes_delta as int, already_spent as int, attached as int),
{
    let cost = storage_byte_cost();
    let grown: u128 = if bytes_delta > 0 {
        bytes_delta as u128
    } else {
        0
    };
    let required: u128 = cost * grown;
    if already_spent > attached {
        Err(LedgerError::InsufficientDeposit(required))
    } else {
        let payable: u128 = attached - already_spent;
        if required > payable {
            Err(LedgerError::InsufficientDeposit(required))
        } else {
            let refund: u128 = payable - required;
            Ok(Settlement { required, refund, paid_out: refund > SMALLEST_UNIT })
        }
    }
}

/// Law: a settlement balances. The rent, the refund and what was spent
/// already add up to the attached payment, and a call is refused exactly when
/// the payment cannot cover the rent on top of what was spent.
pub proof fn lemma_settlement_balances(bytes_delta: int, already_spent: u128, attached: u128)
    ensures
        match settle_spec(bytes_delta, already_spent as int, attached as int) {
            Ok(s) => s.required == required_rent(bytes_delta) && s.required + s.refund
                + already_spent == attached && (s.paid_out <==> s.refund > SMALLEST_UNIT),
            Err(e) => required_rent(bytes_delta) + already_spent > attached,
        },
{
}

} // verus!
