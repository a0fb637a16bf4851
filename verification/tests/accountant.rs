use soulbound_market::accountant::{settle, Settlement, BYTE_UNIT_COST, SMALLEST_UNIT};
use soulbound_market::error::LedgerError;

const COST: u128 = 10_000_000_000_000_000_000;

#[test]
fn byte_unit_cost_is_ten_to_the_nineteenth() {
    assert_eq!(BYTE_UNIT_COST, COST);
    assert_eq!(SMALLEST_UNIT, 1);
}

#[test]
fn rent_is_cost_times_bytes() {
    assert_eq!(
        settle(3, 0, 5 * COST),
        Ok(Settlement { required: 3 * COST, refund: 2 * COST, paid_out: true })
    );
}

#[test]
fn spent_amount_is_taken_off_before_the_rent() {
    assert_eq!(
        settle(1, 100, COST + 150),
        Ok(Settlement { required: COST, refund: 50, paid_out: true })
    );
}

#[test]
fn shrinking_costs_nothing() {
    assert_eq!(
        settle(-40, 10, 25),
        Ok(Settlement { required: 0, refund: 15, paid_out: true })
    );
}

#[test]
fn no_growth_costs_nothing() {
    assert_eq!(settle(0, 0, 0), Ok(Settlement { required: 0, refund: 0, paid_out: false }));
}

#[test]
fn refund_of_one_unit_is_not_paid_out() {
    assert_eq!(
        settle(1, 0, COST + 1),
        Ok(Settlement { required: COST, refund: 1, paid_out: false })
    );
    assert_eq!(
        settle(1, 0, COST + 2),
        Ok(Settlement { required: COST, refund: 2, paid_out: true })
    );
}

#[test]
fn exact_payment_leaves_nothing() {
    assert_eq!(
        settle(2, 7, 2 * COST + 7),
        Ok(Settlement { required: 2 * COST, refund: 0, paid_out: false })
    );
}

#[test]
fn short_payment_is_refused_with_the_rent() {
    assert_eq!(settle(2, 0, 2 * COST - 1), Err(LedgerError::InsufficientDeposit(2 * COST)));
    assert_eq!(settle(1, 100, COST + 99), Err(LedgerError::InsufficientDeposit(COST)));
}

#[test]
fn spending_more_than_attached_is_refused() {
    assert_eq!(settle(0, 10, 9), Err(LedgerError::InsufficientDeposit(0)));
}

#[test]
fn largest_growth_does_not_overflow() {
    let bytes = u64::MAX as i128;
    assert_eq!(
        settle(bytes, 0, u128::MAX),
        Ok(Settlement {
            required: COST * (u64::MAX as u128),
            refund: u128::MAX - COST * (u64::MAX as u128),
            paid_out: true,
        })
    );
}
