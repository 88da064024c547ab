//! Completing a purchase of premium currency: whether a product is on
//! sale, and what the purchase credits and counts.
use vstd::prelude::*;

use crate::error::ServiceError;

verus! {

/// The most premium currency of either kind that a player can hold.
pub const MAX_VMONEY: i64 = 99_999_999;

/// Whether a product is on sale at `now`: from its start time (or always)
/// up to and including its end time (or forever).
pub open spec fn spec_product_on_sale(start_time: Option<i64>, end_time: Option<i64>, now: i64) -> bool {
    (match start_time { Some(s) => s <= now, None => true })
        && (match end_time { Some(e) => now <= e, None => true })
}

/// Whether a product is on sale at `now`; see `spec_product_on_sale`.
pub fn product_on_sale(start_time: Option<i64>, end_time: Option<i64>, now: i64) -> (r: bool)
    ensures
        r == spec_product_on_sale(start_time, end_time, now),
{
    let starts_at: i64 = match start_time {
        Some(s) => s,
        None => i64::MIN,
    };
    let ends_at: i64 = match end_time {
        Some(e) => e,
        None => i64::MAX,
    };
    starts_at <= now && now <= ends_at
}

/// An amount that a product credits: a listed non-negative amount, else
/// none.
pub open spec fn credited(amount: Option<i64>) -> int {
    match amount {
        Some(a) => if a < 0 { 0 } else { a as int },
        None => 0,
    }
}

/// A balance after a credit: the stored balance (none where absent) plus
/// the credit, at most `MAX_VMONEY`.
pub open spec fn balance_after(stored: Option<i64>, credit: int) -> int {
    let sum = match stored { Some(s) => s as int, None => 0 } + credit;
    let saturated = if sum > i64::MAX { i64::MAX as int } else { sum };
    if saturated > MAX_VMONEY { MAX_VMONEY as int } else { saturated }
}

/// What a completed purchase leaves: both balances, and how many times the
/// player has now bought the product.
#[derive(Clone, Copy, Debug, PartialEq, Eq, Structural)]
pub struct PurchaseResult {
    pub after_vmoney: i64,
    pub after_free_vmoney: i64,
    pub purchased_times: i64,
}

impl PurchaseResult {
    /// Whether this was the player's first purchase of the product.
    pub fn first_purchase(&self) -> (r: bool)
        ensures
            r == (self.purchased_times == 1),
    {
        self.purchased_times == 1
    }
}

fn credit_balance(stored: Option<i64>, credit: Option<i64>) -> (r: i64)
    ensures
        r == balance_after(stored, credited(credit)),
{
    let amount: i64 = match credit {
        Some(a) => if a < 0 { 0 } else { a },
        None => 0,
    };
    let base: i64 = match stored {
        Some(s) => s,
        None => 0,
    };
    let sum: i64 = match base.checked_add(amount) {
        Some(t) => t,
        None => i64::MAX,
    };
    if sum > MAX_VMONEY { MAX_VMONEY } else { sum }
}

/// Completes the purchase of a product that credits `paid` premium and
/// `free` bonus currency, for a player holding `vmoney` and `free_vmoney`
/// who has bought the product `times_bought` times before. The count rises
/// by one; it fails only where that count cannot.
pub fn finish_purchase(
    paid: Option<i64>,
    free: Option<i64>,
    vmoney: Option<i64>,
    free_vmoney: Option<i64>,
    times_bought: Option<i64>,
) -> (r: Result<PurchaseResult, ServiceError>)
    ensures
        r is Err <==> times_bought == Some(i64::MAX),
        r matches Ok(p) ==> {
            &&& p.after_vmoney == balance_after(vmoney, credited(paid))
            &&& p.after_free_vmoney == balance_after(free_vmoney, credited(free))
            &&& p.purchased_times == (match times_bought { Some(t) => t as int, None => 0 }) + 1
            &&& p.after_vmoney <= MAX_VMONEY
            &&& p.after_free_vmoney <= MAX_VMONEY
        },
{
    let after_vmoney = credit_balance(vmoney, paid);
    let after_free_vmoney = credit_balance(free_vmoney, free);
    let before: i64 = match times_bought {
        Some(t) => t,
        None => 0,
    };
    let purchased_times = match before.checked_add(1) {
        Some(t) => t,
        None => return Err(ServiceError::new("payment count exceeds range")),
    };
    Ok(PurchaseResult { after_vmoney, after_free_vmoney, purchased_times })
}

} // verus!
