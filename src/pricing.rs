use vstd::prelude::*;
use crate::model::{Day, Spot, MAX_NIGHTLY_PRICE};

verus! {

/// Number of nights in the half-open range `[check_in, check_out)`.
pub open spec fn nights(check_in: int, check_out: int) -> int {
    check_out - check_in
}

/// Flat-rate total: one nightly rate per night, nothing else.
pub open spec fn stay_price(price_per_night: int, check_in: int, check_out: int) -> int {
    nights(check_in, check_out) * price_per_night
}

/// Total price of a stay on `spot`, in cents.
pub fn compute_price(spot: &Spot, check_in: Day, check_out: Day) -> (r: u64)
    requires
        check_in < check_out,
        spot.price_per_night <= MAX_NIGHTLY_PRICE,
    ensures
        r as int == stay_price(spot.price_per_night as int, check_in as int, check_out as int),
{
    let n: u64 = (check_out - check_in) as u64;
    let p: u64 = spot.price_per_night;
    assert(n * p <= 0xffff_ffffu64 * 1_000_000_000u64) by (nonlinear_arith)
        requires
            n <= 0xffff_ffff,
            p <= 1_000_000_000,
    ;
    n * p
}

} // verus!
