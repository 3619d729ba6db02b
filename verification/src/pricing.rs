//! The pricing engine: a pure function from a series' time parameters to
//! the current price of one par unit, and the mint quantity a payment buys.

use vstd::prelude::*;

use vstd::arithmetic::div_mod::{
    lemma_div_is_ordered, lemma_div_nonincreasing, lemma_div_pos_is_pos, lemma_multiply_divide_le,
};
use vstd::arithmetic::mul::{lemma_mul_inequality, lemma_mul_nonnegative};

use crate::vault::Series;

verus! {

/// Fixed-point scale of one whole unit: 10_000_000 represents 1.0000000.
pub const PAR_UNIT: i128 = 10_000_000;

/// The parameters under which a series' price is defined: maturity strictly
/// after issue, and an issue price in `(0, PAR_UNIT]`.
pub open spec fn price_params_ok(s: Series) -> bool {
    &&& s.issue_date < s.maturity_date
    &&& 0 < s.issue_price <= PAR_UNIT
}

/// Price of one par unit of `s` at time `t`: the issue price up to the
/// issue date, par from maturity on, and linear accretion in between
/// (truncating integer division).
pub open spec fn spec_price(s: Series, t: u64) -> int {
    if t <= s.issue_date {
        s.issue_price as int
    } else if t >= s.maturity_date {
        PAR_UNIT as int
    } else {
        s.issue_price + (PAR_UNIT - s.issue_price) * (t - s.issue_date) / (s.maturity_date
            - s.issue_date)
    }
}

/// Price bounds: the price never falls below the issue price nor rises
/// above par, equals the issue price at the issue date, and equals par at
/// maturity.
pub proof fn lemma_price_bounds(s: Series, t: u64)
    requires
        price_params_ok(s),
    ensures
        s.issue_price <= spec_price(s, t) <= PAR_UNIT,
        t <= s.issue_date ==> spec_price(s, t) == s.issue_price,
        t >= s.maturity_date ==> spec_price(s, t) == PAR_UNIT,
{
    if s.issue_date < t < s.maturity_date {
        let delta = PAR_UNIT - s.issue_price;
        let e = (t - s.issue_date) as int;
        let d = (s.maturity_date - s.issue_date) as int;
        lemma_mul_nonnegative(delta, e);
        lemma_div_pos_is_pos(delta * e, d);
        lemma_mul_inequality(e, d, delta);
        assert(delta * e == e * delta) by (nonlinear_arith);
        assert(delta * d == d * delta) by (nonlinear_arith);
        lemma_multiply_divide_le(delta * e, d, delta);
    }
}

/// Monotonicity: over any pair of times the price never decreases.
pub proof fn lemma_price_monotone(s: Series, t1: u64, t2: u64)
    requires
        price_params_ok(s),
        t1 <= t2,
    ensures
        spec_price(s, t1) <= spec_price(s, t2),
{
    lemma_price_bounds(s, t1);
    lemma_price_bounds(s, t2);
    if s.issue_date < t1 < s.maturity_date && s.issue_date < t2 < s.maturity_date {
        let delta = PAR_UNIT - s.issue_price;
        let e1 = (t1 - s.issue_date) as int;
        let e2 = (t2 - s.issue_date) as int;
        let d = (s.maturity_date - s.issue_date) as int;
        lemma_mul_inequality(e1, e2, delta);
        assert(delta * e1 == e1 * delta) by (nonlinear_arith);
        assert(delta * e2 == e2 * delta) by (nonlinear_arith);
        lemma_div_is_ordered(delta * e1, delta * e2, d);
    }
}

/// Current price of one par unit of `series` at `current_time`, by linear
/// accretion from the issue price toward par.
pub fn calculate_current_price(series: &Series, current_time: u64) -> (price: i128)
    requires
        price_params_ok(*series),
    ensures
        price == spec_price(*series, current_time),
        series.issue_price <= price <= PAR_UNIT,
{
    proof {
        lemma_price_bounds(*series, current_time);
    }
    if current_time <= series.issue_date {
        return series.issue_price;
    }
    if current_time >= series.maturity_date {
        return PAR_UNIT;
    }

    let elapsed = current_time - series.issue_date;
    let total_duration = series.maturity_date - series.issue_date;

    let price_delta = PAR_UNIT - series.issue_price;
    proof {
        lemma_mul_nonnegative(price_delta as int, elapsed as int);
        assert(price_delta * elapsed <= PAR_UNIT * u64::MAX as int) by {
            lemma_mul_inequality(price_delta as int, PAR_UNIT as int, elapsed as int);
            lemma_mul_inequality(elapsed as int, u64::MAX as int, PAR_UNIT as int);
            assert(PAR_UNIT * elapsed == elapsed * PAR_UNIT) by (nonlinear_arith);
        }
    }
    let accreted_value = (price_delta * elapsed as i128) / (total_duration as i128);
    series.issue_price + accreted_value
}

/// Mint quantity for a payment: `pay_amount * PAR_UNIT / price`, truncating;
/// `None` when the price is not positive or the scaling overflows.
pub open spec fn spec_minted_par(pay_amount: i128, price: i128) -> Option<i128> {
    if price <= 0 {
        None
    } else if pay_amount * PAR_UNIT > i128::MAX || pay_amount * PAR_UNIT < i128::MIN {
        None
    } else if pay_amount >= 0 {
        Some((pay_amount * PAR_UNIT / (price as int)) as i128)
    } else {
        Some((-((-(pay_amount * PAR_UNIT)) / (price as int))) as i128)
    }
}

/// Par units minted for a payment of `pay_amount` at `current_price`.
pub fn calculate_minted_par(pay_amount: i128, current_price: i128) -> (r: Option<i128>)
    ensures
        r == spec_minted_par(pay_amount, current_price),
        current_price > 0 && pay_amount >= 0 && pay_amount * PAR_UNIT <= i128::MAX ==> r
            == Some((pay_amount * PAR_UNIT / (current_price as int)) as i128),
{
    if current_price <= 0 {
        return None;
    }
    match pay_amount.checked_mul(PAR_UNIT) {
        None => None,
        Some(scaled) => {
            proof {
                let x = scaled as int;
                let d = current_price as int;
                if x >= 0 {
                    lemma_div_pos_is_pos(x, d);
                    lemma_div_nonincreasing(x, d);
                } else {
                    lemma_div_pos_is_pos(-x, d);
                    lemma_div_nonincreasing(-x, d);
                }
            }
            scaled.checked_div(current_price)
        },
    }
}

} // verus!
