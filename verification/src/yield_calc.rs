//! The index-based yield model: a floating index accretes from the
//! subscription price toward par, and holdings are tracked as shares
//! valued at the current index.
//!
//! This model is independent of the par-accretion pricing in `pricing`;
//! the two formulas are deliberately kept apart.

use vstd::prelude::*;

use vstd::arithmetic::div_mod::{lemma_div_pos_is_pos, lemma_multiply_divide_le};
use vstd::arithmetic::mul::{lemma_mul_inequality, lemma_mul_nonnegative};

verus! {

/// Fixed-point scale of the index: 10_000_000 represents 1.0000000.
pub const SCALE: i128 = 10_000_000;

/// The index at `now` for a series accreting from `subscription_price`
/// toward par: `SCALE` from maturity on, otherwise the subscription price
/// plus the yield accrued so far (truncating integer division).
pub open spec fn spec_index(
    par_value: i128,
    subscription_price: i128,
    issue_time: u64,
    maturity_time: u64,
    now: u64,
) -> int {
    if now >= maturity_time {
        SCALE as int
    } else {
        subscription_price + (par_value - subscription_price) * (now - issue_time) / (maturity_time
            - issue_time)
    }
}

/// Pure share and value arithmetic of the index model.
pub struct YieldCalculator;

impl YieldCalculator {
    /// Current index for a series at `now`.
    pub fn calculate_index(
        par_value: i128,
        subscription_price: i128,
        issue_time: u64,
        maturity_time: u64,
        now: u64,
    ) -> (r: i128)
        requires
            issue_time < maturity_time,
            issue_time <= now,
            0 <= subscription_price <= par_value,
            (par_value - subscription_price) * (maturity_time - issue_time) <= i128::MAX,
        ensures
            r == spec_index(par_value, subscription_price, issue_time, maturity_time, now),
    {
        if now >= maturity_time {
            return SCALE;
        }

        let elapsed = (now - issue_time) as i128;
        let duration = (maturity_time - issue_time) as i128;
        let total_yield = par_value - subscription_price;
        proof {
            lemma_mul_nonnegative(total_yield as int, elapsed as int);
            lemma_mul_inequality(elapsed as int, duration as int, total_yield as int);
            assert(total_yield * elapsed == elapsed * total_yield) by (nonlinear_arith);
            assert(total_yield * duration == duration * total_yield) by (nonlinear_arith);
            lemma_div_pos_is_pos(total_yield * elapsed, duration as int);
            lemma_multiply_divide_le(total_yield * elapsed, duration as int, total_yield as int);
        }
        let accrued_yield = (total_yield * elapsed) / duration;
        subscription_price + accrued_yield
    }

    /// Shares bought by a payment at the current index.
    pub fn calculate_shares(usdc_amount: i128, current_index: i128) -> (r: i128)
        requires
            0 <= usdc_amount,
            0 < current_index,
            usdc_amount * SCALE <= i128::MAX,
        ensures
            r == usdc_amount * SCALE / (current_index as int),
    {
        proof {
            lemma_mul_nonnegative(usdc_amount as int, SCALE as int);
            lemma_div_pos_is_pos(usdc_amount * SCALE, current_index as int);
        }
        (usdc_amount * SCALE) / current_index
    }

    /// Value of a share holding at the current index.
    pub fn calculate_position_value(shares: i128, current_index: i128) -> (r: i128)
        requires
            0 <= shares,
            0 <= current_index,
            shares * current_index <= i128::MAX,
        ensures
            r == shares * current_index / (SCALE as int),
    {
        proof {
            lemma_mul_nonnegative(shares as int, current_index as int);
            lemma_div_pos_is_pos(shares * current_index, SCALE as int);
        }
        (shares * current_index) / SCALE
    }

    /// Redemption value of a share holding at maturity: always par.
    pub fn calculate_redemption_value(shares: i128, par_value: i128) -> (r: i128)
        requires
            0 <= shares,
            0 <= par_value,
            shares * par_value <= i128::MAX,
        ensures
            r == shares * par_value / (SCALE as int),
    {
        proof {
            lemma_mul_nonnegative(shares as int, par_value as int);
            lemma_div_pos_is_pos(shares * par_value, SCALE as int);
        }
        (shares * par_value) / SCALE
    }
}

} // verus!
