//! The repo market: short-term cash loans against bill collateral, with a
//! haircut on collateral value, a spread on repayment, and a default claim
//! after the deadline.
//!
//! Cash rides the external rail: on open the caller disburses the loan
//! from the treasury, on close the borrower repays the repurchase amount.
//! Collateral custody is a ledger identity owned by the market.

use vstd::prelude::*;

use crate::bill_token::BTBillToken;
use crate::pricing::{spec_price, PAR_UNIT};
use crate::vault::BingoVault;

verus! {

/// 100% expressed in basis points.
pub const BASIS_POINTS: i128 = 10_000;

/// Failure kinds of the repo market.
#[derive(Clone, Copy, Debug, PartialEq, Eq, Structural)]
pub enum Error {
    AlreadyInitialized,
    NotInitialized,
    Unauthorized,
    PositionNotFound,
    InvalidStatus,
    InvalidAmount,
    ExceedsMaxCash,
    InvalidDeadline,
    DeadlineNotPassed,
    DeadlinePassed,
    ContractPaused,
}

/// Lifecycle state of a repo position.
#[derive(Clone, Copy, Debug, PartialEq, Eq, Structural)]
pub enum RepoStatus {
    /// The borrower may still repay.
    Open,
    /// Closed by repayment; collateral returned.
    Closed,
    /// Defaulted; collateral claimed by the treasury.
    Defaulted,
}

/// One collateralized cash loan.
#[derive(Clone, Copy, Debug, PartialEq, Eq, Structural)]
pub struct RepoPosition {
    /// Unique, sequentially assigned id (first position gets 1).
    pub id: u64,
    /// The borrower's identity.
    pub borrower: u64,
    /// Series of the collateral bills.
    pub series_id: u32,
    /// Bill units locked as collateral; positive.
    pub collateral_par: i128,
    /// Cash disbursed to the borrower; positive.
    pub cash_out: i128,
    /// Cash owed back: `cash_out` marked up by the spread.
    pub repurchase_amount: i128,
    /// Time the position was opened.
    pub start_time: u64,
    /// Last time at which the borrower may still repay.
    pub deadline: u64,
    /// Lifecycle state.
    pub status: RepoStatus,
}

/// Greatest cash a collateral holding may borrow: collateral value at the
/// mark price, reduced by the haircut; `None` on arithmetic overflow.
pub open spec fn spec_max_cash(collateral_par: i128, mark_price: i128, haircut_bps: i128) -> Option<
    i128,
> {
    match collateral_par.checked_mul(mark_price) {
        None => None,
        Some(raw) => match raw.checked_div(PAR_UNIT) {
            None => None,
            Some(collateral_value) => match BASIS_POINTS.checked_sub(haircut_bps) {
                None => None,
                Some(ltv_bps) => match collateral_value.checked_mul(ltv_bps) {
                    None => None,
                    Some(scaled) => scaled.checked_div(BASIS_POINTS),
                },
            },
        },
    }
}

/// Cash owed back for a disbursement: the cash marked up by the spread;
/// `None` on arithmetic overflow.
pub open spec fn spec_repurchase(cash_out: i128, spread_bps: i128) -> Option<i128> {
    match BASIS_POINTS.checked_add(spread_bps) {
        None => None,
        Some(multiplier) => match cash_out.checked_mul(multiplier) {
            None => None,
            Some(scaled) => scaled.checked_div(BASIS_POINTS),
        },
    }
}

/// Greatest cash borrowable against `collateral_par` bills marked at
/// `mark_price`, after the haircut.
pub fn calculate_max_cash(collateral_par: i128, mark_price: i128, haircut_bps: i128) -> (r: Option<
    i128,
>)
    ensures
        r == spec_max_cash(collateral_par, mark_price, haircut_bps),
{
    let collateral_value = match collateral_par.checked_mul(mark_price) {
        None => return None,
        Some(raw) => match raw.checked_div(PAR_UNIT) {
            None => return None,
            Some(v) => v,
        },
    };
    let ltv_bps = match BASIS_POINTS.checked_sub(haircut_bps) {
        None => return None,
        Some(v) => v,
    };
    match collateral_value.checked_mul(ltv_bps) {
        None => None,
        Some(scaled) => scaled.checked_div(BASIS_POINTS),
    }
}

/// Repurchase amount for a disbursement of `cash_out` under `spread_bps`.
pub fn calculate_repurchase(cash_out: i128, spread_bps: i128) -> (r: Option<i128>)
    ensures
        r == spec_repurchase(cash_out, spread_bps),
{
    let multiplier = match BASIS_POINTS.checked_add(spread_bps) {
        None => return None,
        Some(v) => v,
    };
    match cash_out.checked_mul(multiplier) {
        None => None,
        Some(scaled) => scaled.checked_div(BASIS_POINTS),
    }
}

/// The repo market.
pub struct RepoMarket {
    /// Ledger identity under which the market holds collateral.
    pub custody: u64,
    /// Identity paid on default claims and repaid on close.
    pub treasury: u64,
    /// Haircut on collateral value, in basis points (0 to 10,000).
    pub haircut_bps: i128,
    /// Spread on disbursed cash, in basis points (0 to 10,000).
    pub spread_bps: i128,
    /// All positions; the position with id `n` sits at index `n - 1`.
    pub positions: Vec<RepoPosition>,
}

impl RepoMarket {
    /// Whether a position with this id exists.
    pub open spec fn spec_has_position(self, position_id: u64) -> bool {
        1 <= position_id <= self.positions@.len()
    }

    /// The position with this id.
    pub open spec fn spec_position(self, position_id: u64) -> RepoPosition {
        self.positions@[position_id - 1]
    }

    /// Well-formedness: parameters within basis-point range, ids assigned
    /// sequentially, and every position's amounts positive with its
    /// repurchase amount exactly the spread markup of its cash.
    pub open spec fn wf(self) -> bool {
        &&& 0 <= self.haircut_bps <= BASIS_POINTS
        &&& 0 <= self.spread_bps <= BASIS_POINTS
        &&& forall|i: int|
            0 <= i < self.positions@.len() ==> (#[trigger] self.positions@[i]).id == i + 1
        &&& forall|i: int|
            0 <= i < self.positions@.len() ==> {
                let p = #[trigger] self.positions@[i];
                &&& 0 < p.collateral_par
                &&& 0 < p.cash_out
                &&& Some(p.repurchase_amount) == spec_repurchase(p.cash_out, self.spread_bps)
            }
    }

    /// A fresh market with no positions.
    pub fn new(custody: u64, treasury: u64, haircut_bps: i128, spread_bps: i128) -> (m: RepoMarket)
        requires
            0 <= haircut_bps <= BASIS_POINTS,
            0 <= spread_bps <= BASIS_POINTS,
        ensures
            m.wf(),
            m.custody == custody,
            m.treasury == treasury,
            m.haircut_bps == haircut_bps,
            m.spread_bps == spread_bps,
            m.positions@.len() == 0,
    {
        RepoMarket { custody, treasury, haircut_bps, spread_bps, positions: Vec::new() }
    }

    /// The position with this id.
    pub fn get_position(&self, position_id: u64) -> (r: Result<RepoPosition, Error>)
        ensures
            r is Ok <==> self.spec_has_position(position_id),
            r matches Err(e) ==> e == Error::PositionNotFound,
            r matches Ok(p) ==> p == self.spec_position(position_id),
    {
        if position_id == 0 || position_id > self.positions.len() as u64 {
            Err(Error::PositionNotFound)
        } else {
            Ok(self.positions[(position_id - 1) as usize])
        }
    }

    /// The configured haircut, in basis points.
    pub fn get_haircut(&self) -> (r: i128)
        ensures
            r == self.haircut_bps,
    {
        self.haircut_bps
    }

    /// The configured spread, in basis points.
    pub fn get_spread(&self) -> (r: i128)
        ensures
            r == self.spread_bps,
    {
        self.spread_bps
    }
}

/// The first failing check of `open_repo`, in the order the checks run, or
/// `None` when every check passes.
pub open spec fn spec_open_repo_err(
    m: RepoMarket,
    v: BingoVault,
    series_id: u32,
    collateral_par: i128,
    desired_cash_out: i128,
    deadline: u64,
    now: u64,
) -> Option<Error> {
    if collateral_par <= 0 || desired_cash_out <= 0 {
        Some(Error::InvalidAmount)
    } else if deadline > v.spec_series(series_id).maturity_date {
        Some(Error::InvalidDeadline)
    } else {
        match spec_max_cash(
            collateral_par,
            spec_price(v.spec_series(series_id), now) as i128,
            m.haircut_bps,
        ) {
            None => Some(Error::InvalidAmount),
            Some(max_cash) => {
                if desired_cash_out > max_cash {
                    Some(Error::ExceedsMaxCash)
                } else {
                    match spec_repurchase(desired_cash_out, m.spread_bps) {
                        None => Some(Error::InvalidAmount),
                        Some(_) => None,
                    }
                }
            },
        }
    }
}

/// The first failing check of `close_repo`, in the order the checks run,
/// or `None` when every check passes.
pub open spec fn spec_close_repo_err(m: RepoMarket, position_id: u64, now: u64) -> Option<Error> {
    if !m.spec_has_position(position_id) {
        Some(Error::PositionNotFound)
    } else if !(m.spec_position(position_id).status == RepoStatus::Open) {
        Some(Error::InvalidStatus)
    } else if now > m.spec_position(position_id).deadline {
        Some(Error::DeadlinePassed)
    } else {
        None
    }
}

/// The first failing check of `claim_default`, in the order the checks
/// run, or `None` when every check passes.
pub open spec fn spec_claim_default_err(m: RepoMarket, position_id: u64, now: u64) -> Option<
    Error,
> {
    if !m.spec_has_position(position_id) {
        Some(Error::PositionNotFound)
    } else if !(m.spec_position(position_id).status == RepoStatus::Open) {
        Some(Error::InvalidStatus)
    } else if now <= m.spec_position(position_id).deadline {
        Some(Error::DeadlineNotPassed)
    } else {
        None
    }
}

impl RepoMarket {
    /// Open a loan: validate the deadline against the series' maturity and
    /// the cash against the haircut at the current mark price, lock the
    /// collateral in custody on the ledger, and record the position. The
    /// disbursement itself (`desired_cash_out`, treasury to borrower)
    /// rides the external rail; the caller moves it only on `Ok`.
    /// Borrower-authorized by the external authorization service; a
    /// missing series is the caller's error and is required away.
    pub fn open_repo(
        &mut self,
        token: &mut BTBillToken,
        vault: &BingoVault,
        borrower: u64,
        series_id: u32,
        collateral_par: i128,
        desired_cash_out: i128,
        deadline: u64,
        now: u64,
    ) -> (r: Result<u64, Error>)
        requires
            old(self).wf(),
            old(token).wf(),
            vault.wf(),
            vault.spec_has_series(series_id),
            old(self).positions@.len() < u64::MAX,
            spec_open_repo_err(
                *old(self),
                *vault,
                series_id,
                collateral_par,
                desired_cash_out,
                deadline,
                now,
            ) is None ==> old(token).spec_balance_of(series_id, borrower) >= collateral_par && old(token).spec_balance_of(series_id, old(self).custody) + collateral_par <= i128::MAX,
        ensures
            final(self).wf(),
            final(token).wf(),
            r is Err <==> spec_open_repo_err(
                *old(self),
                *vault,
                series_id,
                collateral_par,
                desired_cash_out,
                deadline,
                now,
            ) is Some,
            r matches Err(e) ==> *final(self) == *old(self) && *final(token) == *old(token)
                && Some(e) == spec_open_repo_err(
                *old(self),
                *vault,
                series_id,
                collateral_par,
                desired_cash_out,
                deadline,
                now,
            ),
            r matches Ok(id) ==> ({
                let ps = final(self).positions@;
                let p = ps[ps.len() - 1];
                &&& id == old(self).positions@.len() + 1
                &&& ps == old(self).positions@.push(p)
                &&& p.id == id
                &&& p.borrower == borrower
                &&& p.series_id == series_id
                &&& p.collateral_par == collateral_par
                &&& p.cash_out == desired_cash_out
                &&& Some(p.repurchase_amount) == spec_repurchase(
                    desired_cash_out,
                    old(self).spread_bps,
                )
                &&& p.start_time == now
                &&& p.deadline == deadline
                &&& p.status == RepoStatus::Open
                &&& (spec_max_cash(
                    collateral_par,
                    spec_price(vault.spec_series(series_id), now) as i128,
                    old(self).haircut_bps,
                ) matches Some(max_cash) && desired_cash_out <= max_cash)
            }),
            r is Ok && borrower != old(self).custody ==> final(token).spec_balance_of(
                series_id,
                borrower,
            ) == old(token).spec_balance_of(series_id, borrower) - collateral_par && final(token).spec_balance_of(series_id, old(self).custody) == old(token).spec_balance_of(
                series_id,
                old(self).custody,
            ) + collateral_par,
            r is Ok && borrower == old(self).custody ==> *final(token) == *old(token),
            forall|s2: u32, h2: u64|
                !(s2 == series_id && (h2 == borrower || h2 == old(self).custody)) ==> #[trigger]
                final(token).spec_balance_of(s2, h2) == old(token).spec_balance_of(s2, h2),
            forall|s2: u32| #[trigger] final(token).minted_of(s2) == old(token).minted_of(s2),
            forall|s2: u32| #[trigger] final(token).burned_of(s2) == old(token).burned_of(s2),
            final(self).custody == old(self).custody,
            final(self).treasury == old(self).treasury,
            final(self).haircut_bps == old(self).haircut_bps,
            final(self).spread_bps == old(self).spread_bps,
            r is Err ==> final(self).positions@ == old(self).positions@,
    {
        if collateral_par <= 0 || desired_cash_out <= 0 {
            return Err(Error::InvalidAmount);
        }
        let s = match vault.get_series(series_id) {
            Err(_e) => {
                proof {
                    assert(false);
                }
                return Err(Error::InvalidAmount);
            },
            Ok(s) => s,
        };
        if deadline > s.maturity_date {
            return Err(Error::InvalidDeadline);
        }
        let mark_price = match vault.current_price(series_id, now) {
            Err(_e) => {
                proof {
                    assert(false);
                }
                return Err(Error::InvalidAmount);
            },
            Ok(p) => p,
        };
        let max_cash = match calculate_max_cash(collateral_par, mark_price, self.haircut_bps) {
            None => return Err(Error::InvalidAmount),
            Some(m) => m,
        };
        if desired_cash_out > max_cash {
            return Err(Error::ExceedsMaxCash);
        }
        let repurchase_amount = match calculate_repurchase(desired_cash_out, self.spread_bps) {
            None => return Err(Error::InvalidAmount),
            Some(x) => x,
        };

        let transfer_result = token.transfer(series_id, borrower, self.custody, collateral_par);
        match transfer_result {
            Err(_e) => {
                proof {
                    assert(false);
                }
                Err(Error::InvalidAmount)
            },
            Ok(()) => {
                let new_id = self.positions.len() as u64 + 1;
                let position = RepoPosition {
                    id: new_id,
                    borrower,
                    series_id,
                    collateral_par,
                    cash_out: desired_cash_out,
                    repurchase_amount,
                    start_time: now,
                    deadline,
                    status: RepoStatus::Open,
                };
                let ghost old_ps = self.positions@;
                self.positions.push(position);
                proof {
                    assert forall|i: int|
                        0 <= i < self.positions@.len() implies (#[trigger] self.positions@[i]).id
                        == i + 1 by {
                        if i < old_ps.len() {
                            assert(self.positions@[i] == old_ps[i]);
                        }
                    }
                    assert forall|i: int|
                        0 <= i < self.positions@.len() implies {
                        let p = #[trigger] self.positions@[i];
                        &&& 0 < p.collateral_par
                        &&& 0 < p.cash_out
                        &&& Some(p.repurchase_amount) == spec_repurchase(
                            p.cash_out,
                            self.spread_bps,
                        )
                    } by {
                        if i < old_ps.len() {
                            assert(self.positions@[i] == old_ps[i]);
                        }
                    }
                }
                Ok(new_id)
            },
        }
    }

    /// Close an Open position before its deadline: the borrower repays the
    /// repurchase amount over the external rail (moved by the caller on
    /// `Ok`) and the collateral returns from custody to the borrower.
    /// Borrower-authorized by the external authorization service.
    pub fn close_repo(&mut self, token: &mut BTBillToken, position_id: u64, now: u64) -> (r:
        Result<(), Error>)
        requires
            old(self).wf(),
            old(token).wf(),
            spec_close_repo_err(*old(self), position_id, now) is None ==> ({
                let p = old(self).spec_position(position_id);
                old(token).spec_balance_of(p.series_id, old(self).custody) >= p.collateral_par
                    && old(token).spec_balance_of(p.series_id, p.borrower) + p.collateral_par
                    <= i128::MAX
            }),
        ensures
            final(self).wf(),
            final(token).wf(),
            r is Err <==> spec_close_repo_err(*old(self), position_id, now) is Some,
            r matches Err(e) ==> *final(self) == *old(self) && *final(token) == *old(token)
                && Some(e) == spec_close_repo_err(*old(self), position_id, now),
            r is Ok ==> final(self).positions@ == old(self).positions@.update(
                position_id - 1,
                (RepoPosition {
                    status: RepoStatus::Closed,
                    ..old(self).spec_position(position_id)
                }),
            ),
            r is Ok ==> ({
                let p = old(self).spec_position(position_id);
                p.borrower != old(self).custody ==> final(token).spec_balance_of(
                    p.series_id,
                    old(self).custody,
                ) == old(token).spec_balance_of(p.series_id, old(self).custody)
                    - p.collateral_par && final(token).spec_balance_of(p.series_id, p.borrower)
                    == old(token).spec_balance_of(p.series_id, p.borrower) + p.collateral_par
            }),
            forall|s2: u32| #[trigger] final(token).minted_of(s2) == old(token).minted_of(s2),
            forall|s2: u32| #[trigger] final(token).burned_of(s2) == old(token).burned_of(s2),
            final(self).custody == old(self).custody,
            final(self).treasury == old(self).treasury,
            final(self).haircut_bps == old(self).haircut_bps,
            final(self).spread_bps == old(self).spread_bps,
    {
        if position_id == 0 || position_id > self.positions.len() as u64 {
            return Err(Error::PositionNotFound);
        }
        let idx = (position_id - 1) as usize;
        let position = self.positions[idx];
        if !(position.status == RepoStatus::Open) {
            return Err(Error::InvalidStatus);
        }
        if now > position.deadline {
            return Err(Error::DeadlinePassed);
        }

        let transfer_result = token.transfer(
            position.series_id,
            self.custody,
            position.borrower,
            position.collateral_par,
        );
        match transfer_result {
            Err(_e) => {
                proof {
                    assert(false);
                }
                Err(Error::InvalidAmount)
            },
            Ok(()) => {
                let updated = RepoPosition { status: RepoStatus::Closed, ..position };
                let ghost old_ps = self.positions@;
                self.positions.set(idx, updated);
                proof {
                    assert forall|i: int|
                        0 <= i < self.positions@.len() implies (#[trigger] self.positions@[i]).id
                        == i + 1 by {
                        if i != idx {
                            assert(self.positions@[i] == old_ps[i]);
                        }
                    }
                    assert forall|i: int|
                        0 <= i < self.positions@.len() implies {
                        let p = #[trigger] self.positions@[i];
                        &&& 0 < p.collateral_par
                        &&& 0 < p.cash_out
                        &&& Some(p.repurchase_amount) == spec_repurchase(
                            p.cash_out,
                            self.spread_bps,
                        )
                    } by {
                        if i != idx {
                            assert(self.positions@[i] == old_ps[i]);
                        }
                    }
                }
                Ok(())
            },
        }
    }

    /// Claim an Open position once its deadline has passed: the collateral
    /// moves from custody to the treasury and the position is marked
    /// Defaulted. Treasury-authorized by the external authorization
    /// service.
    pub fn claim_default(&mut self, token: &mut BTBillToken, position_id: u64, now: u64) -> (r:
        Result<(), Error>)
        requires
            old(self).wf(),
            old(token).wf(),
            spec_claim_default_err(*old(self), position_id, now) is None ==> ({
                let p = old(self).spec_position(position_id);
                old(token).spec_balance_of(p.series_id, old(self).custody) >= p.collateral_par
                    && old(token).spec_balance_of(p.series_id, old(self).treasury)
                    + p.collateral_par <= i128::MAX
            }),
        ensures
            final(self).wf(),
            final(token).wf(),
            r is Err <==> spec_claim_default_err(*old(self), position_id, now) is Some,
            r matches Err(e) ==> *final(self) == *old(self) && *final(token) == *old(token)
                && Some(e) == spec_claim_default_err(*old(self), position_id, now),
            r is Ok ==> final(self).positions@ == old(self).positions@.update(
                position_id - 1,
                (RepoPosition {
                    status: RepoStatus::Defaulted,
                    ..old(self).spec_position(position_id)
                }),
            ),
            r is Ok ==> ({
                let p = old(self).spec_position(position_id);
                old(self).treasury != old(self).custody ==> final(token).spec_balance_of(
                    p.series_id,
                    old(self).custody,
                ) == old(token).spec_balance_of(p.series_id, old(self).custody)
                    - p.collateral_par && final(token).spec_balance_of(
                    p.series_id,
                    old(self).treasury,
                ) == old(token).spec_balance_of(p.series_id, old(self).treasury)
                    + p.collateral_par
            }),
            forall|s2: u32| #[trigger] final(token).minted_of(s2) == old(token).minted_of(s2),
            forall|s2: u32| #[trigger] final(token).burned_of(s2) == old(token).burned_of(s2),
            final(self).custody == old(self).custody,
            final(self).treasury == old(self).treasury,
            final(self).haircut_bps == old(self).haircut_bps,
            final(self).spread_bps == old(self).spread_bps,
    {
        if position_id == 0 || position_id > self.positions.len() as u64 {
            return Err(Error::PositionNotFound);
        }
        let idx = (position_id - 1) as usize;
        let position = self.positions[idx];
        if !(position.status == RepoStatus::Open) {
            return Err(Error::InvalidStatus);
        }
        if now <= position.deadline {
            return Err(Error::DeadlineNotPassed);
        }

        let transfer_result = token.transfer(
            position.series_id,
            self.custody,
            self.treasury,
            position.collateral_par,
        );
        match transfer_result {
            Err(_e) => {
                proof {
                    assert(false);
                }
                Err(Error::InvalidAmount)
            },
            Ok(()) => {
                let updated = RepoPosition { status: RepoStatus::Defaulted, ..position };
                let ghost old_ps = self.positions@;
                self.positions.set(idx, updated);
                proof {
                    assert forall|i: int|
                        0 <= i < self.positions@.len() implies (#[trigger] self.positions@[i]).id
                        == i + 1 by {
                        if i != idx {
                            assert(self.positions@[i] == old_ps[i]);
                        }
                    }
                    assert forall|i: int|
                        0 <= i < self.positions@.len() implies {
                        let p = #[trigger] self.positions@[i];
                        &&& 0 < p.collateral_par
                        &&& 0 < p.cash_out
                        &&& Some(p.repurchase_amount) == spec_repurchase(
                            p.cash_out,
                            self.spread_bps,
                        )
                    } by {
                        if i != idx {
                            assert(self.positions@[i] == old_ps[i]);
                        }
                    }
                }
                Ok(())
            },
        }
    }
}

/// Repo solvency, the stored half: every position of a well-formed market
/// holds positive collateral and cash, and its repurchase amount is
/// exactly its disbursed cash marked up by the configured spread.
pub proof fn lemma_repo_solvency(m: RepoMarket, i: int)
    requires
        m.wf(),
        0 <= i < m.positions@.len(),
    ensures
        0 < m.positions@[i].collateral_par,
        0 < m.positions@[i].cash_out,
        Some(m.positions@[i].repurchase_amount) == spec_repurchase(
            m.positions@[i].cash_out,
            m.spread_bps,
        ),
{
}

} // verus!
