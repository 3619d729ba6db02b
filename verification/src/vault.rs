//! The series engine: series records, their lifecycle state machine, and
//! protocol-wide accounting.
//!
//! Payments ride an external rail: `subscribe` records the cash a holder
//! has paid in and `redeem` the par value owed back, while the movement of
//! settlement currency itself happens outside, in the caller.

use vstd::prelude::*;

use vstd::arithmetic::div_mod::{
    lemma_div_is_ordered_by_denominator, lemma_div_multiples_vanish, lemma_div_nonincreasing,
    lemma_div_pos_is_pos,
};
use vstd::arithmetic::mul::lemma_mul_is_commutative;

use crate::bill_token::BTBillToken;
use crate::pricing::{
    calculate_current_price, calculate_minted_par, spec_minted_par, spec_price, PAR_UNIT,
};

verus! {

/// Failure kinds of the series engine.
#[derive(Clone, Copy, Debug, PartialEq, Eq, Structural)]
pub enum Error {
    AlreadyInitialized,
    NotInitialized,
    Unauthorized,
    SeriesNotFound,
    SeriesAlreadyExists,
    SeriesNotActive,
    SeriesNotMatured,
    InvalidStatus,
    ExceedsSeriesCap,
    ExceedsUserCap,
    InvalidAmount,
    InsufficientBalance,
    InvalidTimestamp,
    InvalidIssuePrice,
    InvalidCapAmounts,
    ContractPaused,
}

/// Lifecycle state of a series.
#[derive(Clone, Copy, Debug, PartialEq, Eq, Structural)]
pub enum SeriesStatus {
    /// Created but not yet open for subscriptions.
    Upcoming,
    /// Open for subscriptions.
    Active,
    /// Past its maturity date; redemptions are allowed.
    Matured,
    /// Terminal bookkeeping state.
    Closed,
}

/// One issuance batch of bills.
#[derive(Clone, Copy, Debug, PartialEq, Eq, Structural)]
pub struct Series {
    /// Unique series identifier.
    pub series_id: u32,
    /// Time at which accretion starts.
    pub issue_date: u64,
    /// Time at which the series matures.
    pub maturity_date: u64,
    /// Fixed-point scale of one whole unit; always `pricing::PAR_UNIT`.
    pub par_unit: i128,
    /// Discounted price at issue, in `(0, par_unit]`.
    pub issue_price: i128,
    /// Greatest number of par units that may ever be minted.
    pub cap_par: i128,
    /// Par units minted so far; never exceeds `cap_par`.
    pub minted_par: i128,
    /// Greatest cumulative subscription of a single holder.
    pub user_cap_par: i128,
    /// Lifecycle state.
    pub status: SeriesStatus,
    /// Settlement currency collected from subscriptions to this series.
    pub total_subscriptions_collected: i128,
}

/// Cumulative subscription of one holder in one series.
#[derive(Clone, Copy, Debug, PartialEq, Eq, Structural)]
pub struct UserPosition {
    /// Par units this holder has subscribed in the series.
    pub subscribed_par: i128,
}

/// Protocol-wide aggregate cash flows, updated transactionally by the
/// operations that cause them.
#[derive(Clone, Copy, Debug, PartialEq, Eq, Structural)]
pub struct ProtocolAccounting {
    /// Settlement currency collected from all subscriptions.
    pub total_subscriptions_collected: i128,
    /// Par units minted: the redemption liability at maturity.
    pub total_par_minted: i128,
    /// Settlement currency currently lent out through the repo market.
    pub total_lent: i128,
    /// Settlement currency received back from repo repayments.
    pub total_repo_revenue: i128,
    /// Number of repo defaults.
    pub total_defaults: u32,
}

/// Cumulative subscription of one holder in one series; one row per
/// (series, holder) key.
#[derive(Clone, Copy, Debug, PartialEq, Eq, Structural)]
pub struct SubscriptionRecord {
    /// Series subscribed to.
    pub series_id: u32,
    /// The subscribing holder.
    pub user: u64,
    /// Cumulative par units subscribed; positive while the row exists.
    pub subscribed_par: i128,
}

/// A series record that respects its declared bounds.
pub open spec fn valid_series(s: Series) -> bool {
    &&& s.issue_date < s.maturity_date
    &&& 0 < s.issue_price <= PAR_UNIT
    &&& s.par_unit == PAR_UNIT
    &&& 0 < s.cap_par
    &&& 0 < s.user_cap_par <= s.cap_par
    &&& 0 <= s.minted_par <= s.cap_par
    &&& 0 <= s.total_subscriptions_collected
}

/// No two series share an id.
pub open spec fn unique_series(tbl: Seq<Series>) -> bool {
    forall|i: int, j: int|
        #![trigger tbl[i], tbl[j]]
        0 <= i < j < tbl.len() ==> tbl[i].series_id != tbl[j].series_id
}

/// No two subscription rows share a (series, holder) key.
pub open spec fn unique_positions(ps: Seq<SubscriptionRecord>) -> bool {
    forall|i: int, j: int|
        #![trigger ps[i], ps[j]]
        0 <= i < j < ps.len() ==> !(ps[i].series_id == ps[j].series_id && ps[i].user == ps[j].user)
}

/// The series engine.
pub struct BingoVault {
    /// All series, one row per id.
    pub series_table: Vec<Series>,
    /// Per-(series, holder) cumulative subscriptions.
    pub user_positions: Vec<SubscriptionRecord>,
    /// Protocol-wide aggregate cash flows.
    pub accounting: ProtocolAccounting,
}

impl BingoVault {
    /// Whether a series with this id exists.
    pub open spec fn spec_has_series(self, series_id: u32) -> bool {
        exists|i: int|
            0 <= i < self.series_table@.len() && #[trigger] self.series_table@[i].series_id
                == series_id
    }

    /// Index of the series with this id.
    pub open spec fn series_index(self, series_id: u32) -> int {
        choose|i: int|
            0 <= i < self.series_table@.len() && #[trigger] self.series_table@[i].series_id
                == series_id
    }

    /// The series with this id.
    pub open spec fn spec_series(self, series_id: u32) -> Series {
        self.series_table@[self.series_index(series_id)]
    }

    /// Whether a subscription row exists for (series, holder).
    pub open spec fn spec_has_position(self, series_id: u32, user: u64) -> bool {
        exists|i: int|
            0 <= i < self.user_positions@.len() && #[trigger] self.user_positions@[i].series_id
                == series_id && self.user_positions@[i].user == user
    }

    /// Index of the subscription row for (series, holder).
    pub open spec fn position_index(self, series_id: u32, user: u64) -> int {
        choose|i: int|
            0 <= i < self.user_positions@.len() && #[trigger] self.user_positions@[i].series_id
                == series_id && self.user_positions@[i].user == user
    }

    /// Cumulative par units subscribed by one holder in one series
    /// (0 when no row exists).
    pub open spec fn spec_subscribed(self, series_id: u32, user: u64) -> int {
        if self.spec_has_position(series_id, user) {
            self.user_positions@[self.position_index(series_id, user)].subscribed_par as int
        } else {
            0
        }
    }

    /// Well-formedness: unique valid series, unique positive subscription
    /// rows each within its series' user cap, and non-negative aggregates.
    pub open spec fn wf(self) -> bool {
        &&& unique_series(self.series_table@)
        &&& forall|i: int|
            0 <= i < self.series_table@.len() ==> valid_series(#[trigger] self.series_table@[i])
        &&& unique_positions(self.user_positions@)
        &&& forall|i: int|
            0 <= i < self.user_positions@.len() ==> {
                let p = #[trigger] self.user_positions@[i];
                &&& 0 < p.subscribed_par
                &&& self.spec_has_series(p.series_id)
                &&& p.subscribed_par <= self.spec_series(p.series_id).user_cap_par
            }
        &&& 0 <= self.accounting.total_subscriptions_collected
        &&& 0 <= self.accounting.total_par_minted
        &&& 0 <= self.accounting.total_lent
        &&& 0 <= self.accounting.total_repo_revenue
    }

    /// A fresh engine: no series, no subscriptions, zero aggregates.
    pub fn new() -> (v: BingoVault)
        ensures
            v.wf(),
            v.series_table@.len() == 0,
            v.user_positions@.len() == 0,
            v.accounting == (ProtocolAccounting {
                total_subscriptions_collected: 0,
                total_par_minted: 0,
                total_lent: 0,
                total_repo_revenue: 0,
                total_defaults: 0,
            }),
    {
        BingoVault {
            series_table: Vec::new(),
            user_positions: Vec::new(),
            accounting: ProtocolAccounting {
                total_subscriptions_collected: 0,
                total_par_minted: 0,
                total_lent: 0,
                total_repo_revenue: 0,
                total_defaults: 0,
            },
        }
    }

    /// Index of the series row with this id, if one exists.
    fn find_series(&self, series_id: u32) -> (r: Option<usize>)
        requires
            unique_series(self.series_table@),
        ensures
            r is Some <==> self.spec_has_series(series_id),
            r matches Some(i) ==> i < self.series_table@.len() && i as int == self.series_index(
                series_id,
            ) && self.series_table@[i as int].series_id == series_id,
            r is None ==> forall|j: int|
                #![trigger self.series_table@[j]]
                0 <= j < self.series_table@.len() ==> self.series_table@[j].series_id != series_id,
    {
        let mut k: usize = 0;
        while k < self.series_table.len()
            invariant
                unique_series(self.series_table@),
                k <= self.series_table@.len(),
                forall|j: int|
                    #![trigger self.series_table@[j]]
                    0 <= j < k ==> self.series_table@[j].series_id != series_id,
            decreases self.series_table@.len() - k,
        {
            if self.series_table[k].series_id == series_id {
                proof {
                    lemma_series_lookup(*self, series_id, k as int);
                }
                return Some(k);
            }
            k = k + 1;
        }
        None
    }

    /// Index of the subscription row for (series, holder), if one exists.
    fn find_position(&self, series_id: u32, user: u64) -> (r: Option<usize>)
        requires
            unique_positions(self.user_positions@),
        ensures
            r is Some <==> self.spec_has_position(series_id, user),
            r matches Some(i) ==> i < self.user_positions@.len() && i as int
                == self.position_index(series_id, user) && self.user_positions@[i as int].series_id
                == series_id && self.user_positions@[i as int].user == user,
            r is None ==> forall|j: int|
                #![trigger self.user_positions@[j]]
                0 <= j < self.user_positions@.len() ==> !(self.user_positions@[j].series_id
                    == series_id && self.user_positions@[j].user == user),
    {
        let mut k: usize = 0;
        while k < self.user_positions.len()
            invariant
                unique_positions(self.user_positions@),
                k <= self.user_positions@.len(),
                forall|j: int|
                    #![trigger self.user_positions@[j]]
                    0 <= j < k ==> !(self.user_positions@[j].series_id == series_id
                        && self.user_positions@[j].user == user),
            decreases self.user_positions@.len() - k,
        {
            let p = &self.user_positions[k];
            if p.series_id == series_id && p.user == user {
                proof {
                    lemma_position_lookup(*self, series_id, user, k as int);
                }
                return Some(k);
            }
            k = k + 1;
        }
        None
    }

    /// The error `create_series` returns, by the order its checks run.
    pub open spec fn spec_create_series_err(
        self,
        series_id: u32,
        issue_date: u64,
        maturity_date: u64,
        issue_price: i128,
        cap_par: i128,
        user_cap_par: i128,
    ) -> Error {
        if self.spec_has_series(series_id) {
            Error::SeriesAlreadyExists
        } else if maturity_date <= issue_date {
            Error::InvalidTimestamp
        } else if issue_price <= 0 || issue_price > PAR_UNIT {
            Error::InvalidIssuePrice
        } else {
            Error::InvalidCapAmounts
        }
    }

    /// Create a series in Upcoming status; issuer-authorized by the
    /// external authorization service.
    pub fn create_series(
        &mut self,
        series_id: u32,
        issue_date: u64,
        maturity_date: u64,
        issue_price: i128,
        cap_par: i128,
        user_cap_par: i128,
    ) -> (r: Result<(), Error>)
        requires
            old(self).wf(),
        ensures
            final(self).wf(),
            r is Ok <==> !old(self).spec_has_series(series_id) && issue_date < maturity_date && 0
                < issue_price <= PAR_UNIT && 0 < cap_par && 0 < user_cap_par && user_cap_par
                <= cap_par,
            r matches Err(e) ==> *final(self) == *old(self) && e == old(self).spec_create_series_err(
                series_id,
                issue_date,
                maturity_date,
                issue_price,
                cap_par,
                user_cap_par,
            ),
            r is Ok ==> final(self).series_table@ == old(self).series_table@.push(
                (Series {
                    series_id,
                    issue_date,
                    maturity_date,
                    par_unit: PAR_UNIT,
                    issue_price,
                    cap_par,
                    minted_par: 0,
                    user_cap_par,
                    status: SeriesStatus::Upcoming,
                    total_subscriptions_collected: 0,
                }),
            ),
            r is Ok ==> final(self).spec_has_series(series_id) && final(self).spec_series(series_id)
                == (Series {
                series_id,
                issue_date,
                maturity_date,
                par_unit: PAR_UNIT,
                issue_price,
                cap_par,
                minted_par: 0,
                user_cap_par,
                status: SeriesStatus::Upcoming,
                total_subscriptions_collected: 0,
            }),
            forall|s2: u32|
                s2 != series_id ==> (#[trigger] final(self).spec_has_series(s2) <==> old(self).spec_has_series(s2)),
            forall|s2: u32|
                s2 != series_id && old(self).spec_has_series(s2) ==> #[trigger] final(self).spec_series(s2) == old(self).spec_series(s2),
            final(self).user_positions@ == old(self).user_positions@,
            final(self).accounting == old(self).accounting,
    {
        if self.find_series(series_id).is_some() {
            return Err(Error::SeriesAlreadyExists);
        }
        if maturity_date <= issue_date {
            return Err(Error::InvalidTimestamp);
        }
        if issue_price <= 0 || issue_price > PAR_UNIT {
            return Err(Error::InvalidIssuePrice);
        }
        if cap_par <= 0 || user_cap_par <= 0 || user_cap_par > cap_par {
            return Err(Error::InvalidCapAmounts);
        }

        let series = Series {
            series_id,
            issue_date,
            maturity_date,
            par_unit: PAR_UNIT,
            issue_price,
            cap_par,
            minted_par: 0,
            user_cap_par,
            status: SeriesStatus::Upcoming,
            total_subscriptions_collected: 0,
        };
        let ghost old_v = *self;
        self.series_table.push(series);
        proof {
            lemma_table_push(old_v, *self, series);
            lemma_series_lookup(*self, series_id, self.series_table@.len() - 1);
            assert forall|i: int|
                0 <= i < self.user_positions@.len() implies {
                let p = #[trigger] self.user_positions@[i];
                &&& 0 < p.subscribed_par
                &&& self.spec_has_series(p.series_id)
                &&& p.subscribed_par <= self.spec_series(p.series_id).user_cap_par
            } by {
                assert(old_v.spec_has_series(self.user_positions@[i].series_id));
            }
        }
        Ok(())
    }

    /// Open an Upcoming series for subscriptions; issuer-authorized by the
    /// external authorization service.
    pub fn activate_series(&mut self, series_id: u32) -> (r: Result<(), Error>)
        requires
            old(self).wf(),
        ensures
            final(self).wf(),
            r is Ok <==> old(self).spec_has_series(series_id) && old(self).spec_series(
                series_id,
            ).status == SeriesStatus::Upcoming,
            r matches Err(e) ==> *final(self) == *old(self) && e == (if !old(self).spec_has_series(series_id) {
                Error::SeriesNotFound
            } else {
                Error::InvalidStatus
            }),
            r is Ok ==> final(self).spec_series(series_id) == (Series {
                status: SeriesStatus::Active,
                ..old(self).spec_series(series_id)
            }),
            forall|s2: u32|
                #[trigger] final(self).spec_has_series(s2) <==> old(self).spec_has_series(s2),
            forall|s2: u32|
                s2 != series_id && old(self).spec_has_series(s2) ==> #[trigger] final(self).spec_series(s2) == old(self).spec_series(s2),
            final(self).user_positions@ == old(self).user_positions@,
            final(self).accounting == old(self).accounting,
    {
        let idx = match self.find_series(series_id) {
            None => return Err(Error::SeriesNotFound),
            Some(i) => i,
        };
        let s = self.series_table[idx];
        if !(s.status == SeriesStatus::Upcoming) {
            return Err(Error::InvalidStatus);
        }
        let updated = Series { status: SeriesStatus::Active, ..s };
        let ghost old_v = *self;
        self.series_table.set(idx, updated);
        proof {
            lemma_table_update(old_v, *self, idx as int, updated);
        }
        Ok(())
    }

    /// Mark an Active series Matured once its maturity time has passed;
    /// callable by anyone. Calling it again on a Matured series is a
    /// no-op error (`InvalidStatus`): effects are never applied twice.
    pub fn mature_series(&mut self, series_id: u32, now: u64) -> (r: Result<(), Error>)
        requires
            old(self).wf(),
        ensures
            final(self).wf(),
            r is Ok <==> old(self).spec_has_series(series_id) && now >= old(self).spec_series(
                series_id,
            ).maturity_date && old(self).spec_series(series_id).status == SeriesStatus::Active,
            r matches Err(e) ==> *final(self) == *old(self) && e == (if !old(self).spec_has_series(series_id) {
                Error::SeriesNotFound
            } else if now < old(self).spec_series(series_id).maturity_date {
                Error::SeriesNotMatured
            } else {
                Error::InvalidStatus
            }),
            old(self).spec_has_series(series_id) && now >= old(self).spec_series(
                series_id,
            ).maturity_date && old(self).spec_series(series_id).status == SeriesStatus::Matured
                ==> r == Err::<(), Error>(Error::InvalidStatus) && *final(self) == *old(self),
            r is Ok ==> final(self).spec_series(series_id) == (Series {
                status: SeriesStatus::Matured,
                ..old(self).spec_series(series_id)
            }),
            forall|s2: u32|
                #[trigger] final(self).spec_has_series(s2) <==> old(self).spec_has_series(s2),
            forall|s2: u32|
                s2 != series_id && old(self).spec_has_series(s2) ==> #[trigger] final(self).spec_series(s2) == old(self).spec_series(s2),
            final(self).user_positions@ == old(self).user_positions@,
            final(self).accounting == old(self).accounting,
    {
        let idx = match self.find_series(series_id) {
            None => return Err(Error::SeriesNotFound),
            Some(i) => i,
        };
        let s = self.series_table[idx];
        if now < s.maturity_date {
            return Err(Error::SeriesNotMatured);
        }
        if !(s.status == SeriesStatus::Active) {
            return Err(Error::InvalidStatus);
        }
        let updated = Series { status: SeriesStatus::Matured, ..s };
        let ghost old_v = *self;
        self.series_table.set(idx, updated);
        proof {
            lemma_table_update(old_v, *self, idx as int, updated);
        }
        Ok(())
    }

    /// Current price of one par unit of the series at `now`.
    pub fn current_price(&self, series_id: u32, now: u64) -> (r: Result<i128, Error>)
        requires
            self.wf(),
        ensures
            r is Ok <==> self.spec_has_series(series_id),
            r matches Err(e) ==> e == Error::SeriesNotFound,
            r matches Ok(p) ==> p == spec_price(self.spec_series(series_id), now)
                && self.spec_series(series_id).issue_price <= p <= PAR_UNIT,
    {
        let idx = match self.find_series(series_id) {
            None => return Err(Error::SeriesNotFound),
            Some(i) => i,
        };
        let s = self.series_table[idx];
        Ok(calculate_current_price(&s, now))
    }

    /// The series record with this id.
    pub fn get_series(&self, series_id: u32) -> (r: Result<Series, Error>)
        requires
            self.wf(),
        ensures
            r is Ok <==> self.spec_has_series(series_id),
            r matches Err(e) ==> e == Error::SeriesNotFound,
            r matches Ok(s) ==> s == self.spec_series(series_id),
    {
        match self.find_series(series_id) {
            None => Err(Error::SeriesNotFound),
            Some(i) => Ok(self.series_table[i]),
        }
    }

    /// A holder's cumulative subscription in a series (zero when none).
    pub fn get_user_position(&self, series_id: u32, user: u64) -> (r: UserPosition)
        requires
            self.wf(),
        ensures
            r.subscribed_par == self.spec_subscribed(series_id, user),
    {
        match self.find_position(series_id, user) {
            None => UserPosition { subscribed_par: 0 },
            Some(i) => UserPosition { subscribed_par: self.user_positions[i].subscribed_par },
        }
    }

    /// The protocol-wide aggregate record.
    pub fn get_protocol_accounting(&self) -> (r: ProtocolAccounting)
        ensures
            r == self.accounting,
    {
        self.accounting
    }

    /// Unrealized protocol profit: collected cash plus repo revenue minus
    /// the minted par liability; negative early in a series' life.
    pub fn calculate_protocol_profit(&self) -> (r: i128)
        requires
            self.wf(),
        ensures
            r == spec_protocol_profit(self.accounting),
    {
        let revenue = match self.accounting.total_subscriptions_collected.checked_add(
            self.accounting.total_repo_revenue,
        ) {
            Some(v) => v,
            None => 0,
        };
        let liability = self.accounting.total_par_minted;
        revenue - liability
    }

    /// Settlement currency available for repo lending: collected cash plus
    /// repo revenue minus what is currently lent, floor-clamped at zero.
    pub fn calculate_available_for_lending(&self) -> (r: i128)
        requires
            self.wf(),
        ensures
            r == spec_available_for_lending(self.accounting),
    {
        let total = match self.accounting.total_subscriptions_collected.checked_add(
            self.accounting.total_repo_revenue,
        ) {
            Some(v) => v,
            None => 0,
        };
        let lent = self.accounting.total_lent;
        if total >= lent {
            total - lent
        } else {
            0
        }
    }
}

/// Par units a payment of `pay_amount` buys in series `s` at time `now`.
pub open spec fn spec_minted_of(s: Series, pay_amount: i128, now: u64) -> int {
    pay_amount * PAR_UNIT / spec_price(s, now)
}

/// The first failing check of `subscribe`, in the order the checks run,
/// or `None` when every check passes.
pub open spec fn spec_subscribe_err(
    v: BingoVault,
    t: BTBillToken,
    user: u64,
    series_id: u32,
    pay_amount: i128,
    now: u64,
) -> Option<Error> {
    if pay_amount <= 0 {
        Some(Error::InvalidAmount)
    } else if !v.spec_has_series(series_id) {
        Some(Error::SeriesNotFound)
    } else if !(v.spec_series(series_id).status == SeriesStatus::Active) {
        Some(Error::SeriesNotActive)
    } else {
        let s = v.spec_series(series_id);
        match spec_minted_par(pay_amount, spec_price(s, now) as i128) {
            None => Some(Error::InvalidAmount),
            Some(minted) => {
                if s.minted_par + minted > i128::MAX {
                    Some(Error::InvalidAmount)
                } else if s.minted_par + minted > s.cap_par {
                    Some(Error::ExceedsSeriesCap)
                } else if v.spec_subscribed(series_id, user) + minted > i128::MAX {
                    Some(Error::InvalidAmount)
                } else if v.spec_subscribed(series_id, user) + minted > s.user_cap_par {
                    Some(Error::ExceedsUserCap)
                } else if t.spec_balance_of(series_id, user) + minted > i128::MAX {
                    Some(Error::InvalidAmount)
                } else if s.total_subscriptions_collected + pay_amount > i128::MAX {
                    Some(Error::InvalidAmount)
                } else if v.accounting.total_subscriptions_collected + pay_amount > i128::MAX {
                    Some(Error::InvalidAmount)
                } else if v.accounting.total_par_minted + minted > i128::MAX {
                    Some(Error::InvalidAmount)
                } else {
                    None
                }
            },
        }
    }
}

/// The first failing check of `redeem`, in the order the checks run, or
/// `None` when every check passes.
pub open spec fn spec_redeem_err(
    v: BingoVault,
    t: BTBillToken,
    user: u64,
    series_id: u32,
    bt_bill_amount: i128,
    now: u64,
) -> Option<Error> {
    if bt_bill_amount <= 0 {
        Some(Error::InvalidAmount)
    } else if !v.spec_has_series(series_id) {
        Some(Error::SeriesNotFound)
    } else if now < v.spec_series(series_id).maturity_date {
        Some(Error::SeriesNotMatured)
    } else if t.spec_balance_of(series_id, user) < bt_bill_amount {
        Some(Error::InsufficientBalance)
    } else {
        None
    }
}

impl BingoVault {
    /// Subscribe a holder to an Active series: price the payment at `now`,
    /// mint the bought par units on the ledger, and record cash, cap use
    /// and accounting — one atomic unit, with no partial state on failure.
    /// The payment itself (holder to treasury, `pay_amount`) rides the
    /// external rail; the caller moves it only on `Ok`.
    pub fn subscribe(
        &mut self,
        token: &mut BTBillToken,
        user: u64,
        series_id: u32,
        pay_amount: i128,
        now: u64,
    ) -> (r: Result<(), Error>)
        requires
            old(self).wf(),
            old(token).wf(),
        ensures
            final(self).wf(),
            final(token).wf(),
            r is Err <==> spec_subscribe_err(
                *old(self),
                *old(token),
                user,
                series_id,
                pay_amount,
                now,
            ) is Some,
            r matches Err(e) ==> *final(self) == *old(self) && *final(token) == *old(token)
                && Some(e) == spec_subscribe_err(
                *old(self),
                *old(token),
                user,
                series_id,
                pay_amount,
                now,
            ),
            r is Ok ==> ({
                let s = old(self).spec_series(series_id);
                let minted = spec_minted_of(s, pay_amount, now);
                &&& 0 < minted
                &&& final(self).spec_series(series_id) == (Series {
                    minted_par: (s.minted_par + minted) as i128,
                    total_subscriptions_collected: (s.total_subscriptions_collected
                        + pay_amount) as i128,
                    ..s
                })
                &&& final(self).spec_series(series_id).minted_par <= s.cap_par
                &&& final(self).spec_subscribed(series_id, user) == old(self).spec_subscribed(
                    series_id,
                    user,
                ) + minted
                &&& final(self).spec_subscribed(series_id, user) <= s.user_cap_par
                &&& final(token).spec_balance_of(series_id, user) == old(token).spec_balance_of(
                    series_id,
                    user,
                ) + minted
                &&& final(token).minted_of(series_id) == old(token).minted_of(series_id) + minted
                &&& final(self).accounting == (ProtocolAccounting {
                    total_subscriptions_collected: (old(self).accounting.total_subscriptions_collected + pay_amount) as i128,
                    total_par_minted: (old(self).accounting.total_par_minted + minted) as i128,
                    ..old(self).accounting
                })
            }),
            forall|s2: u32|
                #[trigger] final(self).spec_has_series(s2) <==> old(self).spec_has_series(s2),
            forall|s2: u32|
                s2 != series_id && old(self).spec_has_series(s2) ==> #[trigger] final(self).spec_series(s2) == old(self).spec_series(s2),
            forall|s2: u32, u2: u64|
                !(s2 == series_id && u2 == user) ==> #[trigger] final(self).spec_subscribed(s2, u2)
                    == old(self).spec_subscribed(s2, u2),
            forall|s2: u32, h2: u64|
                !(s2 == series_id && h2 == user) ==> #[trigger] final(token).spec_balance_of(
                    s2,
                    h2,
                ) == old(token).spec_balance_of(s2, h2),
            forall|s2: u32|
                s2 != series_id ==> #[trigger] final(token).minted_of(s2) == old(token).minted_of(
                    s2,
                ),
            forall|s2: u32| #[trigger] final(token).burned_of(s2) == old(token).burned_of(s2),
            final(token).operators@ == old(token).operators@,
            final(token).admin == old(token).admin,
    {
        if pay_amount <= 0 {
            return Err(Error::InvalidAmount);
        }
        let idx = match self.find_series(series_id) {
            None => return Err(Error::SeriesNotFound),
            Some(i) => i,
        };
        let s = self.series_table[idx];
        if !(s.status == SeriesStatus::Active) {
            return Err(Error::SeriesNotActive);
        }

        let current_price = calculate_current_price(&s, now);
        let minted = match calculate_minted_par(pay_amount, current_price) {
            None => return Err(Error::InvalidAmount),
            Some(m) => m,
        };
        proof {
            let pp = pay_amount * PAR_UNIT;
            lemma_div_pos_is_pos(pp, current_price as int);
            lemma_div_nonincreasing(pp, current_price as int);
            lemma_div_is_ordered_by_denominator(pp, current_price as int, PAR_UNIT as int);
            lemma_mul_is_commutative(pay_amount as int, PAR_UNIT as int);
            lemma_div_multiples_vanish(pay_amount as int, PAR_UNIT as int);
            assert(minted == spec_minted_of(s, pay_amount, now));
            assert(minted >= pay_amount);
        }

        let new_series_minted = match s.minted_par.checked_add(minted) {
            None => return Err(Error::InvalidAmount),
            Some(x) => x,
        };
        if new_series_minted > s.cap_par {
            return Err(Error::ExceedsSeriesCap);
        }

        let pos_idx = self.find_position(series_id, user);
        let current_sub = match pos_idx {
            None => 0,
            Some(p) => self.user_positions[p].subscribed_par,
        };
        let new_user_sub = match current_sub.checked_add(minted) {
            None => return Err(Error::InvalidAmount),
            Some(x) => x,
        };
        if new_user_sub > s.user_cap_par {
            return Err(Error::ExceedsUserCap);
        }

        let bal = token.balance_of(series_id, user);
        if bal > i128::MAX - minted {
            return Err(Error::InvalidAmount);
        }

        let new_total_collected = match s.total_subscriptions_collected.checked_add(pay_amount) {
            None => return Err(Error::InvalidAmount),
            Some(x) => x,
        };
        let new_acc_collected = match self.accounting.total_subscriptions_collected.checked_add(
            pay_amount,
        ) {
            None => return Err(Error::InvalidAmount),
            Some(x) => x,
        };
        let new_acc_minted = match self.accounting.total_par_minted.checked_add(minted) {
            None => return Err(Error::InvalidAmount),
            Some(x) => x,
        };

        // Every check has passed: the remaining steps cannot fail, so the
        // whole unit commits together.
        let updated = Series {
            minted_par: new_series_minted,
            total_subscriptions_collected: new_total_collected,
            ..s
        };
        self.series_table.set(idx, updated);

        let record = SubscriptionRecord { series_id, user, subscribed_par: new_user_sub };
        match pos_idx {
            Some(p) => self.user_positions.set(p, record),
            None => self.user_positions.push(record),
        }

        self.accounting = ProtocolAccounting {
            total_subscriptions_collected: new_acc_collected,
            total_par_minted: new_acc_minted,
            ..self.accounting
        };

        let mint_result = token.mint(series_id, user, minted);
        match mint_result {
            Err(_e) => {
                proof {
                    assert(minted > 0);
                    assert(old(token).spec_balance_of(series_id, user) + minted <= i128::MAX);
                    assert(false);
                }
                Err(Error::InvalidAmount)
            },
            Ok(()) => {
                proof {
                    let v0 = *old(self);
                    lemma_table_update(v0, *self, idx as int, updated);
                    match pos_idx {
                        Some(p) => {
                            lemma_positions_update(v0, *self, p as int, record);
                        },
                        None => {
                            lemma_positions_push(v0, *self, record);
                        },
                    }
                    assert forall|i: int|
                        0 <= i < self.user_positions@.len() implies {
                        let p = #[trigger] self.user_positions@[i];
                        &&& 0 < p.subscribed_par
                        &&& self.spec_has_series(p.series_id)
                        &&& p.subscribed_par <= self.spec_series(p.series_id).user_cap_par
                    } by {
                        let p = self.user_positions@[i];
                        if p.series_id == series_id && p.user == user {
                            lemma_position_lookup(*self, series_id, user, i);
                            assert(p.subscribed_par == new_user_sub);
                        } else {
                            assert(v0.user_positions@[i] == p);
                            assert(v0.spec_has_series(p.series_id));
                            assert(p.subscribed_par <= v0.spec_series(p.series_id).user_cap_par);
                            if p.series_id == series_id {
                                assert(self.spec_series(p.series_id) == updated);
                            } else {
                                assert(self.spec_series(p.series_id) == v0.spec_series(
                                    p.series_id,
                                ));
                            }
                        }
                    }
                }
                Ok(())
            },
        }
    }

    /// Redeem matured bills 1:1 at par: burn `bt_bill_amount` from the
    /// holder on the ledger. Redemption is time-gated, not status-gated.
    /// The payout itself (`bt_bill_amount`, treasury to holder) rides the
    /// external rail; the caller moves it only on `Ok`.
    pub fn redeem(
        &self,
        token: &mut BTBillToken,
        user: u64,
        series_id: u32,
        bt_bill_amount: i128,
        now: u64,
    ) -> (r: Result<(), Error>)
        requires
            self.wf(),
            old(token).wf(),
        ensures
            final(token).wf(),
            r is Err <==> spec_redeem_err(
                *self,
                *old(token),
                user,
                series_id,
                bt_bill_amount,
                now,
            ) is Some,
            r matches Err(e) ==> *final(token) == *old(token) && Some(e) == spec_redeem_err(
                *self,
                *old(token),
                user,
                series_id,
                bt_bill_amount,
                now,
            ),
            r is Ok ==> final(token).spec_balance_of(series_id, user) == old(
                token,
            ).spec_balance_of(series_id, user) - bt_bill_amount,
            r is Ok ==> final(token).burned_of(series_id) == old(token).burned_of(series_id)
                + bt_bill_amount,
            forall|s2: u32, h2: u64|
                !(s2 == series_id && h2 == user) ==> #[trigger] final(token).spec_balance_of(
                    s2,
                    h2,
                ) == old(token).spec_balance_of(s2, h2),
            forall|s2: u32| #[trigger] final(token).minted_of(s2) == old(token).minted_of(s2),
            forall|s2: u32|
                s2 != series_id ==> #[trigger] final(token).burned_of(s2) == old(token).burned_of(
                    s2,
                ),
            final(token).operators@ == old(token).operators@,
            final(token).admin == old(token).admin,
    {
        if bt_bill_amount <= 0 {
            return Err(Error::InvalidAmount);
        }
        let idx = match self.find_series(series_id) {
            None => return Err(Error::SeriesNotFound),
            Some(i) => i,
        };
        let s = self.series_table[idx];
        if now < s.maturity_date {
            return Err(Error::SeriesNotMatured);
        }
        match token.burn(series_id, user, bt_bill_amount) {
            Ok(()) => Ok(()),
            Err(_e) => Err(Error::InsufficientBalance),
        }
    }
}

/// Updating one subscription row in place (same key) changes no other
/// lookup.
proof fn lemma_positions_update(old_v: BingoVault, new_v: BingoVault, i: int, p: SubscriptionRecord)
    requires
        unique_positions(old_v.user_positions@),
        0 <= i < old_v.user_positions@.len(),
        p.series_id == old_v.user_positions@[i].series_id,
        p.user == old_v.user_positions@[i].user,
        new_v.user_positions@ == old_v.user_positions@.update(i, p),
    ensures
        unique_positions(new_v.user_positions@),
        new_v.spec_has_position(p.series_id, p.user),
        new_v.spec_subscribed(p.series_id, p.user) == p.subscribed_par,
        forall|s2: u32, u2: u64|
            !(s2 == p.series_id && u2 == p.user) ==> (#[trigger] new_v.spec_has_position(s2, u2)
                <==> old_v.spec_has_position(s2, u2)),
        forall|s2: u32, u2: u64|
            !(s2 == p.series_id && u2 == p.user) ==> #[trigger] new_v.spec_subscribed(s2, u2)
                == old_v.spec_subscribed(s2, u2),
{
    assert forall|a: int|
        0 <= a < new_v.user_positions@.len() implies #[trigger] new_v.user_positions@[a].series_id
        == old_v.user_positions@[a].series_id && new_v.user_positions@[a].user
        == old_v.user_positions@[a].user by {}
    assert forall|a: int, b: int|
        0 <= a < b < new_v.user_positions@.len() implies !(new_v.user_positions@[a].series_id
        == new_v.user_positions@[b].series_id && new_v.user_positions@[a].user
        == new_v.user_positions@[b].user) by {
        assert(!(old_v.user_positions@[a].series_id == old_v.user_positions@[b].series_id
            && old_v.user_positions@[a].user == old_v.user_positions@[b].user));
    }
    lemma_position_lookup(new_v, p.series_id, p.user, i);
    assert forall|s2: u32, u2: u64|
        !(s2 == p.series_id && u2 == p.user) implies (#[trigger] new_v.spec_has_position(s2, u2)
        <==> old_v.spec_has_position(s2, u2)) by {
        if new_v.spec_has_position(s2, u2) {
            let w = choose|w: int|
                0 <= w < new_v.user_positions@.len()
                    && #[trigger] new_v.user_positions@[w].series_id == s2
                    && new_v.user_positions@[w].user == u2;
            assert(old_v.user_positions@[w].series_id == s2 && old_v.user_positions@[w].user
                == u2);
        }
        if old_v.spec_has_position(s2, u2) {
            let w = choose|w: int|
                0 <= w < old_v.user_positions@.len()
                    && #[trigger] old_v.user_positions@[w].series_id == s2
                    && old_v.user_positions@[w].user == u2;
            assert(new_v.user_positions@[w].series_id == s2 && new_v.user_positions@[w].user
                == u2);
        }
    }
    assert forall|s2: u32, u2: u64|
        !(s2 == p.series_id && u2 == p.user) implies #[trigger] new_v.spec_subscribed(s2, u2)
        == old_v.spec_subscribed(s2, u2) by {
        if old_v.spec_has_position(s2, u2) {
            let w = choose|w: int|
                0 <= w < old_v.user_positions@.len()
                    && #[trigger] old_v.user_positions@[w].series_id == s2
                    && old_v.user_positions@[w].user == u2;
            lemma_position_lookup(old_v, s2, u2, w);
            assert(w != i);
            lemma_position_lookup(new_v, s2, u2, w);
        }
    }
}

/// Appending a subscription row with a fresh key changes no other lookup.
proof fn lemma_positions_push(old_v: BingoVault, new_v: BingoVault, p: SubscriptionRecord)
    requires
        unique_positions(old_v.user_positions@),
        !old_v.spec_has_position(p.series_id, p.user),
        new_v.user_positions@ == old_v.user_positions@.push(p),
    ensures
        unique_positions(new_v.user_positions@),
        new_v.spec_has_position(p.series_id, p.user),
        new_v.spec_subscribed(p.series_id, p.user) == p.subscribed_par,
        forall|s2: u32, u2: u64|
            !(s2 == p.series_id && u2 == p.user) ==> (#[trigger] new_v.spec_has_position(s2, u2)
                <==> old_v.spec_has_position(s2, u2)),
        forall|s2: u32, u2: u64|
            !(s2 == p.series_id && u2 == p.user) ==> #[trigger] new_v.spec_subscribed(s2, u2)
                == old_v.spec_subscribed(s2, u2),
{
    let n = old_v.user_positions@.len() as int;
    assert forall|a: int, b: int|
        0 <= a < b < new_v.user_positions@.len() implies !(new_v.user_positions@[a].series_id
        == new_v.user_positions@[b].series_id && new_v.user_positions@[a].user
        == new_v.user_positions@[b].user) by {
        if b < n {
            assert(new_v.user_positions@[a] == old_v.user_positions@[a]);
            assert(new_v.user_positions@[b] == old_v.user_positions@[b]);
        } else {
            assert(new_v.user_positions@[b] == p);
            assert(new_v.user_positions@[a] == old_v.user_positions@[a]);
        }
    }
    lemma_position_lookup(new_v, p.series_id, p.user, n);
    assert forall|s2: u32, u2: u64|
        !(s2 == p.series_id && u2 == p.user) implies (#[trigger] new_v.spec_has_position(s2, u2)
        <==> old_v.spec_has_position(s2, u2)) by {
        if new_v.spec_has_position(s2, u2) {
            let w = choose|w: int|
                0 <= w < new_v.user_positions@.len()
                    && #[trigger] new_v.user_positions@[w].series_id == s2
                    && new_v.user_positions@[w].user == u2;
            assert(w < n);
            assert(old_v.user_positions@[w].series_id == s2 && old_v.user_positions@[w].user
                == u2);
        }
        if old_v.spec_has_position(s2, u2) {
            let w = choose|w: int|
                0 <= w < old_v.user_positions@.len()
                    && #[trigger] old_v.user_positions@[w].series_id == s2
                    && old_v.user_positions@[w].user == u2;
            assert(new_v.user_positions@[w].series_id == s2 && new_v.user_positions@[w].user
                == u2);
        }
    }
    assert forall|s2: u32, u2: u64|
        !(s2 == p.series_id && u2 == p.user) implies #[trigger] new_v.spec_subscribed(s2, u2)
        == old_v.spec_subscribed(s2, u2) by {
        if old_v.spec_has_position(s2, u2) {
            let w = choose|w: int|
                0 <= w < old_v.user_positions@.len()
                    && #[trigger] old_v.user_positions@[w].series_id == s2
                    && old_v.user_positions@[w].user == u2;
            lemma_position_lookup(old_v, s2, u2, w);
            lemma_position_lookup(new_v, s2, u2, w);
        }
    }
}

/// Unrealized protocol profit over an aggregate record: revenue (zero when
/// its sum overflows) minus the minted par liability.
pub open spec fn spec_protocol_profit(a: ProtocolAccounting) -> int {
    let revenue: int = if a.total_subscriptions_collected + a.total_repo_revenue > i128::MAX {
        0
    } else {
        a.total_subscriptions_collected + a.total_repo_revenue
    };
    revenue - a.total_par_minted
}

/// Settlement currency available for lending over an aggregate record,
/// floor-clamped at zero.
pub open spec fn spec_available_for_lending(a: ProtocolAccounting) -> int {
    let total: int = if a.total_subscriptions_collected + a.total_repo_revenue > i128::MAX {
        0
    } else {
        a.total_subscriptions_collected + a.total_repo_revenue
    };
    if total >= a.total_lent {
        total - a.total_lent
    } else {
        0
    }
}

/// Cap invariant: in a well-formed engine no series has minted beyond its
/// cap, and no holder's cumulative subscription exceeds its series' user
/// cap. Every operation preserves well-formedness, so this holds after
/// any sequence of calls.
pub proof fn lemma_cap_invariant(v: BingoVault, series_id: u32, user: u64)
    requires
        v.wf(),
        v.spec_has_series(series_id),
    ensures
        0 <= v.spec_series(series_id).minted_par <= v.spec_series(series_id).cap_par,
        0 <= v.spec_subscribed(series_id, user) <= v.spec_series(series_id).user_cap_par,
{
    if v.spec_has_position(series_id, user) {
        let i = v.position_index(series_id, user);
        assert(0 <= i < v.user_positions@.len() && v.user_positions@[i].series_id == series_id
            && v.user_positions@[i].user == user);
        lemma_series_lookup(v, series_id, v.series_index(series_id));
        assert(v.user_positions@[i].subscribed_par <= v.spec_series(
            v.user_positions@[i].series_id,
        ).user_cap_par);
    }
}

/// A matching row pins down lookup: the chosen index is that row.
proof fn lemma_series_lookup(v: BingoVault, series_id: u32, i: int)
    requires
        unique_series(v.series_table@),
        0 <= i < v.series_table@.len(),
        v.series_table@[i].series_id == series_id,
    ensures
        v.spec_has_series(series_id),
        v.series_index(series_id) == i,
        v.spec_series(series_id) == v.series_table@[i],
{
    assert(v.spec_has_series(series_id));
    let j = v.series_index(series_id);
    assert(0 <= j < v.series_table@.len() && v.series_table@[j].series_id == series_id);
    if j != i {
        assert(v.series_table@[i].series_id != v.series_table@[j].series_id);
    }
}

/// A matching subscription row pins down lookup likewise.
proof fn lemma_position_lookup(v: BingoVault, series_id: u32, user: u64, i: int)
    requires
        unique_positions(v.user_positions@),
        0 <= i < v.user_positions@.len(),
        v.user_positions@[i].series_id == series_id,
        v.user_positions@[i].user == user,
    ensures
        v.spec_has_position(series_id, user),
        v.position_index(series_id, user) == i,
        v.spec_subscribed(series_id, user) == v.user_positions@[i].subscribed_par,
{
    assert(v.spec_has_position(series_id, user));
    let j = v.position_index(series_id, user);
    assert(0 <= j < v.user_positions@.len() && v.user_positions@[j].series_id == series_id
        && v.user_positions@[j].user == user);
    if j != i {
        assert(!(v.user_positions@[i].series_id == v.user_positions@[j].series_id
            && v.user_positions@[i].user == v.user_positions@[j].user));
    }
}

/// Pushing a fresh series changes no other lookup.
proof fn lemma_table_push(old_v: BingoVault, new_v: BingoVault, s: Series)
    requires
        unique_series(old_v.series_table@),
        !old_v.spec_has_series(s.series_id),
        new_v.series_table@ == old_v.series_table@.push(s),
    ensures
        unique_series(new_v.series_table@),
        new_v.spec_has_series(s.series_id),
        new_v.spec_series(s.series_id) == s,
        forall|s2: u32|
            s2 != s.series_id ==> (#[trigger] new_v.spec_has_series(s2) <==> old_v.spec_has_series(
                s2,
            )),
        forall|s2: u32|
            s2 != s.series_id && old_v.spec_has_series(s2) ==> #[trigger] new_v.spec_series(s2)
                == old_v.spec_series(s2),
{
    let n = old_v.series_table@.len() as int;
    assert forall|a: int, b: int|
        0 <= a < b < new_v.series_table@.len() implies new_v.series_table@[a].series_id
        != new_v.series_table@[b].series_id by {
        if b < n {
            assert(new_v.series_table@[a] == old_v.series_table@[a]);
            assert(new_v.series_table@[b] == old_v.series_table@[b]);
        } else {
            assert(new_v.series_table@[b] == s);
            assert(new_v.series_table@[a] == old_v.series_table@[a]);
        }
    }
    lemma_series_lookup(new_v, s.series_id, n);
    assert forall|s2: u32|
        s2 != s.series_id implies (#[trigger] new_v.spec_has_series(s2)
        <==> old_v.spec_has_series(s2)) by {
        if new_v.spec_has_series(s2) {
            let w = choose|w: int|
                0 <= w < new_v.series_table@.len() && #[trigger] new_v.series_table@[w].series_id
                    == s2;
            assert(w < n);
            assert(old_v.series_table@[w].series_id == s2);
        }
        if old_v.spec_has_series(s2) {
            let w = choose|w: int|
                0 <= w < old_v.series_table@.len() && #[trigger] old_v.series_table@[w].series_id
                    == s2;
            assert(new_v.series_table@[w].series_id == s2);
        }
    }
    assert forall|s2: u32|
        s2 != s.series_id && old_v.spec_has_series(s2) implies #[trigger] new_v.spec_series(s2)
        == old_v.spec_series(s2) by {
        let w = choose|w: int|
            0 <= w < old_v.series_table@.len() && #[trigger] old_v.series_table@[w].series_id
                == s2;
        lemma_series_lookup(old_v, s2, w);
        lemma_series_lookup(new_v, s2, w);
    }
}

/// Updating one series row in place (same id) changes no other lookup.
proof fn lemma_table_update(old_v: BingoVault, new_v: BingoVault, i: int, s: Series)
    requires
        unique_series(old_v.series_table@),
        0 <= i < old_v.series_table@.len(),
        s.series_id == old_v.series_table@[i].series_id,
        new_v.series_table@ == old_v.series_table@.update(i, s),
    ensures
        unique_series(new_v.series_table@),
        new_v.spec_has_series(s.series_id),
        new_v.spec_series(s.series_id) == s,
        forall|s2: u32|
            #[trigger] new_v.spec_has_series(s2) <==> old_v.spec_has_series(s2),
        forall|s2: u32|
            s2 != s.series_id && old_v.spec_has_series(s2) ==> #[trigger] new_v.spec_series(s2)
                == old_v.spec_series(s2),
{
    assert forall|a: int|
        0 <= a < new_v.series_table@.len() implies #[trigger] new_v.series_table@[a].series_id
        == old_v.series_table@[a].series_id by {}
    assert forall|a: int, b: int|
        0 <= a < b < new_v.series_table@.len() implies new_v.series_table@[a].series_id
        != new_v.series_table@[b].series_id by {
        assert(old_v.series_table@[a].series_id != old_v.series_table@[b].series_id);
    }
    lemma_series_lookup(new_v, s.series_id, i);
    assert forall|s2: u32|
        #[trigger] new_v.spec_has_series(s2) <==> old_v.spec_has_series(s2) by {
        if new_v.spec_has_series(s2) {
            let w = choose|w: int|
                0 <= w < new_v.series_table@.len() && #[trigger] new_v.series_table@[w].series_id
                    == s2;
            assert(old_v.series_table@[w].series_id == s2);
        }
        if old_v.spec_has_series(s2) {
            let w = choose|w: int|
                0 <= w < old_v.series_table@.len() && #[trigger] old_v.series_table@[w].series_id
                    == s2;
            assert(new_v.series_table@[w].series_id == s2);
        }
    }
    assert forall|s2: u32|
        s2 != s.series_id && old_v.spec_has_series(s2) implies #[trigger] new_v.spec_series(s2)
        == old_v.spec_series(s2) by {
        let w = choose|w: int|
            0 <= w < old_v.series_table@.len() && #[trigger] old_v.series_table@[w].series_id
                == s2;
        lemma_series_lookup(old_v, s2, w);
        assert(w != i);
        lemma_series_lookup(new_v, s2, w);
    }
}

} // verus!
