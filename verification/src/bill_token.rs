//! The bill ledger: a per-series fungible balance sheet with restricted
//! mint and burn, holder-authorized transfer, and an operator permission
//! set gated by a single admin identity.
//!
//! Conservation is tracked against ghost cumulative counters: for every
//! series, the sum of the stored (all positive) balances equals cumulative
//! mint minus cumulative burn.

use vstd::prelude::*;

verus! {

/// Failure kinds of the bill ledger.
#[derive(Clone, Copy, Debug, PartialEq, Eq, Structural)]
pub enum Error {
    AlreadyInitialized,
    NotInitialized,
    Unauthorized,
    NotOperator,
    InsufficientBalance,
    InvalidAmount,
}

/// One row of the balance table: the holding of one holder in one series.
#[derive(Clone, Copy, Debug, PartialEq, Eq, Structural)]
pub struct Balance {
    /// Series the bills belong to.
    pub series_id: u32,
    /// The holder's identity.
    pub holder: u64,
    /// Number of bill units held; stored rows are always positive.
    pub amount: i128,
}

/// Sum of the amounts of the first `n` rows that belong to `series_id`.
pub open spec fn sum_series_to(entries: Seq<Balance>, series_id: u32, n: int) -> int
    decreases n,
{
    if n <= 0 {
        0
    } else {
        sum_series_to(entries, series_id, n - 1) + if entries[n - 1].series_id == series_id {
            entries[n - 1].amount as int
        } else {
            0
        }
    }
}

/// Total bills outstanding in one series.
pub open spec fn sum_series(entries: Seq<Balance>, series_id: u32) -> int {
    sum_series_to(entries, series_id, entries.len() as int)
}

/// Sum of the amounts of the first `n` rows keyed (series_id, holder).
pub open spec fn sum_holder_to(entries: Seq<Balance>, series_id: u32, holder: u64, n: int) -> int
    decreases n,
{
    if n <= 0 {
        0
    } else {
        sum_holder_to(entries, series_id, holder, n - 1) + if entries[n - 1].series_id == series_id
            && entries[n - 1].holder == holder {
            entries[n - 1].amount as int
        } else {
            0
        }
    }
}

/// Balance of one holder in one series (0 when no row exists).
pub open spec fn sum_holder(entries: Seq<Balance>, series_id: u32, holder: u64) -> int {
    sum_holder_to(entries, series_id, holder, entries.len() as int)
}

/// No two rows share a (series, holder) key.
pub open spec fn unique_keys(entries: Seq<Balance>) -> bool {
    forall|i: int, j: int|
        #![trigger entries[i], entries[j]]
        0 <= i < j < entries.len() ==> !(entries[i].series_id == entries[j].series_id
            && entries[i].holder == entries[j].holder)
}

proof fn lemma_sum_series_congruence(a: Seq<Balance>, b: Seq<Balance>, series_id: u32, n: int)
    requires
        0 <= n <= a.len(),
        n <= b.len(),
        forall|j: int| 0 <= j < n ==> a[j] == b[j],
    ensures
        sum_series_to(a, series_id, n) == sum_series_to(b, series_id, n),
    decreases n,
{
    if n > 0 {
        lemma_sum_series_congruence(a, b, series_id, n - 1);
    }
}

proof fn lemma_sum_series_update(entries: Seq<Balance>, i: int, e: Balance, series_id: u32, n: int)
    requires
        0 <= i < entries.len(),
        0 <= n <= entries.len(),
    ensures
        sum_series_to(entries.update(i, e), series_id, n) == sum_series_to(entries, series_id, n)
            + if i < n {
            (if e.series_id == series_id {
                e.amount as int
            } else {
                0
            }) - (if entries[i].series_id == series_id {
                entries[i].amount as int
            } else {
                0
            })
        } else {
            0
        },
    decreases n,
{
    if n > 0 {
        lemma_sum_series_update(entries, i, e, series_id, n - 1);
    }
}

proof fn lemma_sum_series_push(entries: Seq<Balance>, e: Balance, series_id: u32)
    ensures
        sum_series(entries.push(e), series_id) == sum_series(entries, series_id)
            + if e.series_id == series_id {
            e.amount as int
        } else {
            0
        },
{
    lemma_sum_series_congruence(entries, entries.push(e), series_id, entries.len() as int);
}

proof fn lemma_sum_holder_congruence(
    a: Seq<Balance>,
    b: Seq<Balance>,
    series_id: u32,
    holder: u64,
    n: int,
)
    requires
        0 <= n <= a.len(),
        n <= b.len(),
        forall|j: int| 0 <= j < n ==> a[j] == b[j],
    ensures
        sum_holder_to(a, series_id, holder, n) == sum_holder_to(b, series_id, holder, n),
    decreases n,
{
    if n > 0 {
        lemma_sum_holder_congruence(a, b, series_id, holder, n - 1);
    }
}

proof fn lemma_sum_holder_update(
    entries: Seq<Balance>,
    i: int,
    e: Balance,
    series_id: u32,
    holder: u64,
    n: int,
)
    requires
        0 <= i < entries.len(),
        0 <= n <= entries.len(),
    ensures
        sum_holder_to(entries.update(i, e), series_id, holder, n) == sum_holder_to(
            entries,
            series_id,
            holder,
            n,
        ) + if i < n {
            (if e.series_id == series_id && e.holder == holder {
                e.amount as int
            } else {
                0
            }) - (if entries[i].series_id == series_id && entries[i].holder == holder {
                entries[i].amount as int
            } else {
                0
            })
        } else {
            0
        },
    decreases n,
{
    if n > 0 {
        lemma_sum_holder_update(entries, i, e, series_id, holder, n - 1);
    }
}

proof fn lemma_sum_holder_push(entries: Seq<Balance>, e: Balance, series_id: u32, holder: u64)
    ensures
        sum_holder(entries.push(e), series_id, holder) == sum_holder(entries, series_id, holder)
            + if e.series_id == series_id && e.holder == holder {
            e.amount as int
        } else {
            0
        },
{
    lemma_sum_holder_congruence(entries, entries.push(e), series_id, holder, entries.len() as int);
}

proof fn lemma_sum_holder_at(entries: Seq<Balance>, series_id: u32, holder: u64, i: int, n: int)
    requires
        unique_keys(entries),
        0 <= i < entries.len(),
        entries[i].series_id == series_id,
        entries[i].holder == holder,
        0 <= n <= entries.len(),
    ensures
        sum_holder_to(entries, series_id, holder, n) == if i < n {
            entries[i].amount as int
        } else {
            0
        },
    decreases n,
{
    if n > 0 {
        lemma_sum_holder_at(entries, series_id, holder, i, n - 1);
    }
}

proof fn lemma_sum_holder_absent(entries: Seq<Balance>, series_id: u32, holder: u64, n: int)
    requires
        forall|j: int|
            #![trigger entries[j]]
            0 <= j < entries.len() ==> !(entries[j].series_id == series_id && entries[j].holder
                == holder),
        0 <= n <= entries.len(),
    ensures
        sum_holder_to(entries, series_id, holder, n) == 0,
    decreases n,
{
    if n > 0 {
        lemma_sum_holder_absent(entries, series_id, holder, n - 1);
    }
}

/// The bill ledger.
pub struct BTBillToken {
    /// Identity allowed to change the operator set (checked by the
    /// external authorization service).
    pub admin: u64,
    /// Identities permitted to reach mint and burn.
    pub operators: Vec<u64>,
    /// The balance table; rows are positive and keys unique.
    pub balances: Vec<Balance>,
    /// Cumulative units ever minted, per series.
    pub total_minted: Ghost<Map<u32, int>>,
    /// Cumulative units ever burned, per series.
    pub total_burned: Ghost<Map<u32, int>>,
}

impl BTBillToken {
    /// Balance of one holder in one series, 0 when no row exists.
    pub open spec fn spec_balance_of(self, series_id: u32, holder: u64) -> int {
        sum_holder(self.balances@, series_id, holder)
    }

    /// Cumulative units ever minted in a series.
    pub open spec fn minted_of(self, series_id: u32) -> int {
        self.total_minted@[series_id]
    }

    /// Cumulative units ever burned in a series.
    pub open spec fn burned_of(self, series_id: u32) -> int {
        self.total_burned@[series_id]
    }

    /// Whether an identity is in the operator set.
    pub open spec fn spec_is_operator(self, address: u64) -> bool {
        self.operators@.contains(address)
    }

    /// Well-formedness: positive unique rows, counters defined for every
    /// series, and conservation between rows and counters.
    pub open spec fn wf(self) -> bool {
        &&& unique_keys(self.balances@)
        &&& forall|i: int| 0 <= i < self.balances@.len() ==> #[trigger] self.balances@[i].amount > 0
        &&& forall|i: int, j: int|
            #![trigger self.operators@[i], self.operators@[j]]
            0 <= i < j < self.operators@.len() ==> self.operators@[i] != self.operators@[j]
        &&& forall|s: u32| #[trigger] self.total_minted@.dom().contains(s)
        &&& forall|s: u32| #[trigger] self.total_burned@.dom().contains(s)
        &&& forall|s: u32| 0 <= #[trigger] self.total_burned@[s]
        &&& forall|s: u32|
            #[trigger] sum_series(self.balances@, s) == self.total_minted@[s]
                - self.total_burned@[s]
    }

    /// A fresh ledger under the given admin: no balances, no operators,
    /// nothing yet minted or burned.
    pub fn new(admin: u64) -> (t: BTBillToken)
        ensures
            t.wf(),
            t.admin == admin,
            t.operators@.len() == 0,
            t.balances@.len() == 0,
            forall|s: u32, h: u64| #[trigger] t.spec_balance_of(s, h) == 0,
            forall|s: u32| #[trigger] t.minted_of(s) == 0,
            forall|s: u32| #[trigger] t.burned_of(s) == 0,
    {
        let ghost zero_counts = Map::<u32, int>::new(|s: u32| true, |s: u32| 0);
        let t = BTBillToken {
            admin,
            operators: Vec::new(),
            balances: Vec::new(),
            total_minted: Ghost(zero_counts),
            total_burned: Ghost(zero_counts),
        };
        t
    }

    /// Index of the row for (series, holder), if one exists.
    fn find_index(&self, series_id: u32, holder: u64) -> (r: Option<usize>)
        ensures
            match r {
                Some(i) => i < self.balances@.len() && self.balances@[i as int].series_id
                    == series_id && self.balances@[i as int].holder == holder,
                None => forall|j: int|
                    #![trigger self.balances@[j]]
                    0 <= j < self.balances@.len() ==> !(self.balances@[j].series_id == series_id
                        && self.balances@[j].holder == holder),
            },
    {
        let mut k: usize = 0;
        while k < self.balances.len()
            invariant
                k <= self.balances@.len(),
                forall|j: int|
                    #![trigger self.balances@[j]]
                    0 <= j < k ==> !(self.balances@[j].series_id == series_id
                        && self.balances@[j].holder == holder),
            decreases self.balances@.len() - k,
        {
            let b = &self.balances[k];
            if b.series_id == series_id && b.holder == holder {
                return Some(k);
            }
            k = k + 1;
        }
        None
    }

    /// Balance of `holder` in `series_id`; 0 for holders with no row.
    pub fn balance_of(&self, series_id: u32, holder: u64) -> (r: i128)
        requires
            self.wf(),
        ensures
            r == self.spec_balance_of(series_id, holder),
    {
        match self.find_index(series_id, holder) {
            Some(i) => {
                proof {
                    lemma_sum_holder_at(
                        self.balances@,
                        series_id,
                        holder,
                        i as int,
                        self.balances@.len() as int,
                    );
                }
                self.balances[i].amount
            },
            None => {
                proof {
                    lemma_sum_holder_absent(
                        self.balances@,
                        series_id,
                        holder,
                        self.balances@.len() as int,
                    );
                }
                0
            },
        }
    }

    /// Whether an identity is in the operator set.
    pub fn is_operator(&self, address: u64) -> (r: bool)
        ensures
            r == self.spec_is_operator(address),
    {
        let mut k: usize = 0;
        while k < self.operators.len()
            invariant
                k <= self.operators@.len(),
                forall|j: int| 0 <= j < k ==> self.operators@[j] != address,
            decreases self.operators@.len() - k,
        {
            if self.operators[k] == address {
                return true;
            }
            k = k + 1;
        }
        false
    }

    /// Add an identity to the operator set; admin-authorized by the
    /// external authorization service. Idempotent.
    pub fn add_operator(&mut self, operator: u64) -> (r: Result<(), Error>)
        requires
            old(self).wf(),
        ensures
            final(self).wf(),
            r is Ok,
            final(self).spec_is_operator(operator),
            forall|o: u64|
                #[trigger] final(self).spec_is_operator(o) <==> old(self).spec_is_operator(o) || o
                    == operator,
            final(self).balances@ == old(self).balances@,
            final(self).total_minted@ == old(self).total_minted@,
            final(self).total_burned@ == old(self).total_burned@,
            final(self).admin == old(self).admin,
    {
        if !self.is_operator(operator) {
            self.operators.push(operator);
            proof {
                assert forall|o: u64| #[trigger]
                    self.operators@.contains(o) <==> old(self).operators@.contains(o) || o
                        == operator by {
                    if self.operators@.contains(o) {
                        let w = choose|w: int|
                            0 <= w < self.operators@.len() && self.operators@[w] == o;
                        if w < old(self).operators@.len() {
                            assert(old(self).operators@[w] == o);
                        }
                    }
                    if old(self).operators@.contains(o) {
                        let w = choose|w: int|
                            0 <= w < old(self).operators@.len() && old(self).operators@[w] == o;
                        assert(self.operators@[w] == o);
                    }
                    if o == operator {
                        assert(self.operators@[self.operators@.len() - 1] == o);
                    }
                }
            }
        }
        Ok(())
    }

    /// Overwrite the amount of row `i`, keeping its key.
    fn row_set_amount(&mut self, i: usize, new_amount: i128)
        requires
            i < old(self).balances@.len(),
            unique_keys(old(self).balances@),
            forall|a: int|
                0 <= a < old(self).balances@.len() ==> #[trigger] old(self).balances@[a].amount
                    > 0,
            new_amount > 0,
        ensures
            unique_keys(final(self).balances@),
            forall|a: int|
                0 <= a < final(self).balances@.len() ==> #[trigger] final(self).balances@[a].amount
                    > 0,
            final(self).balances@.len() == old(self).balances@.len(),
            forall|s: u32|
                #[trigger] sum_series(final(self).balances@, s) == sum_series(
                    old(self).balances@,
                    s,
                ) + if old(self).balances@[i as int].series_id == s {
                    new_amount - old(self).balances@[i as int].amount
                } else {
                    0
                },
            forall|s: u32, h: u64|
                #[trigger] sum_holder(final(self).balances@, s, h) == sum_holder(
                    old(self).balances@,
                    s,
                    h,
                ) + if old(self).balances@[i as int].series_id == s && old(self).balances@[i as int].holder == h {
                    new_amount - old(self).balances@[i as int].amount
                } else {
                    0
                },
            final(self).operators@ == old(self).operators@,
            final(self).admin == old(self).admin,
            final(self).total_minted@ == old(self).total_minted@,
            final(self).total_burned@ == old(self).total_burned@,
    {
        let ghost olde = self.balances@;
        let e = Balance {
            series_id: self.balances[i].series_id,
            holder: self.balances[i].holder,
            amount: new_amount,
        };
        self.balances.set(i, e);
        proof {
            let newe = self.balances@;
            assert forall|s: u32|
                #[trigger] sum_series(newe, s) == sum_series(olde, s)
                    + if olde[i as int].series_id == s {
                    new_amount - olde[i as int].amount
                } else {
                    0
                } by {
                lemma_sum_series_update(olde, i as int, e, s, olde.len() as int);
            }
            assert forall|s: u32, h: u64|
                #[trigger] sum_holder(newe, s, h) == sum_holder(olde, s, h)
                    + if olde[i as int].series_id == s && olde[i as int].holder == h {
                    new_amount - olde[i as int].amount
                } else {
                    0
                } by {
                lemma_sum_holder_update(olde, i as int, e, s, h, olde.len() as int);
            }
            assert(unique_keys(newe)) by {
                assert(forall|a: int|
                    0 <= a < newe.len() ==> #[trigger] newe[a].series_id == olde[a].series_id
                        && newe[a].holder == olde[a].holder);
            }
        }
    }

    /// Remove row `i` by moving the last row into its slot.
    fn row_remove(&mut self, i: usize)
        requires
            i < old(self).balances@.len(),
            unique_keys(old(self).balances@),
            forall|a: int|
                0 <= a < old(self).balances@.len() ==> #[trigger] old(self).balances@[a].amount
                    > 0,
        ensures
            unique_keys(final(self).balances@),
            forall|a: int|
                0 <= a < final(self).balances@.len() ==> #[trigger] final(self).balances@[a].amount
                    > 0,
            final(self).balances@.len() == old(self).balances@.len() - 1,
            forall|s: u32|
                #[trigger] sum_series(final(self).balances@, s) == sum_series(
                    old(self).balances@,
                    s,
                ) - if old(self).balances@[i as int].series_id == s {
                    old(self).balances@[i as int].amount as int
                } else {
                    0
                },
            forall|s: u32, h: u64|
                #[trigger] sum_holder(final(self).balances@, s, h) == sum_holder(
                    old(self).balances@,
                    s,
                    h,
                ) - if old(self).balances@[i as int].series_id == s && old(self).balances@[i as int].holder == h {
                    old(self).balances@[i as int].amount as int
                } else {
                    0
                },
            final(self).operators@ == old(self).operators@,
            final(self).admin == old(self).admin,
            final(self).total_minted@ == old(self).total_minted@,
            final(self).total_burned@ == old(self).total_burned@,
    {
        let ghost olde = self.balances@;
        let last = self.balances.len() - 1;
        let moved = self.balances[last];
        self.balances.set(i, moved);
        self.balances.pop();
        proof {
            let newe = self.balances@;
            let n = olde.len() as int;
            let upd = olde.update(i as int, olde[n - 1]);
            assert(newe =~= upd.drop_last());
            assert forall|s: u32|
                #[trigger] sum_series(newe, s) == sum_series(olde, s)
                    - if olde[i as int].series_id == s {
                    olde[i as int].amount as int
                } else {
                    0
                } by {
                lemma_sum_series_congruence(newe, upd, s, n - 1);
                lemma_sum_series_update(olde, i as int, olde[n - 1], s, n - 1);
                assert(sum_series_to(olde, s, n) == sum_series_to(olde, s, n - 1)
                    + if olde[n - 1].series_id == s {
                    olde[n - 1].amount as int
                } else {
                    0
                });
            }
            assert forall|s: u32, h: u64|
                #[trigger] sum_holder(newe, s, h) == sum_holder(olde, s, h)
                    - if olde[i as int].series_id == s && olde[i as int].holder == h {
                    olde[i as int].amount as int
                } else {
                    0
                } by {
                lemma_sum_holder_congruence(newe, upd, s, h, n - 1);
                lemma_sum_holder_update(olde, i as int, olde[n - 1], s, h, n - 1);
                assert(sum_holder_to(olde, s, h, n) == sum_holder_to(olde, s, h, n - 1)
                    + if olde[n - 1].series_id == s && olde[n - 1].holder == h {
                    olde[n - 1].amount as int
                } else {
                    0
                });
            }
            assert forall|a: int, b: int|
                0 <= a < b < newe.len() implies !(newe[a].series_id == newe[b].series_id
                && newe[a].holder == newe[b].holder) by {
                let ka = if a == i as int { n - 1 } else { a };
                let kb = if b == i as int { n - 1 } else { b };
                assert(newe[a] == olde[ka]);
                assert(newe[b] == olde[kb]);
            }
            assert forall|a: int| 0 <= a < newe.len() implies #[trigger] newe[a].amount > 0 by {
                let ka = if a == i as int { n - 1 } else { a };
                assert(newe[a] == olde[ka]);
            }
        }
    }

    /// Append a row whose key is not yet present.
    fn row_push(&mut self, e: Balance)
        requires
            unique_keys(old(self).balances@),
            forall|a: int|
                0 <= a < old(self).balances@.len() ==> #[trigger] old(self).balances@[a].amount
                    > 0,
            e.amount > 0,
            forall|j: int|
                #![trigger old(self).balances@[j]]
                0 <= j < old(self).balances@.len() ==> !(old(self).balances@[j].series_id
                    == e.series_id && old(self).balances@[j].holder == e.holder),
        ensures
            unique_keys(final(self).balances@),
            forall|a: int|
                0 <= a < final(self).balances@.len() ==> #[trigger] final(self).balances@[a].amount
                    > 0,
            final(self).balances@.len() == old(self).balances@.len() + 1,
            forall|s: u32|
                #[trigger] sum_series(final(self).balances@, s) == sum_series(
                    old(self).balances@,
                    s,
                ) + if e.series_id == s {
                    e.amount as int
                } else {
                    0
                },
            forall|s: u32, h: u64|
                #[trigger] sum_holder(final(self).balances@, s, h) == sum_holder(
                    old(self).balances@,
                    s,
                    h,
                ) + if e.series_id == s && e.holder == h {
                    e.amount as int
                } else {
                    0
                },
            final(self).operators@ == old(self).operators@,
            final(self).admin == old(self).admin,
            final(self).total_minted@ == old(self).total_minted@,
            final(self).total_burned@ == old(self).total_burned@,
    {
        let ghost olde = self.balances@;
        self.balances.push(e);
        proof {
            let newe = self.balances@;
            assert forall|s: u32|
                #[trigger] sum_series(newe, s) == sum_series(olde, s) + if e.series_id == s {
                    e.amount as int
                } else {
                    0
                } by {
                lemma_sum_series_push(olde, e, s);
            }
            assert forall|s: u32, h: u64|
                #[trigger] sum_holder(newe, s, h) == sum_holder(olde, s, h) + if e.series_id == s
                    && e.holder == h {
                    e.amount as int
                } else {
                    0
                } by {
                lemma_sum_holder_push(olde, e, s, h);
            }
            assert forall|a: int, b: int|
                0 <= a < b < newe.len() implies !(newe[a].series_id == newe[b].series_id
                && newe[a].holder == newe[b].holder) by {
                if b < olde.len() {
                    assert(newe[a] == olde[a] && newe[b] == olde[b]);
                } else {
                    assert(newe[b] == e);
                    assert(newe[a] == olde[a]);
                }
            }
        }
    }

    /// Mint `amount` bill units of `series_id` to `to`. Reached only by
    /// permitted operators; the external runtime enforces who may call.
    pub fn mint(&mut self, series_id: u32, to: u64, amount: i128) -> (r: Result<(), Error>)
        requires
            old(self).wf(),
        ensures
            final(self).wf(),
            r is Err <==> amount <= 0 || old(self).spec_balance_of(series_id, to) + amount
                > i128::MAX,
            r matches Err(e) ==> e == Error::InvalidAmount && *final(self) == *old(self),
            r is Ok ==> final(self).spec_balance_of(series_id, to) == old(self).spec_balance_of(
                series_id,
                to,
            ) + amount,
            r is Ok ==> final(self).minted_of(series_id) == old(self).minted_of(series_id)
                + amount,
            forall|s2: u32, h2: u64|
                !(s2 == series_id && h2 == to) ==> #[trigger] final(self).spec_balance_of(s2, h2)
                    == old(self).spec_balance_of(s2, h2),
            forall|s2: u32|
                s2 != series_id ==> #[trigger] final(self).minted_of(s2) == old(self).minted_of(
                    s2,
                ),
            forall|s2: u32| #[trigger] final(self).burned_of(s2) == old(self).burned_of(s2),
            final(self).operators@ == old(self).operators@,
            final(self).admin == old(self).admin,
    {
        if amount <= 0 {
            return Err(Error::InvalidAmount);
        }
        match self.find_index(series_id, to) {
            Some(i) => {
                proof {
                    lemma_sum_holder_at(
                        self.balances@,
                        series_id,
                        to,
                        i as int,
                        self.balances@.len() as int,
                    );
                }
                let old_amount = self.balances[i].amount;
                match old_amount.checked_add(amount) {
                    None => Err(Error::InvalidAmount),
                    Some(new_amount) => {
                        self.row_set_amount(i, new_amount);
                        self.total_minted = Ghost(
                            self.total_minted@.insert(
                                series_id,
                                self.total_minted@[series_id] + amount,
                            ),
                        );
                        Ok(())
                    },
                }
            },
            None => {
                proof {
                    lemma_sum_holder_absent(
                        self.balances@,
                        series_id,
                        to,
                        self.balances@.len() as int,
                    );
                }
                self.row_push(Balance { series_id, holder: to, amount });
                self.total_minted = Ghost(
                    self.total_minted@.insert(series_id, self.total_minted@[series_id] + amount),
                );
                Ok(())
            },
        }
    }

    /// Burn `amount` bill units of `series_id` from `from`, removing the
    /// row entirely when it reaches zero. Reached only by permitted
    /// operators; the external runtime enforces who may call.
    pub fn burn(&mut self, series_id: u32, from: u64, amount: i128) -> (r: Result<(), Error>)
        requires
            old(self).wf(),
        ensures
            final(self).wf(),
            r is Err <==> amount <= 0 || old(self).spec_balance_of(series_id, from) < amount,
            r matches Err(e) ==> *final(self) == *old(self) && e == (if amount <= 0 {
                Error::InvalidAmount
            } else {
                Error::InsufficientBalance
            }),
            r is Ok ==> final(self).spec_balance_of(series_id, from) == old(self).spec_balance_of(
                series_id,
                from,
            ) - amount,
            r is Ok ==> final(self).burned_of(series_id) == old(self).burned_of(series_id)
                + amount,
            forall|s2: u32, h2: u64|
                !(s2 == series_id && h2 == from) ==> #[trigger] final(self).spec_balance_of(
                    s2,
                    h2,
                ) == old(self).spec_balance_of(s2, h2),
            forall|s2: u32|
                s2 != series_id ==> #[trigger] final(self).burned_of(s2) == old(self).burned_of(
                    s2,
                ),
            forall|s2: u32| #[trigger] final(self).minted_of(s2) == old(self).minted_of(s2),
            final(self).operators@ == old(self).operators@,
            final(self).admin == old(self).admin,
    {
        if amount <= 0 {
            return Err(Error::InvalidAmount);
        }
        match self.find_index(series_id, from) {
            None => {
                proof {
                    lemma_sum_holder_absent(
                        self.balances@,
                        series_id,
                        from,
                        self.balances@.len() as int,
                    );
                }
                Err(Error::InsufficientBalance)
            },
            Some(i) => {
                proof {
                    lemma_sum_holder_at(
                        self.balances@,
                        series_id,
                        from,
                        i as int,
                        self.balances@.len() as int,
                    );
                }
                let bal = self.balances[i].amount;
                if bal < amount {
                    return Err(Error::InsufficientBalance);
                }
                if bal == amount {
                    self.row_remove(i);
                } else {
                    self.row_set_amount(i, bal - amount);
                }
                self.total_burned = Ghost(
                    self.total_burned@.insert(series_id, self.total_burned@[series_id] + amount),
                );
                Ok(())
            },
        }
    }

    /// Move `amount` bill units of `series_id` from `from` to `to`;
    /// authorized by `from` through the external authorization service.
    /// A transfer to oneself that passes every check changes nothing.
    pub fn transfer(&mut self, series_id: u32, from: u64, to: u64, amount: i128) -> (r: Result<
        (),
        Error,
    >)
        requires
            old(self).wf(),
        ensures
            final(self).wf(),
            r is Err <==> amount <= 0 || old(self).spec_balance_of(series_id, from) < amount || old(self).spec_balance_of(series_id, to) + amount > i128::MAX,
            r matches Err(e) ==> *final(self) == *old(self) && e == (if amount <= 0 {
                Error::InvalidAmount
            } else if old(self).spec_balance_of(series_id, from) < amount {
                Error::InsufficientBalance
            } else {
                Error::InvalidAmount
            }),
            r is Ok && from != to ==> final(self).spec_balance_of(series_id, from) == old(self).spec_balance_of(series_id, from) - amount && final(self).spec_balance_of(
                series_id,
                to,
            ) == old(self).spec_balance_of(series_id, to) + amount,
            r is Ok && from == to ==> *final(self) == *old(self),
            forall|s2: u32, h2: u64|
                !(s2 == series_id && (h2 == from || h2 == to)) ==> #[trigger] final(self).spec_balance_of(s2, h2) == old(self).spec_balance_of(s2, h2),
            forall|s2: u32| #[trigger] final(self).minted_of(s2) == old(self).minted_of(s2),
            forall|s2: u32| #[trigger] final(self).burned_of(s2) == old(self).burned_of(s2),
            final(self).operators@ == old(self).operators@,
            final(self).admin == old(self).admin,
    {
        if amount <= 0 {
            return Err(Error::InvalidAmount);
        }
        let from_idx = match self.find_index(series_id, from) {
            None => {
                proof {
                    lemma_sum_holder_absent(
                        self.balances@,
                        series_id,
                        from,
                        self.balances@.len() as int,
                    );
                }
                return Err(Error::InsufficientBalance);
            },
            Some(i) => i,
        };
        proof {
            lemma_sum_holder_at(
                self.balances@,
                series_id,
                from,
                from_idx as int,
                self.balances@.len() as int,
            );
        }
        let from_bal = self.balances[from_idx].amount;
        if from_bal < amount {
            return Err(Error::InsufficientBalance);
        }
        let to_bal = self.balance_of(series_id, to);
        match to_bal.checked_add(amount) {
            None => Err(Error::InvalidAmount),
            Some(new_to_bal) => {
                if from == to {
                    return Ok(());
                }
                if from_bal == amount {
                    self.row_remove(from_idx);
                } else {
                    self.row_set_amount(from_idx, from_bal - amount);
                }
                match self.find_index(series_id, to) {
                    Some(j) => {
                        proof {
                            lemma_sum_holder_at(
                                self.balances@,
                                series_id,
                                to,
                                j as int,
                                self.balances@.len() as int,
                            );
                            assert(sum_holder(self.balances@, series_id, to)
                                == self.balances@[j as int].amount);
                            assert(sum_holder(self.balances@, series_id, to) == to_bal);
                        }
                        self.row_set_amount(j, new_to_bal);
                    },
                    None => {
                        proof {
                            lemma_sum_holder_absent(
                                self.balances@,
                                series_id,
                                to,
                                self.balances@.len() as int,
                            );
                            assert(sum_holder(self.balances@, series_id, to) == 0);
                            assert(sum_holder(self.balances@, series_id, to) == to_bal);
                        }
                        self.row_push(Balance { series_id, holder: to, amount: new_to_bal });
                    },
                }
                Ok(())
            },
        }
    }

    /// Remove an identity from the operator set; admin-authorized by the
    /// external authorization service. Idempotent.
    pub fn remove_operator(&mut self, operator: u64) -> (r: Result<(), Error>)
        requires
            old(self).wf(),
        ensures
            final(self).wf(),
            r is Ok,
            !final(self).spec_is_operator(operator),
            forall|o: u64|
                #[trigger] final(self).spec_is_operator(o) <==> old(self).spec_is_operator(o) && o
                    != operator,
            final(self).balances@ == old(self).balances@,
            final(self).total_minted@ == old(self).total_minted@,
            final(self).total_burned@ == old(self).total_burned@,
            final(self).admin == old(self).admin,
    {
        let mut k: usize = 0;
        while k < self.operators.len()
            invariant
                old(self).wf(),
                k <= self.operators@.len(),
                *self == *old(self),
                forall|j: int| 0 <= j < k ==> self.operators@[j] != operator,
            decreases self.operators@.len() - k,
        {
            if self.operators[k] == operator {
                let last = self.operators.len() - 1;
                let moved = self.operators[last];
                self.operators.set(k, moved);
                self.operators.pop();
                proof {
                    let new_ops = self.operators@;
                    let old_ops = old(self).operators@;
                    assert(new_ops =~= old_ops.update(k as int, old_ops[old_ops.len() - 1])
                        .drop_last());
                    assert forall|o: u64| #[trigger]
                        new_ops.contains(o) <==> (old_ops.contains(o) && o != operator) by {
                        if new_ops.contains(o) {
                            let w = choose|w: int| 0 <= w < new_ops.len() && new_ops[w] == o;
                            if w == k {
                                assert(old_ops[old_ops.len() - 1] == o);
                            } else {
                                assert(old_ops[w] == o);
                            }
                        }
                        if old_ops.contains(o) && o != operator {
                            let w = choose|w: int| 0 <= w < old_ops.len() && old_ops[w] == o;
                            if w == old_ops.len() - 1 {
                                if k as int == old_ops.len() - 1 {
                                    assert(old_ops[k as int] == operator);
                                } else {
                                    assert(new_ops[k as int] == o);
                                }
                            } else {
                                assert(w != k);
                                assert(new_ops[w] == o);
                            }
                        }
                    }
                }
                return Ok(());
            }
            k = k + 1;
        }
        Ok(())
    }
}

/// Ledger conservation: for every series of a well-formed ledger, the sum
/// of all stored (non-zero) balances equals cumulative mint minus
/// cumulative burn.
pub proof fn lemma_ledger_conservation(t: BTBillToken, series_id: u32)
    requires
        t.wf(),
    ensures
        sum_series(t.balances@, series_id) == t.minted_of(series_id) - t.burned_of(series_id),
{
}

} // verus!
