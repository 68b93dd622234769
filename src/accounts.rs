use vstd::prelude::*;

use crate::ledger::{
    crypto_holding_index, currency_holding_index, lemma_crypto_holding_index,
    lemma_currency_holding_index, lemma_recorded_balance_unnamed, crypto_moved, currency_moved,
    ledger_wf, lemma_recorded_balance_push, lemma_recorded_quantity_push, recorded_balance,
    recorded_quantity, LedgerError,
};
use crate::assets::Currency;
use crate::storage::{
    has_crypto_holding, has_currency_holding, holds_crypto, holds_currency, StorageSystem,
};
use crate::table::{greatest_key, has_key, keys_below, lemma_key_index};

verus! {

/// An account: created once, never changed.
#[derive(Clone, Debug)]
pub struct Account {
    pub id: u64,
    pub name: String,
    pub timestamp: u64,
}

/// What an account holds of a quote asset.
#[derive(Clone, Copy, Debug, PartialEq, Eq, Structural)]
pub struct AccountCurrency {
    pub id: u64,
    pub account_id: u64,
    pub currency_id: u64,
    pub balance: i64,
}

/// A change of a quote holding: the balance after it.
#[derive(Clone, Copy, Debug, PartialEq, Eq, Structural)]
pub struct AccountCurrencyHistory {
    pub id: u64,
    pub account_id: u64,
    pub account_currency_id: u64,
    pub currency_id: u64,
    pub balance: i64,
    pub timestamp: u64,
}

/// What an account holds of a base asset.
#[derive(Clone, Copy, Debug, PartialEq, Eq, Structural)]
pub struct AccountCryptoCurrency {
    pub id: u64,
    pub account_id: u64,
    pub crypto_currency_id: u64,
    pub quantity: i64,
}

/// A change of a base holding: the quantity after it.
#[derive(Clone, Copy, Debug, PartialEq, Eq, Structural)]
pub struct AccountCryptoCurrencyHistory {
    pub id: u64,
    pub account_id: u64,
    pub crypto_currency_id: u64,
    pub quantity: i64,
    pub timestamp: u64,
}

/// Hands out the ids of accounts, holdings and holding history, and applies
/// balance changes to a `StorageSystem`. It takes no locks: one writer at a
/// time applies changes.
pub struct AccountSystem {
    pub account_last_id: u64,
    pub account_currencies_last_id: u64,
    pub account_currency_histories_last_id: u64,
    pub account_crypto_currencies_last_id: u64,
    pub account_crypto_currency_histories_last_id: u64,
}

/// The quote holdings of zero that account `account_id` gets in `currencies`,
/// in their order, under the ids after `last_id`.
pub open spec fn new_holdings(
    account_id: u64,
    currencies: Seq<(u64, Currency)>,
    last_id: u64,
) -> Seq<(u64, AccountCurrency)> {
    Seq::new(
        currencies.len(),
        |i: int|
            (
                (last_id + 1 + i) as u64,
                AccountCurrency {
                    id: (last_id + 1 + i) as u64,
                    account_id,
                    currency_id: currencies[i].1.id,
                    balance: 0,
                },
            ),
    )
}

/// The quote balance of `account_id` in `currency_id` as the store records it.
pub(crate) fn recorded_currency_balance(storage: &StorageSystem, account_id: u64, currency_id: u64) -> (r: i64)
    ensures
        r == recorded_balance(storage.account_currency_histories@, account_id, currency_id),
{
    let ghost h = storage.account_currency_histories@;
    let mut k: usize = storage.account_currency_histories.len();
    proof {
        assert(h.subrange(0, k as int) == h);
    }
    while k > 0
        invariant
            k <= h.len(),
            h == storage.account_currency_histories@,
            recorded_balance(h, account_id, currency_id) == recorded_balance(
                h.subrange(0, k as int),
                account_id,
                currency_id,
            ),
        decreases k,
    {
        let row = storage.account_currency_histories.row_at(k - 1);
        proof {
            assert(h.subrange(0, k as int).drop_last() == h.subrange(0, k - 1));
        }
        if row.account_id == account_id && row.currency_id == currency_id {
            return row.balance;
        }
        k -= 1;
    }
    0
}

/// The base quantity of `account_id` in `crypto_currency_id` as the store records it.
pub(crate) fn recorded_crypto_quantity(storage: &StorageSystem, account_id: u64, crypto_currency_id: u64) -> (r: i64)
    ensures
        r == recorded_quantity(storage.account_crypto_currency_histories@, account_id, crypto_currency_id),
{
    let ghost h = storage.account_crypto_currency_histories@;
    let mut k: usize = storage.account_crypto_currency_histories.len();
    proof {
        assert(h.subrange(0, k as int) == h);
    }
    while k > 0
        invariant
            k <= h.len(),
            h == storage.account_crypto_currency_histories@,
            recorded_quantity(h, account_id, crypto_currency_id) == recorded_quantity(
                h.subrange(0, k as int),
                account_id,
                crypto_currency_id,
            ),
        decreases k,
    {
        let row = storage.account_crypto_currency_histories.row_at(k - 1);
        proof {
            assert(h.subrange(0, k as int).drop_last() == h.subrange(0, k - 1));
        }
        if row.account_id == account_id && row.crypto_currency_id == crypto_currency_id {
            return row.quantity;
        }
        k -= 1;
    }
    0
}

/// The quote balance of `account_id` in `currency_id`: its holding's, or what
/// the history last recorded where there is no holding yet.
pub fn currency_balance(storage: &StorageSystem, account_id: u64, currency_id: u64) -> (r: i64)
    requires
        ledger_wf(storage),
    ensures
        r == recorded_balance(storage.account_currency_histories@, account_id, currency_id),
{
    match storage.account_currency_index(account_id, currency_id) {
        Some(i) => storage.account_currencies.row_at(i).balance,
        None => recorded_currency_balance(storage, account_id, currency_id),
    }
}

/// The base quantity of `account_id` in `crypto_currency_id`: its holding's,
/// or what the history last recorded where there is no holding yet.
pub fn crypto_currency_quantity(storage: &StorageSystem, account_id: u64, crypto_currency_id: u64) -> (r: i64)
    requires
        ledger_wf(storage),
    ensures
        r == recorded_quantity(storage.account_crypto_currency_histories@, account_id, crypto_currency_id),
{
    match storage.account_crypto_currency_index(account_id, crypto_currency_id) {
        Some(i) => storage.account_crypto_currencies.row_at(i).quantity,
        None => recorded_crypto_quantity(storage, account_id, crypto_currency_id),
    }
}

impl AccountSystem {
    /// Every id the system has handed out is at or below its counter.
    pub open spec fn consistent(&self, s: &StorageSystem) -> bool {
        &&& keys_below(s.accounts@, self.account_last_id + 1)
        &&& keys_below(s.account_currencies@, self.account_currencies_last_id + 1)
        &&& keys_below(
            s.account_currency_histories@,
            self.account_currency_histories_last_id + 1,
        )
        &&& keys_below(s.account_crypto_currencies@, self.account_crypto_currencies_last_id + 1)
        &&& keys_below(
            s.account_crypto_currency_histories@,
            self.account_crypto_currency_histories_last_id + 1,
        )
    }

    /// Starts each counter at the greatest id its table holds.
    pub fn new(storage: &StorageSystem) -> (r: AccountSystem)
        requires
            storage.wf(),
        ensures
            r.consistent(storage),
            r.account_last_id == greatest_key(storage.accounts@),
            r.account_currencies_last_id == greatest_key(storage.account_currencies@),
            r.account_currency_histories_last_id == greatest_key(
                storage.account_currency_histories@,
            ),
            r.account_crypto_currencies_last_id == greatest_key(storage.account_crypto_currencies@),
            r.account_crypto_currency_histories_last_id == greatest_key(
                storage.account_crypto_currency_histories@,
            ),
    {
        AccountSystem {
            account_last_id: storage.accounts.last_key(),
            account_currencies_last_id: storage.account_currencies.last_key(),
            account_currency_histories_last_id: storage.account_currency_histories.last_key(),
            account_crypto_currencies_last_id: storage.account_crypto_currencies.last_key(),
            account_crypto_currency_histories_last_id: storage.account_crypto_currency_histories.last_key(),
        }
    }

    /// Records under a fresh id that the quote holding `account_currency_id`
    /// of `account_id` in `currency_id` now holds `balance`.
    pub fn add_account_currency_history(
        &mut self,
        storage: &mut StorageSystem,
        account_id: u64,
        account_currency_id: u64,
        currency_id: u64,
        balance: i64,
        timestamp: u64,
    )
        requires
            old(storage).wf(),
            old(self).consistent(old(storage)),
            old(self).account_currency_histories_last_id < u64::MAX,
        ensures
            final(storage).wf(),
            final(self).consistent(final(storage)),
            *final(self) == (AccountSystem {
                account_currency_histories_last_id: (old(
                    self,
                ).account_currency_histories_last_id + 1) as u64,
                ..*old(self)
            }),
            final(storage).account_currency_histories@ == old(
                storage,
            ).account_currency_histories@.push(
                (
                    final(self).account_currency_histories_last_id,
                    AccountCurrencyHistory {
                        id: final(self).account_currency_histories_last_id,
                        account_id,
                        account_currency_id,
                        currency_id,
                        balance,
                        timestamp,
                    },
                ),
            ),
            *final(storage) == (StorageSystem {
                account_currency_histories: final(storage).account_currency_histories,
                ..*old(storage)
            }),
    {
        self.account_currency_histories_last_id = self.account_currency_histories_last_id + 1;
        let row = AccountCurrencyHistory {
            id: self.account_currency_histories_last_id,
            account_id,
            account_currency_id,
            currency_id,
            balance,
            timestamp,
        };
        storage.add_account_currency_history(&row);
    }

    /// Records under a fresh id that `account_id` now holds `quantity` of
    /// `crypto_currency_id`.
    pub fn add_account_crypto_currency_history(
        &mut self,
        storage: &mut StorageSystem,
        account_id: u64,
        crypto_currency_id: u64,
        quantity: i64,
        timestamp: u64,
    )
        requires
            old(storage).wf(),
            old(self).consistent(old(storage)),
            old(self).account_crypto_currency_histories_last_id < u64::MAX,
        ensures
            final(storage).wf(),
            final(self).consistent(final(storage)),
            *final(self) == (AccountSystem {
                account_crypto_currency_histories_last_id: (old(
                    self,
                ).account_crypto_currency_histories_last_id + 1) as u64,
                ..*old(self)
            }),
            final(storage).account_crypto_currency_histories@ == old(
                storage,
            ).account_crypto_currency_histories@.push(
                (
                    final(self).account_crypto_currency_histories_last_id,
                    AccountCryptoCurrencyHistory {
                        id: final(self).account_crypto_currency_histories_last_id,
                        account_id,
                        crypto_currency_id,
                        quantity,
                        timestamp,
                    },
                ),
            ),
            *final(storage) == (StorageSystem {
                account_crypto_currency_histories: final(storage).account_crypto_currency_histories,
                ..*old(storage)
            }),
    {
        self.account_crypto_currency_histories_last_id = self.account_crypto_currency_histories_last_id
            + 1;
        let row = AccountCryptoCurrencyHistory {
            id: self.account_crypto_currency_histories_last_id,
            account_id,
            crypto_currency_id,
            quantity,
            timestamp,
        };
        storage.add_account_crypto_currency_history(&row);
    }

    /// Adds `amount` (negative to take away) to the quote balance of
    /// `account_id` in `currency_id` and records the new balance at
    /// `timestamp`. The holding is made on first reference. A balance that
    /// would leave the range of `i64` refuses the change.
    pub fn add_currency_to_account(
        &mut self,
        storage: &mut StorageSystem,
        account_id: u64,
        currency_id: u64,
        amount: i64,
        timestamp: u64,
    ) -> (r: Result<(), LedgerError>)
        requires
            ledger_wf(old(storage)),
            has_key(old(storage).accounts@, account_id),
            old(self).consistent(old(storage)),
            old(self).account_currencies_last_id < u64::MAX,
            old(self).account_currency_histories_last_id < u64::MAX,
        ensures
            ledger_wf(final(storage)),
            final(self).consistent(final(storage)),
            r is Err <==> !(i64::MIN <= recorded_balance(
                old(storage).account_currency_histories@,
                account_id,
                currency_id,
            ) + amount <= i64::MAX),
            r is Err ==> r == Err::<(), LedgerError>(LedgerError::BalanceOverflow) && *final(storage)
                == *old(storage) && *final(self) == *old(self),
            r is Ok ==> currency_moved(
                old(storage),
                final(storage),
                account_id,
                currency_id,
                amount as int,
                timestamp,
            ),
            r is Ok ==> final(self).account_currency_histories_last_id
                == old(self).account_currency_histories_last_id + 1,
            r is Ok ==> final(storage).account_currency_histories@.last().1.id 
                == final(self).account_currency_histories_last_id,
            r is Ok ==> has_currency_holding(
                final(storage).account_currencies@,
                account_id,
                currency_id,
            ),
            r is Ok && has_currency_holding(old(storage).account_currencies@, account_id, currency_id)
                ==> ({
                let i = currency_holding_index(old(storage).account_currencies@, account_id, currency_id);
                let h = old(storage).account_currencies@[i];
                &&& final(storage).account_currencies@ == old(storage).account_currencies@.update(
                    i,
                    (
                        h.0,
                        AccountCurrency {
                            balance: (recorded_balance(
                                old(storage).account_currency_histories@,
                                account_id,
                                currency_id,
                            ) + amount) as i64,
                            ..h.1
                        },
                    ),
                )
                &&& final(self).account_currencies_last_id == old(self).account_currencies_last_id
            }),
            r is Ok && !has_currency_holding(old(storage).account_currencies@, account_id, currency_id)
                ==> ({
                let id = (old(self).account_currencies_last_id + 1) as u64;
                &&& final(storage).account_currencies@ == old(storage).account_currencies@.push(
                    (
                        id,
                        AccountCurrency {
                            id,
                            account_id,
                            currency_id,
                            balance: (recorded_balance(
                                old(storage).account_currency_histories@,
                                account_id,
                                currency_id,
                            ) + amount) as i64,
                        },
                    ),
                )
                &&& final(self).account_currencies_last_id == id
            }),
            r is Ok ==> final(self).account_currencies_last_id
                <= old(self).account_currencies_last_id + 1,
            final(self).account_currencies_last_id >= old(self).account_currencies_last_id,
            final(self).account_last_id == old(self).account_last_id,
            final(self).account_crypto_currencies_last_id == old(
                self,
            ).account_crypto_currencies_last_id,
            final(self).account_crypto_currency_histories_last_id == old(
                self,
            ).account_crypto_currency_histories_last_id,
    {
        let ghost s0 = *storage;
        let idx = storage.account_currency_index(account_id, currency_id);
        let current = match idx {
            Some(i) => storage.account_currencies.row_at(i).balance,
            None => recorded_currency_balance(storage, account_id, currency_id),
        };
        let updated = match current.checked_add(amount) {
            Some(v) => v,
            None => {
                return Err(LedgerError::BalanceOverflow);
            },
        };
        let holding_id: u64 = match idx {
            Some(i) => {
                let h = *storage.account_currencies.row_at(i);
                proof {
                    lemma_key_index(storage.account_currencies@, i as int);
                    lemma_currency_holding_index(storage, i as int);
                }
                storage.update_account_currency(&AccountCurrency { balance: updated, ..h });
                proof {
                    assert(storage.account_currencies@ == s0.account_currencies@.update(
                        i as int,
                        (h.id, AccountCurrency { balance: updated, ..h }),
                    ));
                }
                h.id
            },
            None => {
                self.account_currencies_last_id = self.account_currencies_last_id + 1;
                let id = self.account_currencies_last_id;
                storage.add_account_currency(
                    &AccountCurrency { id, account_id, currency_id, balance: updated },
                );
                proof {
                    assert(storage.account_currencies@ == s0.account_currencies@.push(
                        (id, AccountCurrency { id, account_id, currency_id, balance: updated }),
                    ));
                }
                id
            },
        };
        self.add_account_currency_history(
            storage,
            account_id,
            holding_id,
            currency_id,
            updated,
            timestamp,
        );
        proof {
            let h2 = storage.account_currency_histories@;
            assert(h2.drop_last() == s0.account_currency_histories@);
            assert(h2 == s0.account_currency_histories@.push(h2.last()));
            assert forall|k: int| 0 <= k < storage.account_currencies@.len() implies (
            #[trigger] storage.account_currencies@[k]).1.balance == recorded_balance(
                storage.account_currency_histories@,
                storage.account_currencies@[k].1.account_id,
                storage.account_currencies@[k].1.currency_id,
            ) by {
                let row = storage.account_currencies@[k].1;
                lemma_recorded_balance_push(
                    s0.account_currency_histories@,
                    h2.last(),
                    row.account_id,
                    row.currency_id,
                );
                match idx {
                    Some(i) => {
                        if k != i {
                            assert(s0.account_currencies@[k] == storage.account_currencies@[k]);
                            if k < i {
                                assert(!holds_currency(
                                    s0.account_currencies@[i as int].1,
                                    s0.account_currencies@[k].1.account_id,
                                    s0.account_currencies@[k].1.currency_id,
                                ));
                            } else {
                                assert(!holds_currency(
                                    s0.account_currencies@[k].1,
                                    s0.account_currencies@[i as int].1.account_id,
                                    s0.account_currencies@[i as int].1.currency_id,
                                ));
                            }
                        }
                    },
                    None => {
                        if k < s0.account_currencies@.len() {
                            assert(s0.account_currencies@[k] == storage.account_currencies@[k]);
                            assert(!holds_currency(
                                s0.account_currencies@[k].1,
                                account_id,
                                currency_id,
                            ));
                        }
                    },
                }
            }
            assert forall|x: int, y: int|
                0 <= x < y < storage.account_currencies@.len() implies !holds_currency(
                #[trigger] storage.account_currencies@[y].1,
                (#[trigger] storage.account_currencies@[x]).1.account_id,
                storage.account_currencies@[x].1.currency_id,
            ) by {
                match idx {
                    Some(i) => {
                        assert(s0.account_currencies@[x].1.account_id
                            == storage.account_currencies@[x].1.account_id);
                        assert(s0.account_currencies@[x].1.currency_id
                            == storage.account_currencies@[x].1.currency_id);
                        assert(s0.account_currencies@[y].1.account_id
                            == storage.account_currencies@[y].1.account_id);
                        assert(s0.account_currencies@[y].1.currency_id
                            == storage.account_currencies@[y].1.currency_id);
                        assert(!holds_currency(
                            s0.account_currencies@[y].1,
                            s0.account_currencies@[x].1.account_id,
                            s0.account_currencies@[x].1.currency_id,
                        ));
                    },
                    None => {
                        if y < s0.account_currencies@.len() {
                            assert(!holds_currency(
                                s0.account_currencies@[y].1,
                                s0.account_currencies@[x].1.account_id,
                                s0.account_currencies@[x].1.currency_id,
                            ));
                        } else {
                            assert(!holds_currency(
                                s0.account_currencies@[x].1,
                                account_id,
                                currency_id,
                            ));
                        }
                    },
                }
            }
            assert forall|k: int| 0 <= k < storage.account_currencies@.len() implies (
            #[trigger] storage.account_currencies@[k]).0 == storage.account_currencies@[k].1.id by {
                if k < s0.account_currencies@.len() {
                    assert(s0.account_currencies@[k].0 == s0.account_currencies@[k].1.id);
                }
            }
        }
        proof {
            match idx {
                Some(i) => {
                    assert(holds_currency(storage.account_currencies@[i as int].1, account_id, currency_id));
                },
                None => {
                    assert(holds_currency(
                        storage.account_currencies@[s0.account_currencies@.len() as int].1,
                        account_id,
                        currency_id,
                    ));
                },
            }
        }
        Ok(())
    }

    /// Adds `amount` (negative to take away) to the base quantity of
    /// `account_id` in `crypto_currency_id` and records the new quantity at
    /// `timestamp`. The holding is made on first reference. A quantity that
    /// would leave the range of `i64` refuses the change.
    pub fn add_crypto_currency_to_account(
        &mut self,
        storage: &mut StorageSystem,
        account_id: u64,
        crypto_currency_id: u64,
        amount: i64,
        timestamp: u64,
    ) -> (r: Result<(), LedgerError>)
        requires
            ledger_wf(old(storage)),
            has_key(old(storage).accounts@, account_id),
            old(self).consistent(old(storage)),
            old(self).account_crypto_currencies_last_id < u64::MAX,
            old(self).account_crypto_currency_histories_last_id < u64::MAX,
        ensures
            ledger_wf(final(storage)),
            final(self).consistent(final(storage)),
            r is Err <==> !(i64::MIN <= recorded_quantity(
                old(storage).account_crypto_currency_histories@,
                account_id,
                crypto_currency_id,
            ) + amount <= i64::MAX),
            r is Err ==> r == Err::<(), LedgerError>(LedgerError::BalanceOverflow) && *final(storage)
                == *old(storage) && *final(self) == *old(self),
            r is Ok ==> crypto_moved(
                old(storage),
                final(storage),
                account_id,
                crypto_currency_id,
                amount as int,
                timestamp,
            ),
            r is Ok ==> final(self).account_crypto_currency_histories_last_id
                == old(self).account_crypto_currency_histories_last_id + 1,
            r is Ok ==> final(storage).account_crypto_currency_histories@.last().1.id 
                == final(self).account_crypto_currency_histories_last_id,
            r is Ok ==> has_crypto_holding(
                final(storage).account_crypto_currencies@,
                account_id,
                crypto_currency_id,
            ),
            r is Ok && has_crypto_holding(
                old(storage).account_crypto_currencies@,
                account_id,
                crypto_currency_id,
            ) ==> ({
                let i = crypto_holding_index(
                    old(storage).account_crypto_currencies@,
                    account_id,
                    crypto_currency_id,
                );
                let h = old(storage).account_crypto_currencies@[i];
                &&& final(storage).account_crypto_currencies@ == old(
                    storage,
                ).account_crypto_currencies@.update(
                    i,
                    (
                        h.0,
                        AccountCryptoCurrency {
                            quantity: (recorded_quantity(
                                old(storage).account_crypto_currency_histories@,
                                account_id,
                                crypto_currency_id,
                            ) + amount) as i64,
                            ..h.1
                        },
                    ),
                )
                &&& final(self).account_crypto_currencies_last_id
                    == old(self).account_crypto_currencies_last_id
            }),
            r is Ok && !has_crypto_holding(
                old(storage).account_crypto_currencies@,
                account_id,
                crypto_currency_id,
            ) ==> ({
                let id = (old(self).account_crypto_currencies_last_id + 1) as u64;
                &&& final(storage).account_crypto_currencies@ == old(
                    storage,
                ).account_crypto_currencies@.push(
                    (
                        id,
                        AccountCryptoCurrency {
                            id,
                            account_id,
                            crypto_currency_id,
                            quantity: (recorded_quantity(
                                old(storage).account_crypto_currency_histories@,
                                account_id,
                                crypto_currency_id,
                            ) + amount) as i64,
                        },
                    ),
                )
                &&& final(self).account_crypto_currencies_last_id == id
            }),
            r is Ok ==> final(self).account_crypto_currencies_last_id
                <= old(self).account_crypto_currencies_last_id + 1,
            final(self).account_crypto_currencies_last_id >= old(self).account_crypto_currencies_last_id,
            final(self).account_last_id == old(self).account_last_id,
            final(self).account_currencies_last_id == old(
                self,
            ).account_currencies_last_id,
            final(self).account_currency_histories_last_id == old(
                self,
            ).account_currency_histories_last_id,
    {
        let ghost s0 = *storage;
        let idx = storage.account_crypto_currency_index(account_id, crypto_currency_id);
        let current = match idx {
            Some(i) => storage.account_crypto_currencies.row_at(i).quantity,
            None => recorded_crypto_quantity(storage, account_id, crypto_currency_id),
        };
        let updated = match current.checked_add(amount) {
            Some(v) => v,
            None => {
                return Err(LedgerError::BalanceOverflow);
            },
        };
        match idx {
            Some(i) => {
                let h = *storage.account_crypto_currencies.row_at(i);
                proof {
                    lemma_key_index(storage.account_crypto_currencies@, i as int);
                    lemma_crypto_holding_index(storage, i as int);
                }
                storage.update_account_crypto_currency(AccountCryptoCurrency { quantity: updated, ..h });
                proof {
                    assert(storage.account_crypto_currencies@ == s0.account_crypto_currencies@.update(
                        i as int,
                        (h.id, AccountCryptoCurrency { quantity: updated, ..h }),
                    ));
                }
            },
            None => {
                self.account_crypto_currencies_last_id = self.account_crypto_currencies_last_id + 1;
                let id = self.account_crypto_currencies_last_id;
                storage.add_account_crypto_currency(
                    &AccountCryptoCurrency { id, account_id, crypto_currency_id, quantity: updated },
                );
                proof {
                    assert(storage.account_crypto_currencies@ == s0.account_crypto_currencies@.push(
                        (id, AccountCryptoCurrency { id, account_id, crypto_currency_id, quantity: updated }),
                    ));
                }
            },
        }
        self.add_account_crypto_currency_history(
            storage,
            account_id,
            crypto_currency_id,
            updated,
            timestamp,
        );
        proof {
            let h2 = storage.account_crypto_currency_histories@;
            assert(h2.drop_last() == s0.account_crypto_currency_histories@);
            assert(h2 == s0.account_crypto_currency_histories@.push(h2.last()));
            assert forall|k: int| 0 <= k < storage.account_crypto_currencies@.len() implies (
            #[trigger] storage.account_crypto_currencies@[k]).1.quantity == recorded_quantity(
                storage.account_crypto_currency_histories@,
                storage.account_crypto_currencies@[k].1.account_id,
                storage.account_crypto_currencies@[k].1.crypto_currency_id,
            ) by {
                let row = storage.account_crypto_currencies@[k].1;
                lemma_recorded_quantity_push(
                    s0.account_crypto_currency_histories@,
                    h2.last(),
                    row.account_id,
                    row.crypto_currency_id,
                );
                match idx {
                    Some(i) => {
                        if k != i {
                            assert(s0.account_crypto_currencies@[k] == storage.account_crypto_currencies@[k]);
                            if k < i {
                                assert(!holds_crypto(
                                    s0.account_crypto_currencies@[i as int].1,
                                    s0.account_crypto_currencies@[k].1.account_id,
                                    s0.account_crypto_currencies@[k].1.crypto_currency_id,
                                ));
                            } else {
                                assert(!holds_crypto(
                                    s0.account_crypto_currencies@[k].1,
                                    s0.account_crypto_currencies@[i as int].1.account_id,
                                    s0.account_crypto_currencies@[i as int].1.crypto_currency_id,
                                ));
                            }
                        }
                    },
                    None => {
                        if k < s0.account_crypto_currencies@.len() {
                            assert(s0.account_crypto_currencies@[k] == storage.account_crypto_currencies@[k]);
                            assert(!holds_crypto(
                                s0.account_crypto_currencies@[k].1,
                                account_id,
                                crypto_currency_id,
                            ));
                        }
                    },
                }
            }
            assert forall|x: int, y: int|
                0 <= x < y < storage.account_crypto_currencies@.len() implies !holds_crypto(
                #[trigger] storage.account_crypto_currencies@[y].1,
                (#[trigger] storage.account_crypto_currencies@[x]).1.account_id,
                storage.account_crypto_currencies@[x].1.crypto_currency_id,
            ) by {
                match idx {
                    Some(i) => {
                        assert(s0.account_crypto_currencies@[x].1.account_id
                            == storage.account_crypto_currencies@[x].1.account_id);
                        assert(s0.account_crypto_currencies@[x].1.crypto_currency_id
                            == storage.account_crypto_currencies@[x].1.crypto_currency_id);
                        assert(s0.account_crypto_currencies@[y].1.account_id
                            == storage.account_crypto_currencies@[y].1.account_id);
                        assert(s0.account_crypto_currencies@[y].1.crypto_currency_id
                            == storage.account_crypto_currencies@[y].1.crypto_currency_id);
                        assert(!holds_crypto(
                            s0.account_crypto_currencies@[y].1,
                            s0.account_crypto_currencies@[x].1.account_id,
                            s0.account_crypto_currencies@[x].1.crypto_currency_id,
                        ));
                    },
                    None => {
                        if y < s0.account_crypto_currencies@.len() {
                            assert(!holds_crypto(
                                s0.account_crypto_currencies@[y].1,
                                s0.account_crypto_currencies@[x].1.account_id,
                                s0.account_crypto_currencies@[x].1.crypto_currency_id,
                            ));
                        } else {
                            assert(!holds_crypto(
                                s0.account_crypto_currencies@[x].1,
                                account_id,
                                crypto_currency_id,
                            ));
                        }
                    },
                }
            }
            assert forall|k: int| 0 <= k < storage.account_crypto_currencies@.len() implies (
            #[trigger] storage.account_crypto_currencies@[k]).0 == storage.account_crypto_currencies@[k].1.id by {
                if k < s0.account_crypto_currencies@.len() {
                    assert(s0.account_crypto_currencies@[k].0 == s0.account_crypto_currencies@[k].1.id);
                }
            }
        }
        proof {
            match idx {
                Some(i) => {
                    assert(holds_crypto(storage.account_crypto_currencies@[i as int].1, account_id, crypto_currency_id));
                },
                None => {
                    assert(holds_crypto(
                        storage.account_crypto_currencies@[s0.account_crypto_currencies@.len() as int].1,
                        account_id,
                        crypto_currency_id,
                    ));
                },
            }
        }
        Ok(())
    }

    /// The id of the quote holding of `account_id` in `currency_id`. The
    /// holding is made on first reference, under a fresh id, holding what
    /// the history last recorded for the pair (zero if nothing).
    pub fn create_account_currency(
        &mut self,
        storage: &mut StorageSystem,
        account_id: u64,
        currency_id: u64,
    ) -> (r: u64)
        requires
            ledger_wf(old(storage)),
            has_key(old(storage).accounts@, account_id),
            old(self).consistent(old(storage)),
            old(self).account_currencies_last_id < u64::MAX,
        ensures
            ledger_wf(final(storage)),
            final(self).consistent(final(storage)),
            *final(storage) == (StorageSystem {
                account_currencies: final(storage).account_currencies,
                ..*old(storage)
            }),
            *final(self) == (AccountSystem {
                account_currencies_last_id: final(self).account_currencies_last_id,
                ..*old(self)
            }),
            exists|i: int|
                0 <= i < final(storage).account_currencies@.len()
                    && #[trigger] final(storage).account_currencies@[i].1.id == r && holds_currency(
                    final(storage).account_currencies@[i].1,
                    account_id,
                    currency_id,
                ),
            (exists|i: int|
                0 <= i < old(storage).account_currencies@.len() && holds_currency(
                    #[trigger] old(storage).account_currencies@[i].1,
                    account_id,
                    currency_id,
                )) ==> *final(storage) == *old(storage) && *final(self) == *old(self),
            !(exists|i: int|
                0 <= i < old(storage).account_currencies@.len() && holds_currency(
                    #[trigger] old(storage).account_currencies@[i].1,
                    account_id,
                    currency_id,
                )) ==> r == old(self).account_currencies_last_id + 1
                && final(self).account_currencies_last_id == r
                && final(storage).account_currencies@ == old(storage).account_currencies@.push(
                (
                    r,
                    AccountCurrency {
                        id: r,
                        account_id,
                        currency_id,
                        balance: recorded_balance(
                            old(storage).account_currency_histories@,
                            account_id,
                            currency_id,
                        ) as i64,
                    },
                ),
            ),
    {
        match storage.account_currency_index(account_id, currency_id) {
            Some(i) => {
                let id = storage.account_currencies.row_at(i).id;
                proof {
                    assert(storage.account_currencies@[i as int].1.id == id);
                }
                id
            },
            None => {
                let ghost s0 = *storage;
                let balance = recorded_currency_balance(storage, account_id, currency_id);
                self.account_currencies_last_id = self.account_currencies_last_id + 1;
                let id = self.account_currencies_last_id;
                storage.add_account_currency(
                    &AccountCurrency { id, account_id, currency_id, balance },
                );
                proof {
                    let row = AccountCurrency { id, account_id, currency_id, balance };
                    assert(storage.account_currencies@ == s0.account_currencies@.push((id, row)));
                    assert(storage.account_currencies@[s0.account_currencies@.len() as int].1.id
                        == id);
                    assert forall|x: int, y: int|
                        0 <= x < y < storage.account_currencies@.len() implies !holds_currency(
                        #[trigger] storage.account_currencies@[y].1,
                        (#[trigger] storage.account_currencies@[x]).1.account_id,
                        storage.account_currencies@[x].1.currency_id,
                    ) by {
                        if y < s0.account_currencies@.len() {
                            assert(!holds_currency(
                                s0.account_currencies@[y].1,
                                s0.account_currencies@[x].1.account_id,
                                s0.account_currencies@[x].1.currency_id,
                            ));
                        } else {
                            assert(!holds_currency(
                                s0.account_currencies@[x].1,
                                account_id,
                                currency_id,
                            ));
                        }
                    }
                    assert forall|k: int| 0 <= k < storage.account_currencies@.len() implies (
                    #[trigger] storage.account_currencies@[k]).1.balance == recorded_balance(
                        storage.account_currency_histories@,
                        storage.account_currencies@[k].1.account_id,
                        storage.account_currencies@[k].1.currency_id,
                    ) by {
                        if k < s0.account_currencies@.len() {
                            assert(s0.account_currencies@[k] == storage.account_currencies@[k]);
                        }
                    }
                    assert forall|k: int| 0 <= k < storage.account_currencies@.len() implies (
                    #[trigger] storage.account_currencies@[k]).0
                        == storage.account_currencies@[k].1.id by {
                        if k < s0.account_currencies@.len() {
                            assert(s0.account_currencies@[k] == storage.account_currencies@[k]);
                        }
                    }
                }
                id
            },
        }
    }

    /// The id of the base holding of `account_id` in `crypto_currency_id`. The
    /// holding is made on first reference, under a fresh id, holding what
    /// the history last recorded for the pair (zero if nothing).
    pub fn create_account_crypto_currency(
        &mut self,
        storage: &mut StorageSystem,
        account_id: u64,
        crypto_currency_id: u64,
    ) -> (r: u64)
        requires
            ledger_wf(old(storage)),
            has_key(old(storage).accounts@, account_id),
            old(self).consistent(old(storage)),
            old(self).account_crypto_currencies_last_id < u64::MAX,
        ensures
            ledger_wf(final(storage)),
            final(self).consistent(final(storage)),
            *final(storage) == (StorageSystem {
                account_crypto_currencies: final(storage).account_crypto_currencies,
                ..*old(storage)
            }),
            *final(self) == (AccountSystem {
                account_crypto_currencies_last_id: final(self).account_crypto_currencies_last_id,
                ..*old(self)
            }),
            exists|i: int|
                0 <= i < final(storage).account_crypto_currencies@.len()
                    && #[trigger] final(storage).account_crypto_currencies@[i].1.id == r && holds_crypto(
                    final(storage).account_crypto_currencies@[i].1,
                    account_id,
                    crypto_currency_id,
                ),
            (exists|i: int|
                0 <= i < old(storage).account_crypto_currencies@.len() && holds_crypto(
                    #[trigger] old(storage).account_crypto_currencies@[i].1,
                    account_id,
                    crypto_currency_id,
                )) ==> *final(storage) == *old(storage) && *final(self) == *old(self),
            !(exists|i: int|
                0 <= i < old(storage).account_crypto_currencies@.len() && holds_crypto(
                    #[trigger] old(storage).account_crypto_currencies@[i].1,
                    account_id,
                    crypto_currency_id,
                )) ==> r == old(self).account_crypto_currencies_last_id + 1
                && final(self).account_crypto_currencies_last_id == r
                && final(storage).account_crypto_currencies@ == old(storage).account_crypto_currencies@.push(
                (
                    r,
                    AccountCryptoCurrency {
                        id: r,
                        account_id,
                        crypto_currency_id,
                        quantity: recorded_quantity(
                            old(storage).account_crypto_currency_histories@,
                            account_id,
                            crypto_currency_id,
                        ) as i64,
                    },
                ),
            ),
    {
        match storage.account_crypto_currency_index(account_id, crypto_currency_id) {
            Some(i) => {
                let id = storage.account_crypto_currencies.row_at(i).id;
                proof {
                    assert(storage.account_crypto_currencies@[i as int].1.id == id);
                }
                id
            },
            None => {
                let ghost s0 = *storage;
                let quantity = recorded_crypto_quantity(storage, account_id, crypto_currency_id);
                self.account_crypto_currencies_last_id = self.account_crypto_currencies_last_id + 1;
                let id = self.account_crypto_currencies_last_id;
                storage.add_account_crypto_currency(
                    &AccountCryptoCurrency { id, account_id, crypto_currency_id, quantity },
                );
                proof {
                    let row = AccountCryptoCurrency { id, account_id, crypto_currency_id, quantity };
                    assert(storage.account_crypto_currencies@ == s0.account_crypto_currencies@.push((id, row)));
                    assert(storage.account_crypto_currencies@[s0.account_crypto_currencies@.len() as int].1.id
                        == id);
                    assert forall|x: int, y: int|
                        0 <= x < y < storage.account_crypto_currencies@.len() implies !holds_crypto(
                        #[trigger] storage.account_crypto_currencies@[y].1,
                        (#[trigger] storage.account_crypto_currencies@[x]).1.account_id,
                        storage.account_crypto_currencies@[x].1.crypto_currency_id,
                    ) by {
                        if y < s0.account_crypto_currencies@.len() {
                            assert(!holds_crypto(
                                s0.account_crypto_currencies@[y].1,
                                s0.account_crypto_currencies@[x].1.account_id,
                                s0.account_crypto_currencies@[x].1.crypto_currency_id,
                            ));
                        } else {
                            assert(!holds_crypto(
                                s0.account_crypto_currencies@[x].1,
                                account_id,
                                crypto_currency_id,
                            ));
                        }
                    }
                    assert forall|k: int| 0 <= k < storage.account_crypto_currencies@.len() implies (
                    #[trigger] storage.account_crypto_currencies@[k]).1.quantity == recorded_quantity(
                        storage.account_crypto_currency_histories@,
                        storage.account_crypto_currencies@[k].1.account_id,
                        storage.account_crypto_currencies@[k].1.crypto_currency_id,
                    ) by {
                        if k < s0.account_crypto_currencies@.len() {
                            assert(s0.account_crypto_currencies@[k] == storage.account_crypto_currencies@[k]);
                        }
                    }
                    assert forall|k: int| 0 <= k < storage.account_crypto_currencies@.len() implies (
                    #[trigger] storage.account_crypto_currencies@[k]).0
                        == storage.account_crypto_currencies@[k].1.id by {
                        if k < s0.account_crypto_currencies@.len() {
                            assert(s0.account_crypto_currencies@[k] == storage.account_crypto_currencies@[k]);
                        }
                    }
                }
                id
            },
        }
    }

    /// Stores `account` under a fresh id, which it returns, and gives the
    /// account a quote holding of zero in each currency the store knows, in
    /// the order of the currencies, under the next fresh holding ids.
    pub fn create_account(&mut self, storage: &mut StorageSystem, account: Account) -> (r: u64)
        requires
            ledger_wf(old(storage)),
            old(self).consistent(old(storage)),
            old(self).account_last_id < u64::MAX,
            old(self).account_currencies_last_id + old(storage).currencies@.len() <= u64::MAX,
        ensures
            ledger_wf(final(storage)),
            final(self).consistent(final(storage)),
            r == old(self).account_last_id + 1,
            final(self).account_last_id == r,
            final(storage).accounts@ == old(storage).accounts@.push(
                (r, Account { id: r, name: account.name, timestamp: account.timestamp }),
            ),
            final(storage).account_currencies@ == old(storage).account_currencies@ + new_holdings(
                r,
                old(storage).currencies@,
                old(self).account_currencies_last_id,
            ),
            final(self).account_currencies_last_id == old(self).account_currencies_last_id
                + old(storage).currencies@.len(),
            *final(storage) == (StorageSystem {
                accounts: final(storage).accounts,
                account_currencies: final(storage).account_currencies,
                ..*old(storage)
            }),
            *final(self) == (AccountSystem {
                account_last_id: final(self).account_last_id,
                account_currencies_last_id: final(self).account_currencies_last_id,
                ..*old(self)
            }),
    {
        let ghost s0 = *storage;
        self.account_last_id = self.account_last_id + 1;
        let id = self.account_last_id;
        let stored = Account { id, name: account.name, timestamp: account.timestamp };
        storage.add_account(&stored);
        proof {
            let a0 = s0.accounts@;
            let a1 = storage.accounts@;
            assert(a1 == a0.push((id, stored)));
            assert(a1[a0.len() as int].0 == id);
            assert forall|x: u64| #[trigger] has_key(a0, x) implies has_key(a1, x) && x < id by {
                let w = choose|w: int| 0 <= w < a0.len() && a0[w].0 == x;
                assert(a1[w] == a0[w]);
            }
            assert forall|i: int| 0 <= i < a1.len() implies (#[trigger] a1[i]).0 == a1[i].1.id by {
                if i < a0.len() {
                    assert(a1[i] == a0[i]);
                }
            }
            assert forall|i: int| 0 <= i < s0.account_currency_histories@.len() implies (
            #[trigger] s0.account_currency_histories@[i]).1.account_id != id by {
                assert(has_key(a0, s0.account_currency_histories@[i].1.account_id));
            }
            lemma_recorded_balance_unnamed(s0.account_currency_histories@, id);
        }
        let ghost s1 = *storage;
        let ghost a1 = *self;
        let ghost c0 = old(self).account_currencies_last_id;
        let ghost cur = s0.currencies@;
        let n = storage.currencies.len();
        let mut k: usize = 0;
        while k < n
            invariant
                k <= n,
                n == cur.len(),
                c0 == old(self).account_currencies_last_id,
                c0 + n <= u64::MAX,
                cur == s1.currencies@,
                ledger_wf(storage),
                self.consistent(storage),
                has_key(storage.accounts@, id),
                forall|x: u64| #[trigger] has_key(s0.accounts@, x) ==> x < id,
                forall|i: int|
                    0 <= i < s0.account_currencies@.len() ==> has_key(
                        s0.accounts@,
                        (#[trigger] s0.account_currencies@[i]).1.account_id,
                    ),
                forall|c: u64| #[trigger] recorded_balance(s0.account_currency_histories@, id, c) == 0,
                s1.account_currencies == s0.account_currencies,
                s1.account_currency_histories == s0.account_currency_histories,
                *storage == (StorageSystem { account_currencies: storage.account_currencies, ..s1 }),
                *self == (AccountSystem {
                    account_currencies_last_id: self.account_currencies_last_id,
                    ..a1
                }),
                self.account_currencies_last_id == c0 + k,
                storage.account_currencies@ == s0.account_currencies@ + new_holdings(
                    id,
                    cur.subrange(0, k as int),
                    c0,
                ),
            decreases n - k,
        {
            let currency_id = storage.currencies.row_at(k).id;
            let ghost before = storage.account_currencies@;
            proof {
                let added = new_holdings(id, cur.subrange(0, k as int), c0);
                assert forall|i: int| 0 <= i < before.len() implies !holds_currency(
                    #[trigger] before[i].1,
                    id,
                    currency_id,
                ) by {
                    if i < s0.account_currencies@.len() {
                        assert(before[i] == s0.account_currencies@[i]);
                    } else {
                        let j = i - s0.account_currencies@.len();
                        assert(before[i] == added[j]);
                        assert(cur[j].0 < cur[k as int].0);
                    }
                }
            }
            self.create_account_currency(storage, id, currency_id);
            proof {
                assert(cur.subrange(0, k + 1) == cur.subrange(0, k as int).push(cur[k as int]));
                assert(new_holdings(id, cur.subrange(0, k + 1), c0) == new_holdings(
                    id,
                    cur.subrange(0, k as int),
                    c0,
                ).push(
                    (
                        (c0 + k + 1) as u64,
                        AccountCurrency {
                            id: (c0 + k + 1) as u64,
                            account_id: id,
                            currency_id,
                            balance: 0,
                        },
                    ),
                ));
            }
            k += 1;
        }
        proof {
            assert(cur.subrange(0, n as int) == cur);
        }
        id
    }
}

} // verus!
