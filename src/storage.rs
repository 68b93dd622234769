use vstd::prelude::*;

use crate::accounts::{
    Account, AccountCryptoCurrency, AccountCryptoCurrencyHistory, AccountCurrency,
    AccountCurrencyHistory,
};
use crate::assets::{CryptoCurrency, Currency};
use crate::orders::{Order, OrderHistory};
use crate::table::{inserted, last_row, lookup, values, Table};

verus! {

/// The ledger's tables, each keyed by the id of its rows. Durable storage
/// lives outside the library: it loads these tables and is told of each
/// row that is written.
pub struct StorageSystem {
    pub accounts: Table<Account>,
    pub currencies: Table<Currency>,
    pub crypto_currencies: Table<CryptoCurrency>,
    pub account_currencies: Table<AccountCurrency>,
    pub account_currency_histories: Table<AccountCurrencyHistory>,
    pub account_crypto_currencies: Table<AccountCryptoCurrency>,
    pub account_crypto_currency_histories: Table<AccountCryptoCurrencyHistory>,
    pub orders: Table<Order>,
    pub order_histories: Table<OrderHistory>,
}

/// The quote holding `h` is the one of `account_id` in `currency_id`.
pub open spec fn holds_currency(h: AccountCurrency, account_id: u64, currency_id: u64) -> bool {
    h.account_id == account_id && h.currency_id == currency_id
}

/// Some quote holding of `s` is the one of `account_id` in `currency_id`.
pub open spec fn has_currency_holding(
    s: Seq<(u64, AccountCurrency)>,
    account_id: u64,
    currency_id: u64,
) -> bool {
    exists|i: int| 0 <= i < s.len() && holds_currency(#[trigger] s[i].1, account_id, currency_id)
}

/// The base holding `h` is the one of `account_id` in `crypto_currency_id`.
pub open spec fn holds_crypto(
    h: AccountCryptoCurrency,
    account_id: u64,
    crypto_currency_id: u64,
) -> bool {
    h.account_id == account_id && h.crypto_currency_id == crypto_currency_id
}

/// Some base holding of `s` is the one of `account_id` in `crypto_currency_id`.
pub open spec fn has_crypto_holding(
    s: Seq<(u64, AccountCryptoCurrency)>,
    account_id: u64,
    crypto_currency_id: u64,
) -> bool {
    exists|i: int|
        0 <= i < s.len() && holds_crypto(#[trigger] s[i].1, account_id, crypto_currency_id)
}

fn copy_account(a: &Account) -> (r: Account)
    ensures
        r == *a,
{
    Account { id: a.id, name: a.name.clone(), timestamp: a.timestamp }
}

fn copy_currency(c: &Currency) -> (r: Currency)
    ensures
        r == *c,
{
    Currency { id: c.id, symbol: c.symbol.clone() }
}

fn copy_crypto_currency(c: &CryptoCurrency) -> (r: CryptoCurrency)
    ensures
        r == *c,
{
    CryptoCurrency { id: c.id, symbol: c.symbol.clone() }
}

impl StorageSystem {
    pub open spec fn wf(&self) -> bool {
        &&& self.accounts.wf()
        &&& self.currencies.wf()
        &&& self.crypto_currencies.wf()
        &&& self.account_currencies.wf()
        &&& self.account_currency_histories.wf()
        &&& self.account_crypto_currencies.wf()
        &&& self.account_crypto_currency_histories.wf()
        &&& self.orders.wf()
        &&& self.order_histories.wf()
    }

    /// A store with every table empty.
    pub fn new() -> (r: StorageSystem)
        ensures
            r.wf(),
            r.accounts@.len() == 0,
            r.currencies@.len() == 0,
            r.crypto_currencies@.len() == 0,
            r.account_currencies@.len() == 0,
            r.account_currency_histories@.len() == 0,
            r.account_crypto_currencies@.len() == 0,
            r.account_crypto_currency_histories@.len() == 0,
            r.orders@.len() == 0,
            r.order_histories@.len() == 0,
    {
        StorageSystem {
            accounts: Table::new(),
            currencies: Table::new(),
            crypto_currencies: Table::new(),
            account_currencies: Table::new(),
            account_currency_histories: Table::new(),
            account_crypto_currencies: Table::new(),
            account_crypto_currency_histories: Table::new(),
            orders: Table::new(),
            order_histories: Table::new(),
        }
    }

    // Accounts and assets.
    pub fn load_accounts(&self) -> (r: Vec<Account>)
        ensures
            r@ == values(self.accounts@),
    {
        let mut out: Vec<Account> = Vec::new();
        let mut i: usize = 0;
        while i < self.accounts.len()
            invariant
                i <= self.accounts@.len(),
                out@ == values(self.accounts@.subrange(0, i as int)),
            decreases self.accounts@.len() - i,
        {
            out.push(copy_account(self.accounts.row_at(i)));
            proof {
                assert(values(self.accounts@.subrange(0, i + 1)) == values(
                    self.accounts@.subrange(0, i as int),
                ).push(self.accounts@[i as int].1));
            }
            i += 1;
        }
        proof {
            assert(self.accounts@.subrange(0, self.accounts@.len() as int) == self.accounts@);
        }
        out
    }

    pub fn get_last_account(&self) -> (r: Option<Account>)
        ensures
            r == last_row(self.accounts@),
    {
        match self.accounts.last_ref() {
            Some(a) => Some(copy_account(a)),
            None => None,
        }
    }

    pub fn add_account(&mut self, account: &Account)
        requires
            old(self).wf(),
        ensures
            final(self).wf(),
            inserted(old(self).accounts@, final(self).accounts@, account.id, *account),
            *final(self) == (StorageSystem { accounts: final(self).accounts, ..*old(self) }),
    {
        self.accounts.insert(account.id, copy_account(account));
    }

    pub fn get_last_currency(&self) -> (r: Option<Currency>)
        ensures
            r == last_row(self.currencies@),
    {
        match self.currencies.last_ref() {
            Some(c) => Some(copy_currency(c)),
            None => None,
        }
    }

    pub fn get_last_crypto_currency(&self) -> (r: Option<CryptoCurrency>)
        ensures
            r == last_row(self.crypto_currencies@),
    {
        match self.crypto_currencies.last_ref() {
            Some(c) => Some(copy_crypto_currency(c)),
            None => None,
        }
    }

    pub fn add_currency(&mut self, currency: &Currency)
        requires
            old(self).wf(),
        ensures
            final(self).wf(),
            inserted(old(self).currencies@, final(self).currencies@, currency.id, *currency),
            *final(self) == (StorageSystem { currencies: final(self).currencies, ..*old(self) }),
    {
        self.currencies.insert(currency.id, copy_currency(currency));
    }

    pub fn add_crypto_currency(&mut self, crypto_currency: &CryptoCurrency)
        requires
            old(self).wf(),
        ensures
            final(self).wf(),
            inserted(
                old(self).crypto_currencies@,
                final(self).crypto_currencies@,
                crypto_currency.id,
                *crypto_currency,
            ),
            *final(self) == (StorageSystem {
                crypto_currencies: final(self).crypto_currencies,
                ..*old(self)
            }),
    {
        self.crypto_currencies.insert(crypto_currency.id, copy_crypto_currency(crypto_currency));
    }

    pub fn get_currency(&self, currency_id: u64) -> (r: Option<Currency>)
        requires
            self.wf(),
        ensures
            r == lookup(self.currencies@, currency_id),
    {
        match self.currencies.get_ref(currency_id) {
            Some(c) => Some(copy_currency(c)),
            None => None,
        }
    }

    pub fn get_crypto_currency(&self, crypto_currency_id: u64) -> (r: Option<CryptoCurrency>)
        requires
            self.wf(),
        ensures
            r == lookup(self.crypto_currencies@, crypto_currency_id),
    {
        match self.crypto_currencies.get_ref(crypto_currency_id) {
            Some(c) => Some(copy_crypto_currency(c)),
            None => None,
        }
    }

    pub fn load_currencies(&self) -> (r: Vec<Currency>)
        ensures
            r@ == values(self.currencies@),
    {
        let mut out: Vec<Currency> = Vec::new();
        let mut i: usize = 0;
        while i < self.currencies.len()
            invariant
                i <= self.currencies@.len(),
                out@ == values(self.currencies@.subrange(0, i as int)),
            decreases self.currencies@.len() - i,
        {
            out.push(copy_currency(self.currencies.row_at(i)));
            proof {
                assert(values(self.currencies@.subrange(0, i + 1)) == values(
                    self.currencies@.subrange(0, i as int),
                ).push(self.currencies@[i as int].1));
            }
            i += 1;
        }
        proof {
            assert(self.currencies@.subrange(0, self.currencies@.len() as int)
                == self.currencies@);
        }
        out
    }

    pub fn load_crypto_currencies(&self) -> (r: Vec<CryptoCurrency>)
        ensures
            r@ == values(self.crypto_currencies@),
    {
        let mut out: Vec<CryptoCurrency> = Vec::new();
        let mut i: usize = 0;
        while i < self.crypto_currencies.len()
            invariant
                i <= self.crypto_currencies@.len(),
                out@ == values(self.crypto_currencies@.subrange(0, i as int)),
            decreases self.crypto_currencies@.len() - i,
        {
            out.push(copy_crypto_currency(self.crypto_currencies.row_at(i)));
            proof {
                assert(values(self.crypto_currencies@.subrange(0, i + 1)) == values(
                    self.crypto_currencies@.subrange(0, i as int),
                ).push(self.crypto_currencies@[i as int].1));
            }
            i += 1;
        }
        proof {
            assert(self.crypto_currencies@.subrange(0, self.crypto_currencies@.len() as int)
                == self.crypto_currencies@);
        }
        out
    }

    // Quote holdings and their history.
    pub fn get_last_account_currency(&self) -> (r: Option<AccountCurrency>)
        ensures
            r == last_row(self.account_currencies@),
    {
        self.account_currencies.last()
    }

    pub fn get_last_account_currency_history(&self) -> (r: Option<AccountCurrencyHistory>)
        ensures
            r == last_row(self.account_currency_histories@),
    {
        self.account_currency_histories.last()
    }

    pub fn add_account_currency(&mut self, account_currency: &AccountCurrency)
        requires
            old(self).wf(),
        ensures
            final(self).wf(),
            inserted(
                old(self).account_currencies@,
                final(self).account_currencies@,
                account_currency.id,
                *account_currency,
            ),
            *final(self) == (StorageSystem {
                account_currencies: final(self).account_currencies,
                ..*old(self)
            }),
    {
        self.account_currencies.insert(account_currency.id, *account_currency);
    }

    pub fn load_account_currencies(&self) -> (r: Vec<AccountCurrency>)
        ensures
            r@ == values(self.account_currencies@),
    {
        self.account_currencies.values()
    }

    /// Where the quote holding of `account_id` in `currency_id` stands.
    pub fn account_currency_index(&self, account_id: u64, currency_id: u64) -> (r: Option<usize>)
        ensures
            match r {
                Some(i) => {
                    &&& i < self.account_currencies@.len()
                    &&& holds_currency(self.account_currencies@[i as int].1, account_id, currency_id)
                    &&& forall|j: int|
                        0 <= j < i ==> !holds_currency(
                            #[trigger] self.account_currencies@[j].1,
                            account_id,
                            currency_id,
                        )
                },
                None => forall|j: int|
                    0 <= j < self.account_currencies@.len() ==> !holds_currency(
                        #[trigger] self.account_currencies@[j].1,
                        account_id,
                        currency_id,
                    ),
            },
    {
        let mut i: usize = 0;
        while i < self.account_currencies.len()
            invariant
                i <= self.account_currencies@.len(),
                forall|j: int|
                    0 <= j < i ==> !holds_currency(
                        #[trigger] self.account_currencies@[j].1,
                        account_id,
                        currency_id,
                    ),
            decreases self.account_currencies@.len() - i,
        {
            let h = self.account_currencies.row_at(i);
            if h.account_id == account_id && h.currency_id == currency_id {
                return Some(i);
            }
            i += 1;
        }
        None
    }

    /// The first quote holding of `account_id` in `currency_id`.
    pub fn get_account_currency(&self, account_id: u64, currency_id: u64) -> (r: Option<
        AccountCurrency,
    >)
        ensures
            match r {
                Some(h) => exists|i: int|
                    0 <= i < self.account_currencies@.len() && self.account_currencies@[i].1 == h
                        && holds_currency(h, account_id, currency_id) && forall|j: int|
                        0 <= j < i ==> !holds_currency(
                            #[trigger] self.account_currencies@[j].1,
                            account_id,
                            currency_id,
                        ),
                None => forall|j: int|
                    0 <= j < self.account_currencies@.len() ==> !holds_currency(
                        #[trigger] self.account_currencies@[j].1,
                        account_id,
                        currency_id,
                    ),
            },
    {
        match self.account_currency_index(account_id, currency_id) {
            Some(i) => Some(*self.account_currencies.row_at(i)),
            None => None,
        }
    }

    pub fn get_account_currency_by_account_id(&self, account_id: u64) -> (r: Vec<AccountCurrency>)
        ensures
            r@ == values(self.account_currencies@).filter(
                |h: AccountCurrency| h.account_id == account_id,
            ),
    {
        let mut out: Vec<AccountCurrency> = Vec::new();
        let mut i: usize = 0;
        while i < self.account_currencies.len()
            invariant
                i <= self.account_currencies@.len(),
                out@ == values(self.account_currencies@.subrange(0, i as int)).filter(
                    |h: AccountCurrency| h.account_id == account_id,
                ),
            decreases self.account_currencies@.len() - i,
        {
            let h = *self.account_currencies.row_at(i);
            proof {
                reveal(Seq::filter);
                assert(values(self.account_currencies@.subrange(0, i + 1)).drop_last() == values(
                    self.account_currencies@.subrange(0, i as int),
                ));
                assert(values(self.account_currencies@.subrange(0, i + 1)).last() == h);
            }
            if h.account_id == account_id {
                out.push(h);
            }
            i += 1;
        }
        proof {
            assert(self.account_currencies@.subrange(0, self.account_currencies@.len() as int)
                == self.account_currencies@);
        }
        out
    }

    pub fn add_account_currency_history(&mut self, account_currency_history: &AccountCurrencyHistory)
        requires
            old(self).wf(),
        ensures
            final(self).wf(),
            inserted(
                old(self).account_currency_histories@,
                final(self).account_currency_histories@,
                account_currency_history.id,
                *account_currency_history,
            ),
            *final(self) == (StorageSystem {
                account_currency_histories: final(self).account_currency_histories,
                ..*old(self)
            }),
    {
        self.account_currency_histories.insert(
            account_currency_history.id,
            *account_currency_history,
        );
    }

    pub fn update_account_currency(&mut self, account_currency: &AccountCurrency)
        requires
            old(self).wf(),
        ensures
            final(self).wf(),
            inserted(
                old(self).account_currencies@,
                final(self).account_currencies@,
                account_currency.id,
                *account_currency,
            ),
            *final(self) == (StorageSystem {
                account_currencies: final(self).account_currencies,
                ..*old(self)
            }),
    {
        self.account_currencies.insert(account_currency.id, *account_currency);
    }

    pub fn load_account_currency_histories(&self) -> (r: Vec<AccountCurrencyHistory>)
        ensures
            r@ == values(self.account_currency_histories@),
    {
        self.account_currency_histories.values()
    }

    pub fn get_currency_history_by_account_id_account_currency_id(
        &self,
        account_id: u64,
        account_currency_id: u64,
    ) -> (r: Vec<AccountCurrencyHistory>)
        ensures
            r@ == values(self.account_currency_histories@).filter(
                |h: AccountCurrencyHistory|
                    h.account_id == account_id && h.account_currency_id == account_currency_id,
            ),
    {
        let mut out: Vec<AccountCurrencyHistory> = Vec::new();
        let mut i: usize = 0;
        while i < self.account_currency_histories.len()
            invariant
                i <= self.account_currency_histories@.len(),
                out@ == values(self.account_currency_histories@.subrange(0, i as int)).filter(
                    |h: AccountCurrencyHistory|
            h.account_id == account_id && h.account_currency_id == account_currency_id,
                ),
            decreases self.account_currency_histories@.len() - i,
        {
            let h = *self.account_currency_histories.row_at(i);
            proof {
                reveal(Seq::filter);
                assert(values(self.account_currency_histories@.subrange(0, i + 1)).drop_last()
                    == values(self.account_currency_histories@.subrange(0, i as int)));
                assert(values(self.account_currency_histories@.subrange(0, i + 1)).last() == h);
            }
            if h.account_id == account_id && h.account_currency_id == account_currency_id {
                out.push(h);
            }
            i += 1;
        }
        proof {
            assert(self.account_currency_histories@.subrange(
                0,
                self.account_currency_histories@.len() as int,
            ) == self.account_currency_histories@);
        }
        out
    }

    // Base holdings and their history.
    pub fn get_last_account_crypto_currency(&self) -> (r: Option<AccountCryptoCurrency>)
        ensures
            r == last_row(self.account_crypto_currencies@),
    {
        self.account_crypto_currencies.last()
    }

    pub fn get_last_account_crypto_currency_history(&self) -> (r: Option<
        AccountCryptoCurrencyHistory,
    >)
        ensures
            r == last_row(self.account_crypto_currency_histories@),
    {
        self.account_crypto_currency_histories.last()
    }

    pub fn add_account_crypto_currency(&mut self, account_crypto_currency: &AccountCryptoCurrency)
        requires
            old(self).wf(),
        ensures
            final(self).wf(),
            inserted(
                old(self).account_crypto_currencies@,
                final(self).account_crypto_currencies@,
                account_crypto_currency.id,
                *account_crypto_currency,
            ),
            *final(self) == (StorageSystem {
                account_crypto_currencies: final(self).account_crypto_currencies,
                ..*old(self)
            }),
    {
        self.account_crypto_currencies.insert(account_crypto_currency.id, *account_crypto_currency);
    }

    pub fn load_account_crypto_currencies(&self) -> (r: Vec<AccountCryptoCurrency>)
        ensures
            r@ == values(self.account_crypto_currencies@),
    {
        self.account_crypto_currencies.values()
    }

    /// Where the base holding of `account_id` in `crypto_currency_id` stands.
    pub fn account_crypto_currency_index(&self, account_id: u64, crypto_currency_id: u64) -> (r:
        Option<usize>)
        ensures
            match r {
                Some(i) => {
                    &&& i < self.account_crypto_currencies@.len()
                    &&& holds_crypto(
                        self.account_crypto_currencies@[i as int].1,
                        account_id,
                        crypto_currency_id,
                    )
                    &&& forall|j: int|
                        0 <= j < i ==> !holds_crypto(
                            #[trigger] self.account_crypto_currencies@[j].1,
                            account_id,
                            crypto_currency_id,
                        )
                },
                None => forall|j: int|
                    0 <= j < self.account_crypto_currencies@.len() ==> !holds_crypto(
                        #[trigger] self.account_crypto_currencies@[j].1,
                        account_id,
                        crypto_currency_id,
                    ),
            },
    {
        let mut i: usize = 0;
        while i < self.account_crypto_currencies.len()
            invariant
                i <= self.account_crypto_currencies@.len(),
                forall|j: int|
                    0 <= j < i ==> !holds_crypto(
                        #[trigger] self.account_crypto_currencies@[j].1,
                        account_id,
                        crypto_currency_id,
                    ),
            decreases self.account_crypto_currencies@.len() - i,
        {
            let h = self.account_crypto_currencies.row_at(i);
            if h.account_id == account_id && h.crypto_currency_id == crypto_currency_id {
                return Some(i);
            }
            i += 1;
        }
        None
    }

    /// The first base holding of `account_id` in `crypto_currency_id`.
    pub fn get_account_crypto_currency(&self, account_id: u64, crypto_currency_id: u64) -> (r:
        Option<AccountCryptoCurrency>)
        ensures
            match r {
                Some(h) => exists|i: int|
                    0 <= i < self.account_crypto_currencies@.len()
                        && self.account_crypto_currencies@[i].1 == h && holds_crypto(
                        h,
                        account_id,
                        crypto_currency_id,
                    ) && forall|j: int|
                        0 <= j < i ==> !holds_crypto(
                            #[trigger] self.account_crypto_currencies@[j].1,
                            account_id,
                            crypto_currency_id,
                        ),
                None => forall|j: int|
                    0 <= j < self.account_crypto_currencies@.len() ==> !holds_crypto(
                        #[trigger] self.account_crypto_currencies@[j].1,
                        account_id,
                        crypto_currency_id,
                    ),
            },
    {
        match self.account_crypto_currency_index(account_id, crypto_currency_id) {
            Some(i) => Some(*self.account_crypto_currencies.row_at(i)),
            None => None,
        }
    }

    pub fn get_account_crypto_currencies_by_account_id(&self, account_id: u64) -> (r: Vec<
        AccountCryptoCurrency,
    >)
        ensures
            r@ == values(self.account_crypto_currencies@).filter(
                |h: AccountCryptoCurrency| h.account_id == account_id,
            ),
    {
        let mut out: Vec<AccountCryptoCurrency> = Vec::new();
        let mut i: usize = 0;
        while i < self.account_crypto_currencies.len()
            invariant
                i <= self.account_crypto_currencies@.len(),
                out@ == values(self.account_crypto_currencies@.subrange(0, i as int)).filter(
                    |h: AccountCryptoCurrency| h.account_id == account_id,
                ),
            decreases self.account_crypto_currencies@.len() - i,
        {
            let h = *self.account_crypto_currencies.row_at(i);
            proof {
                reveal(Seq::filter);
                assert(values(self.account_crypto_currencies@.subrange(0, i + 1)).drop_last()
                    == values(self.account_crypto_currencies@.subrange(0, i as int)));
                assert(values(self.account_crypto_currencies@.subrange(0, i + 1)).last() == h);
            }
            if h.account_id == account_id {
                out.push(h);
            }
            i += 1;
        }
        proof {
            assert(self.account_crypto_currencies@.subrange(
                0,
                self.account_crypto_currencies@.len() as int,
            ) == self.account_crypto_currencies@);
        }
        out
    }

    pub fn get_account_crypto_currency_by_id(&self, account_crypto_currency_id: u64) -> (r: Option<
        AccountCryptoCurrency,
    >)
        requires
            self.wf(),
        ensures
            r == lookup(self.account_crypto_currencies@, account_crypto_currency_id),
    {
        self.account_crypto_currencies.get(account_crypto_currency_id)
    }

    pub fn update_account_crypto_currency(&mut self, account_crypto_currency: AccountCryptoCurrency)
        requires
            old(self).wf(),
        ensures
            final(self).wf(),
            inserted(
                old(self).account_crypto_currencies@,
                final(self).account_crypto_currencies@,
                account_crypto_currency.id,
                account_crypto_currency,
            ),
            *final(self) == (StorageSystem {
                account_crypto_currencies: final(self).account_crypto_currencies,
                ..*old(self)
            }),
    {
        self.add_account_crypto_currency(&account_crypto_currency);
    }

    pub fn add_account_crypto_currency_history(
        &mut self,
        account_crypto_currency_history: &AccountCryptoCurrencyHistory,
    )
        requires
            old(self).wf(),
        ensures
            final(self).wf(),
            inserted(
                old(self).account_crypto_currency_histories@,
                final(self).account_crypto_currency_histories@,
                account_crypto_currency_history.id,
                *account_crypto_currency_history,
            ),
            *final(self) == (StorageSystem {
                account_crypto_currency_histories: final(self).account_crypto_currency_histories,
                ..*old(self)
            }),
    {
        self.account_crypto_currency_histories.insert(
            account_crypto_currency_history.id,
            *account_crypto_currency_history,
        );
    }

    pub fn load_account_crypto_currency_histories(&self) -> (r: Vec<AccountCryptoCurrencyHistory>)
        ensures
            r@ == values(self.account_crypto_currency_histories@),
    {
        self.account_crypto_currency_histories.values()
    }

    pub fn get_crypto_currency_history_by_account_id_crypto_currency_id(
        &self,
        account_id: u64,
        crypto_currency_id: u64,
    ) -> (r: Vec<AccountCryptoCurrencyHistory>)
        ensures
            r@ == values(self.account_crypto_currency_histories@).filter(
                |h: AccountCryptoCurrencyHistory|
                    h.account_id == account_id && h.crypto_currency_id == crypto_currency_id,
            ),
    {
        let mut out: Vec<AccountCryptoCurrencyHistory> = Vec::new();
        let mut i: usize = 0;
        while i < self.account_crypto_currency_histories.len()
            invariant
                i <= self.account_crypto_currency_histories@.len(),
                out@ == values(self.account_crypto_currency_histories@.subrange(0, i as int)).filter(
                    |h: AccountCryptoCurrencyHistory|
            h.account_id == account_id && h.crypto_currency_id == crypto_currency_id,
                ),
            decreases self.account_crypto_currency_histories@.len() - i,
        {
            let h = *self.account_crypto_currency_histories.row_at(i);
            proof {
                reveal(Seq::filter);
                assert(values(self.account_crypto_currency_histories@.subrange(0, i + 1)).drop_last()
                    == values(self.account_crypto_currency_histories@.subrange(0, i as int)));
                assert(values(self.account_crypto_currency_histories@.subrange(0, i + 1)).last() == h);
            }
            if h.account_id == account_id && h.crypto_currency_id == crypto_currency_id {
                out.push(h);
            }
            i += 1;
        }
        proof {
            assert(self.account_crypto_currency_histories@.subrange(
                0,
                self.account_crypto_currency_histories@.len() as int,
            ) == self.account_crypto_currency_histories@);
        }
        out
    }

    // Orders and their fills.
    pub fn get_last_order(&self) -> (r: Option<Order>)
        ensures
            r == last_row(self.orders@),
    {
        self.orders.last()
    }

    pub fn get_last_order_history(&self) -> (r: Option<OrderHistory>)
        ensures
            r == last_row(self.order_histories@),
    {
        self.order_histories.last()
    }

    pub fn add_order(&mut self, order: &Order)
        requires
            old(self).wf(),
        ensures
            final(self).wf(),
            inserted(old(self).orders@, final(self).orders@, order.id, *order),
            *final(self) == (StorageSystem { orders: final(self).orders, ..*old(self) }),
    {
        self.orders.insert(order.id, *order);
    }

    pub fn add_order_history(&mut self, order_history: &OrderHistory)
        requires
            old(self).wf(),
        ensures
            final(self).wf(),
            inserted(
                old(self).order_histories@,
                final(self).order_histories@,
                order_history.id,
                *order_history,
            ),
            *final(self) == (StorageSystem {
                order_histories: final(self).order_histories,
                ..*old(self)
            }),
    {
        self.order_histories.insert(order_history.id, *order_history);
    }

    pub fn get_order(&self, order_id: u64) -> (r: Option<Order>)
        requires
            self.wf(),
        ensures
            r == lookup(self.orders@, order_id),
    {
        self.orders.get(order_id)
    }

    pub fn get_order_histories_by_order_id(&self, order_id: u64) -> (r: Vec<OrderHistory>)
        ensures
            r@ == values(self.order_histories@).filter(|h: OrderHistory| h.order_id == order_id),
    {
        let mut out: Vec<OrderHistory> = Vec::new();
        let mut i: usize = 0;
        while i < self.order_histories.len()
            invariant
                i <= self.order_histories@.len(),
                out@ == values(self.order_histories@.subrange(0, i as int)).filter(
                    |h: OrderHistory| h.order_id == order_id,
                ),
            decreases self.order_histories@.len() - i,
        {
            let h = *self.order_histories.row_at(i);
            proof {
                reveal(Seq::filter);
                assert(values(self.order_histories@.subrange(0, i + 1)).drop_last() == values(
                    self.order_histories@.subrange(0, i as int),
                ));
                assert(values(self.order_histories@.subrange(0, i + 1)).last() == h);
            }
            if h.order_id == order_id {
                out.push(h);
            }
            i += 1;
        }
        proof {
            assert(self.order_histories@.subrange(0, self.order_histories@.len() as int)
                == self.order_histories@);
        }
        out
    }

    pub fn load_order_histories(&self) -> (r: Vec<OrderHistory>)
        ensures
            r@ == values(self.order_histories@),
    {
        self.order_histories.values()
    }
}

} // verus!
