use vstd::prelude::*;

use crate::ledger::ledger_wf;
use crate::storage::StorageSystem;
use crate::table::{greatest_key, keys_below, values};

verus! {

/// A quote asset.
#[derive(Clone, Debug)]
pub struct Currency {
    pub id: u64,
    pub symbol: String,
}

/// A base asset.
#[derive(Clone, Debug)]
pub struct CryptoCurrency {
    pub id: u64,
    pub symbol: String,
}

/// Hands out the ids of currencies and crypto currencies.
pub struct AssetSystem {
    pub last_currency_id: u64,
    pub last_crypto_currency_id: u64,
}

impl AssetSystem {
    /// Every asset id handed out is at or below its counter.
    pub open spec fn consistent(&self, s: &StorageSystem) -> bool {
        &&& keys_below(s.currencies@, self.last_currency_id + 1)
        &&& keys_below(s.crypto_currencies@, self.last_crypto_currency_id + 1)
    }

    /// Starts each counter at the greatest id its table holds.
    pub fn new(storage: &StorageSystem) -> (r: AssetSystem)
        requires
            storage.wf(),
        ensures
            r.consistent(storage),
            r.last_currency_id == greatest_key(storage.currencies@),
            r.last_crypto_currency_id == greatest_key(storage.crypto_currencies@),
    {
        AssetSystem {
            last_currency_id: storage.currencies.last_key(),
            last_crypto_currency_id: storage.crypto_currencies.last_key(),
        }
    }

    /// Stores `currency` under a fresh id and returns the id.
    pub fn create_currency(&mut self, storage: &mut StorageSystem, currency: Currency) -> (r: u64)
        requires
            ledger_wf(old(storage)),
            old(self).consistent(old(storage)),
            old(self).last_currency_id < u64::MAX,
        ensures
            ledger_wf(final(storage)),
            final(self).consistent(final(storage)),
            r == old(self).last_currency_id + 1,
            *final(self) == (AssetSystem { last_currency_id: r, ..*old(self) }),
            final(storage).currencies@ == old(storage).currencies@.push(
                (r, Currency { id: r, symbol: currency.symbol }),
            ),
            *final(storage) == (StorageSystem {
                currencies: final(storage).currencies,
                ..*old(storage)
            }),
    {
        self.last_currency_id = self.last_currency_id + 1;
        let stored = Currency { id: self.last_currency_id, symbol: currency.symbol };
        storage.add_currency(&stored);
        self.last_currency_id
    }

    /// Stores `crypto_currency` under a fresh id and returns the id.
    pub fn create_crypto_currency(
        &mut self,
        storage: &mut StorageSystem,
        crypto_currency: CryptoCurrency,
    ) -> (r: u64)
        requires
            ledger_wf(old(storage)),
            old(self).consistent(old(storage)),
            old(self).last_crypto_currency_id < u64::MAX,
        ensures
            ledger_wf(final(storage)),
            final(self).consistent(final(storage)),
            r == old(self).last_crypto_currency_id + 1,
            *final(self) == (AssetSystem { last_crypto_currency_id: r, ..*old(self) }),
            final(storage).crypto_currencies@ == old(storage).crypto_currencies@.push(
                (r, CryptoCurrency { id: r, symbol: crypto_currency.symbol }),
            ),
            *final(storage) == (StorageSystem {
                crypto_currencies: final(storage).crypto_currencies,
                ..*old(storage)
            }),
    {
        self.last_crypto_currency_id = self.last_crypto_currency_id + 1;
        let stored = CryptoCurrency { id: self.last_crypto_currency_id, symbol: crypto_currency.symbol };
        storage.add_crypto_currency(&stored);
        self.last_crypto_currency_id
    }

    /// The currencies, in the order of the ids they are stored under.
    pub fn get_currencies(&self, storage: &StorageSystem) -> (r: Vec<Currency>)
        ensures
            r@ == values(storage.currencies@),
    {
        storage.load_currencies()
    }

    /// The crypto currencies, in the order of the ids they are stored under.
    pub fn get_crypto_currencies(&self, storage: &StorageSystem) -> (r: Vec<CryptoCurrency>)
        ensures
            r@ == values(storage.crypto_currencies@),
    {
        storage.load_crypto_currencies()
    }
}

} // verus!
