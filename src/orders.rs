use vstd::prelude::*;

use crate::accounts::{crypto_currency_quantity, currency_balance, AccountSystem};
use crate::ledger::{
    balances_fit, base_change, fill_error, filled, ledger_wf, lemma_filled_prefix,
    lemma_filled_push, lemma_filled_unnamed, lemma_recorded_balance_push,
    lemma_recorded_quantity_push, match_applied, names_currency_holding, quote_change, recorded_balance,
    recorded_quantity, status_after, LedgerError,
};
use crate::matcher::OrderMatch;
use crate::storage::{holds_crypto, holds_currency, StorageSystem};
use crate::table::{greatest_key, has_key, key_index, keys_below, lemma_key_index, lookup};

verus! {

/// Where an order stands with respect to its fills.
#[derive(Clone, Copy, Debug, PartialEq, Eq, Structural)]
pub enum OrderStatus {
    Open,
    Closed,
    PartiallyFilled,
    Cancelled,
}

#[derive(Clone, Copy, Debug, PartialEq, Eq, Structural)]
pub enum TradeType {
    Buy,
    Sell,
}

/// A market order takes whatever price the book offers; a limit order
/// names its price in quote units per base unit.
#[derive(Clone, Copy, Debug, PartialEq, Eq, Structural)]
pub enum PriceType {
    Market,
    Limit(u64),
}

/// Carried with the order; matching does not look at it.
#[derive(Clone, Copy, Debug, PartialEq, Eq, Structural)]
pub enum ExecutionType {
    Full,
    Partial,
}

/// An order on the pair (`crypto_currency_id`, `currency_id`): the base asset
/// and the quote asset. While it rests in a book `quantity` is what is left
/// to fill; in the ledger it is the quantity the order was created with.
#[derive(Clone, Copy, Debug, PartialEq, Eq, Structural)]
pub struct Order {
    pub id: u64,
    pub account_id: u64,
    pub trade_type: TradeType,
    pub price_type: PriceType,
    pub execution_type: ExecutionType,
    pub crypto_currency_id: u64,
    pub currency_id: u64,
    pub quantity: u64,
    pub timestamp: u64,
    pub status: OrderStatus,
}

/// One fill of an order, with the status the order had after it.
#[derive(Clone, Copy, Debug, PartialEq, Eq, Structural)]
pub struct OrderHistory {
    pub id: u64,
    pub order_id: u64,
    pub quantity: u64,
    pub timestamp: u64,
    pub status: OrderStatus,
}

/// Hands out the ids of orders and fill records, and records fills.
pub struct OrderSystem {
    pub order_last_id: u64,
    pub order_history_id: u64,
}

/// The quantity filled so far of `order_id`.
fn filled_quantity(storage: &StorageSystem, order_id: u64) -> (r: u64)
    requires
        filled(storage.order_histories@, order_id) <= u64::MAX,
    ensures
        r == filled(storage.order_histories@, order_id),
{
    let ghost h = storage.order_histories@;
    let mut total: u64 = 0;
    let mut k: usize = 0;
    while k < storage.order_histories.len()
        invariant
            h == storage.order_histories@,
            filled(h, order_id) <= u64::MAX,
            k <= h.len(),
            total == filled(h.subrange(0, k as int), order_id),
        decreases h.len() - k,
    {
        let row = storage.order_histories.row_at(k);
        proof {
            assert(h.subrange(0, k + 1).drop_last() == h.subrange(0, k as int));
            lemma_filled_prefix(h, k + 1, order_id);
        }
        if row.order_id == order_id {
            total = total + row.quantity;
        }
        k += 1;
    }
    proof {
        assert(h.subrange(0, h.len() as int) == h);
    }
    total
}

impl OrderSystem {
    /// Every order id handed out is at or below `order_last_id`, fill records
    /// included, and every fill record id at or below `order_history_id`.
    pub open spec fn consistent(&self, s: &StorageSystem) -> bool {
        &&& keys_below(s.orders@, self.order_last_id + 1)
        &&& keys_below(s.order_histories@, self.order_history_id + 1)
        &&& forall|i: int|
            0 <= i < s.order_histories@.len() ==> (#[trigger] s.order_histories@[i]).1.order_id
                <= self.order_last_id
    }

    /// Starts each counter at the greatest id its table holds.
    pub fn new(storage: &StorageSystem) -> (r: OrderSystem)
        requires
            ledger_wf(storage),
        ensures
            r.consistent(storage),
            r.order_last_id == greatest_key(storage.orders@),
            r.order_history_id == greatest_key(storage.order_histories@),
    {
        let r = OrderSystem {
            order_last_id: storage.orders.last_key(),
            order_history_id: storage.order_histories.last_key(),
        };
        proof {
            assert forall|i: int| 0 <= i < storage.order_histories@.len() implies (
            #[trigger] storage.order_histories@[i]).1.order_id <= r.order_last_id by {
                let named = storage.order_histories@[i].1.order_id;
                assert(has_key(storage.orders@, named));
                let k = choose|k: int| 0 <= k < storage.orders@.len() && storage.orders@[k].0 == named;
                assert(storage.orders@[k].0 < r.order_last_id + 1);
            }
        }
        r
    }

    /// Stores `order` under a fresh id and returns it with that id.
    pub fn create_order(&mut self, storage: &mut StorageSystem, order: Order) -> (r: Order)
        requires
            ledger_wf(old(storage)),
            old(self).consistent(old(storage)),
            old(self).order_last_id < u64::MAX,
            has_key(old(storage).accounts@, order.account_id),
        ensures
            ledger_wf(final(storage)),
            final(self).consistent(final(storage)),
            r == (Order { id: (old(self).order_last_id + 1) as u64, ..order }),
            *final(self) == (OrderSystem { order_last_id: r.id, ..*old(self) }),
            final(storage).orders@ == old(storage).orders@.push((r.id, r)),
            *final(storage) == (StorageSystem { orders: final(storage).orders, ..*old(storage) }),
    {
        let ghost s0 = *storage;
        self.order_last_id = self.order_last_id + 1;
        let stored = Order { id: self.order_last_id, ..order };
        storage.add_order(&stored);
        proof {
            assert(storage.orders@ == s0.orders@.push((stored.id, stored)));
            lemma_filled_unnamed(storage.order_histories@, stored.id);
            assert forall|i: int| 0 <= i < storage.orders@.len() implies filled(
                storage.order_histories@,
                #[trigger] storage.orders@[i].0,
            ) <= storage.orders@[i].1.quantity by {
                if i < s0.orders@.len() {
                    assert(storage.orders@[i] == s0.orders@[i]);
                }
            }
            assert forall|i: int| 0 <= i < storage.orders@.len() implies (
            #[trigger] storage.orders@[i]).0 == storage.orders@[i].1.id by {
                if i < s0.orders@.len() {
                    assert(storage.orders@[i] == s0.orders@[i]);
                }
            }
            assert forall|i: int| 0 <= i < storage.order_histories@.len() implies has_key(
                storage.orders@,
                (#[trigger] storage.order_histories@[i]).1.order_id,
            ) by {
                let named = storage.order_histories@[i].1.order_id;
                assert(has_key(s0.orders@, named));
                let k = choose|k: int| 0 <= k < s0.orders@.len() && s0.orders@[k].0 == named;
                assert(storage.orders@[k] == s0.orders@[k]);
            }
        }
        stored
    }

    /// Records a fill of `quantity` for `order`, which had `already` filled,
    /// and sets the order's status to the one the fill gives it.
    fn record_fill(
        &mut self,
        storage: &mut StorageSystem,
        order: Order,
        already: u64,
        quantity: u64,
        timestamp: u64,
    ) -> (status: OrderStatus)
        requires
            ledger_wf(old(storage)),
            old(self).consistent(old(storage)),
            old(self).order_history_id < u64::MAX,
            lookup(old(storage).orders@, order.id) == Some(order),
            already == filled(old(storage).order_histories@, order.id),
            already + quantity <= order.quantity,
        ensures
            ledger_wf(final(storage)),
            final(self).consistent(final(storage)),
            status == status_after(already as int, quantity as int, order.quantity as int),
            *final(self) == (OrderSystem {
                order_history_id: (old(self).order_history_id + 1) as u64,
                ..*old(self)
            }),
            final(storage).order_histories@ == old(storage).order_histories@.push(
                (
                    final(self).order_history_id,
                    OrderHistory {
                        id: final(self).order_history_id,
                        order_id: order.id,
                        quantity,
                        timestamp,
                        status,
                    },
                ),
            ),
            final(storage).orders@ == old(storage).orders@.update(
                key_index(old(storage).orders@, order.id),
                (order.id, Order { status, ..order }),
            ),
            *final(storage) == (StorageSystem {
                orders: final(storage).orders,
                order_histories: final(storage).order_histories,
                ..*old(storage)
            }),
    {
        let ghost s0 = *storage;
        let status = if already + quantity == order.quantity {
            OrderStatus::Closed
        } else {
            OrderStatus::PartiallyFilled
        };
        self.order_history_id = self.order_history_id + 1;
        let record = OrderHistory {
            id: self.order_history_id,
            order_id: order.id,
            quantity,
            timestamp,
            status,
        };
        storage.add_order_history(&record);
        storage.add_order(&Order { status, ..order });
        proof {
            let i = key_index(s0.orders@, order.id);
            assert(0 <= i < s0.orders@.len() && s0.orders@[i].0 == order.id);
            assert(s0.orders@[i].1 == order);
            assert(storage.order_histories@ == s0.order_histories@.push((record.id, record)));
            assert forall|k: int| 0 <= k < storage.orders@.len() implies filled(
                storage.order_histories@,
                #[trigger] storage.orders@[k].0,
            ) <= storage.orders@[k].1.quantity by {
                lemma_filled_push(s0.order_histories@, (record.id, record), s0.orders@[k].0);
                if k != i {
                    assert(s0.orders@[k].0 != order.id);
                }
            }
            assert forall|k: int| 0 <= k < storage.orders@.len() implies (
            #[trigger] storage.orders@[k]).0 == storage.orders@[k].1.id by {
                assert(s0.orders@[k].0 == s0.orders@[k].1.id);
            }
            assert forall|k: int| 0 <= k < storage.order_histories@.len() implies has_key(
                storage.orders@,
                (#[trigger] storage.order_histories@[k]).1.order_id,
            ) by {
                let named = storage.order_histories@[k].1.order_id;
                if k < s0.order_histories@.len() {
                    assert(storage.order_histories@[k] == s0.order_histories@[k]);
                    assert(has_key(s0.orders@, named));
                    let x = choose|x: int| 0 <= x < s0.orders@.len() && s0.orders@[x].0 == named;
                    assert(storage.orders@[x].0 == named);
                } else {
                    assert(storage.orders@[i].0 == named);
                }
            }
            assert forall|k: int| 0 <= k < storage.order_histories@.len() implies (
            #[trigger] storage.order_histories@[k]).0 == storage.order_histories@[k].1.id by {
                if k < s0.order_histories@.len() {
                    assert(storage.order_histories@[k] == s0.order_histories@[k]);
                }
            }
            assert forall|k: int| 0 <= k < storage.order_histories@.len() implies (
            #[trigger] storage.order_histories@[k]).1.order_id <= self.order_last_id by {
                if k < s0.order_histories@.len() {
                    assert(storage.order_histories@[k] == s0.order_histories@[k]);
                } else {
                    assert(s0.orders@[i].0 < self.order_last_id + 1);
                }
            }
        }
        status
    }

    /// Applies one match to the ledger: for the buy leg and then the sell
    /// leg, records the fill with the status the order takes (closed when
    /// its fills reach its quantity, else partially filled), sets that
    /// status on the order, and moves the balances: the buyer pays quantity
    /// times price in the quote asset and receives the quantity in the base
    /// asset, the seller the reverse. Everything is checked before anything
    /// is written, so a refused match changes nothing.
    pub fn create_order_history(
        &mut self,
        order_match: &OrderMatch,
        accounts_system: &mut AccountSystem,
        storage: &mut StorageSystem,
    ) -> (r: Result<(), LedgerError>)
        requires
            ledger_wf(old(storage)),
            old(self).consistent(old(storage)),
            old(accounts_system).consistent(old(storage)),
            old(self).order_history_id <= u64::MAX - 2,
            old(accounts_system).account_currencies_last_id <= u64::MAX - 2,
            old(accounts_system).account_currency_histories_last_id <= u64::MAX - 2,
            old(accounts_system).account_crypto_currencies_last_id <= u64::MAX - 2,
            old(accounts_system).account_crypto_currency_histories_last_id <= u64::MAX - 2,
        ensures
            ledger_wf(final(storage)),
            final(self).consistent(final(storage)),
            final(accounts_system).consistent(final(storage)),
            final(self).order_last_id == old(self).order_last_id,
            final(accounts_system).account_last_id == old(accounts_system).account_last_id,
            match r {
                Ok(()) => {
                    &&& fill_error(old(storage), *order_match) is None
                    &&& match_applied(
                        old(storage),
                        final(storage),
                        *order_match,
                        (old(self).order_history_id + 1) as u64,
                    )
                    &&& final(self).order_history_id == old(self).order_history_id + 2
                    &&& final(accounts_system).account_currency_histories_last_id
                        == old(accounts_system).account_currency_histories_last_id + 2
                    &&& final(accounts_system).account_crypto_currency_histories_last_id
                        == old(accounts_system).account_crypto_currency_histories_last_id + 2
                    &&& final(storage).account_currency_histories@[old(
                        storage,
                    ).account_currency_histories@.len() as int].1.id == old(
                        accounts_system,
                    ).account_currency_histories_last_id + 1
                    &&& final(storage).account_currency_histories@[old(
                        storage,
                    ).account_currency_histories@.len() + 1int].1.id == old(
                        accounts_system,
                    ).account_currency_histories_last_id + 2
                    &&& final(storage).account_crypto_currency_histories@[old(
                        storage,
                    ).account_crypto_currency_histories@.len() as int].1.id == old(
                        accounts_system,
                    ).account_crypto_currency_histories_last_id + 1
                    &&& final(storage).account_crypto_currency_histories@[old(
                        storage,
                    ).account_crypto_currency_histories@.len() + 1int].1.id == old(
                        accounts_system,
                    ).account_crypto_currency_histories_last_id + 2
                },
                Err(e) => {
                    &&& fill_error(old(storage), *order_match) == Some(e)
                    &&& *final(storage) == *old(storage)
                    &&& *final(self) == *old(self)
                    &&& *final(accounts_system) == *old(accounts_system)
                },
            },
    {
        let m = *order_match;
        let buy = match storage.get_order(m.buy_order_id) {
            Some(o) => o,
            None => {
                return Err(LedgerError::OrderNotFound(m.buy_order_id));
            },
        };
        let sell = match storage.get_order(m.sell_order_id) {
            Some(o) => o,
            None => {
                return Err(LedgerError::OrderNotFound(m.sell_order_id));
            },
        };
        if buy.trade_type != TradeType::Buy {
            return Err(LedgerError::SideMismatch(m.buy_order_id));
        }
        if sell.trade_type != TradeType::Sell {
            return Err(LedgerError::SideMismatch(m.sell_order_id));
        }
        if buy.status == OrderStatus::Closed || buy.status == OrderStatus::Cancelled {
            return Err(LedgerError::OrderClosed(m.buy_order_id));
        }
        if sell.status == OrderStatus::Closed || sell.status == OrderStatus::Cancelled {
            return Err(LedgerError::OrderClosed(m.sell_order_id));
        }
        let ghost s0 = *storage;
        let ghost ib = key_index(s0.orders@, m.buy_order_id);
        let ghost is = key_index(s0.orders@, m.sell_order_id);
        proof {
            assert(s0.orders@[ib].1 == buy);
            assert(s0.orders@[is].1 == sell);
            assert(buy.id == m.buy_order_id);
            assert(sell.id == m.sell_order_id);
        }
        let buy_filled = filled_quantity(storage, m.buy_order_id);
        if m.quantity == 0 || m.quantity > buy.quantity - buy_filled {
            return Err(LedgerError::InvalidFill(m.buy_order_id));
        }
        let sell_filled = filled_quantity(storage, m.sell_order_id);
        if m.quantity > sell.quantity - sell_filled {
            return Err(LedgerError::InvalidFill(m.sell_order_id));
        }
        let amount: i64 = match m.quantity.checked_mul(m.price) {
            Some(n) => {
                if n > i64::MAX as u64 {
                    return Err(LedgerError::BalanceOverflow);
                }
                n as i64
            },
            None => {
                return Err(LedgerError::BalanceOverflow);
            },
        };
        if m.quantity > i64::MAX as u64 {
            return Err(LedgerError::BalanceOverflow);
        }
        let q = m.quantity as i64;
        let buyer_quote = match currency_balance(storage, buy.account_id, buy.currency_id).checked_sub(
            amount,
        ) {
            Some(v) => v,
            None => {
                return Err(LedgerError::BalanceOverflow);
            },
        };
        let buyer_base = match crypto_currency_quantity(
            storage,
            buy.account_id,
            buy.crypto_currency_id,
        ).checked_add(q) {
            Some(v) => v,
            None => {
                return Err(LedgerError::BalanceOverflow);
            },
        };
        let same_quote = sell.account_id == buy.account_id && sell.currency_id == buy.currency_id;
        let seller_quote = if same_quote {
            buyer_quote
        } else {
            currency_balance(storage, sell.account_id, sell.currency_id)
        };
        if seller_quote.checked_add(amount).is_none() {
            return Err(LedgerError::BalanceOverflow);
        }
        let same_base = sell.account_id == buy.account_id && sell.crypto_currency_id
            == buy.crypto_currency_id;
        let seller_base = if same_base {
            buyer_base
        } else {
            crypto_currency_quantity(storage, sell.account_id, sell.crypto_currency_id)
        };
        if seller_base.checked_sub(q).is_none() {
            return Err(LedgerError::BalanceOverflow);
        }
        proof {
            assert(balances_fit(&s0, buy, sell, m));
            assert(fill_error(&s0, m) is None);
        }
        let ghost h0 = s0.account_currency_histories@;
        let ghost c0 = s0.account_crypto_currency_histories@;

        // The buy leg.
        let buy_status = self.record_fill(storage, buy, buy_filled, m.quantity, m.timestamp);
        let ghost s1 = *storage;
        let paid = accounts_system.add_currency_to_account(
            storage,
            buy.account_id,
            buy.currency_id,
            -amount,
            m.timestamp,
        );
        proof {
            assert(paid is Ok);
        }
        let ghost s2 = *storage;
        let received = accounts_system.add_crypto_currency_to_account(
            storage,
            buy.account_id,
            buy.crypto_currency_id,
            q,
            m.timestamp,
        );
        proof {
            assert(received is Ok);
        }
        let ghost s3 = *storage;

        // The sell leg.
        proof {
            lemma_key_index(s3.orders@, is);
            lemma_filled_push(s0.order_histories@, s1.order_histories@.last(), m.sell_order_id);
            assert(s1.order_histories@ == s0.order_histories@.push(s1.order_histories@.last()));
            assert(s3.orders@[is].1 == sell);
        }
        let sell_status = self.record_fill(storage, sell, sell_filled, m.quantity, m.timestamp);
        let ghost s4 = *storage;
        proof {
            lemma_recorded_balance_push(h0, s2.account_currency_histories@.last(), sell.account_id, sell.currency_id);
            assert(s2.account_currency_histories@ == h0.push(s2.account_currency_histories@.last()));
        }
        let got = accounts_system.add_currency_to_account(
            storage,
            sell.account_id,
            sell.currency_id,
            amount,
            m.timestamp,
        );
        proof {
            assert(got is Ok);
        }
        let ghost s5 = *storage;
        proof {
            lemma_recorded_quantity_push(c0, s3.account_crypto_currency_histories@.last(), sell.account_id, sell.crypto_currency_id);
            assert(s3.account_crypto_currency_histories@ == c0.push(s3.account_crypto_currency_histories@.last()));
        }
        let gave = accounts_system.add_crypto_currency_to_account(
            storage,
            sell.account_id,
            sell.crypto_currency_id,
            -q,
            m.timestamp,
        );
        proof {
            assert(gave is Ok);
            let h1 = s2.account_currency_histories@;
            let h2 = storage.account_currency_histories@;
            assert(h2 == h1.push(h2.last()));
            assert forall|a: u64, c: u64|
                #[trigger] recorded_balance(storage.account_currency_histories@, a, c)
                    == recorded_balance(h0, a, c) + quote_change(buy, sell, m, a, c) by {
                lemma_recorded_balance_push(h1, h2.last(), a, c);
                lemma_recorded_balance_push(h0, h1.last(), a, c);
            }
            let k1 = s3.account_crypto_currency_histories@;
            let k2 = storage.account_crypto_currency_histories@;
            assert(k2 == k1.push(k2.last()));
            assert forall|a: u64, c: u64|
                #[trigger] recorded_quantity(storage.account_crypto_currency_histories@, a, c)
                    == recorded_quantity(c0, a, c) + base_change(buy, sell, m, a, c) by {
                lemma_recorded_quantity_push(k1, k2.last(), a, c);
                lemma_recorded_quantity_push(c0, k1.last(), a, c);
            }
            // The quote history and holdings.
            let n = h0.len() as int;
            assert(h2.subrange(0, n) == h0);
            assert(h2[n] == h1.last());
            assert(h2[n + 1] == h2.last());
            let q0 = s0.account_currencies@;
            let q2 = s2.account_currencies@;
            let qf = storage.account_currencies@;
            assert(s4.account_currencies@ == q2);
            assert(s5.account_currencies@ == qf);
            assert forall|i: int| 0 <= i < q0.len() implies {
                &&& (#[trigger] qf[i]).0 == q0[i].0
                &&& qf[i].1.id == q0[i].1.id
                &&& qf[i].1.account_id == q0[i].1.account_id
                &&& qf[i].1.currency_id == q0[i].1.currency_id
                &&& !holds_currency(q0[i].1, buy.account_id, buy.currency_id) && !holds_currency(
                    q0[i].1,
                    sell.account_id,
                    sell.currency_id,
                ) ==> qf[i] == q0[i]
            } by {
                assert(q2[i].0 == q0[i].0);
            }
            assert forall|i: int| q0.len() <= i < qf.len() implies holds_currency(
                (#[trigger] qf[i]).1,
                buy.account_id,
                buy.currency_id,
            ) || holds_currency(qf[i].1, sell.account_id, sell.currency_id) by {
                if i < q2.len() {
                    assert(holds_currency(q2[i].1, buy.account_id, buy.currency_id));
                }
            }
            let r1 = h1.last().1;
            assert(names_currency_holding(q2, r1));
            assert forall|j: int|
                0 <= j < qf.len() && holds_currency(
                    #[trigger] qf[j].1,
                    r1.account_id,
                    r1.currency_id,
                ) implies qf[j].1.id == r1.account_currency_id by {
                let w = choose|w: int|
                    0 <= w < q2.len() && holds_currency(#[trigger] q2[w].1, r1.account_id, r1.currency_id);
                if j >= q2.len() {
                    assert(holds_currency(qf[w].1, r1.account_id, r1.currency_id));
                    assert(w < j);
                    assert(!holds_currency(qf[j].1, qf[w].1.account_id, qf[w].1.currency_id));
                }
            }
            let w = choose|w: int|
                0 <= w < q2.len() && holds_currency(#[trigger] q2[w].1, r1.account_id, r1.currency_id);
            assert(holds_currency(qf[w].1, r1.account_id, r1.currency_id));
            assert(names_currency_holding(qf, r1));
            // The base history and holdings.
            let kn = c0.len() as int;
            assert(k2.subrange(0, kn) == c0);
            assert(k2[kn] == k1.last());
            assert(k2[kn + 1] == k2.last());
            let b0 = s0.account_crypto_currencies@;
            let b3 = s3.account_crypto_currencies@;
            let bf = storage.account_crypto_currencies@;
            assert(s2.account_crypto_currencies@ == b0);
            assert(s5.account_crypto_currencies@ == b3);
            assert forall|i: int| 0 <= i < b0.len() implies {
                &&& (#[trigger] bf[i]).0 == b0[i].0
                &&& bf[i].1.id == b0[i].1.id
                &&& bf[i].1.account_id == b0[i].1.account_id
                &&& bf[i].1.crypto_currency_id == b0[i].1.crypto_currency_id
                &&& !holds_crypto(b0[i].1, buy.account_id, buy.crypto_currency_id) && !holds_crypto(
                    b0[i].1,
                    sell.account_id,
                    sell.crypto_currency_id,
                ) ==> bf[i] == b0[i]
            } by {
                assert(b3[i].0 == b0[i].0);
            }
            assert forall|i: int| b0.len() <= i < bf.len() implies holds_crypto(
                (#[trigger] bf[i]).1,
                buy.account_id,
                buy.crypto_currency_id,
            ) || holds_crypto(bf[i].1, sell.account_id, sell.crypto_currency_id) by {
                if i < b3.len() {
                    assert(holds_crypto(b3[i].1, buy.account_id, buy.crypto_currency_id));
                }
            }
        }
        Ok(())
    }
}

} // verus!
