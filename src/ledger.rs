use vstd::prelude::*;

use crate::accounts::{
    AccountCryptoCurrency, AccountCryptoCurrencyHistory, AccountCurrency, AccountCurrencyHistory,
};
use crate::matcher::OrderMatch;
use crate::orders::{Order, OrderHistory, OrderStatus, TradeType};
use crate::storage::{has_currency_holding, holds_crypto, holds_currency, StorageSystem};
use crate::table::{has_key, key_index, lookup};

verus! {

/// Why a ledger operation was refused. A refused operation changes nothing.
#[derive(Clone, Copy, Debug, PartialEq, Eq, Structural)]
pub enum LedgerError {
    /// No order has this id.
    OrderNotFound(u64),
    /// The order named as the buy leg is not a buy, or the sell leg not a sell.
    SideMismatch(u64),
    /// The order is closed or cancelled and takes no more fills.
    OrderClosed(u64),
    /// The fill is empty, or more than the order has left.
    InvalidFill(u64),
    /// A balance would leave the range of `i64`.
    BalanceOverflow,
}

/// The quantity filled so far of `order_id`: the sum over its fill records.
pub open spec fn filled(h: Seq<(u64, OrderHistory)>, order_id: u64) -> int
    decreases h.len(),
{
    if h.len() == 0 {
        0
    } else {
        filled(h.drop_last(), order_id) + if h.last().1.order_id == order_id {
            h.last().1.quantity as int
        } else {
            0
        }
    }
}

/// The quote balance of `account_id` in `currency_id` as its most recent
/// history row records it; zero before the first.
pub open spec fn recorded_balance(
    h: Seq<(u64, AccountCurrencyHistory)>,
    account_id: u64,
    currency_id: u64,
) -> int
    decreases h.len(),
{
    if h.len() == 0 {
        0
    } else if h.last().1.account_id == account_id && h.last().1.currency_id == currency_id {
        h.last().1.balance as int
    } else {
        recorded_balance(h.drop_last(), account_id, currency_id)
    }
}

/// The base quantity of `account_id` in `crypto_currency_id` as its most
/// recent history row records it; zero before the first.
pub open spec fn recorded_quantity(
    h: Seq<(u64, AccountCryptoCurrencyHistory)>,
    account_id: u64,
    crypto_currency_id: u64,
) -> int
    decreases h.len(),
{
    if h.len() == 0 {
        0
    } else if h.last().1.account_id == account_id && h.last().1.crypto_currency_id
        == crypto_currency_id {
        h.last().1.quantity as int
    } else {
        recorded_quantity(h.drop_last(), account_id, crypto_currency_id)
    }
}

/// The status of an order of `quantity` that had `filled` and takes a fill of `q`.
pub open spec fn status_after(filled: int, q: int, quantity: int) -> OrderStatus {
    if filled + q == quantity {
        OrderStatus::Closed
    } else {
        OrderStatus::PartiallyFilled
    }
}

pub open spec fn is_terminal(status: OrderStatus) -> bool {
    status == OrderStatus::Closed || status == OrderStatus::Cancelled
}

/// No order has been filled beyond its quantity.
pub open spec fn fills_within(s: &StorageSystem) -> bool {
    forall|i: int|
        0 <= i < s.orders@.len() ==> filled(s.order_histories@, #[trigger] s.orders@[i].0)
            <= s.orders@[i].1.quantity
}

/// Each holding holds what its history last recorded.
pub open spec fn holdings_match_history(s: &StorageSystem) -> bool {
    &&& forall|i: int|
        0 <= i < s.account_currencies@.len() ==> (#[trigger] s.account_currencies@[i]).1.balance
            == recorded_balance(
            s.account_currency_histories@,
            s.account_currencies@[i].1.account_id,
            s.account_currencies@[i].1.currency_id,
        )
    &&& forall|i: int|
        0 <= i < s.account_crypto_currencies@.len()
            ==> (#[trigger] s.account_crypto_currencies@[i]).1.quantity == recorded_quantity(
            s.account_crypto_currency_histories@,
            s.account_crypto_currencies@[i].1.account_id,
            s.account_crypto_currencies@[i].1.crypto_currency_id,
        )
}

/// At most one holding per account and asset.
pub open spec fn holdings_unique(s: &StorageSystem) -> bool {
    &&& forall|i: int, j: int|
        0 <= i < j < s.account_currencies@.len() ==> !holds_currency(
            #[trigger] s.account_currencies@[j].1,
            (#[trigger] s.account_currencies@[i]).1.account_id,
            s.account_currencies@[i].1.currency_id,
        )
    &&& forall|i: int, j: int|
        0 <= i < j < s.account_crypto_currencies@.len() ==> !holds_crypto(
            #[trigger] s.account_crypto_currencies@[j].1,
            (#[trigger] s.account_crypto_currencies@[i]).1.account_id,
            s.account_crypto_currencies@[i].1.crypto_currency_id,
        )
}

/// Every row sits under its own id, so key order is id order.
pub open spec fn keyed_by_id(s: &StorageSystem) -> bool {
    &&& forall|i: int| 0 <= i < s.accounts@.len() ==> (#[trigger] s.accounts@[i]).0 == s.accounts@[i].1.id
    &&& forall|i: int|
        0 <= i < s.currencies@.len() ==> (#[trigger] s.currencies@[i]).0 == s.currencies@[i].1.id
    &&& forall|i: int|
        0 <= i < s.crypto_currencies@.len() ==> (#[trigger] s.crypto_currencies@[i]).0
            == s.crypto_currencies@[i].1.id
    &&& forall|i: int|
        0 <= i < s.account_currencies@.len() ==> (#[trigger] s.account_currencies@[i]).0
            == s.account_currencies@[i].1.id
    &&& forall|i: int|
        0 <= i < s.account_currency_histories@.len()
            ==> (#[trigger] s.account_currency_histories@[i]).0
            == s.account_currency_histories@[i].1.id
    &&& forall|i: int|
        0 <= i < s.account_crypto_currencies@.len()
            ==> (#[trigger] s.account_crypto_currencies@[i]).0
            == s.account_crypto_currencies@[i].1.id
    &&& forall|i: int|
        0 <= i < s.account_crypto_currency_histories@.len()
            ==> (#[trigger] s.account_crypto_currency_histories@[i]).0
            == s.account_crypto_currency_histories@[i].1.id
    &&& forall|i: int| 0 <= i < s.orders@.len() ==> (#[trigger] s.orders@[i]).0 == s.orders@[i].1.id
    &&& forall|i: int|
        0 <= i < s.order_histories@.len() ==> (#[trigger] s.order_histories@[i]).0
            == s.order_histories@[i].1.id
}

/// Every fill record is of a stored order.
pub open spec fn fills_name_orders(s: &StorageSystem) -> bool {
    forall|i: int|
        0 <= i < s.order_histories@.len() ==> has_key(
            s.orders@,
            (#[trigger] s.order_histories@[i]).1.order_id,
        )
}

/// Every holding, holding-history row and order is of a stored account.
pub open spec fn rows_name_accounts(s: &StorageSystem) -> bool {
    &&& forall|i: int|
        0 <= i < s.account_currencies@.len() ==> has_key(
            s.accounts@,
            (#[trigger] s.account_currencies@[i]).1.account_id,
        )
    &&& forall|i: int|
        0 <= i < s.account_currency_histories@.len() ==> has_key(
            s.accounts@,
            (#[trigger] s.account_currency_histories@[i]).1.account_id,
        )
    &&& forall|i: int|
        0 <= i < s.account_crypto_currencies@.len() ==> has_key(
            s.accounts@,
            (#[trigger] s.account_crypto_currencies@[i]).1.account_id,
        )
    &&& forall|i: int|
        0 <= i < s.account_crypto_currency_histories@.len() ==> has_key(
            s.accounts@,
            (#[trigger] s.account_crypto_currency_histories@[i]).1.account_id,
        )
    &&& forall|i: int|
        0 <= i < s.orders@.len() ==> has_key(s.accounts@, (#[trigger] s.orders@[i]).1.account_id)
}

/// The store as the ledger keeps it.
pub open spec fn ledger_wf(s: &StorageSystem) -> bool {
    &&& s.wf()
    &&& keyed_by_id(s)
    &&& rows_name_accounts(s)
    &&& holdings_unique(s)
    &&& holdings_match_history(s)
    &&& fills_name_orders(s)
    &&& fills_within(s)
}

pub proof fn lemma_recorded_balance_push(
    h: Seq<(u64, AccountCurrencyHistory)>,
    row: (u64, AccountCurrencyHistory),
    account_id: u64,
    currency_id: u64,
)
    ensures
        recorded_balance(h.push(row), account_id, currency_id) == if row.1.account_id
            == account_id && row.1.currency_id == currency_id {
            row.1.balance as int
        } else {
            recorded_balance(h, account_id, currency_id)
        },
{
    assert(h.push(row).drop_last() == h);
}

pub proof fn lemma_recorded_quantity_push(
    h: Seq<(u64, AccountCryptoCurrencyHistory)>,
    row: (u64, AccountCryptoCurrencyHistory),
    account_id: u64,
    crypto_currency_id: u64,
)
    ensures
        recorded_quantity(h.push(row), account_id, crypto_currency_id) == if row.1.account_id
            == account_id && row.1.crypto_currency_id == crypto_currency_id {
            row.1.quantity as int
        } else {
            recorded_quantity(h, account_id, crypto_currency_id)
        },
{
    assert(h.push(row).drop_last() == h);
}

pub proof fn lemma_filled_push(h: Seq<(u64, OrderHistory)>, row: (u64, OrderHistory), order_id: u64)
    ensures
        filled(h.push(row), order_id) == filled(h, order_id) + if row.1.order_id == order_id {
            row.1.quantity as int
        } else {
            0
        },
{
    assert(h.push(row).drop_last() == h);
}

/// An account that no quote history row names holds zero of every currency.
pub proof fn lemma_recorded_balance_unnamed(h: Seq<(u64, AccountCurrencyHistory)>, account_id: u64)
    requires
        forall|i: int| 0 <= i < h.len() ==> (#[trigger] h[i]).1.account_id != account_id,
    ensures
        forall|c: u64| #[trigger] recorded_balance(h, account_id, c) == 0,
    decreases h.len(),
{
    if h.len() > 0 {
        assert forall|i: int| 0 <= i < h.drop_last().len() implies (
        #[trigger] h.drop_last()[i]).1.account_id != account_id by {
            assert(h.drop_last()[i] == h[i]);
        }
        lemma_recorded_balance_unnamed(h.drop_last(), account_id);
        assert(h[h.len() - 1].1.account_id != account_id);
        assert forall|c: u64| #[trigger] recorded_balance(h, account_id, c) == 0 by {
            assert(recorded_balance(h.drop_last(), account_id, c) == 0);
        }
    }
}

/// An order that no fill record names has filled nothing.
pub proof fn lemma_filled_unnamed(h: Seq<(u64, OrderHistory)>, order_id: u64)
    requires
        forall|i: int| 0 <= i < h.len() ==> (#[trigger] h[i]).1.order_id != order_id,
    ensures
        filled(h, order_id) == 0,
    decreases h.len(),
{
    if h.len() > 0 {
        lemma_filled_unnamed(h.drop_last(), order_id);
    }
}

/// Where the quote holding of `account_id` in `currency_id` stands.
pub open spec fn currency_holding_index(
    s: Seq<(u64, AccountCurrency)>,
    account_id: u64,
    currency_id: u64,
) -> int {
    choose|i: int| 0 <= i < s.len() && holds_currency(s[i].1, account_id, currency_id)
}

/// Where the base holding of `account_id` in `crypto_currency_id` stands.
pub open spec fn crypto_holding_index(
    s: Seq<(u64, AccountCryptoCurrency)>,
    account_id: u64,
    crypto_currency_id: u64,
) -> int {
    choose|i: int| 0 <= i < s.len() && holds_crypto(s[i].1, account_id, crypto_currency_id)
}

/// In a ledger, the quote holding found at `i` is the one of its pair.
pub proof fn lemma_currency_holding_index(s: &StorageSystem, i: int)
    requires
        ledger_wf(s),
        0 <= i < s.account_currencies@.len(),
    ensures
        currency_holding_index(
            s.account_currencies@,
            s.account_currencies@[i].1.account_id,
            s.account_currencies@[i].1.currency_id,
        ) == i,
{
    let h = s.account_currencies@;
    let j = currency_holding_index(h, h[i].1.account_id, h[i].1.currency_id);
    assert(holds_currency(h[i].1, h[i].1.account_id, h[i].1.currency_id));
    if j < i {
        assert(!holds_currency(h[i].1, h[j].1.account_id, h[j].1.currency_id));
    } else if j > i {
        assert(!holds_currency(h[j].1, h[i].1.account_id, h[i].1.currency_id));
    }
}

/// In a ledger, the base holding found at `i` is the one of its pair.
pub proof fn lemma_crypto_holding_index(s: &StorageSystem, i: int)
    requires
        ledger_wf(s),
        0 <= i < s.account_crypto_currencies@.len(),
    ensures
        crypto_holding_index(
            s.account_crypto_currencies@,
            s.account_crypto_currencies@[i].1.account_id,
            s.account_crypto_currencies@[i].1.crypto_currency_id,
        ) == i,
{
    let h = s.account_crypto_currencies@;
    let j = crypto_holding_index(h, h[i].1.account_id, h[i].1.crypto_currency_id);
    assert(holds_crypto(h[i].1, h[i].1.account_id, h[i].1.crypto_currency_id));
    if j < i {
        assert(!holds_crypto(h[i].1, h[j].1.account_id, h[j].1.crypto_currency_id));
    } else if j > i {
        assert(!holds_crypto(h[j].1, h[i].1.account_id, h[i].1.crypto_currency_id));
    }
}

/// `after` keeps each quote holding of `before` in its place, under its key
/// and id and for its account and asset; those of neither pair are
/// untouched; and each holding added is of one of the pairs.
pub open spec fn currency_holdings_kept(
    before: Seq<(u64, AccountCurrency)>,
    after: Seq<(u64, AccountCurrency)>,
    a1: u64,
    c1: u64,
    a2: u64,
    c2: u64,
) -> bool {
    &&& after.len() >= before.len()
    &&& forall|i: int|
        0 <= i < before.len() ==> {
            &&& (#[trigger] after[i]).0 == before[i].0
            &&& after[i].1.id == before[i].1.id
            &&& after[i].1.account_id == before[i].1.account_id
            &&& after[i].1.currency_id == before[i].1.currency_id
            &&& !holds_currency(before[i].1, a1, c1) && !holds_currency(before[i].1, a2, c2)
                ==> after[i] == before[i]
        }
    &&& forall|i: int|
        before.len() <= i < after.len() ==> holds_currency((#[trigger] after[i]).1, a1, c1)
            || holds_currency(after[i].1, a2, c2)
}

/// The base-holding counterpart of `currency_holdings_kept`.
pub open spec fn crypto_holdings_kept(
    before: Seq<(u64, AccountCryptoCurrency)>,
    after: Seq<(u64, AccountCryptoCurrency)>,
    a1: u64,
    c1: u64,
    a2: u64,
    c2: u64,
) -> bool {
    &&& after.len() >= before.len()
    &&& forall|i: int|
        0 <= i < before.len() ==> {
            &&& (#[trigger] after[i]).0 == before[i].0
            &&& after[i].1.id == before[i].1.id
            &&& after[i].1.account_id == before[i].1.account_id
            &&& after[i].1.crypto_currency_id == before[i].1.crypto_currency_id
            &&& !holds_crypto(before[i].1, a1, c1) && !holds_crypto(before[i].1, a2, c2)
                ==> after[i] == before[i]
        }
    &&& forall|i: int|
        before.len() <= i < after.len() ==> holds_crypto((#[trigger] after[i]).1, a1, c1)
            || holds_crypto(after[i].1, a2, c2)
}

/// The history row `r` names, by id, the quote holding of its pair in `holdings`.
pub open spec fn names_currency_holding(
    holdings: Seq<(u64, AccountCurrency)>,
    r: AccountCurrencyHistory,
) -> bool {
    &&& has_currency_holding(holdings, r.account_id, r.currency_id)
    &&& forall|j: int|
        0 <= j < holdings.len() && holds_currency(
            #[trigger] holdings[j].1,
            r.account_id,
            r.currency_id,
        ) ==> holdings[j].1.id == r.account_currency_id
}

/// `after` is `before` with `amount` added to the quote balance of
/// `account_id` in `currency_id`: one history row records the new balance at
/// `timestamp`, and only the quote holdings and their history change.
pub open spec fn currency_moved(
    before: &StorageSystem,
    after: &StorageSystem,
    account_id: u64,
    currency_id: u64,
    amount: int,
    timestamp: u64,
) -> bool {
    let row = after.account_currency_histories@.last().1;
    &&& after.account_currency_histories@.len() == before.account_currency_histories@.len() + 1
    &&& after.account_currency_histories@.drop_last() == before.account_currency_histories@
    &&& row.account_id == account_id
    &&& row.currency_id == currency_id
    &&& row.balance == recorded_balance(before.account_currency_histories@, account_id, currency_id)
        + amount
    &&& row.timestamp == timestamp
    &&& currency_holdings_kept(
        before.account_currencies@,
        after.account_currencies@,
        account_id,
        currency_id,
        account_id,
        currency_id,
    )
    &&& names_currency_holding(after.account_currencies@, row)
    &&& *after == (StorageSystem {
        account_currencies: after.account_currencies,
        account_currency_histories: after.account_currency_histories,
        ..*before
    })
}

/// `after` is `before` with `amount` added to the base quantity of
/// `account_id` in `crypto_currency_id`: one history row records the new
/// quantity at `timestamp`, and only the base holdings and their history change.
pub open spec fn crypto_moved(
    before: &StorageSystem,
    after: &StorageSystem,
    account_id: u64,
    crypto_currency_id: u64,
    amount: int,
    timestamp: u64,
) -> bool {
    let row = after.account_crypto_currency_histories@.last().1;
    &&& after.account_crypto_currency_histories@.len()
        == before.account_crypto_currency_histories@.len() + 1
    &&& after.account_crypto_currency_histories@.drop_last()
        == before.account_crypto_currency_histories@
    &&& row.account_id == account_id
    &&& row.crypto_currency_id == crypto_currency_id
    &&& row.quantity == recorded_quantity(
        before.account_crypto_currency_histories@,
        account_id,
        crypto_currency_id,
    ) + amount
    &&& row.timestamp == timestamp
    &&& crypto_holdings_kept(
        before.account_crypto_currencies@,
        after.account_crypto_currencies@,
        account_id,
        crypto_currency_id,
        account_id,
        crypto_currency_id,
    )
    &&& *after == (StorageSystem {
        account_crypto_currencies: after.account_crypto_currencies,
        account_crypto_currency_histories: after.account_crypto_currency_histories,
        ..*before
    })
}

/// The fills of a prefix of the records add up to no more than all of them.
pub proof fn lemma_filled_prefix(h: Seq<(u64, OrderHistory)>, k: int, order_id: u64)
    requires
        0 <= k <= h.len(),
    ensures
        0 <= filled(h.subrange(0, k), order_id) <= filled(h, order_id),
    decreases h.len(),
{
    if h.len() > 0 {
        if k == h.len() {
            assert(h.subrange(0, k) == h);
            lemma_filled_prefix(h.drop_last(), k - 1, order_id);
        } else {
            assert(h.subrange(0, k) == h.drop_last().subrange(0, k));
            lemma_filled_prefix(h.drop_last(), k, order_id);
        }
    }
}

pub open spec fn in_i64(x: int) -> bool {
    i64::MIN <= x <= i64::MAX
}

/// What the buyer pays for `m`: quantity times price.
pub open spec fn notional(m: OrderMatch) -> int {
    m.quantity as int * m.price as int
}

/// The change `m` makes to the quote balance of `account_id` in
/// `currency_id`: the buyer pays the notional, the seller receives it.
pub open spec fn quote_change(
    buy: Order,
    sell: Order,
    m: OrderMatch,
    account_id: u64,
    currency_id: u64,
) -> int {
    (if buy.account_id == account_id && buy.currency_id == currency_id {
        -notional(m)
    } else {
        0
    }) + (if sell.account_id == account_id && sell.currency_id == currency_id {
        notional(m)
    } else {
        0
    })
}

/// The change `m` makes to the base quantity of `account_id` in
/// `crypto_currency_id`: the buyer receives the quantity, the seller gives it.
pub open spec fn base_change(
    buy: Order,
    sell: Order,
    m: OrderMatch,
    account_id: u64,
    crypto_currency_id: u64,
) -> int {
    (if buy.account_id == account_id && buy.crypto_currency_id == crypto_currency_id {
        m.quantity as int
    } else {
        0
    }) + (if sell.account_id == account_id && sell.crypto_currency_id == crypto_currency_id {
        -m.quantity
    } else {
        0
    })
}

/// Every amount moved by `m`, and every balance it passes through (the buy
/// leg's first, then the sell leg's), fits in `i64`.
pub open spec fn balances_fit(s: &StorageSystem, buy: Order, sell: Order, m: OrderMatch) -> bool {
    let h = s.account_currency_histories@;
    let c = s.account_crypto_currency_histories@;
    &&& notional(m) <= i64::MAX
    &&& m.quantity <= i64::MAX
    &&& in_i64(recorded_balance(h, buy.account_id, buy.currency_id) - notional(m))
    &&& in_i64(recorded_quantity(c, buy.account_id, buy.crypto_currency_id) + m.quantity)
    &&& in_i64(
        recorded_balance(h, sell.account_id, sell.currency_id) + quote_change(
            buy,
            sell,
            m,
            sell.account_id,
            sell.currency_id,
        ),
    )
    &&& in_i64(
        recorded_quantity(c, sell.account_id, sell.crypto_currency_id) + base_change(
            buy,
            sell,
            m,
            sell.account_id,
            sell.crypto_currency_id,
        ),
    )
}

/// Why `m` cannot be applied to `s`, checked in this order; `None` when it can.
pub open spec fn fill_error(s: &StorageSystem, m: OrderMatch) -> Option<LedgerError> {
    let fills = s.order_histories@;
    match (lookup(s.orders@, m.buy_order_id), lookup(s.orders@, m.sell_order_id)) {
        (None, _) => Some(LedgerError::OrderNotFound(m.buy_order_id)),
        (_, None) => Some(LedgerError::OrderNotFound(m.sell_order_id)),
        (Some(buy), Some(sell)) => {
            if buy.trade_type != TradeType::Buy {
                Some(LedgerError::SideMismatch(m.buy_order_id))
            } else if sell.trade_type != TradeType::Sell {
                Some(LedgerError::SideMismatch(m.sell_order_id))
            } else if is_terminal(buy.status) {
                Some(LedgerError::OrderClosed(m.buy_order_id))
            } else if is_terminal(sell.status) {
                Some(LedgerError::OrderClosed(m.sell_order_id))
            } else if m.quantity == 0 || filled(fills, m.buy_order_id) + m.quantity
                > buy.quantity {
                Some(LedgerError::InvalidFill(m.buy_order_id))
            } else if filled(fills, m.sell_order_id) + m.quantity > sell.quantity {
                Some(LedgerError::InvalidFill(m.sell_order_id))
            } else if !balances_fit(s, buy, sell, m) {
                Some(LedgerError::BalanceOverflow)
            } else {
                None
            }
        },
    }
}

/// `after` is `before` with `m` applied: a fill record for each leg under
/// `history_id` and the id after it, each with the status its order takes,
/// the two orders carrying those statuses, and the balances of both
/// counterparties moved. Accounts and assets are untouched.
pub open spec fn match_applied(
    before: &StorageSystem,
    after: &StorageSystem,
    m: OrderMatch,
    history_id: u64,
) -> bool {
    let fills = before.order_histories@;
    let buy = lookup(before.orders@, m.buy_order_id)->Some_0;
    let sell = lookup(before.orders@, m.sell_order_id)->Some_0;
    let buy_status = status_after(filled(fills, m.buy_order_id), m.quantity as int, buy.quantity as int);
    let sell_status = status_after(
        filled(fills, m.sell_order_id),
        m.quantity as int,
        sell.quantity as int,
    );
    &&& after.order_histories@ == fills.push(
        (
            history_id,
            OrderHistory {
                id: history_id,
                order_id: m.buy_order_id,
                quantity: m.quantity,
                timestamp: m.timestamp,
                status: buy_status,
            },
        ),
    ).push(
        (
            (history_id + 1) as u64,
            OrderHistory {
                id: (history_id + 1) as u64,
                order_id: m.sell_order_id,
                quantity: m.quantity,
                timestamp: m.timestamp,
                status: sell_status,
            },
        ),
    )
    &&& after.orders@ == before.orders@.update(
        key_index(before.orders@, m.buy_order_id),
        (m.buy_order_id, Order { status: buy_status, ..buy }),
    ).update(
        key_index(before.orders@, m.sell_order_id),
        (m.sell_order_id, Order { status: sell_status, ..sell }),
    )
    &&& after.account_currency_histories@.len() == before.account_currency_histories@.len() + 2
    &&& after.account_crypto_currency_histories@.len()
        == before.account_crypto_currency_histories@.len() + 2
    &&& forall|account_id: u64, currency_id: u64|
        #[trigger] recorded_balance(after.account_currency_histories@, account_id, currency_id)
            == recorded_balance(before.account_currency_histories@, account_id, currency_id)
            + quote_change(buy, sell, m, account_id, currency_id)
    &&& forall|account_id: u64, crypto_currency_id: u64|
        #[trigger] recorded_quantity(
            after.account_crypto_currency_histories@,
            account_id,
            crypto_currency_id,
        ) == recorded_quantity(
            before.account_crypto_currency_histories@,
            account_id,
            crypto_currency_id,
        ) + base_change(buy, sell, m, account_id, crypto_currency_id)
    &&& after.accounts == before.accounts
    &&& after.currencies == before.currencies
    &&& after.crypto_currencies == before.crypto_currencies
    &&& quote_rows_appended(before, after, buy, sell, m)
    &&& base_rows_appended(before, after, buy, sell, m)
}

/// The quote history of `after` is that of `before` and two rows more: the
/// buyer's balance after paying for `m`, then the seller's after being paid,
/// each naming its holding; the other quote holdings are untouched.
pub open spec fn quote_rows_appended(
    before: &StorageSystem,
    after: &StorageSystem,
    buy: Order,
    sell: Order,
    m: OrderMatch,
) -> bool {
    let h = before.account_currency_histories@;
    let n = h.len() as int;
    let rows = after.account_currency_histories@;
    &&& rows.len() == n + 2
    &&& rows.subrange(0, n) == h
    &&& rows[n].1.account_id == buy.account_id
    &&& rows[n].1.currency_id == buy.currency_id
    &&& rows[n].1.balance == recorded_balance(h, buy.account_id, buy.currency_id) - notional(m)
    &&& rows[n].1.timestamp == m.timestamp
    &&& names_currency_holding(after.account_currencies@, rows[n].1)
    &&& rows[n + 1].1.account_id == sell.account_id
    &&& rows[n + 1].1.currency_id == sell.currency_id
    &&& rows[n + 1].1.balance == recorded_balance(h, sell.account_id, sell.currency_id)
        + quote_change(buy, sell, m, sell.account_id, sell.currency_id)
    &&& rows[n + 1].1.timestamp == m.timestamp
    &&& names_currency_holding(after.account_currencies@, rows[n + 1].1)
    &&& currency_holdings_kept(
        before.account_currencies@,
        after.account_currencies@,
        buy.account_id,
        buy.currency_id,
        sell.account_id,
        sell.currency_id,
    )
}

/// The base history of `after` is that of `before` and two rows more: the
/// buyer's quantity after receiving `m`, then the seller's after giving it;
/// the other base holdings are untouched.
pub open spec fn base_rows_appended(
    before: &StorageSystem,
    after: &StorageSystem,
    buy: Order,
    sell: Order,
    m: OrderMatch,
) -> bool {
    let h = before.account_crypto_currency_histories@;
    let n = h.len() as int;
    let rows = after.account_crypto_currency_histories@;
    &&& rows.len() == n + 2
    &&& rows.subrange(0, n) == h
    &&& rows[n].1.account_id == buy.account_id
    &&& rows[n].1.crypto_currency_id == buy.crypto_currency_id
    &&& rows[n].1.quantity == recorded_quantity(h, buy.account_id, buy.crypto_currency_id)
        + m.quantity
    &&& rows[n].1.timestamp == m.timestamp
    &&& rows[n + 1].1.account_id == sell.account_id
    &&& rows[n + 1].1.crypto_currency_id == sell.crypto_currency_id
    &&& rows[n + 1].1.quantity == recorded_quantity(
        h,
        sell.account_id,
        sell.crypto_currency_id,
    ) + base_change(buy, sell, m, sell.account_id, sell.crypto_currency_id)
    &&& rows[n + 1].1.timestamp == m.timestamp
    &&& crypto_holdings_kept(
        before.account_crypto_currencies@,
        after.account_crypto_currencies@,
        buy.account_id,
        buy.crypto_currency_id,
        sell.account_id,
        sell.crypto_currency_id,
    )
}

/// A ledger never holds more fills for an order than the order's quantity.
pub proof fn lemma_fills_within_quantity(s: &StorageSystem, order_id: u64)
    requires
        ledger_wf(s),
        lookup(s.orders@, order_id) is Some,
    ensures
        filled(s.order_histories@, order_id) <= (lookup(s.orders@, order_id)->Some_0).quantity,
{
    let i = key_index(s.orders@, order_id);
    assert(s.orders@[i].0 == order_id);
}

/// The recorded balance of a pair is the balance of its most recent row.
pub proof fn lemma_recorded_balance_is_latest(
    h: Seq<(u64, AccountCurrencyHistory)>,
    k: int,
    account_id: u64,
    currency_id: u64,
)
    requires
        0 <= k < h.len(),
        h[k].1.account_id == account_id && h[k].1.currency_id == currency_id,
        forall|x: int|
            k < x < h.len() ==> !((#[trigger] h[x]).1.account_id == account_id && h[x].1.currency_id
                == currency_id),
    ensures
        recorded_balance(h, account_id, currency_id) == h[k].1.balance,
    decreases h.len(),
{
    if k < h.len() - 1 {
        assert(!(h[h.len() - 1].1.account_id == account_id && h[h.len() - 1].1.currency_id
            == currency_id));
        lemma_recorded_balance_is_latest(h.drop_last(), k, account_id, currency_id);
    }
}

/// The recorded quantity of a pair is the quantity of its most recent row.
pub proof fn lemma_recorded_quantity_is_latest(
    h: Seq<(u64, AccountCryptoCurrencyHistory)>,
    k: int,
    account_id: u64,
    crypto_currency_id: u64,
)
    requires
        0 <= k < h.len(),
        h[k].1.account_id == account_id && h[k].1.crypto_currency_id == crypto_currency_id,
        forall|x: int|
            k < x < h.len() ==> !((#[trigger] h[x]).1.account_id == account_id
                && h[x].1.crypto_currency_id == crypto_currency_id),
    ensures
        recorded_quantity(h, account_id, crypto_currency_id) == h[k].1.quantity,
    decreases h.len(),
{
    if k < h.len() - 1 {
        assert(!(h[h.len() - 1].1.account_id == account_id && h[h.len() - 1].1.crypto_currency_id
            == crypto_currency_id));
        lemma_recorded_quantity_is_latest(h.drop_last(), k, account_id, crypto_currency_id);
    }
}

/// In a ledger, a quote holding equals the balance stored in the most recent
/// history row of its account and asset.
pub proof fn lemma_holding_matches_latest_history(s: &StorageSystem, i: int, k: int)
    requires
        ledger_wf(s),
        0 <= i < s.account_currencies@.len(),
        0 <= k < s.account_currency_histories@.len(),
        holds_history(
            s.account_currency_histories@[k].1,
            s.account_currencies@[i].1.account_id,
            s.account_currencies@[i].1.currency_id,
        ),
        forall|x: int|
            k < x < s.account_currency_histories@.len() ==> !holds_history(
                #[trigger] s.account_currency_histories@[x].1,
                s.account_currencies@[i].1.account_id,
                s.account_currencies@[i].1.currency_id,
            ),
    ensures
        s.account_currencies@[i].1.balance == s.account_currency_histories@[k].1.balance,
{
    let h = s.account_currency_histories@;
    let a = s.account_currencies@[i].1.account_id;
    let c = s.account_currencies@[i].1.currency_id;
    assert forall|x: int| k < x < h.len() implies !((#[trigger] h[x]).1.account_id == a
        && h[x].1.currency_id == c) by {
        assert(!holds_history(h[x].1, a, c));
    }
    lemma_recorded_balance_is_latest(h, k, a, c);
}

/// In a ledger, a base holding equals the quantity stored in the most recent
/// history row of its account and asset.
pub proof fn lemma_crypto_holding_matches_latest_history(s: &StorageSystem, i: int, k: int)
    requires
        ledger_wf(s),
        0 <= i < s.account_crypto_currencies@.len(),
        0 <= k < s.account_crypto_currency_histories@.len(),
        holds_crypto_history(
            s.account_crypto_currency_histories@[k].1,
            s.account_crypto_currencies@[i].1.account_id,
            s.account_crypto_currencies@[i].1.crypto_currency_id,
        ),
        forall|x: int|
            k < x < s.account_crypto_currency_histories@.len() ==> !holds_crypto_history(
                #[trigger] s.account_crypto_currency_histories@[x].1,
                s.account_crypto_currencies@[i].1.account_id,
                s.account_crypto_currencies@[i].1.crypto_currency_id,
            ),
    ensures
        s.account_crypto_currencies@[i].1.quantity
            == s.account_crypto_currency_histories@[k].1.quantity,
{
    let h = s.account_crypto_currency_histories@;
    let a = s.account_crypto_currencies@[i].1.account_id;
    let c = s.account_crypto_currencies@[i].1.crypto_currency_id;
    assert forall|x: int| k < x < h.len() implies !((#[trigger] h[x]).1.account_id == a
        && h[x].1.crypto_currency_id == c) by {
        assert(!holds_crypto_history(h[x].1, a, c));
    }
    lemma_recorded_quantity_is_latest(h, k, a, c);
}

/// The history row `r` is one of `account_id` in `currency_id`.
pub open spec fn holds_history(r: AccountCurrencyHistory, account_id: u64, currency_id: u64) -> bool {
    r.account_id == account_id && r.currency_id == currency_id
}

/// The history row `r` is one of `account_id` in `crypto_currency_id`.
pub open spec fn holds_crypto_history(
    r: AccountCryptoCurrencyHistory,
    account_id: u64,
    crypto_currency_id: u64,
) -> bool {
    r.account_id == account_id && r.crypto_currency_id == crypto_currency_id
}

/// Status only moves forward: a closed or cancelled order refuses every
/// further fill, so a match that names it changes nothing; and a fill never
/// leaves an order open or cancelled.
pub proof fn lemma_terminal_orders_take_no_fill(s: &StorageSystem, m: OrderMatch)
    requires
        (lookup(s.orders@, m.buy_order_id) matches Some(o) && is_terminal(o.status)) || (lookup(
            s.orders@,
            m.sell_order_id,
        ) matches Some(o) && is_terminal(o.status)),
    ensures
        fill_error(s, m) is Some,
        forall|f: int, q: int, quantity: int|
            #![auto]
            status_after(f, q, quantity) != OrderStatus::Open && status_after(f, q, quantity)
                != OrderStatus::Cancelled,
{
}

} // verus!
