use kubera::accounts::{currency_balance, crypto_currency_quantity, Account, AccountSystem};
use kubera::assets::{AssetSystem, CryptoCurrency, Currency};
use kubera::ledger::LedgerError;
use kubera::matcher::{OrderMatch, OrderMatcher};
use kubera::orders::{ExecutionType, Order, OrderStatus, OrderSystem, PriceType, TradeType};
use kubera::storage::StorageSystem;

struct Exchange {
    storage: StorageSystem,
    accounts: AccountSystem,
    orders: OrderSystem,
    usd: u64,
    btc: u64,
    alice: u64,
    bob: u64,
}

fn exchange() -> Exchange {
    let mut storage = StorageSystem::new();
    let mut assets = AssetSystem::new(&storage);
    let usd = assets.create_currency(&mut storage, Currency { id: 0, symbol: "USD".to_string() });
    let btc = assets.create_crypto_currency(
        &mut storage,
        CryptoCurrency { id: 0, symbol: "BTC".to_string() },
    );
    let mut accounts = AccountSystem::new(&storage);
    let alice = accounts.create_account(
        &mut storage,
        Account { id: 0, name: "Alice".to_string(), timestamp: 1 },
    );
    let bob = accounts.create_account(
        &mut storage,
        Account { id: 0, name: "Bob".to_string(), timestamp: 2 },
    );
    let orders = OrderSystem::new(&storage);
    Exchange { storage, accounts, orders, usd, btc, alice, bob }
}

impl Exchange {
    fn place(&mut self, account_id: u64, trade_type: TradeType, price_type: PriceType, quantity: u64) -> Order {
        self.orders.create_order(
            &mut self.storage,
            Order {
                id: 0,
                account_id,
                trade_type,
                price_type,
                execution_type: ExecutionType::Full,
                crypto_currency_id: self.btc,
                currency_id: self.usd,
                quantity,
                timestamp: 5,
                status: OrderStatus::Open,
            },
        )
    }

    fn apply(&mut self, m: &OrderMatch) -> Result<(), LedgerError> {
        self.orders.create_order_history(m, &mut self.accounts, &mut self.storage)
    }

    fn quote(&self, account_id: u64) -> i64 {
        currency_balance(&self.storage, account_id, self.usd)
    }

    fn base(&self, account_id: u64) -> i64 {
        crypto_currency_quantity(&self.storage, account_id, self.btc)
    }

    fn status(&self, order_id: u64) -> OrderStatus {
        self.storage.get_order(order_id).unwrap().status
    }
}

// Quantities count tenths of a bitcoin; a price counts dollars per tenth.
#[test]
fn half_bitcoin_bought_at_limit_moves_both_balances() {
    let mut ex = exchange();
    let (alice, bob, usd, btc) = (ex.alice, ex.bob, ex.usd, ex.btc);
    assert_eq!(ex.accounts.add_currency_to_account(&mut ex.storage, alice, usd, 100000, 10), Ok(()));
    assert_eq!(ex.accounts.add_crypto_currency_to_account(&mut ex.storage, bob, btc, 10, 10), Ok(()));
    let buy = ex.place(alice, TradeType::Buy, PriceType::Market, 5);
    let sell = ex.place(bob, TradeType::Sell, PriceType::Limit(5000), 10);

    let mut book = OrderMatcher::new(btc, usd);
    book.add_order(buy);
    book.add_order(sell);
    let matches = book.match_orders(20);
    assert_eq!(
        matches,
        vec![OrderMatch { buy_order_id: buy.id, sell_order_id: sell.id, quantity: 5, price: 5000, timestamp: 20 }]
    );
    assert_eq!(ex.apply(&matches[0]), Ok(()));

    assert_eq!(ex.quote(alice), 75000);
    assert_eq!(ex.base(alice), 5);
    assert_eq!(ex.base(bob), 5);
    assert_eq!(ex.quote(bob), 25000);
    assert_eq!(ex.status(sell.id), OrderStatus::PartiallyFilled);
    assert_eq!(ex.status(buy.id), OrderStatus::Closed);

    let fills = ex.storage.get_order_histories_by_order_id(sell.id);
    assert_eq!(fills.len(), 1);
    assert_eq!((fills[0].quantity, fills[0].status, fills[0].timestamp), (5, OrderStatus::PartiallyFilled, 20));
}

#[test]
fn accounts_get_a_zero_holding_per_currency() {
    let ex = exchange();
    let held = ex.storage.get_account_currency_by_account_id(ex.alice);
    assert_eq!(held.len(), 1);
    assert_eq!((held[0].currency_id, held[0].balance), (ex.usd, 0));
    assert!(ex.storage.get_account_crypto_currencies_by_account_id(ex.alice).is_empty());
    assert_eq!(ex.storage.load_accounts().len(), 2);
    assert_eq!(ex.storage.get_last_account().unwrap().name, "Bob");
}

#[test]
fn holding_equals_latest_history_entry() {
    let mut ex = exchange();
    let (alice, usd, btc) = (ex.alice, ex.usd, ex.btc);
    for (t, amount) in [(1u64, 500i64), (2, -200), (3, 50)] {
        assert_eq!(ex.accounts.add_currency_to_account(&mut ex.storage, alice, usd, amount, t), Ok(()));
        assert_eq!(ex.accounts.add_crypto_currency_to_account(&mut ex.storage, alice, btc, amount, t), Ok(()));
    }
    let holding = ex.storage.get_account_currency(alice, usd).unwrap();
    let history = ex.storage.get_currency_history_by_account_id_account_currency_id(alice, holding.id);
    let balances: Vec<i64> = history.iter().map(|h| h.balance).collect();
    assert_eq!(balances, vec![500, 300, 350]);
    assert_eq!(holding.balance, 350);

    let crypto = ex.storage.get_account_crypto_currency(alice, btc).unwrap();
    let history = ex.storage.get_crypto_currency_history_by_account_id_crypto_currency_id(alice, btc);
    assert_eq!(history.last().unwrap().quantity, crypto.quantity);
    assert_eq!(crypto.quantity, 350);
    assert_eq!(ex.storage.get_last_account_crypto_currency_history().unwrap().quantity, 350);
}

#[test]
fn balance_overflow_is_refused_and_changes_nothing() {
    let mut ex = exchange();
    let (alice, usd) = (ex.alice, ex.usd);
    assert_eq!(ex.accounts.add_currency_to_account(&mut ex.storage, alice, usd, i64::MAX, 1), Ok(()));
    let before = ex.storage.load_account_currency_histories().len();
    assert_eq!(
        ex.accounts.add_currency_to_account(&mut ex.storage, alice, usd, 1, 2),
        Err(LedgerError::BalanceOverflow)
    );
    assert_eq!(ex.storage.load_account_currency_histories().len(), before);
    assert_eq!(ex.quote(alice), i64::MAX);
}

#[test]
fn fills_never_exceed_order_quantity() {
    let mut ex = exchange();
    let (alice, bob) = (ex.alice, ex.bob);
    let buy = ex.place(alice, TradeType::Buy, PriceType::Market, 10);
    let sell = ex.place(bob, TradeType::Sell, PriceType::Limit(1), 30);
    let fill = |q: u64| OrderMatch { buy_order_id: buy.id, sell_order_id: sell.id, quantity: q, price: 1, timestamp: 0 };
    assert_eq!(ex.apply(&fill(6)), Ok(()));
    assert_eq!(ex.status(buy.id), OrderStatus::PartiallyFilled);
    assert_eq!(ex.apply(&fill(5)), Err(LedgerError::InvalidFill(buy.id)));
    assert_eq!(ex.apply(&fill(0)), Err(LedgerError::InvalidFill(buy.id)));
    assert_eq!(ex.apply(&fill(4)), Ok(()));
    assert_eq!(ex.status(buy.id), OrderStatus::Closed);
    let total: u64 = ex.storage.get_order_histories_by_order_id(buy.id).iter().map(|h| h.quantity).sum();
    assert_eq!(total, 10);
    assert_eq!(ex.status(sell.id), OrderStatus::PartiallyFilled);
}

#[test]
fn closed_or_cancelled_orders_take_no_fill() {
    let mut ex = exchange();
    let (alice, bob) = (ex.alice, ex.bob);
    let buy = ex.place(alice, TradeType::Buy, PriceType::Market, 2);
    let sell = ex.place(bob, TradeType::Sell, PriceType::Limit(3), 2);
    let fill = OrderMatch { buy_order_id: buy.id, sell_order_id: sell.id, quantity: 2, price: 3, timestamp: 0 };
    assert_eq!(ex.apply(&fill), Ok(()));
    assert_eq!(ex.apply(&fill), Err(LedgerError::OrderClosed(buy.id)));
    assert_eq!(ex.status(buy.id), OrderStatus::Closed);

    let buy2 = ex.place(alice, TradeType::Buy, PriceType::Market, 2);
    let mut sell2 = ex.place(bob, TradeType::Sell, PriceType::Limit(3), 2);
    sell2.status = OrderStatus::Cancelled;
    ex.storage.add_order(&sell2);
    let fill2 = OrderMatch { buy_order_id: buy2.id, sell_order_id: sell2.id, quantity: 1, price: 3, timestamp: 0 };
    assert_eq!(ex.apply(&fill2), Err(LedgerError::OrderClosed(sell2.id)));
    assert_eq!(ex.status(sell2.id), OrderStatus::Cancelled);
    assert_eq!(ex.status(buy2.id), OrderStatus::Open);
}

#[test]
fn refused_matches_name_their_reason() {
    let mut ex = exchange();
    let (alice, bob) = (ex.alice, ex.bob);
    let buy = ex.place(alice, TradeType::Buy, PriceType::Market, 2);
    let sell = ex.place(bob, TradeType::Sell, PriceType::Limit(3), 2);
    let m = |b: u64, s: u64, price: u64| OrderMatch { buy_order_id: b, sell_order_id: s, quantity: 1, price, timestamp: 0 };
    assert_eq!(ex.apply(&m(99, sell.id, 3)), Err(LedgerError::OrderNotFound(99)));
    assert_eq!(ex.apply(&m(buy.id, 98, 3)), Err(LedgerError::OrderNotFound(98)));
    assert_eq!(ex.apply(&m(sell.id, buy.id, 3)), Err(LedgerError::SideMismatch(sell.id)));
    assert_eq!(ex.apply(&m(buy.id, buy.id, 3)), Err(LedgerError::SideMismatch(buy.id)));
    assert_eq!(ex.apply(&m(buy.id, sell.id, u64::MAX)), Err(LedgerError::BalanceOverflow));
    assert!(ex.storage.load_order_histories().is_empty());
    assert_eq!(ex.quote(alice), 0);
}

#[test]
fn self_trade_leaves_balances_unchanged() {
    let mut ex = exchange();
    let alice = ex.alice;
    let buy = ex.place(alice, TradeType::Buy, PriceType::Market, 3);
    let sell = ex.place(alice, TradeType::Sell, PriceType::Limit(7), 3);
    let m = OrderMatch { buy_order_id: buy.id, sell_order_id: sell.id, quantity: 3, price: 7, timestamp: 0 };
    assert_eq!(ex.apply(&m), Ok(()));
    assert_eq!(ex.quote(alice), 0);
    assert_eq!(ex.base(alice), 0);
    assert_eq!(ex.storage.load_account_currency_histories().len(), 2);
    assert_eq!(ex.storage.load_account_crypto_currency_histories().len(), 2);
}

#[test]
fn counters_resume_from_the_store() {
    let mut ex = exchange();
    let order = ex.place(ex.alice, TradeType::Buy, PriceType::Market, 1);
    let mut resumed = OrderSystem::new(&ex.storage);
    assert_eq!(resumed.order_last_id, order.id);
    let next = resumed.create_order(&mut ex.storage, order);
    assert_eq!(next.id, order.id + 1);
    let accounts = AccountSystem::new(&ex.storage);
    assert_eq!(accounts.account_last_id, ex.bob);
    let assets = AssetSystem::new(&ex.storage);
    assert_eq!(assets.get_currencies(&ex.storage)[0].symbol, "USD");
    assert_eq!(assets.get_crypto_currencies(&ex.storage)[0].id, ex.btc);
}

#[test]
fn store_rewrites_rows_in_place() {
    let mut storage = StorageSystem::new();
    storage.add_currency(&Currency { id: 3, symbol: "EUR".to_string() });
    storage.add_currency(&Currency { id: 1, symbol: "USD".to_string() });
    storage.add_currency(&Currency { id: 3, symbol: "CHF".to_string() });
    let ids: Vec<(u64, String)> = storage.load_currencies().into_iter().map(|c| (c.id, c.symbol)).collect();
    assert_eq!(ids, vec![(1, "USD".to_string()), (3, "CHF".to_string())]);
    assert_eq!(storage.get_currency(3).unwrap().symbol, "CHF");
    assert!(storage.get_currency(2).is_none());
    assert_eq!(storage.get_last_currency().unwrap().id, 3);
    assert!(storage.get_last_crypto_currency().is_none());
}

#[test]
fn new_account_gets_zero_holdings_under_next_ids() {
    let mut storage = StorageSystem::new();
    let mut assets = AssetSystem::new(&storage);
    let usd = assets.create_currency(&mut storage, Currency { id: 0, symbol: "USD".to_string() });
    let eur = assets.create_currency(&mut storage, Currency { id: 0, symbol: "EUR".to_string() });
    let mut accounts = AccountSystem::new(&storage);
    let a = accounts.create_account(&mut storage, Account { id: 0, name: "A".to_string(), timestamp: 0 });
    let b = accounts.create_account(&mut storage, Account { id: 0, name: "B".to_string(), timestamp: 0 });
    let rows: Vec<(u64, u64, u64, i64)> = storage
        .load_account_currencies()
        .iter()
        .map(|h| (h.id, h.account_id, h.currency_id, h.balance))
        .collect();
    assert_eq!(rows, vec![(1, a, usd, 0), (2, a, eur, 0), (3, b, usd, 0), (4, b, eur, 0)]);
    assert_eq!(accounts.account_currencies_last_id, 4);
    assert!(storage.load_account_currency_histories().is_empty());
}

#[test]
fn balance_change_rewrites_its_holding_in_place() {
    let mut ex = exchange();
    let (alice, bob, usd, btc) = (ex.alice, ex.bob, ex.usd, ex.btc);
    let before = ex.storage.get_account_currency(alice, usd).unwrap();
    assert_eq!(ex.accounts.add_currency_to_account(&mut ex.storage, alice, usd, 40, 1), Ok(()));
    let after = ex.storage.get_account_currency(alice, usd).unwrap();
    assert_eq!((after.id, after.balance), (before.id, 40));
    let last = ex.storage.get_last_account_currency_history().unwrap();
    assert_eq!((last.account_currency_id, last.balance), (before.id, 40));
    assert_eq!(ex.storage.get_account_currency(bob, usd).unwrap().balance, 0);

    let next = ex.accounts.account_crypto_currencies_last_id + 1;
    assert_eq!(ex.accounts.add_crypto_currency_to_account(&mut ex.storage, bob, btc, 3, 1), Ok(()));
    let made = ex.storage.get_account_crypto_currency(bob, btc).unwrap();
    assert_eq!((made.id, made.quantity), (next, 3));
    assert_eq!(ex.accounts.account_crypto_currencies_last_id, next);
}

#[test]
fn match_appends_buy_leg_rows_before_sell_leg_rows() {
    let mut ex = exchange();
    let (alice, bob) = (ex.alice, ex.bob);
    let buy = ex.place(alice, TradeType::Buy, PriceType::Market, 2);
    let sell = ex.place(bob, TradeType::Sell, PriceType::Limit(3), 2);
    let m = OrderMatch { buy_order_id: buy.id, sell_order_id: sell.id, quantity: 2, price: 3, timestamp: 4 };
    assert_eq!(ex.apply(&m), Ok(()));
    let quote: Vec<(u64, i64)> = ex.storage.load_account_currency_histories().iter().map(|h| (h.account_id, h.balance)).collect();
    assert_eq!(quote, vec![(alice, -6), (bob, 6)]);
    let base: Vec<(u64, i64)> = ex.storage.load_account_crypto_currency_histories().iter().map(|h| (h.account_id, h.quantity)).collect();
    assert_eq!(base, vec![(alice, 2), (bob, -2)]);
    let fills: Vec<u64> = ex.storage.load_order_histories().iter().map(|h| h.order_id).collect();
    assert_eq!(fills, vec![buy.id, sell.id]);
}

#[test]
fn audit_accepts_a_kept_ledger_and_refuses_a_broken_one() {
    let mut ex = exchange();
    let buy = ex.place(ex.alice, TradeType::Buy, PriceType::Market, 2);
    let sell = ex.place(ex.bob, TradeType::Sell, PriceType::Limit(3), 2);
    let m = OrderMatch { buy_order_id: buy.id, sell_order_id: sell.id, quantity: 1, price: 3, timestamp: 0 };
    assert_eq!(ex.apply(&m), Ok(()));
    assert!(kubera::audit::ledger_ok(&ex.storage));

    let mut orphan = ex.storage.get_last_order_history().unwrap();
    orphan.id += 1;
    orphan.order_id = 999;
    ex.storage.add_order_history(&orphan);
    assert!(!kubera::audit::ledger_ok(&ex.storage));

    let mut other = exchange();
    let mut holding = other.storage.get_account_currency(other.alice, other.usd).unwrap();
    holding.balance = 7;
    other.storage.update_account_currency(&holding);
    assert!(!kubera::audit::ledger_ok(&other.storage));
}
