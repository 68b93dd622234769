use kubera::matcher::{MatcherSystem, OrderMatch, OrderMatcher, QUEUE_CAPACITY};
use kubera::orders::{ExecutionType, Order, OrderStatus, PriceType, TradeType};

const BTC: u64 = 1;
const USD: u64 = 1;

fn order(id: u64, trade_type: TradeType, price_type: PriceType, quantity: u64) -> Order {
    Order {
        id,
        account_id: id,
        trade_type,
        price_type,
        execution_type: ExecutionType::Partial,
        crypto_currency_id: BTC,
        currency_id: USD,
        quantity,
        timestamp: 0,
        status: OrderStatus::Open,
    }
}

fn market_buy(id: u64, quantity: u64) -> Order {
    order(id, TradeType::Buy, PriceType::Market, quantity)
}

fn limit_sell(id: u64, price: u64, quantity: u64) -> Order {
    order(id, TradeType::Sell, PriceType::Limit(price), quantity)
}

#[test]
fn market_buy_takes_smaller_quantity_at_sell_limit() {
    let mut book = OrderMatcher::new(BTC, USD);
    book.add_order(market_buy(1, 5));
    book.add_order(limit_sell(2, 5000, 10));
    let matches = book.match_orders(77);
    assert_eq!(
        matches,
        vec![OrderMatch { buy_order_id: 1, sell_order_id: 2, quantity: 5, price: 5000, timestamp: 77 }]
    );
    assert_eq!(book.orders.len(), 1);
    assert_eq!(book.orders[0].id, 2);
    assert_eq!(book.orders[0].quantity, 5);
}

#[test]
fn buy_walks_sells_in_submission_order() {
    let mut book = OrderMatcher::new(BTC, USD);
    book.add_order(market_buy(1, 15));
    book.add_order(limit_sell(2, 100, 10));
    book.add_order(limit_sell(3, 120, 10));
    let matches = book.match_orders(1);
    assert_eq!(matches.len(), 2);
    assert_eq!((matches[0].sell_order_id, matches[0].quantity, matches[0].price), (2, 10, 100));
    assert_eq!((matches[1].sell_order_id, matches[1].quantity, matches[1].price), (3, 5, 120));
    assert_eq!(book.orders.len(), 1);
    assert_eq!((book.orders[0].id, book.orders[0].quantity), (3, 5));
}

#[test]
fn sell_serves_buys_in_submission_order() {
    let mut book = OrderMatcher::new(BTC, USD);
    book.add_order(market_buy(1, 4));
    book.add_order(market_buy(2, 4));
    book.add_order(limit_sell(3, 10, 6));
    let matches = book.match_orders(1);
    assert_eq!(matches.len(), 2);
    assert_eq!((matches[0].buy_order_id, matches[0].quantity), (1, 4));
    assert_eq!((matches[1].buy_order_id, matches[1].quantity), (2, 2));
    assert_eq!(book.orders.len(), 1);
    assert_eq!((book.orders[0].id, book.orders[0].quantity), (2, 2));
}

#[test]
fn only_market_buy_crosses_limit_sell() {
    let mut book = OrderMatcher::new(BTC, USD);
    book.add_order(order(1, TradeType::Buy, PriceType::Limit(200), 5));
    book.add_order(order(2, TradeType::Sell, PriceType::Limit(100), 5));
    book.add_order(order(3, TradeType::Sell, PriceType::Market, 5));
    book.add_order(market_buy(4, 0));
    assert!(book.match_orders(1).is_empty());
    // Nothing crossed, so the book is as it was, the empty market buy included.
    let ids: Vec<u64> = book.orders.iter().map(|o| o.id).collect();
    assert_eq!(ids, vec![1, 2, 3, 4]);
}

#[test]
fn leftovers_rest_for_the_next_pass() {
    let mut book = OrderMatcher::new(BTC, USD);
    book.add_order(market_buy(1, 3));
    assert!(book.match_orders(1).is_empty());
    book.add_order(limit_sell(2, 9, 3));
    let matches = book.match_orders(2);
    assert_eq!(matches.len(), 1);
    assert_eq!(matches[0].quantity, 3);
    assert!(book.orders.is_empty());
}

#[test]
fn match_quantity_is_min_and_both_legs_decrease() {
    let mut book = OrderMatcher::new(BTC, USD);
    book.add_order(limit_sell(1, 50, 7));
    book.add_order(market_buy(2, 12));
    let matches = book.match_orders(1);
    assert_eq!(matches.len(), 1);
    assert_eq!(matches[0].quantity, 7u64.min(12));
    assert_eq!(book.orders.len(), 1);
    assert_eq!(book.orders[0].id, 2);
    assert_eq!(book.orders[0].quantity, 12 - 7);
}

#[test]
fn same_submissions_give_same_matches() {
    let run = || {
        let mut book = OrderMatcher::new(BTC, USD);
        let mut all = Vec::new();
        for (id, o) in [market_buy(1, 8), limit_sell(2, 30, 3), limit_sell(3, 31, 9)].iter().enumerate() {
            book.add_order(*o);
            all.extend(book.match_orders(id as u64));
        }
        book.add_order(market_buy(4, 5));
        all.extend(book.match_orders(9));
        (all, book.orders.clone())
    };
    let first = run();
    let second = run();
    assert_eq!(first, second);
    assert_eq!(first.0.len(), 3);
}

#[test]
fn order_of_another_pair_is_not_accepted() {
    let book = OrderMatcher::new(BTC, USD);
    let mut other = market_buy(1, 5);
    other.currency_id = USD + 1;
    assert!(!book.accepts(&other));
    assert!(book.accepts(&market_buy(2, 5)));
}

#[test]
fn worker_cycle_stops_on_order_of_another_pair() {
    let system = MatcherSystem::new();
    let mut book = OrderMatcher::new(BTC, USD);
    book.add_order(limit_sell(1, 10, 5));
    let mut other = market_buy(2, 5);
    other.crypto_currency_id = BTC + 1;
    assert_eq!(system.add_order(other), Ok(()));
    assert_eq!(system.run_cycle(&mut book, 1).err(), Some(other));
    assert_eq!(book.orders.len(), 1);
    assert_eq!(book.orders[0], limit_sell(1, 10, 5));
    assert!(system.get_order_match().is_none());
}

#[test]
fn worker_cycle_moves_orders_and_delivers_matches() {
    let system = MatcherSystem::new();
    let mut book = OrderMatcher::new(BTC, USD);
    assert_eq!(system.add_order(market_buy(1, 5)), Ok(()));
    assert_eq!(system.add_order(limit_sell(2, 40, 5)), Ok(()));
    let cycle = system.run_cycle(&mut book, 3).unwrap();
    assert_eq!(cycle.orders.len(), 2);
    assert_eq!(cycle.matches.len(), 1);
    assert_eq!(cycle.dropped, 0);
    assert!(book.orders.is_empty());
    assert_eq!(
        system.get_order_match(),
        Some(OrderMatch { buy_order_id: 1, sell_order_id: 2, quantity: 5, price: 40, timestamp: 3 })
    );
    assert_eq!(system.get_order_match(), None);
}

#[test]
fn full_ingress_queue_refuses_and_book_is_unchanged() {
    let system = MatcherSystem::new();
    for id in 0..QUEUE_CAPACITY as u64 {
        assert_eq!(system.add_order(limit_sell(id + 1, 10, 1)), Ok(()));
    }
    let refused = market_buy(1000, 1);
    assert_eq!(system.add_order(refused), Err(refused));
    let mut book = OrderMatcher::new(BTC, USD);
    let cycle = system.run_cycle(&mut book, 1).unwrap();
    assert_eq!(cycle.orders.len(), QUEUE_CAPACITY);
    assert!(cycle.matches.is_empty());
    assert_eq!(book.orders.len(), QUEUE_CAPACITY);
    assert!(book.orders.iter().all(|o| o.id != 1000));
}

#[test]
fn full_egress_queue_drops_matches() {
    let system = MatcherSystem::new();
    let mut book = OrderMatcher::new(BTC, USD);
    book.add_order(market_buy(1, 2 * QUEUE_CAPACITY as u64));
    for id in 0..2 * QUEUE_CAPACITY as u64 {
        book.add_order(limit_sell(id + 2, 1, 1));
    }
    let cycle = system.run_cycle(&mut book, 1).unwrap();
    assert_eq!(cycle.matches.len(), 2 * QUEUE_CAPACITY);
    assert_eq!(cycle.dropped, QUEUE_CAPACITY);
}

#[test]
fn pass_takes_twice_the_matched_quantity_from_the_book() {
    let mut book = OrderMatcher::new(BTC, USD);
    for o in [market_buy(1, 9), limit_sell(2, 5, 4), market_buy(3, 6), limit_sell(4, 6, 8)] {
        book.add_order(o);
    }
    let before: u64 = book.orders.iter().map(|o| o.quantity).sum();
    let matches = book.match_orders(1);
    let after: u64 = book.orders.iter().map(|o| o.quantity).sum();
    let matched: u64 = matches.iter().map(|m| m.quantity).sum();
    assert_eq!(matched, 12);
    assert_eq!(before - after, 2 * matched);
    assert_eq!((book.orders[0].id, book.orders[0].quantity), (3, 3));
}

#[test]
fn pass_removes_only_orders_it_used_up() {
    let mut book = OrderMatcher::new(BTC, USD);
    book.add_order(market_buy(1, 0));
    book.add_order(market_buy(2, 3));
    book.add_order(limit_sell(3, 5, 3));
    let matches = book.match_orders(1);
    assert_eq!(matches.len(), 1);
    assert_eq!((matches[0].buy_order_id, matches[0].sell_order_id, matches[0].quantity), (2, 3, 3));
    let left: Vec<(u64, u64)> = book.orders.iter().map(|o| (o.id, o.quantity)).collect();
    assert_eq!(left, vec![(1, 0)]);
}
