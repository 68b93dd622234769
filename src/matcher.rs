use vstd::prelude::*;

use crossbeam_queue::ArrayQueue;

use crate::orders::{Order, PriceType, TradeType};

verus! {

/// One crossing of a buy order with a sell order.
#[derive(Clone, Copy, Debug, PartialEq, Eq, Structural)]
pub struct OrderMatch {
    pub buy_order_id: u64,
    pub sell_order_id: u64,
    pub quantity: u64,
    pub price: u64,
    pub timestamp: u64,
}

/// The book of one instrument pair: the resting orders in the order they
/// were submitted.
pub struct OrderMatcher {
    pub crypto_currency_id: u64,
    pub currency_id: u64,
    pub orders: Vec<Order>,
}

/// The order is on the pair (`crypto_currency_id`, `currency_id`).
pub open spec fn on_pair(o: Order, crypto_currency_id: u64, currency_id: u64) -> bool {
    o.crypto_currency_id == crypto_currency_id && o.currency_id == currency_id
}

/// A market buy and a limit sell on the same pair, both with quantity left.
pub open spec fn crosses(buy: Order, sell: Order) -> bool {
    &&& buy.trade_type == TradeType::Buy
    &&& buy.price_type == PriceType::Market
    &&& sell.trade_type == TradeType::Sell
    &&& sell.price_type is Limit
    &&& on_pair(sell, buy.crypto_currency_id, buy.currency_id)
    &&& buy.quantity > 0
    &&& sell.quantity > 0
}

pub open spec fn min_quantity(a: u64, b: u64) -> u64 {
    if a < b {
        a
    } else {
        b
    }
}

pub open spec fn limit_price(p: PriceType) -> u64 {
    match p {
        PriceType::Limit(price) => price,
        PriceType::Market => 0,
    }
}

/// `o` with `q` taken off its remaining quantity.
pub open spec fn reduce(o: Order, q: u64) -> Order {
    Order { quantity: (o.quantity - q) as u64, ..o }
}

/// The match between the buy `b` and the sell `s`, at the sell's limit.
pub open spec fn match_of(b: Order, s: Order, timestamp: u64) -> OrderMatch {
    OrderMatch {
        buy_order_id: b.id,
        sell_order_id: s.id,
        quantity: min_quantity(b.quantity, s.quantity),
        price: limit_price(s.price_type),
        timestamp,
    }
}

/// Pairs the order at `i` with the order at `j`: where they cross, the
/// match is appended and both lose the matched quantity.
pub open spec fn pair_step(
    book: Seq<Order>,
    matches: Seq<OrderMatch>,
    i: int,
    j: int,
    timestamp: u64,
) -> (Seq<Order>, Seq<OrderMatch>) {
    if crosses(book[i], book[j]) {
        let m = match_of(book[i], book[j], timestamp);
        (
            book.update(i, reduce(book[i], m.quantity)).update(j, reduce(book[j], m.quantity)),
            matches.push(m),
        )
    } else {
        (book, matches)
    }
}

/// Pairs the order at `i` with each order from `j` up to `n`, in book order.
pub open spec fn sell_scan(
    book: Seq<Order>,
    matches: Seq<OrderMatch>,
    i: int,
    j: int,
    n: int,
    timestamp: u64,
) -> (Seq<Order>, Seq<OrderMatch>)
    decreases n - j,
{
    if j < n {
        let (b, m) = pair_step(book, matches, i, j, timestamp);
        sell_scan(b, m, i, j + 1, n, timestamp)
    } else {
        (book, matches)
    }
}

/// Runs the scan of each order from `i` up to `n`, in book order.
pub open spec fn buy_scan(
    book: Seq<Order>,
    matches: Seq<OrderMatch>,
    i: int,
    n: int,
    timestamp: u64,
) -> (Seq<Order>, Seq<OrderMatch>)
    decreases n - i,
{
    if i < n {
        let (b, m) = sell_scan(book, matches, i, 0, n, timestamp);
        buy_scan(b, m, i + 1, n, timestamp)
    } else {
        (book, matches)
    }
}

/// The orders of `after` that still rest on the book, in book order: those
/// with quantity left, and those that had none at the start (`before`) and so
/// took no part in the pass. An order that the pass used up leaves.
pub open spec fn resting(before: Seq<Order>, after: Seq<Order>) -> Seq<Order>
    decreases after.len(),
{
    if after.len() == 0 {
        Seq::empty()
    } else {
        let rest = resting(before, after.drop_last());
        if after.last().quantity > 0 || before[after.len() - 1].quantity == 0 {
            rest.push(after.last())
        } else {
            rest
        }
    }
}

/// One matching pass over `book`: the book that remains and the matches,
/// in the order they were made.
pub open spec fn match_pass(book: Seq<Order>, timestamp: u64) -> (Seq<Order>, Seq<OrderMatch>) {
    let (b, m) = buy_scan(book, Seq::empty(), 0, book.len() as int, timestamp);
    (resting(book, b), m)
}

/// Each crossing matches the smaller of the two remaining quantities, more
/// than zero, at the sell's price; both orders lose exactly that quantity
/// and every other order stays as it was.
pub proof fn lemma_crossing_takes_smaller(
    book: Seq<Order>,
    matches: Seq<OrderMatch>,
    i: int,
    j: int,
    timestamp: u64,
)
    requires
        0 <= i < book.len(),
        0 <= j < book.len(),
        crosses(book[i], book[j]),
    ensures
        ({
            let (after, made) = pair_step(book, matches, i, j, timestamp);
            let m = made.last();
            &&& made == matches.push(m)
            &&& m.buy_order_id == book[i].id && m.sell_order_id == book[j].id
            &&& m.quantity == min_quantity(book[i].quantity, book[j].quantity)
            &&& m.quantity > 0
            &&& m.price == limit_price(book[j].price_type)
            &&& after.len() == book.len()
            &&& after[i].quantity == book[i].quantity - m.quantity
            &&& after[j].quantity == book[j].quantity - m.quantity
            &&& forall|k: int| 0 <= k < book.len() && k != i && k != j ==> after[k] == book[k]
        }),
{
    assert(i != j);
}

/// The quantities left in `book`, summed.
pub open spec fn total_quantity(book: Seq<Order>) -> int
    decreases book.len(),
{
    if book.len() == 0 {
        0
    } else {
        total_quantity(book.drop_last()) + book.last().quantity
    }
}

/// The quantities of `matches`, summed.
pub open spec fn matched_quantity(matches: Seq<OrderMatch>) -> int
    decreases matches.len(),
{
    if matches.len() == 0 {
        0
    } else {
        matched_quantity(matches.drop_last()) + matches.last().quantity
    }
}

proof fn lemma_total_update(book: Seq<Order>, i: int, o: Order)
    requires
        0 <= i < book.len(),
    ensures
        total_quantity(book.update(i, o)) == total_quantity(book) - book[i].quantity + o.quantity,
    decreases book.len(),
{
    let after = book.update(i, o);
    if i < book.len() - 1 {
        assert(after.drop_last() == book.drop_last().update(i, o));
        lemma_total_update(book.drop_last(), i, o);
    } else {
        assert(after.drop_last() == book.drop_last());
    }
}

proof fn lemma_resting_total(before: Seq<Order>, after: Seq<Order>)
    ensures
        total_quantity(resting(before, after)) == total_quantity(after),
    decreases after.len(),
{
    if after.len() > 0 {
        lemma_resting_total(before, after.drop_last());
        let rest = resting(before, after.drop_last());
        if after.last().quantity > 0 || before[after.len() - 1].quantity == 0 {
            assert(rest.push(after.last()).drop_last() == rest);
        }
    }
}

/// A book that the pass left as it was keeps every order.
proof fn lemma_resting_unchanged(book: Seq<Order>, k: int)
    requires
        0 <= k <= book.len(),
    ensures
        resting(book, book.subrange(0, k)) == book.subrange(0, k),
    decreases k,
{
    if k > 0 {
        assert(book.subrange(0, k).drop_last() == book.subrange(0, k - 1));
        lemma_resting_unchanged(book, k - 1);
        assert(book.subrange(0, k - 1).push(book[k - 1]) == book.subrange(0, k));
    }
}

proof fn lemma_pair_step_conserves(
    book: Seq<Order>,
    matches: Seq<OrderMatch>,
    i: int,
    j: int,
    timestamp: u64,
)
    requires
        0 <= i < book.len(),
        0 <= j < book.len(),
    ensures
        ({
            let (b, m) = pair_step(book, matches, i, j, timestamp);
            &&& b.len() == book.len()
            &&& total_quantity(b) + 2 * matched_quantity(m) == total_quantity(book) + 2
                * matched_quantity(matches)
        }),
{
    if crosses(book[i], book[j]) {
        let m = match_of(book[i], book[j], timestamp);
        let b1 = book.update(i, reduce(book[i], m.quantity));
        lemma_total_update(book, i, reduce(book[i], m.quantity));
        lemma_total_update(b1, j, reduce(book[j], m.quantity));
        assert(matches.push(m).drop_last() == matches);
    }
}

proof fn lemma_sell_scan_conserves(
    book: Seq<Order>,
    matches: Seq<OrderMatch>,
    i: int,
    j: int,
    n: int,
    timestamp: u64,
)
    requires
        0 <= i < book.len(),
        0 <= j,
        n <= book.len(),
    ensures
        ({
            let (b, m) = sell_scan(book, matches, i, j, n, timestamp);
            &&& b.len() == book.len()
            &&& total_quantity(b) + 2 * matched_quantity(m) == total_quantity(book) + 2
                * matched_quantity(matches)
        }),
    decreases n - j,
{
    if j < n {
        let (b, m) = pair_step(book, matches, i, j, timestamp);
        lemma_pair_step_conserves(book, matches, i, j, timestamp);
        lemma_sell_scan_conserves(b, m, i, j + 1, n, timestamp);
    }
}

proof fn lemma_buy_scan_conserves(
    book: Seq<Order>,
    matches: Seq<OrderMatch>,
    i: int,
    n: int,
    timestamp: u64,
)
    requires
        0 <= i,
        n <= book.len(),
    ensures
        ({
            let (b, m) = buy_scan(book, matches, i, n, timestamp);
            &&& b.len() == book.len()
            &&& total_quantity(b) + 2 * matched_quantity(m) == total_quantity(book) + 2
                * matched_quantity(matches)
        }),
    decreases n - i,
{
    if i < n {
        let (b, m) = sell_scan(book, matches, i, 0, n, timestamp);
        lemma_sell_scan_conserves(book, matches, i, 0, n, timestamp);
        lemma_buy_scan_conserves(b, m, i + 1, n, timestamp);
    }
}

/// A matching pass takes from the book exactly what it matches, once from
/// the buy and once from the sell of each match.
pub proof fn lemma_pass_conserves_quantity(book: Seq<Order>, timestamp: u64)
    ensures
        total_quantity(book) == total_quantity(match_pass(book, timestamp).0) + 2
            * matched_quantity(match_pass(book, timestamp).1),
{
    lemma_buy_scan_conserves(book, Seq::empty(), 0, book.len() as int, timestamp);
    let (b, m) = buy_scan(book, Seq::empty(), 0, book.len() as int, timestamp);
    lemma_resting_total(book, b);
}

proof fn lemma_sell_scan_grows(
    book: Seq<Order>,
    matches: Seq<OrderMatch>,
    i: int,
    j: int,
    n: int,
    timestamp: u64,
)
    requires
        0 <= i < book.len(),
        0 <= j,
        n <= book.len(),
    ensures
        ({
            let (b, m) = sell_scan(book, matches, i, j, n, timestamp);
            &&& m.len() >= matches.len()
            &&& m.len() == matches.len() ==> b == book
        }),
    decreases n - j,
{
    if j < n {
        let (b, m) = pair_step(book, matches, i, j, timestamp);
        lemma_sell_scan_grows(b, m, i, j + 1, n, timestamp);
    }
}

proof fn lemma_buy_scan_grows(
    book: Seq<Order>,
    matches: Seq<OrderMatch>,
    i: int,
    n: int,
    timestamp: u64,
)
    requires
        0 <= i,
        n <= book.len(),
    ensures
        ({
            let (b, m) = buy_scan(book, matches, i, n, timestamp);
            &&& m.len() >= matches.len()
            &&& m.len() == matches.len() ==> b == book
        }),
    decreases n - i,
{
    if i < n {
        let (b, m) = sell_scan(book, matches, i, 0, n, timestamp);
        lemma_sell_scan_grows(book, matches, i, 0, n, timestamp);
        lemma_sell_scan_conserves(book, matches, i, 0, n, timestamp);
        lemma_buy_scan_grows(b, m, i + 1, n, timestamp);
    }
}

/// A pass that makes no match leaves the book exactly as it was, orders
/// with nothing left included.
pub proof fn lemma_no_match_keeps_book(book: Seq<Order>, timestamp: u64)
    ensures
        match_pass(book, timestamp).1.len() == 0 ==> match_pass(book, timestamp).0 == book,
{
    lemma_buy_scan_grows(book, Seq::empty(), 0, book.len() as int, timestamp);
    lemma_resting_unchanged(book, book.len() as int);
    assert(book.subrange(0, book.len() as int) == book);
}

proof fn lemma_sell_scan_quiet(
    book: Seq<Order>,
    matches: Seq<OrderMatch>,
    i: int,
    j: int,
    n: int,
    timestamp: u64,
)
    requires
        0 <= j,
        n <= book.len(),
        forall|k: int| j <= k < n ==> !crosses(book[i], #[trigger] book[k]),
    ensures
        sell_scan(book, matches, i, j, n, timestamp) == (book, matches),
    decreases n - j,
{
    if j < n {
        lemma_sell_scan_quiet(book, matches, i, j + 1, n, timestamp);
    }
}

proof fn lemma_buy_scan_quiet(
    book: Seq<Order>,
    matches: Seq<OrderMatch>,
    i: int,
    n: int,
    timestamp: u64,
)
    requires
        0 <= i,
        n <= book.len(),
        forall|x: int, y: int| 0 <= x < n && 0 <= y < n ==> !crosses(#[trigger] book[x], #[trigger] book[y]),
    ensures
        buy_scan(book, matches, i, n, timestamp) == (book, matches),
    decreases n - i,
{
    if i < n {
        lemma_sell_scan_quiet(book, matches, i, 0, n, timestamp);
        lemma_buy_scan_quiet(book, matches, i + 1, n, timestamp);
    }
}

/// Only a market buy and a limit sell of one pair, both with quantity left,
/// cross. Where no two orders of the book do so (a book of limit buys and
/// market sells, say), a pass makes no match and leaves the book as it was.
pub proof fn lemma_nothing_crosses(book: Seq<Order>, timestamp: u64)
    requires
        forall|x: int, y: int|
            0 <= x < book.len() && 0 <= y < book.len() ==> !crosses(
                #[trigger] book[x],
                #[trigger] book[y],
            ),
    ensures
        match_pass(book, timestamp) == (book, Seq::<OrderMatch>::empty()),
{
    lemma_buy_scan_quiet(book, Seq::empty(), 0, book.len() as int, timestamp);
    lemma_resting_unchanged(book, book.len() as int);
    assert(book.subrange(0, book.len() as int) == book);
}

/// `after` is `before` with, at most, less quantity left in some orders.
pub open spec fn shrunk(before: Seq<Order>, after: Seq<Order>) -> bool {
    &&& after.len() == before.len()
    &&& forall|k: int|
        0 <= k < before.len() ==> (#[trigger] after[k]) == (Order {
            quantity: after[k].quantity,
            ..before[k]
        }) && after[k].quantity <= before[k].quantity
}

proof fn lemma_sell_scan_settles(
    book: Seq<Order>,
    matches: Seq<OrderMatch>,
    i: int,
    j: int,
    n: int,
    timestamp: u64,
)
    requires
        0 <= i < book.len(),
        0 <= j,
        n <= book.len(),
    ensures
        ({
            let (b, m) = sell_scan(book, matches, i, j, n, timestamp);
            &&& shrunk(book, b)
            &&& forall|k: int| j <= k < n ==> !crosses(b[i], #[trigger] b[k])
        }),
    decreases n - j,
{
    if j < n {
        let (b1, m1) = pair_step(book, matches, i, j, timestamp);
        assert(!crosses(b1[i], b1[j]));
        lemma_sell_scan_settles(b1, m1, i, j + 1, n, timestamp);
        let (b, m) = sell_scan(b1, m1, i, j + 1, n, timestamp);
        assert(!crosses(b[i], b[j]));
    }
}

proof fn lemma_buy_scan_settles(
    book: Seq<Order>,
    matches: Seq<OrderMatch>,
    i: int,
    n: int,
    timestamp: u64,
)
    requires
        0 <= i,
        n == book.len(),
    ensures
        ({
            let (b, m) = buy_scan(book, matches, i, n, timestamp);
            &&& shrunk(book, b)
            &&& forall|x: int, y: int|
                i <= x < n && 0 <= y < n ==> !crosses(#[trigger] b[x], #[trigger] b[y])
        }),
    decreases n - i,
{
    if i < n {
        let (b1, m1) = sell_scan(book, matches, i, 0, n, timestamp);
        lemma_sell_scan_settles(book, matches, i, 0, n, timestamp);
        lemma_buy_scan_settles(b1, m1, i + 1, n, timestamp);
        let (b, m) = buy_scan(b1, m1, i + 1, n, timestamp);
        assert forall|y: int| 0 <= y < n implies !crosses(#[trigger] b[i], b[y]) by {
            assert(!crosses(b1[i], b1[y]));
        }
    }
}

proof fn lemma_resting_from(before: Seq<Order>, after: Seq<Order>)
    ensures
        forall|x: int|
            0 <= x < resting(before, after).len() ==> exists|k: int|
                0 <= k < after.len() && #[trigger] resting(before, after)[x] == after[k],
    decreases after.len(),
{
    if after.len() > 0 {
        lemma_resting_from(before, after.drop_last());
        let rest = resting(before, after.drop_last());
        let r = resting(before, after);
        assert forall|x: int| 0 <= x < r.len() implies exists|k: int|
            0 <= k < after.len() && #[trigger] r[x] == after[k] by {
            if x < rest.len() {
                let k = choose|k: int|
                    0 <= k < after.drop_last().len() && #[trigger] rest[x] == after.drop_last()[k];
                assert(r[x] == after[k]);
            } else {
                assert(r[x] == after[after.len() - 1]);
            }
        }
    }
}

/// After a pass no market buy faces a limit sell of its pair with quantity
/// left on both: every crossing the book allowed has been made.
pub proof fn lemma_pass_leaves_no_crossing(book: Seq<Order>, timestamp: u64)
    ensures
        forall|x: int, y: int|
            0 <= x < match_pass(book, timestamp).0.len() && 0 <= y < match_pass(
                book,
                timestamp,
            ).0.len() ==> !crosses(
                #[trigger] match_pass(book, timestamp).0[x],
                #[trigger] match_pass(book, timestamp).0[y],
            ),
{
    lemma_buy_scan_settles(book, Seq::empty(), 0, book.len() as int, timestamp);
    let (b, m) = buy_scan(book, Seq::empty(), 0, book.len() as int, timestamp);
    lemma_resting_from(book, b);
    let r = resting(book, b);
    assert forall|x: int, y: int| 0 <= x < r.len() && 0 <= y < r.len() implies !crosses(
        #[trigger] r[x],
        #[trigger] r[y],
    ) by {
        let kx = choose|k: int| 0 <= k < b.len() && #[trigger] r[x] == b[k];
        let ky = choose|k: int| 0 <= k < b.len() && #[trigger] r[y] == b[k];
        assert(!crosses(b[kx], b[ky]));
    }
}

/// A pass keeps book order: the book it leaves is the book it was given,
/// each order with what the pass left of its quantity, less the orders the
/// pass used up, in their original order.
pub proof fn lemma_pass_keeps_order(book: Seq<Order>, timestamp: u64)
    ensures
        ({
            let after = buy_scan(book, Seq::empty(), 0, book.len() as int, timestamp).0;
            &&& shrunk(book, after)
            &&& match_pass(book, timestamp).0 == resting(book, after)
        }),
{
    lemma_buy_scan_settles(book, Seq::empty(), 0, book.len() as int, timestamp);
}

/// `books` and `legs` trace `made` from `start` to `end`: before match `k`
/// the book stood as `books[k]`, the orders at `legs[k]` (a market buy and a
/// limit sell) crossed there, the match took the smaller of their remaining
/// quantities, and both lost exactly that quantity, giving `books[k + 1]`.
pub open spec fn trace_of(
    books: Seq<Seq<Order>>,
    legs: Seq<(int, int)>,
    start: Seq<Order>,
    end: Seq<Order>,
    made: Seq<OrderMatch>,
    timestamp: u64,
) -> bool {
    &&& books.len() == made.len() + 1
    &&& legs.len() == made.len()
    &&& books[0] == start
    &&& books[made.len() as int] == end
    &&& forall|k: int|
        0 <= k < made.len() ==> {
            let b = #[trigger] books[k];
            let (i, j) = legs[k];
            &&& 0 <= i < b.len() && 0 <= j < b.len()
            &&& crosses(b[i], b[j])
            &&& made[k] == match_of(b[i], b[j], timestamp)
            &&& made[k].quantity == min_quantity(b[i].quantity, b[j].quantity)
            &&& books[k + 1] == b.update(i, reduce(b[i], made[k].quantity)).update(
                j,
                reduce(b[j], made[k].quantity),
            )
        }
}

/// `made` are matches made one after the other from `book`, leaving `end`,
/// as `trace_of` describes.
pub open spec fn made_in_turn(
    book: Seq<Order>,
    end: Seq<Order>,
    made: Seq<OrderMatch>,
    timestamp: u64,
) -> bool {
    exists|books: Seq<Seq<Order>>, legs: Seq<(int, int)>|
        trace_of(books, legs, book, end, made, timestamp)
}

proof fn lemma_sell_scan_trace(
    start: Seq<Order>,
    books: Seq<Seq<Order>>,
    legs: Seq<(int, int)>,
    book: Seq<Order>,
    matches: Seq<OrderMatch>,
    i: int,
    j: int,
    n: int,
    timestamp: u64,
) -> (out: (Seq<Seq<Order>>, Seq<(int, int)>))
    requires
        trace_of(books, legs, start, book, matches, timestamp),
        0 <= i < book.len(),
        0 <= j,
        n <= book.len(),
    ensures
        ({
            let (b, m) = sell_scan(book, matches, i, j, n, timestamp);
            trace_of(out.0, out.1, start, b, m, timestamp)
        }),
    decreases n - j,
{
    if j < n {
        let (b1, m1) = pair_step(book, matches, i, j, timestamp);
        if crosses(book[i], book[j]) {
            let books1 = books.push(b1);
            let legs1 = legs.push((i, j));
            assert forall|k: int| 0 <= k < m1.len() implies {
                let b = #[trigger] books1[k];
                let (x, y) = legs1[k];
                &&& 0 <= x < b.len() && 0 <= y < b.len()
                &&& crosses(b[x], b[y])
                &&& m1[k] == match_of(b[x], b[y], timestamp)
                &&& m1[k].quantity == min_quantity(b[x].quantity, b[y].quantity)
                &&& books1[k + 1] == b.update(x, reduce(b[x], m1[k].quantity)).update(
                    y,
                    reduce(b[y], m1[k].quantity),
                )
            } by {
                if k < matches.len() {
                    assert(books1[k] == books[k]);
                    assert(books1[k + 1] == books[k + 1]);
                    assert(m1[k] == matches[k]);
                    assert(legs1[k] == legs[k]);
                }
            }
            lemma_sell_scan_trace(start, books1, legs1, b1, m1, i, j + 1, n, timestamp)
        } else {
            lemma_sell_scan_trace(start, books, legs, b1, m1, i, j + 1, n, timestamp)
        }
    } else {
        (books, legs)
    }
}

proof fn lemma_buy_scan_trace(
    start: Seq<Order>,
    books: Seq<Seq<Order>>,
    legs: Seq<(int, int)>,
    book: Seq<Order>,
    matches: Seq<OrderMatch>,
    i: int,
    n: int,
    timestamp: u64,
) -> (out: (Seq<Seq<Order>>, Seq<(int, int)>))
    requires
        trace_of(books, legs, start, book, matches, timestamp),
        0 <= i,
        n == book.len(),
    ensures
        ({
            let (b, m) = buy_scan(book, matches, i, n, timestamp);
            trace_of(out.0, out.1, start, b, m, timestamp)
        }),
    decreases n - i,
{
    if i < n {
        let (b1, m1) = sell_scan(book, matches, i, 0, n, timestamp);
        let t = lemma_sell_scan_trace(start, books, legs, book, matches, i, 0, n, timestamp);
        lemma_sell_scan_conserves(book, matches, i, 0, n, timestamp);
        lemma_buy_scan_trace(start, t.0, t.1, b1, m1, i + 1, n, timestamp)
    } else {
        (books, legs)
    }
}

/// Every match of a pass takes the smaller of the two remaining quantities
/// as they stood just before it, and both legs lose exactly that quantity:
/// the matches were made in turn from the book the pass was given.
pub proof fn lemma_pass_matches_in_turn(book: Seq<Order>, timestamp: u64)
    ensures
        made_in_turn(
            book,
            buy_scan(book, Seq::empty(), 0, book.len() as int, timestamp).0,
            match_pass(book, timestamp).1,
            timestamp,
        ),
{
    let books = seq![book];
    let legs = Seq::<(int, int)>::empty();
    assert(trace_of(books, legs, book, book, Seq::empty(), timestamp));
    let t = lemma_buy_scan_trace(book, books, legs, book, Seq::empty(), 0, book.len() as int, timestamp);
    let (b, m) = buy_scan(book, Seq::empty(), 0, book.len() as int, timestamp);
    assert(trace_of(t.0, t.1, book, b, m, timestamp));
}

/// Cycles of the matching worker from `book`: each appends its orders to the
/// book and runs one pass at its timestamp. The book at the end, and every
/// match in the order it was made.
pub open spec fn replay(book: Seq<Order>, cycles: Seq<(Seq<Order>, u64)>) -> (
    Seq<Order>,
    Seq<OrderMatch>,
)
    decreases cycles.len(),
{
    if cycles.len() == 0 {
        (book, Seq::empty())
    } else {
        let (b, m) = match_pass(book + cycles[0].0, cycles[0].1);
        let (rest_book, rest_matches) = replay(b, cycles.drop_first());
        (rest_book, m + rest_matches)
    }
}

/// Running the cycles of `first` and then those of `then` is running them
/// all: a schedule's matches are those of its cycles, one after the other.
pub proof fn lemma_replay_append(
    book: Seq<Order>,
    first: Seq<(Seq<Order>, u64)>,
    then: Seq<(Seq<Order>, u64)>,
)
    ensures
        replay(book, first + then) == ({
            let (b1, m1) = replay(book, first);
            let (b2, m2) = replay(b1, then);
            (b2, m1 + m2)
        }),
    decreases first.len(),
{
    if first.len() == 0 {
        assert(first + then == then);
        let (b2, m2) = replay(book, then);
        assert(Seq::<OrderMatch>::empty() + m2 == m2);
    } else {
        let all = first + then;
        assert(all[0] == first[0]);
        assert(all.drop_first() == first.drop_first() + then);
        let (b, m) = match_pass(book + first[0].0, first[0].1);
        lemma_replay_append(b, first.drop_first(), then);
        let (b1, m1) = replay(b, first.drop_first());
        let (b2, m2) = replay(b1, then);
        assert(m + (m1 + m2) == (m + m1) + m2);
    }
}

impl OrderMatcher {
    pub open spec fn accepts_spec(&self, o: Order) -> bool {
        on_pair(o, self.crypto_currency_id, self.currency_id)
    }

    /// An empty book for the pair (`crypto_currency_id`, `currency_id`).
    pub fn new(crypto_currency_id: u64, currency_id: u64) -> (r: OrderMatcher)
        ensures
            r.crypto_currency_id == crypto_currency_id,
            r.currency_id == currency_id,
            r.orders@ == Seq::<Order>::empty(),
    {
        OrderMatcher { crypto_currency_id, currency_id, orders: Vec::new() }
    }

    /// Whether `order` is on this book's pair.
    pub fn accepts(&self, order: &Order) -> (r: bool)
        ensures
            r == self.accepts_spec(*order),
    {
        order.crypto_currency_id == self.crypto_currency_id && order.currency_id == self.currency_id
    }

    /// Rests `order` at the end of the book. An order of another pair is a
    /// caller's error and is never admitted.
    pub fn add_order(&mut self, order: Order)
        requires
            old(self).accepts_spec(order),
        ensures
            final(self).orders@ == old(self).orders@.push(order),
            final(self).crypto_currency_id == old(self).crypto_currency_id,
            final(self).currency_id == old(self).currency_id,
    {
        self.orders.push(order);
    }

    /// Runs one matching pass: each market buy, in book order, is paired with
    /// each limit sell of its pair, in book order, for the smaller of their
    /// remaining quantities at the sell's price, until one of them is spent.
    /// Orders with nothing left leave the book.
    pub fn match_orders(&mut self, timestamp: u64) -> (r: Vec<OrderMatch>)
        ensures
            final(self).orders@ == match_pass(old(self).orders@, timestamp).0,
            r@ == match_pass(old(self).orders@, timestamp).1,
            final(self).crypto_currency_id == old(self).crypto_currency_id,
            final(self).currency_id == old(self).currency_id,
    {
        let n = self.orders.len();
        let ghost before = self.orders@;
        let ghost target = buy_scan(self.orders@, Seq::empty(), 0, n as int, timestamp);
        let mut was_empty: Vec<bool> = Vec::new();
        let mut e: usize = 0;
        while e < n
            invariant
                e <= n,
                n == self.orders.len(),
                self.orders@ == before,
                was_empty@.len() == e,
                forall|x: int| 0 <= x < e ==> #[trigger] was_empty@[x] == (before[x].quantity == 0),
            decreases n - e,
        {
            was_empty.push(self.orders[e].quantity == 0);
            e += 1;
        }
        let mut matches: Vec<OrderMatch> = Vec::new();
        let mut i: usize = 0;
        while i < n
            invariant
                i <= n,
                n == self.orders.len(),
                self.crypto_currency_id == old(self).crypto_currency_id,
                self.currency_id == old(self).currency_id,
                buy_scan(self.orders@, matches@, i as int, n as int, timestamp) == target,
                n == before.len(),
                target == buy_scan(before, Seq::empty(), 0, n as int, timestamp),
                was_empty@.len() == n,
                forall|x: int| 0 <= x < n ==> #[trigger] was_empty@[x] == (before[x].quantity == 0),
            decreases n - i,
        {
            let mut j: usize = 0;
            while j < n
                invariant
                    i < n,
                    j <= n,
                    n == self.orders.len(),
                    self.crypto_currency_id == old(self).crypto_currency_id,
                    self.currency_id == old(self).currency_id,
                    ({
                        let (b, m) = sell_scan(self.orders@, matches@, i as int, j as int, n as int, timestamp);
                        buy_scan(b, m, i + 1, n as int, timestamp)
                    }) == target,
                    n == before.len(),
                    target == buy_scan(before, Seq::empty(), 0, n as int, timestamp),
                    was_empty@.len() == n,
                    forall|x: int| 0 <= x < n ==> #[trigger] was_empty@[x] == (before[x].quantity == 0),
                decreases n - j,
            {
                let buy = self.orders[i];
                let sell = self.orders[j];
                let crossing = match sell.price_type {
                    PriceType::Limit(_) => {
                        buy.trade_type == TradeType::Buy && buy.price_type == PriceType::Market
                            && sell.trade_type == TradeType::Sell
                            && sell.crypto_currency_id == buy.crypto_currency_id
                            && sell.currency_id == buy.currency_id && buy.quantity > 0
                            && sell.quantity > 0
                    },
                    PriceType::Market => false,
                };
                if crossing {
                    let quantity = if buy.quantity < sell.quantity {
                        buy.quantity
                    } else {
                        sell.quantity
                    };
                    let price = match sell.price_type {
                        PriceType::Limit(p) => p,
                        PriceType::Market => 0,
                    };
                    matches.push(
                        OrderMatch {
                            buy_order_id: buy.id,
                            sell_order_id: sell.id,
                            quantity,
                            price,
                            timestamp,
                        },
                    );
                    self.orders[i] = Order { quantity: buy.quantity - quantity, ..buy };
                    self.orders[j] = Order { quantity: sell.quantity - quantity, ..sell };
                }
                j += 1;
            }
            i += 1;
        }
        let mut kept: Vec<Order> = Vec::new();
        let mut k: usize = 0;
        while k < n
            invariant
                k <= n,
                n == self.orders.len(),
                n == before.len(),
                was_empty@.len() == n,
                forall|x: int| 0 <= x < n ==> #[trigger] was_empty@[x] == (before[x].quantity == 0),
                kept@ == resting(before, self.orders@.subrange(0, k as int)),
            decreases n - k,
        {
            let o = self.orders[k];
            proof {
                assert(self.orders@.subrange(0, k + 1).drop_last() == self.orders@.subrange(
                    0,
                    k as int,
                ));
            }
            if o.quantity > 0 || was_empty[k] {
                kept.push(o);
            }
            k += 1;
        }
        proof {
            assert(self.orders@.subrange(0, n as int) == self.orders@);
        }
        self.orders = kept;
        matches
    }
}

/// Slots in each of the two queues between callers and the matching worker.
pub const QUEUE_CAPACITY: usize = 100;

/// crossbeam's bounded lock-free queue, carried as an opaque value.
#[verifier::external_type_specification]
#[verifier::external_body]
#[verifier::reject_recursive_types(T)]
pub struct ExArrayQueue<T>(ArrayQueue<T>);

/// The capacity an order queue was made with.
pub uninterp spec fn order_queue_bound(q: ArrayQueue<Order>) -> usize;

/// The capacity a match queue was made with.
pub uninterp spec fn match_queue_bound(q: ArrayQueue<OrderMatch>) -> usize;

/// Relies on crossbeam's `ArrayQueue::new`: a queue holding at most `cap`
/// items. It panics on a capacity of zero or one too large to round up to a
/// power of two.
#[verifier::external_body]
fn new_order_queue(cap: usize) -> (r: ArrayQueue<Order>)
    requires
        0 < cap <= usize::MAX / 2,
    ensures
        order_queue_bound(r) == cap,
{
    ArrayQueue::new(cap)
}

/// Relies on crossbeam's `ArrayQueue::new`, as `new_order_queue` does.
#[verifier::external_body]
fn new_match_queue(cap: usize) -> (r: ArrayQueue<OrderMatch>)
    requires
        0 < cap <= usize::MAX / 2,
    ensures
        match_queue_bound(r) == cap,
{
    ArrayQueue::new(cap)
}

/// Relies on crossbeam's `ArrayQueue::push`: when the queue is full the value
/// is handed back untouched.
pub assume_specification<T>[ ArrayQueue::<T>::push ](q: &ArrayQueue<T>, value: T) -> (r: Result<(), T>)
    ensures
        r matches Err(v) ==> v == value,
;

/// Relies on crossbeam's `ArrayQueue::pop`. Other threads share the queue, so
/// nothing is promised of what comes out.
pub assume_specification<T>[ ArrayQueue::<T>::pop ](q: &ArrayQueue<T>) -> Option<T>;

/// What one cycle of the matching worker did: the orders it moved from the
/// ingress queue into the book, the matches of its pass, and how many of
/// those found the egress queue full.
pub struct MatchCycle {
    pub orders: Vec<Order>,
    pub matches: Vec<OrderMatch>,
    pub dropped: usize,
}

/// The two bounded queues between the callers and the one worker that owns
/// an `OrderMatcher`: submitted orders go in, matches come out. Both ends
/// are non-blocking, and a full queue refuses rather than waits.
pub struct MatcherSystem {
    order_queue: ArrayQueue<Order>,
    order_match_queue: ArrayQueue<OrderMatch>,
}

impl MatcherSystem {
    /// How many orders the ingress queue holds at most.
    pub closed spec fn ingress_bound(&self) -> usize {
        order_queue_bound(self.order_queue)
    }

    /// How many matches the egress queue holds at most.
    pub closed spec fn egress_bound(&self) -> usize {
        match_queue_bound(self.order_match_queue)
    }

    /// Two queues of `QUEUE_CAPACITY` slots each.
    pub fn new() -> (r: MatcherSystem)
        ensures
            r.ingress_bound() == QUEUE_CAPACITY,
            r.egress_bound() == QUEUE_CAPACITY,
    {
        MatcherSystem {
            order_queue: new_order_queue(QUEUE_CAPACITY),
            order_match_queue: new_match_queue(QUEUE_CAPACITY),
        }
    }

    /// Hands `order` to the worker. A full queue refuses it and gives it back
    /// in `Err`: the order is then lost to the book unless the caller retries.
    pub fn add_order(&self, order: Order) -> (r: Result<(), Order>)
        ensures
            r matches Err(o) ==> o == order,
    {
        self.order_queue.push(order)
    }

    /// The next match from the worker, or `None` when there is none yet.
    pub fn get_order_match(&self) -> (r: Option<OrderMatch>) {
        self.order_match_queue.pop()
    }

    /// One cycle of the worker: moves the orders waiting in the ingress queue
    /// (at most one queue's worth) into `matcher`, runs one matching pass at
    /// `timestamp` and offers each match to the egress queue, dropping those
    /// that do not fit. An order of another pair stops the cycle: it is
    /// returned in `Err` and never enters the book, and no pass is run.
    pub fn run_cycle(&self, matcher: &mut OrderMatcher, timestamp: u64) -> (r: Result<
        MatchCycle,
        Order,
    >)
        ensures
            final(matcher).crypto_currency_id == old(matcher).crypto_currency_id,
            final(matcher).currency_id == old(matcher).currency_id,
            match r {
                Ok(c) => {
                    &&& forall|k: int|
                        0 <= k < c.orders@.len() ==> #[trigger] old(matcher).accepts_spec(
                            c.orders@[k],
                        )
                    &&& final(matcher).orders@ == match_pass(
                        old(matcher).orders@ + c.orders@,
                        timestamp,
                    ).0
                    &&& c.matches@ == match_pass(old(matcher).orders@ + c.orders@, timestamp).1
                    &&& (final(matcher).orders@, c.matches@) == replay(
                        old(matcher).orders@,
                        seq![(c.orders@, timestamp)],
                    )
                    &&& c.dropped <= c.matches@.len()
                },
                Err(o) => {
                    &&& !old(matcher).accepts_spec(o)
                    &&& final(matcher).orders@.len() >= old(matcher).orders@.len()
                    &&& final(matcher).orders@.subrange(0, old(matcher).orders@.len() as int)
                        == old(matcher).orders@
                    &&& forall|k: int|
                        old(matcher).orders@.len() <= k < final(matcher).orders@.len()
                            ==> #[trigger] old(matcher).accepts_spec(final(matcher).orders@[k])
                },
            },
    {
        let ghost book0 = matcher.orders@;
        let mut orders: Vec<Order> = Vec::new();
        let mut k: usize = 0;
        while k < QUEUE_CAPACITY
            invariant
                matcher.crypto_currency_id == old(matcher).crypto_currency_id,
                matcher.currency_id == old(matcher).currency_id,
                book0 == old(matcher).orders@,
                matcher.orders@ == book0 + orders@,
                forall|x: int| 0 <= x < orders@.len() ==> #[trigger] old(matcher).accepts_spec(orders@[x]),
            decreases QUEUE_CAPACITY - k,
        {
            match self.order_queue.pop() {
                Some(order) => {
                    if !matcher.accepts(&order) {
                        proof {
                            assert(matcher.orders@.subrange(0, book0.len() as int) == book0);
                            assert forall|x: int|
                                book0.len() <= x < matcher.orders@.len() implies #[trigger] old(matcher).accepts_spec(matcher.orders@[x]) by {
                                assert(matcher.orders@[x] == orders@[x - book0.len()]);
                            }
                        }
                        return Err(order);
                    }
                    matcher.add_order(order);
                    orders.push(order);
                    proof {
                        assert(matcher.orders@ == book0 + orders@);
                    }
                },
                None => {
                    break;
                },
            }
            k += 1;
        }
        let matches = matcher.match_orders(timestamp);
        let mut dropped: usize = 0;
        let mut m: usize = 0;
        while m < matches.len()
            invariant
                dropped <= m <= matches@.len(),
            decreases matches.len() - m,
        {
            if self.order_match_queue.push(matches[m]).is_err() {
                dropped += 1;
            }
            m += 1;
        }
        proof {
            let cycle = seq![(orders@, timestamp)];
            let pass = match_pass(book0 + orders@, timestamp);
            assert(cycle[0] == (orders@, timestamp));
            assert(cycle.drop_first() == Seq::<(Seq<Order>, u64)>::empty());
            assert(replay(pass.0, Seq::empty()) == (pass.0, Seq::<OrderMatch>::empty()));
            assert(matches@ + Seq::<OrderMatch>::empty() == matches@);
        }
        Ok(MatchCycle { orders, matches, dropped })
    }
}

} // verus!
