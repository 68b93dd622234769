use vstd::prelude::*;

use crate::accounts::{recorded_crypto_quantity, recorded_currency_balance};
use crate::ledger::{
    filled, fills_name_orders, fills_within, holdings_match_history, holdings_unique,
    keyed_by_id, ledger_wf, lemma_filled_prefix, recorded_balance, recorded_quantity,
    rows_name_accounts,
};
use crate::storage::{holds_crypto, holds_currency, StorageSystem};
use crate::table::has_key;

verus! {
fn keyed_accounts(s: &StorageSystem) -> (r: bool)
    ensures
        r == (forall|i: int|
            0 <= i < s.accounts@.len() ==> (#[trigger] s.accounts@[i]).0 == s.accounts@[i].1.id),
{
    let mut i: usize = 0;
    while i < s.accounts.len()
        invariant
            i <= s.accounts@.len(),
            forall|x: int| 0 <= x < i ==> (#[trigger] s.accounts@[x]).0 == s.accounts@[x].1.id,
        decreases s.accounts@.len() - i,
    {
        if s.accounts.key_at(i) != s.accounts.row_at(i).id {
            return false;
        }
        i += 1;
    }
    true
}
fn keyed_currencies(s: &StorageSystem) -> (r: bool)
    ensures
        r == (forall|i: int|
            0 <= i < s.currencies@.len() ==> (#[trigger] s.currencies@[i]).0 == s.currencies@[i].1.id),
{
    let mut i: usize = 0;
    while i < s.currencies.len()
        invariant
            i <= s.currencies@.len(),
            forall|x: int| 0 <= x < i ==> (#[trigger] s.currencies@[x]).0 == s.currencies@[x].1.id,
        decreases s.currencies@.len() - i,
    {
        if s.currencies.key_at(i) != s.currencies.row_at(i).id {
            return false;
        }
        i += 1;
    }
    true
}
fn keyed_crypto_currencies(s: &StorageSystem) -> (r: bool)
    ensures
        r == (forall|i: int|
            0 <= i < s.crypto_currencies@.len() ==> (#[trigger] s.crypto_currencies@[i]).0 == s.crypto_currencies@[i].1.id),
{
    let mut i: usize = 0;
    while i < s.crypto_currencies.len()
        invariant
            i <= s.crypto_currencies@.len(),
            forall|x: int| 0 <= x < i ==> (#[trigger] s.crypto_currencies@[x]).0 == s.crypto_currencies@[x].1.id,
        decreases s.crypto_currencies@.len() - i,
    {
        if s.crypto_currencies.key_at(i) != s.crypto_currencies.row_at(i).id {
            return false;
        }
        i += 1;
    }
    true
}
fn keyed_account_currencies(s: &StorageSystem) -> (r: bool)
    ensures
        r == (forall|i: int|
            0 <= i < s.account_currencies@.len() ==> (#[trigger] s.account_currencies@[i]).0 == s.account_currencies@[i].1.id),
{
    let mut i: usize = 0;
    while i < s.account_currencies.len()
        invariant
            i <= s.account_currencies@.len(),
            forall|x: int| 0 <= x < i ==> (#[trigger] s.account_currencies@[x]).0 == s.account_currencies@[x].1.id,
        decreases s.account_currencies@.len() - i,
    {
        if s.account_currencies.key_at(i) != s.account_currencies.row_at(i).id {
            return false;
        }
        i += 1;
    }
    true
}
fn keyed_account_currency_histories(s: &StorageSystem) -> (r: bool)
    ensures
        r == (forall|i: int|
            0 <= i < s.account_currency_histories@.len() ==> (#[trigger] s.account_currency_histories@[i]).0 == s.account_currency_histories@[i].1.id),
{
    let mut i: usize = 0;
    while i < s.account_currency_histories.len()
        invariant
            i <= s.account_currency_histories@.len(),
            forall|x: int| 0 <= x < i ==> (#[trigger] s.account_currency_histories@[x]).0 == s.account_currency_histories@[x].1.id,
        decreases s.account_currency_histories@.len() - i,
    {
        if s.account_currency_histories.key_at(i) != s.account_currency_histories.row_at(i).id {
            return false;
        }
        i += 1;
    }
    true
}
fn keyed_account_crypto_currencies(s: &StorageSystem) -> (r: bool)
    ensures
        r == (forall|i: int|
            0 <= i < s.account_crypto_currencies@.len() ==> (#[trigger] s.account_crypto_currencies@[i]).0 == s.account_crypto_currencies@[i].1.id),
{
    let mut i: usize = 0;
    while i < s.account_crypto_currencies.len()
        invariant
            i <= s.account_crypto_currencies@.len(),
            forall|x: int| 0 <= x < i ==> (#[trigger] s.account_crypto_currencies@[x]).0 == s.account_crypto_currencies@[x].1.id,
        decreases s.account_crypto_currencies@.len() - i,
    {
        if s.account_crypto_currencies.key_at(i) != s.account_crypto_currencies.row_at(i).id {
            return false;
        }
        i += 1;
    }
    true
}
fn keyed_account_crypto_currency_histories(s: &StorageSystem) -> (r: bool)
    ensures
        r == (forall|i: int|
            0 <= i < s.account_crypto_currency_histories@.len() ==> (#[trigger] s.account_crypto_currency_histories@[i]).0 == s.account_crypto_currency_histories@[i].1.id),
{
    let mut i: usize = 0;
    while i < s.account_crypto_currency_histories.len()
        invariant
            i <= s.account_crypto_currency_histories@.len(),
            forall|x: int| 0 <= x < i ==> (#[trigger] s.account_crypto_currency_histories@[x]).0 == s.account_crypto_currency_histories@[x].1.id,
        decreases s.account_crypto_currency_histories@.len() - i,
    {
        if s.account_crypto_currency_histories.key_at(i) != s.account_crypto_currency_histories.row_at(i).id {
            return false;
        }
        i += 1;
    }
    true
}
fn keyed_orders(s: &StorageSystem) -> (r: bool)
    ensures
        r == (forall|i: int|
            0 <= i < s.orders@.len() ==> (#[trigger] s.orders@[i]).0 == s.orders@[i].1.id),
{
    let mut i: usize = 0;
    while i < s.orders.len()
        invariant
            i <= s.orders@.len(),
            forall|x: int| 0 <= x < i ==> (#[trigger] s.orders@[x]).0 == s.orders@[x].1.id,
        decreases s.orders@.len() - i,
    {
        if s.orders.key_at(i) != s.orders.row_at(i).id {
            return false;
        }
        i += 1;
    }
    true
}
fn keyed_order_histories(s: &StorageSystem) -> (r: bool)
    ensures
        r == (forall|i: int|
            0 <= i < s.order_histories@.len() ==> (#[trigger] s.order_histories@[i]).0 == s.order_histories@[i].1.id),
{
    let mut i: usize = 0;
    while i < s.order_histories.len()
        invariant
            i <= s.order_histories@.len(),
            forall|x: int| 0 <= x < i ==> (#[trigger] s.order_histories@[x]).0 == s.order_histories@[x].1.id,
        decreases s.order_histories@.len() - i,
    {
        if s.order_histories.key_at(i) != s.order_histories.row_at(i).id {
            return false;
        }
        i += 1;
    }
    true
}
fn account_currencies_name_accounts(s: &StorageSystem) -> (r: bool)
    requires
        s.accounts.wf(),
    ensures
        r == (forall|i: int|
            0 <= i < s.account_currencies@.len() ==> has_key(s.accounts@, (#[trigger] s.account_currencies@[i]).1.account_id)),
{
    let mut i: usize = 0;
    while i < s.account_currencies.len()
        invariant
            s.accounts.wf(),
            i <= s.account_currencies@.len(),
            forall|x: int| 0 <= x < i ==> has_key(s.accounts@, (#[trigger] s.account_currencies@[x]).1.account_id),
        decreases s.account_currencies@.len() - i,
    {
        if s.accounts.index_of(s.account_currencies.row_at(i).account_id).is_none() {
            return false;
        }
        i += 1;
    }
    true
}
fn account_currency_histories_name_accounts(s: &StorageSystem) -> (r: bool)
    requires
        s.accounts.wf(),
    ensures
        r == (forall|i: int|
            0 <= i < s.account_currency_histories@.len() ==> has_key(s.accounts@, (#[trigger] s.account_currency_histories@[i]).1.account_id)),
{
    let mut i: usize = 0;
    while i < s.account_currency_histories.len()
        invariant
            s.accounts.wf(),
            i <= s.account_currency_histories@.len(),
            forall|x: int| 0 <= x < i ==> has_key(s.accounts@, (#[trigger] s.account_currency_histories@[x]).1.account_id),
        decreases s.account_currency_histories@.len() - i,
    {
        if s.accounts.index_of(s.account_currency_histories.row_at(i).account_id).is_none() {
            return false;
        }
        i += 1;
    }
    true
}
fn account_crypto_currencies_name_accounts(s: &StorageSystem) -> (r: bool)
    requires
        s.accounts.wf(),
    ensures
        r == (forall|i: int|
            0 <= i < s.account_crypto_currencies@.len() ==> has_key(s.accounts@, (#[trigger] s.account_crypto_currencies@[i]).1.account_id)),
{
    let mut i: usize = 0;
    while i < s.account_crypto_currencies.len()
        invariant
            s.accounts.wf(),
            i <= s.account_crypto_currencies@.len(),
            forall|x: int| 0 <= x < i ==> has_key(s.accounts@, (#[trigger] s.account_crypto_currencies@[x]).1.account_id),
        decreases s.account_crypto_currencies@.len() - i,
    {
        if s.accounts.index_of(s.account_crypto_currencies.row_at(i).account_id).is_none() {
            return false;
        }
        i += 1;
    }
    true
}
fn account_crypto_currency_histories_name_accounts(s: &StorageSystem) -> (r: bool)
    requires
        s.accounts.wf(),
    ensures
        r == (forall|i: int|
            0 <= i < s.account_crypto_currency_histories@.len() ==> has_key(s.accounts@, (#[trigger] s.account_crypto_currency_histories@[i]).1.account_id)),
{
    let mut i: usize = 0;
    while i < s.account_crypto_currency_histories.len()
        invariant
            s.accounts.wf(),
            i <= s.account_crypto_currency_histories@.len(),
            forall|x: int| 0 <= x < i ==> has_key(s.accounts@, (#[trigger] s.account_crypto_currency_histories@[x]).1.account_id),
        decreases s.account_crypto_currency_histories@.len() - i,
    {
        if s.accounts.index_of(s.account_crypto_currency_histories.row_at(i).account_id).is_none() {
            return false;
        }
        i += 1;
    }
    true
}
fn orders_name_accounts(s: &StorageSystem) -> (r: bool)
    requires
        s.accounts.wf(),
    ensures
        r == (forall|i: int|
            0 <= i < s.orders@.len() ==> has_key(s.accounts@, (#[trigger] s.orders@[i]).1.account_id)),
{
    let mut i: usize = 0;
    while i < s.orders.len()
        invariant
            s.accounts.wf(),
            i <= s.orders@.len(),
            forall|x: int| 0 <= x < i ==> has_key(s.accounts@, (#[trigger] s.orders@[x]).1.account_id),
        decreases s.orders@.len() - i,
    {
        if s.accounts.index_of(s.orders.row_at(i).account_id).is_none() {
            return false;
        }
        i += 1;
    }
    true
}
fn account_currencies_unique(s: &StorageSystem) -> (r: bool)
    ensures
        r == (forall|i: int, j: int|
            0 <= i < j < s.account_currencies@.len() ==> !holds_currency(
                #[trigger] s.account_currencies@[j].1,
                (#[trigger] s.account_currencies@[i]).1.account_id,
                s.account_currencies@[i].1.currency_id,
            )),
{
    let n = s.account_currencies.len();
    let mut j: usize = 0;
    while j < n
        invariant
            n == s.account_currencies@.len(),
            j <= n,
            forall|x: int, y: int|
                0 <= x < y < j ==> !holds_currency(
                    #[trigger] s.account_currencies@[y].1,
                    (#[trigger] s.account_currencies@[x]).1.account_id,
                    s.account_currencies@[x].1.currency_id,
                ),
        decreases n - j,
    {
        let mut i: usize = 0;
        while i < j
            invariant
                n == s.account_currencies@.len(),
                i <= j < n,
                forall|x: int, y: int|
                    0 <= x < y < j ==> !holds_currency(
                        #[trigger] s.account_currencies@[y].1,
                        (#[trigger] s.account_currencies@[x]).1.account_id,
                        s.account_currencies@[x].1.currency_id,
                    ),
                forall|x: int|
                    0 <= x < i ==> !holds_currency(
                        s.account_currencies@[j as int].1,
                        (#[trigger] s.account_currencies@[x]).1.account_id,
                        s.account_currencies@[x].1.currency_id,
                    ),
            decreases j - i,
        {
            let a = s.account_currencies.row_at(i);
            let b = s.account_currencies.row_at(j);
            if b.account_id == a.account_id && b.currency_id == a.currency_id {
                proof {
                    assert(holds_currency(s.account_currencies@[j as int].1, s.account_currencies@[i as int].1.account_id, s.account_currencies@[i as int].1.currency_id));
                }
                return false;
            }
            i += 1;
        }
        j += 1;
    }
    true
}
fn account_crypto_currencies_unique(s: &StorageSystem) -> (r: bool)
    ensures
        r == (forall|i: int, j: int|
            0 <= i < j < s.account_crypto_currencies@.len() ==> !holds_crypto(
                #[trigger] s.account_crypto_currencies@[j].1,
                (#[trigger] s.account_crypto_currencies@[i]).1.account_id,
                s.account_crypto_currencies@[i].1.crypto_currency_id,
            )),
{
    let n = s.account_crypto_currencies.len();
    let mut j: usize = 0;
    while j < n
        invariant
            n == s.account_crypto_currencies@.len(),
            j <= n,
            forall|x: int, y: int|
                0 <= x < y < j ==> !holds_crypto(
                    #[trigger] s.account_crypto_currencies@[y].1,
                    (#[trigger] s.account_crypto_currencies@[x]).1.account_id,
                    s.account_crypto_currencies@[x].1.crypto_currency_id,
                ),
        decreases n - j,
    {
        let mut i: usize = 0;
        while i < j
            invariant
                n == s.account_crypto_currencies@.len(),
                i <= j < n,
                forall|x: int, y: int|
                    0 <= x < y < j ==> !holds_crypto(
                        #[trigger] s.account_crypto_currencies@[y].1,
                        (#[trigger] s.account_crypto_currencies@[x]).1.account_id,
                        s.account_crypto_currencies@[x].1.crypto_currency_id,
                    ),
                forall|x: int|
                    0 <= x < i ==> !holds_crypto(
                        s.account_crypto_currencies@[j as int].1,
                        (#[trigger] s.account_crypto_currencies@[x]).1.account_id,
                        s.account_crypto_currencies@[x].1.crypto_currency_id,
                    ),
            decreases j - i,
        {
            let a = s.account_crypto_currencies.row_at(i);
            let b = s.account_crypto_currencies.row_at(j);
            if b.account_id == a.account_id && b.crypto_currency_id == a.crypto_currency_id {
                proof {
                    assert(holds_crypto(s.account_crypto_currencies@[j as int].1, s.account_crypto_currencies@[i as int].1.account_id, s.account_crypto_currencies@[i as int].1.crypto_currency_id));
                }
                return false;
            }
            i += 1;
        }
        j += 1;
    }
    true
}
fn currency_holdings_recorded(s: &StorageSystem) -> (r: bool)
    ensures
        r == (forall|i: int|
            0 <= i < s.account_currencies@.len() ==> (#[trigger] s.account_currencies@[i]).1.balance
                == recorded_balance(
                s.account_currency_histories@,
                s.account_currencies@[i].1.account_id,
                s.account_currencies@[i].1.currency_id,
            )),
{
    let mut i: usize = 0;
    while i < s.account_currencies.len()
        invariant
            i <= s.account_currencies@.len(),
            forall|x: int|
                0 <= x < i ==> (#[trigger] s.account_currencies@[x]).1.balance == recorded_balance(
                    s.account_currency_histories@,
                    s.account_currencies@[x].1.account_id,
                    s.account_currencies@[x].1.currency_id,
                ),
        decreases s.account_currencies@.len() - i,
    {
        let h = s.account_currencies.row_at(i);
        if h.balance != recorded_currency_balance(s, h.account_id, h.currency_id) {
            return false;
        }
        i += 1;
    }
    true
}

fn crypto_holdings_recorded(s: &StorageSystem) -> (r: bool)
    ensures
        r == (forall|i: int|
            0 <= i < s.account_crypto_currencies@.len()
                ==> (#[trigger] s.account_crypto_currencies@[i]).1.quantity == recorded_quantity(
                s.account_crypto_currency_histories@,
                s.account_crypto_currencies@[i].1.account_id,
                s.account_crypto_currencies@[i].1.crypto_currency_id,
            )),
{
    let mut i: usize = 0;
    while i < s.account_crypto_currencies.len()
        invariant
            i <= s.account_crypto_currencies@.len(),
            forall|x: int|
                0 <= x < i ==> (#[trigger] s.account_crypto_currencies@[x]).1.quantity
                    == recorded_quantity(
                    s.account_crypto_currency_histories@,
                    s.account_crypto_currencies@[x].1.account_id,
                    s.account_crypto_currencies@[x].1.crypto_currency_id,
                ),
        decreases s.account_crypto_currencies@.len() - i,
    {
        let h = s.account_crypto_currencies.row_at(i);
        if h.quantity != recorded_crypto_quantity(s, h.account_id, h.crypto_currency_id) {
            return false;
        }
        i += 1;
    }
    true
}

fn fills_name_stored_orders(s: &StorageSystem) -> (r: bool)
    requires
        s.orders.wf(),
    ensures
        r == fills_name_orders(s),
{
    let mut i: usize = 0;
    while i < s.order_histories.len()
        invariant
            s.orders.wf(),
            i <= s.order_histories@.len(),
            forall|x: int|
                0 <= x < i ==> has_key(s.orders@, (#[trigger] s.order_histories@[x]).1.order_id),
        decreases s.order_histories@.len() - i,
    {
        if s.orders.index_of(s.order_histories.row_at(i).order_id).is_none() {
            return false;
        }
        i += 1;
    }
    true
}

/// Whether the fills of `order_id` add up to at most `quantity`.
fn fills_at_most(s: &StorageSystem, order_id: u64, quantity: u64) -> (r: bool)
    ensures
        r == (filled(s.order_histories@, order_id) <= quantity),
{
    let ghost h = s.order_histories@;
    let mut total: u64 = 0;
    let mut k: usize = 0;
    while k < s.order_histories.len()
        invariant
            h == s.order_histories@,
            k <= h.len(),
            total == filled(h.subrange(0, k as int), order_id),
            total <= quantity,
        decreases h.len() - k,
    {
        let row = s.order_histories.row_at(k);
        proof {
            assert(h.subrange(0, k + 1).drop_last() == h.subrange(0, k as int));
            lemma_filled_prefix(h, k + 1, order_id);
        }
        if row.order_id == order_id {
            if row.quantity > quantity - total {
                return false;
            }
            total = total + row.quantity;
        }
        k += 1;
    }
    proof {
        assert(h.subrange(0, h.len() as int) == h);
    }
    true
}

fn fills_within_orders(s: &StorageSystem) -> (r: bool)
    ensures
        r == fills_within(s),
{
    let mut i: usize = 0;
    while i < s.orders.len()
        invariant
            i <= s.orders@.len(),
            forall|x: int|
                0 <= x < i ==> filled(s.order_histories@, #[trigger] s.orders@[x].0)
                    <= s.orders@[x].1.quantity,
        decreases s.orders@.len() - i,
    {
        if !fills_at_most(s, s.orders.key_at(i), s.orders.row_at(i).quantity) {
            return false;
        }
        i += 1;
    }
    true
}

/// Whether `s` is a store as the ledger keeps it: what a store read from
/// elsewhere must be before the ledger works on it.
pub fn ledger_ok(s: &StorageSystem) -> (r: bool)
    ensures
        r == ledger_wf(s),
{
    if !(s.accounts.is_sorted() && s.currencies.is_sorted() && s.crypto_currencies.is_sorted()
        && s.account_currencies.is_sorted() && s.account_currency_histories.is_sorted()
        && s.account_crypto_currencies.is_sorted()
        && s.account_crypto_currency_histories.is_sorted() && s.orders.is_sorted()
        && s.order_histories.is_sorted()) {
        return false;
    }
    let keyed = keyed_accounts(s) && keyed_currencies(s) && keyed_crypto_currencies(s)
        && keyed_account_currencies(s) && keyed_account_currency_histories(s)
        && keyed_account_crypto_currencies(s) && keyed_account_crypto_currency_histories(s)
        && keyed_orders(s) && keyed_order_histories(s);
    let named = account_currencies_name_accounts(s) && account_currency_histories_name_accounts(s)
        && account_crypto_currencies_name_accounts(s)
        && account_crypto_currency_histories_name_accounts(s) && orders_name_accounts(s);
    let unique = account_currencies_unique(s) && account_crypto_currencies_unique(s);
    let recorded = currency_holdings_recorded(s) && crypto_holdings_recorded(s);
    let fills = fills_name_stored_orders(s) && fills_within_orders(s);
    proof {
        assert(keyed == keyed_by_id(s));
        assert(named == rows_name_accounts(s));
        assert(unique == holdings_unique(s));
        assert(recorded == holdings_match_history(s));
    }
    keyed && named && unique && recorded && fills
}

} // verus!
