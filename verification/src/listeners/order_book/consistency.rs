//! Holding the local books against an authoritative snapshot.

use crate::order_book::book::Snapshot;
use crate::order_book::coin_map::{distinct_coins, lemma_table, table_of, CoinMap};
use crate::order_book::multi_book::Snapshots;
use crate::order_book::types::{is_spot_name, Coin};
use crate::types::inner::{
    is_order_written_plainly, order_text, write_order, InnerL4Order,
};
use vstd::prelude::*;
use vstd::std_specs::cmp::PartialEqSpec;

verus! {

/// How the local books differ from the authoritative ones.
#[derive(Debug)]
pub enum ConsistencyError<O> {
    /// Two orders at the same place differ.
    OrdersDoNotMatch { coin: Coin, expected: O, received: O },
    /// The authoritative book has an order behind the last local one.
    MissingOrder { coin: Coin, expected: O },
    /// The local book has an order behind the last authoritative one.
    UnexpectedOrder { coin: Coin, received: O },
    /// A book with orders is not in the authoritative snapshot.
    MissingBook { coin: Coin },
}

/// The coin's book is looked at.
pub open spec fn is_considered(coin: Seq<char>, ignore_spot: bool) -> bool {
    !(ignore_spot && is_spot_name(coin))
}

/// Two lists hold the same orders.
pub open spec fn orders_agree<O: PartialEq>(local: Seq<O>, expected: Seq<O>) -> bool {
    &&& local.len() == expected.len()
    &&& forall|i: int| 0 <= i < local.len() ==> (#[trigger] local[i]).eq_spec(&expected[i])
}

/// Two books hold the same orders.
pub open spec fn books_agree<O: PartialEq>(local: Snapshot<O>, expected: Snapshot<O>) -> bool {
    orders_agree(local.bids@, expected.bids@) && orders_agree(local.asks@, expected.asks@)
}

/// The local book of a coin is as the authoritative snapshot has it: the same orders, or no book
/// there and no order here.
pub open spec fn coin_agrees<O: PartialEq>(
    local: Snapshot<O>,
    expected: Map<Seq<char>, Snapshot<O>>,
    coin: Seq<char>,
) -> bool {
    if expected.contains_key(coin) {
        books_agree(local, expected[coin])
    } else {
        local.bids@.len() == 0 && local.asks@.len() == 0
    }
}

/// Every local book that is looked at is as the authoritative snapshot has it.
pub open spec fn is_consistent<O: PartialEq>(
    local: Map<Seq<char>, Snapshot<O>>,
    expected: Map<Seq<char>, Snapshot<O>>,
    ignore_spot: bool,
) -> bool {
    forall|coin: Seq<char>| #[trigger]
        local.contains_key(coin) && is_considered(coin, ignore_spot) ==> coin_agrees(
            local[coin],
            expected,
            coin,
        )
}

/// The authoritative books that are looked at and that there is no local book for.
pub open spec fn extra_books<L, O>(
    local: Map<Seq<char>, L>,
    expected: Map<Seq<char>, Snapshot<O>>,
    ignore_spot: bool,
) -> Map<Seq<char>, Snapshot<O>> {
    Map::new(
        |coin: Seq<char>|
            expected.contains_key(coin) && is_considered(coin, ignore_spot) && !local.contains_key(
                coin,
            ),
        |coin: Seq<char>| expected[coin],
    )
}

/// Two lists hold the same orders at their first `n` places.
pub open spec fn agree_up_to<O: PartialEq>(local: Seq<O>, authoritative: Seq<O>, n: int) -> bool {
    forall|i: int| 0 <= i < n ==> (#[trigger] local[i]).eq_spec(&authoritative[i])
}

/// `expected` and a copy of `received` stand at the first place at which the two lists differ.
pub open spec fn is_mismatch_in<O: PartialEq + Clone>(
    local: Seq<O>,
    authoritative: Seq<O>,
    expected: O,
    received: O,
) -> bool {
    exists|i: int|
        0 <= i < local.len() && i < authoritative.len() && !(#[trigger] local[i]).eq_spec(
            &authoritative[i],
        ) && agree_up_to(local, authoritative, i) && expected == authoritative[i] && cloned(
            local[i],
            received,
        )
}

/// The error names the first fault that there is in two lists of orders: two orders at the same
/// place that differ, or, where there are none, the first order that one list has beyond the
/// other.
pub open spec fn is_list_fault<O: PartialEq + Clone>(
    error: ConsistencyError<O>,
    local: Seq<O>,
    authoritative: Seq<O>,
) -> bool {
    match error {
        ConsistencyError::OrdersDoNotMatch { expected, received, .. } => is_mismatch_in(
            local,
            authoritative,
            expected,
            received,
        ),
        ConsistencyError::MissingOrder { expected, .. } => {
            &&& local.len() < authoritative.len()
            &&& agree_up_to(local, authoritative, local.len() as int)
            &&& expected == authoritative[local.len() as int]
        },
        ConsistencyError::UnexpectedOrder { received, .. } => {
            &&& authoritative.len() < local.len()
            &&& agree_up_to(local, authoritative, authoritative.len() as int)
            &&& cloned(local[authoritative.len() as int], received)
        },
        ConsistencyError::MissingBook { .. } => false,
    }
}

/// The coin that an error is about.
pub open spec fn fault_coin<O>(error: ConsistencyError<O>) -> Seq<char> {
    match error {
        ConsistencyError::OrdersDoNotMatch { coin, .. } => coin@,
        ConsistencyError::MissingOrder { coin, .. } => coin@,
        ConsistencyError::UnexpectedOrder { coin, .. } => coin@,
        ConsistencyError::MissingBook { coin } => coin@,
    }
}

/// The error names the first fault of a coin's book, the bids looked at before the asks, or a
/// book that is missing.
pub open spec fn is_fault<O: PartialEq + Clone>(
    error: ConsistencyError<O>,
    local: Map<Seq<char>, Snapshot<O>>,
    authoritative: Map<Seq<char>, Snapshot<O>>,
    ignore_spot: bool,
) -> bool {
    let coin = fault_coin(error);
    &&& local.contains_key(coin)
    &&& is_considered(coin, ignore_spot)
    &&& if error is MissingBook {
        &&& !authoritative.contains_key(coin)
        &&& local[coin].bids@.len() + local[coin].asks@.len() > 0
    } else {
        &&& authoritative.contains_key(coin)
        &&& if orders_agree(local[coin].bids@, authoritative[coin].bids@) {
            is_list_fault(error, local[coin].asks@, authoritative[coin].asks@)
        } else {
            is_list_fault(error, local[coin].bids@, authoritative[coin].bids@)
        }
    }
}

/// The first place at which two lists differ, of the places that one of them has.
fn first_mismatch<O: PartialEq>(local: &Vec<O>, expected: &Vec<O>) -> (at: Option<usize>)
    requires
        O::obeys_eq_spec(),
    ensures
        match at {
            Some(at) => {
                &&& at <= local@.len()
                &&& at <= expected@.len()
                &&& at < local@.len() || at < expected@.len()
                &&& agree_up_to(local@, expected@, at as int)
                &&& at < local@.len() && at < expected@.len() ==> !local@[at as int].eq_spec(
                    &expected@[at as int],
                )
            },
            None => orders_agree(local@, expected@),
        },
{
    let mut at: usize = 0;
    while at < local.len() && at < expected.len()
        invariant
            O::obeys_eq_spec(),
            at <= local@.len(),
            at <= expected@.len(),
            forall|i: int| 0 <= i < at ==> (#[trigger] local@[i]).eq_spec(&expected@[i]),
        decreases local@.len() - at,
    {
        if local[at] != expected[at] {
            return Some(at);
        }
        at = at + 1;
    }
    if local.len() == expected.len() {
        None
    } else {
        Some(at)
    }
}

/// What is wrong with a local list of orders, if anything.
fn list_fault<O: Clone + PartialEq>(coin: &Coin, local: &Vec<O>, expected: Vec<O>) -> (fault:
    Option<ConsistencyError<O>>)
    requires
        O::obeys_eq_spec(),
    ensures
        match fault {
            Some(fault) => {
                &&& fault_coin(fault) == coin@
                &&& !(fault is MissingBook)
                &&& is_list_fault(fault, local@, expected@)
                &&& !orders_agree(local@, expected@)
            },
            None => orders_agree(local@, expected@),
        },
{
    let ghost authoritative = expected@;
    let mut expected = expected;
    match first_mismatch(local, &expected) {
        Some(at) => {
            if at == expected.len() {
                let received = local[at].clone();
                Some(ConsistencyError::UnexpectedOrder { coin: coin.clone(), received })
            } else {
                let missing = at == local.len();
                let wanted = expected.swap_remove(at);
                if missing {
                    Some(ConsistencyError::MissingOrder { coin: coin.clone(), expected: wanted })
                } else {
                    assert(!local@[at as int].eq_spec(&authoritative[at as int]));
                    let received = local[at].clone();
                    Some(
                        ConsistencyError::OrdersDoNotMatch {
                            coin: coin.clone(),
                            expected: wanted,
                            received,
                        },
                    )
                }
            }
        },
        None => None,
    }
}

/// The entries of a table that are looked at.
fn considered_books<V>(books: CoinMap<V>, ignore_spot: bool) -> (considered: CoinMap<V>)
    ensures
        considered@ == books@.filter_keys(|coin: Seq<char>| is_considered(coin, ignore_spot)),
{
    let ghost keep = |coin: Seq<char>| is_considered(coin, ignore_spot);
    let entries = books.into_entries();
    let ghost all = entries@;
    let mut considered: CoinMap<V> = CoinMap::new();
    assert(considered@ =~= table_of(all.take(0)).filter_keys(keep));
    for entry in it: entries
        invariant
            all == it.seq(),
            keep == (|coin: Seq<char>| is_considered(coin, ignore_spot)),
            considered@ == table_of(all.take(it.index() as int)).filter_keys(keep),
    {
        let ghost at = it.index() as int;
        let (coin, value) = entry;
        proof {
            assert(all.take(at + 1).drop_last() =~= all.take(at));
            assert(table_of(all.take(at + 1)) == table_of(all.take(at)).insert(coin@, value));
        }
        let ghost before = considered@;
        let ghost name = coin@;
        if !(ignore_spot && coin.is_spot()) {
            considered.insert(coin, value);
            assert(considered@ =~= table_of(all.take(at + 1)).filter_keys(keep));
        } else {
            assert(!keep(name));
            assert(considered@ =~= table_of(all.take(at + 1)).filter_keys(keep));
        }
    }
    assert(all.take(all.len() as int) =~= all);
    considered
}

/// Holds the local books against an authoritative snapshot.
///
/// Returns the books of coins that the snapshot has and the local state lacks: newly listed
/// coins, which the caller can graft in. An order that differs, one that only one of two books
/// has, and a local book with orders that the snapshot lacks are errors: they show a state that
/// is wrong, not one that is behind. Of a coin the first fault is named, the bids looked at before
/// the asks; of which coin, where several have one, is left open.
pub fn validate_snapshot_consistency<O: Clone + PartialEq>(
    snapshot: &Snapshots<O>,
    expected: Snapshots<O>,
    ignore_spot: bool,
) -> (extras: Result<CoinMap<Snapshot<O>>, ConsistencyError<O>>)
    requires
        O::obeys_eq_spec(),
    ensures
        extras is Ok <==> is_consistent(snapshot@, expected@, ignore_spot),
        match extras {
            Ok(extras) => extras@ == extra_books(snapshot@, expected@, ignore_spot),
            Err(error) => is_fault(error, snapshot@, expected@, ignore_spot),
        },
{
    let ghost local = snapshot@;
    let ghost authoritative = expected@;
    let mut remaining = considered_books(expected.value(), ignore_spot);
    let books = snapshot.as_ref();
    let entries = books.entries();
    proof {
        lemma_table(entries@);
        assert(remaining@ =~= remaining_after(authoritative, entries@, 0, ignore_spot));
    }
    let mut at: usize = 0;
    while at < entries.len()
        invariant
            O::obeys_eq_spec(),
            at <= entries@.len(),
            local == snapshot@,
            authoritative == expected@,
            local == table_of(entries@),
            distinct_coins(entries@),
            forall|i: int|
                0 <= i < entries@.len() ==> #[trigger] local.contains_pair(
                    entries@[i].0@,
                    entries@[i].1,
                ),
            remaining@ == remaining_after(authoritative, entries@, at as int, ignore_spot),
            forall|i: int|
                0 <= i < at && is_considered((#[trigger] entries@[i]).0@, ignore_spot)
                    ==> coin_agrees(entries@[i].1, authoritative, entries@[i].0@),
        decreases entries@.len() - at,
    {
        let coin = &entries[at].0;
        let book = &entries[at].1;
        assert(local.contains_pair(entries@[at as int].0@, entries@[at as int].1));
        proof {
            lemma_remaining_step(authoritative, entries@, at as int, ignore_spot);
        }
        if !(ignore_spot && coin.is_spot()) {
            match remaining.remove(coin) {
                Some(book2) => {
                    if let Some(fault) = list_fault(coin, &book.bids, book2.bids) {
                        return Err(fault);
                    }
                    if let Some(fault) = list_fault(coin, &book.asks, book2.asks) {
                        return Err(fault);
                    }
                },
                None => {
                    if !book.bids.is_empty() || !book.asks.is_empty() {
                        return Err(ConsistencyError::MissingBook { coin: coin.clone() });
                    }
                },
            }
        }
        at = at + 1;
    }
    proof {
        assert forall|coin: Seq<char>| #[trigger]
            local.contains_key(coin) && is_considered(coin, ignore_spot) implies coin_agrees(
            local[coin],
            authoritative,
            coin,
        ) by {
            let i = choose|i: int| 0 <= i < entries@.len() && entries@[i].0@ == coin;
            assert(local.contains_pair(entries@[i].0@, entries@[i].1));
        }
        assert(remaining@ =~= extra_books(local, authoritative, ignore_spot)) by {
            assert forall|coin: Seq<char>|
                remaining@.contains_key(coin) <==> extra_books(
                    local,
                    authoritative,
                    ignore_spot,
                ).contains_key(coin) by {
                if local.contains_key(coin) {
                    let i = choose|i: int| 0 <= i < entries@.len() && entries@[i].0@ == coin;
                    assert(entries@[i].0@ == coin);
                }
                if coin_among(entries@, entries@.len() as int, coin) {
                    let i = choose|i: int|
                        0 <= i < entries@.len() && (#[trigger] entries@[i]).0@ == coin;
                    assert(local.contains_pair(entries@[i].0@, entries@[i].1));
                }
            }
        }
    }
    Ok(remaining)
}

/// The coin is one of the first `n` entries'.
spec fn coin_among<V>(entries: Seq<(Coin, V)>, n: int, coin: Seq<char>) -> bool {
    exists|i: int| 0 <= i < n && (#[trigger] entries[i]).0@ == coin
}

/// The authoritative books that are looked at and that none of the first `n` entries is for.
spec fn remaining_after<O>(
    authoritative: Map<Seq<char>, Snapshot<O>>,
    entries: Seq<(Coin, Snapshot<O>)>,
    n: int,
    ignore_spot: bool,
) -> Map<Seq<char>, Snapshot<O>> {
    Map::new(
        |coin: Seq<char>|
            authoritative.contains_key(coin) && is_considered(coin, ignore_spot) && !coin_among(
                entries,
                n,
                coin,
            ),
        |coin: Seq<char>| authoritative[coin],
    )
}

proof fn lemma_remaining_step<O>(
    authoritative: Map<Seq<char>, Snapshot<O>>,
    entries: Seq<(Coin, Snapshot<O>)>,
    n: int,
    ignore_spot: bool,
)
    requires
        0 <= n < entries.len(),
        distinct_coins(entries),
    ensures
        ({
            let before = remaining_after(authoritative, entries, n, ignore_spot);
            let after = remaining_after(authoritative, entries, n + 1, ignore_spot);
            let coin = entries[n].0@;
            &&& after == before.remove(coin)
            &&& !is_considered(coin, ignore_spot) ==> after == before
            &&& before.contains_key(coin) <==> authoritative.contains_key(coin) && is_considered(
                coin,
                ignore_spot,
            )
        }),
{
    let before = remaining_after(authoritative, entries, n, ignore_spot);
    let after = remaining_after(authoritative, entries, n + 1, ignore_spot);
    let coin = entries[n].0@;
    assert forall|k: Seq<char>|
        coin_among(entries, n + 1, k) <==> coin_among(entries, n, k) || k == coin by {
        if coin_among(entries, n + 1, k) && !coin_among(entries, n, k) {
            let i = choose|i: int| 0 <= i < n + 1 && (#[trigger] entries[i]).0@ == k;
            assert(i == n);
        }
        if k == coin {
            assert(entries[n].0@ == k);
        }
    }
    assert(after =~= before.remove(coin));
    if !is_considered(coin, ignore_spot) {
        assert(after =~= before);
    }
    assert(!coin_among(entries, n, coin)) by {
        if coin_among(entries, n, coin) {
            let i = choose|i: int| 0 <= i < n && (#[trigger] entries[i]).0@ == coin;
            assert(entries[i].0@ != entries[n].0@);
        }
    }
}

/// The text of a fault.
pub open spec fn fault_text(fault: ConsistencyError<InnerL4Order>) -> Seq<char> {
    match fault {
        ConsistencyError::OrdersDoNotMatch { expected, received, .. } => {
            "Orders do not match, expected: "@ + order_text(expected@) + " received: "@
                + order_text(received@)
        },
        ConsistencyError::MissingOrder { expected, .. } => "Orders do not match, expected: "@
            + order_text(expected@) + " received: none"@,
        ConsistencyError::UnexpectedOrder { received, .. } => {
            "Orders do not match, expected: none received: "@ + order_text(received@)
        },
        ConsistencyError::MissingBook { coin } => "Missing "@ + coin@ + " book"@,
    }
}

/// The orders of a fault are written plainly.
pub open spec fn is_fault_written_plainly(fault: ConsistencyError<InnerL4Order>) -> bool {
    match fault {
        ConsistencyError::OrdersDoNotMatch { expected, received, .. } => {
            is_order_written_plainly(expected@) && is_order_written_plainly(received@)
        },
        ConsistencyError::MissingOrder { expected, .. } => is_order_written_plainly(expected@),
        ConsistencyError::UnexpectedOrder { received, .. } => is_order_written_plainly(received@),
        ConsistencyError::MissingBook { .. } => true,
    }
}

impl ConsistencyError<InnerL4Order> {
    /// The fault in words.
    pub fn message(&self) -> (text: String)
        ensures
            text@ == fault_text(*self),
            is_fault_written_plainly(*self),
    {
        let mut text = String::new();
        match self {
            ConsistencyError::OrdersDoNotMatch { expected, received, .. } => {
                text.append("Orders do not match, expected: ");
                text.append(write_order(expected).as_str());
                text.append(" received: ");
                text.append(write_order(received).as_str());
            },
            ConsistencyError::MissingOrder { expected, .. } => {
                text.append("Orders do not match, expected: ");
                text.append(write_order(expected).as_str());
                text.append(" received: none");
            },
            ConsistencyError::UnexpectedOrder { received, .. } => {
                text.append("Orders do not match, expected: none received: ");
                text.append(write_order(received).as_str());
            },
            ConsistencyError::MissingBook { coin } => {
                text.append("Missing ");
                text.append(coin.value());
                text.append(" book");
            },
        }
        assert(text@ =~= fault_text(*self));
        text
    }
}

} // verus!
