//! The books of all coins.

use crate::order_book::book::{snapshot_book, BookView, OrderBook, Snapshot};
use crate::order_book::coin_map::{lemma_table, lemma_table_mapped, table_of, CoinMap};
use crate::order_book::types::{Coin, Sz};
use crate::par::par_map;
use crate::types::inner::{InnerL4Order, OrderView};
use vstd::prelude::*;

verus! {

/// One snapshot per coin.
#[derive(Debug)]
pub struct Snapshots<O> {
    books: CoinMap<Snapshot<O>>,
}

impl<O> View for Snapshots<O> {
    type V = Map<Seq<char>, Snapshot<O>>;

    closed spec fn view(&self) -> Map<Seq<char>, Snapshot<O>> {
        self.books@
    }
}

impl<O> Snapshots<O> {
    pub fn new(books: CoinMap<Snapshot<O>>) -> (snapshots: Snapshots<O>)
        ensures
            snapshots@ == books@,
    {
        Snapshots { books }
    }

    pub fn value(self) -> (books: CoinMap<Snapshot<O>>)
        ensures
            books@ == self@,
    {
        self.books
    }

    pub fn as_ref(&self) -> (books: &CoinMap<Snapshot<O>>)
        ensures
            books@ == self@,
    {
        &self.books
    }
}

/// The books that some snapshots of orders show.
pub open spec fn snapshot_books(
    snapshots: Map<Seq<char>, Snapshot<InnerL4Order>>,
) -> Map<Seq<char>, BookView> {
    snapshots.map_values(|snapshot: Snapshot<InnerL4Order>| snapshot_book(snapshot))
}

/// The books that are built from some snapshots.
pub open spec fn loaded_books(
    snapshots: Map<Seq<char>, Snapshot<InnerL4Order>>,
    ignore_triggers: bool,
) -> Map<Seq<char>, BookView> {
    snapshots.map_values(
        |snapshot: Snapshot<InnerL4Order>| snapshot_book(snapshot).loaded(ignore_triggers),
    )
}

/// The book of a coin, which is empty where there is none.
pub open spec fn book_or_empty(books: Map<Seq<char>, BookView>, coin: Seq<char>) -> BookView {
    if books.contains_key(coin) {
        books[coin]
    } else {
        BookView::empty()
    }
}

/// The books with one more order.
pub open spec fn with_order(
    books: Map<Seq<char>, BookView>,
    order: OrderView,
) -> Map<Seq<char>, BookView> {
    books.insert(order.coin, book_or_empty(books, order.coin).with_order(order))
}

/// An order with id `oid` rests on the coin's book.
pub open spec fn holds_order(books: Map<Seq<char>, BookView>, coin: Seq<char>, oid: u64) -> bool {
    books.contains_key(coin) && books[coin].holds(oid)
}

/// The book of each coin.
#[derive(Debug)]
pub struct OrderBooks {
    books: CoinMap<OrderBook>,
}

impl View for OrderBooks {
    type V = Map<Seq<char>, BookView>;

    closed spec fn view(&self) -> Map<Seq<char>, BookView> {
        self.books@.map_values(|book: OrderBook| book@)
    }
}

/// A coin's entry, with the snapshot of its book in place of the book.
fn entry_snapshot(entry: &(Coin, OrderBook)) -> (shown: (Coin, Snapshot<InnerL4Order>))
    ensures
        shown.0@ == entry.0@,
        snapshot_book(shown.1) == entry.1@,
{
    (entry.0.clone(), entry.1.to_snapshot())
}

impl OrderBooks {
    /// Builds a book per coin from its snapshot.
    pub fn from_snapshots(snapshots: Snapshots<InnerL4Order>, ignore_triggers: bool) -> (books:
        OrderBooks)
        ensures
            books@ == loaded_books(snapshots@, ignore_triggers),
    {
        let entries = snapshots.value().into_entries();
        let ghost shown = entries@;
        let mut books: Vec<(Coin, OrderBook)> = Vec::new();
        for entry in it: entries
            invariant
                shown == it.seq(),
                books@.len() == it.index(),
                forall|i: int|
                    0 <= i < books@.len() ==> (#[trigger] books@[i]).0@ == shown[i].0@
                        && books@[i].1@ == snapshot_book(shown[i].1).loaded(ignore_triggers),
        {
            let (coin, snapshot) = entry;
            books.push((coin, OrderBook::from_snapshot(snapshot, ignore_triggers)));
        }
        proof {
            lemma_table_mapped(
                shown,
                books@,
                |snapshot: Snapshot<InnerL4Order>| snapshot_book(snapshot).loaded(ignore_triggers),
                |book: OrderBook| book@,
            );
        }
        OrderBooks { books: CoinMap::from_entries(books) }
    }

    /// Puts in the book that is built from a snapshot, in place of the one that the coin had.
    pub fn insert_book(
        &mut self,
        coin: Coin,
        snapshot: Snapshot<InnerL4Order>,
        ignore_triggers: bool,
    )
        ensures
            final(self)@ == old(self)@.insert(
                coin@,
                snapshot_book(snapshot).loaded(ignore_triggers),
            ),
    {
        let book = OrderBook::from_snapshot(snapshot, ignore_triggers);
        let ghost name = coin@;
        let ghost view = book@;
        self.books.insert(coin, book);
        assert(self@ =~= old(self)@.insert(name, view));
    }

    pub fn has_book(&self, coin: &Coin) -> (found: bool)
        ensures
            found == self@.contains_key(coin@),
    {
        self.books.contains(coin)
    }

    /// Adds an order to its coin's book, which is made where there is none.
    pub fn add_order(&mut self, order: InnerL4Order)
        ensures
            final(self)@ == with_order(old(self)@, order@),
    {
        let coin = order.coin.clone();
        let ghost name = coin@;
        let mut book = match self.books.remove(&coin) {
            Some(book) => book,
            None => OrderBook::new(),
        };
        assert(book@ == book_or_empty(old(self)@, name));
        book.add_order(order);
        let ghost view = book@;
        self.books.insert(coin, book);
        assert(self@ =~= old(self)@.insert(name, view));
    }

    /// Gives an order another size, and says whether it rests on the coin's book.
    pub fn modify_sz(&mut self, oid: u64, coin: Coin, sz: Sz) -> (found: bool)
        ensures
            found == holds_order(old(self)@, coin@, oid),
            final(self)@ == (if old(self)@.contains_key(coin@) {
                old(self)@.insert(coin@, old(self)@[coin@].with_size(oid, sz.units))
            } else {
                old(self)@
            }),
    {
        let ghost name = coin@;
        match self.books.remove(&coin) {
            Some(mut book) => {
                let found = book.modify_sz(oid, sz);
                let ghost view = book@;
                self.books.insert(coin, book);
                assert(self@ =~= old(self)@.insert(name, view));
                found
            },
            None => {
                assert(self@ =~= old(self)@);
                false
            },
        }
    }

    /// Takes an order off the coin's book, and says whether it rested there.
    pub fn cancel_order(&mut self, oid: u64, coin: Coin) -> (found: bool)
        ensures
            found == holds_order(old(self)@, coin@, oid),
            final(self)@ == (if old(self)@.contains_key(coin@) {
                old(self)@.insert(coin@, old(self)@[coin@].without(oid))
            } else {
                old(self)@
            }),
    {
        let ghost name = coin@;
        match self.books.remove(&coin) {
            Some(mut book) => {
                let found = book.cancel_order(oid);
                let ghost view = book@;
                self.books.insert(coin, book);
                assert(self@ =~= old(self)@.insert(name, view));
                found
            },
            None => {
                assert(self@ =~= old(self)@);
                false
            },
        }
    }

    /// A snapshot of every book, taken in parallel.
    pub fn to_snapshots_par(&self) -> (snapshots: Snapshots<InnerL4Order>)
        ensures
            snapshot_books(snapshots@) == self@,
    {
        let entries = self.books.entries();
        let shown = par_map(entries, entry_snapshot);
        proof {
            assert forall|i: int| 0 <= i < entries@.len() implies (#[trigger] entries@[i]).0@ == (
            #[trigger] shown@[i]).0@ && entries@[i].1@ == snapshot_book(shown@[i].1) by {
                assert(call_ensures(entry_snapshot, (&entries@[i],), shown@[i]));
            }
            lemma_table_mapped(
                entries@,
                shown@,
                |book: OrderBook| book@,
                |snapshot: Snapshot<InnerL4Order>| snapshot_book(snapshot),
            );
        }
        Snapshots { books: CoinMap::from_entries(shown) }
    }

    pub fn as_ref(&self) -> (books: &CoinMap<OrderBook>)
        ensures
            books@.map_values(|book: OrderBook| book@) == self@,
    {
        &self.books
    }

    /// The coins that have a book, each once.
    pub fn coins(&self) -> (coins: Vec<Coin>)
        ensures
            coins@.map_values(|coin: Coin| coin@).no_duplicates(),
            coins@.map_values(|coin: Coin| coin@).to_set() == self@.dom(),
    {
        let entries = self.books.entries();
        let mut coins: Vec<Coin> = Vec::new();
        let mut at: usize = 0;
        while at < entries.len()
            invariant
                at <= entries@.len(),
                coins@.len() == at,
                forall|i: int| 0 <= i < at ==> (#[trigger] coins@[i])@ == entries@[i].0@,
            decreases entries@.len() - at,
        {
            coins.push(entries[at].0.clone());
            at = at + 1;
        }
        proof {
            let names = coins@.map_values(|coin: Coin| coin@);
            lemma_table(entries@);
            assert forall|i: int, j: int|
                0 <= i < names.len() && 0 <= j < names.len() && i != j implies names[i]
                != names[j] by {
                assert(names[i] == coins@[i]@ && names[j] == coins@[j]@);
                assert(entries@[i].0@ != entries@[j].0@);
            }
            assert forall|k: Seq<char>| names.contains(k) <==> self@.contains_key(k) by {
                if names.contains(k) {
                    let i = choose|i: int| 0 <= i < names.len() && names[i] == k;
                    assert(coins@[i]@ == entries@[i].0@);
                    assert(table_of(entries@).contains_pair(entries@[i].0@, entries@[i].1));
                }
                if self@.contains_key(k) {
                    assert(table_of(entries@).contains_key(k));
                    let i = choose|i: int| 0 <= i < entries@.len() && entries@[i].0@ == k;
                    assert(names[i] == coins@[i]@);
                }
            }
            assert(names.to_set() =~= self@.dom());
        }
        coins
    }
}

impl Clone for OrderBooks {
    fn clone(&self) -> (copy: OrderBooks)
        ensures
            copy@ == self@,
    {
        let entries = self.books.entries();
        let mut copies: Vec<(Coin, OrderBook)> = Vec::new();
        let mut at: usize = 0;
        while at < entries.len()
            invariant
                at <= entries@.len(),
                copies@.len() == at,
                forall|i: int|
                    0 <= i < at ==> (#[trigger] copies@[i]).0@ == entries@[i].0@ && copies@[i].1@
                        == entries@[i].1@,
            decreases entries@.len() - at,
        {
            copies.push((entries[at].0.clone(), entries[at].1.clone()));
            at = at + 1;
        }
        proof {
            lemma_table_mapped(
                entries@,
                copies@,
                |book: OrderBook| book@,
                |book: OrderBook| book@,
            );
        }
        OrderBooks { books: CoinMap::from_entries(copies) }
    }
}

} // verus!
