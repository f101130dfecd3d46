//! The aggregated views of the books that subscribers get.

use crate::order_book::book::{BookView, OrderBook, Snapshot};
use crate::order_book::coin_map::{lemma_table_mapped, CoinMap};
use crate::order_book::levels::{
    book_levels, lemma_merged_base, lemma_merged_twice, merged_levels, order_levels,
    snapshot_bounded, snapshot_levels, LevelsView,
};
use crate::order_book::multi_book::OrderBooks;
use crate::order_book::rounding::{mantissa_or_one, offered, refines};
use crate::order_book::types::{Coin, Side};
use crate::par::par_map;
use crate::types::inner::InnerLevel;
use vstd::arithmetic::power::{lemma_pow0, lemma_pow1, pow};
use vstd::prelude::*;

verus! {

/// How a view rounds its prices.
#[derive(Clone, Copy, Debug, PartialEq, Eq, Hash, Structural)]
pub struct L2SnapshotParams {
    pub n_sig_figs: Option<u32>,
    pub mantissa: Option<u64>,
}

impl L2SnapshotParams {
    pub fn new(n_sig_figs: Option<u32>, mantissa: Option<u64>) -> (params: L2SnapshotParams)
        ensures
            params.n_sig_figs == n_sig_figs,
            params.mantissa == mantissa,
    {
        L2SnapshotParams { n_sig_figs, mantissa }
    }
}

/// The roundings that are published: none, and two to five significant figures, five of them
/// also with a last figure that is a multiple of two or of five.
pub open spec fn is_published(params: L2SnapshotParams) -> bool {
    match params.n_sig_figs {
        None => params.mantissa is None,
        Some(figures) => match params.mantissa {
            None => 2 <= figures <= 5,
            Some(mantissa) => figures == 5 && (mantissa == 2 || mantissa == 5),
        },
    }
}

/// The views of a book: one for each published rounding, with the book added up at it.
pub open spec fn book_views(book: BookView) -> Map<L2SnapshotParams, LevelsView> {
    Map::new(
        |params: L2SnapshotParams| is_published(params),
        |params: L2SnapshotParams| book_levels(book, params.n_sig_figs, params.mantissa),
    )
}

/// The views that a list holds.
pub open spec fn views_table(
    views: Seq<(L2SnapshotParams, Snapshot<InnerLevel>)>,
) -> Map<L2SnapshotParams, LevelsView>
    decreases views.len(),
{
    if views.len() == 0 {
        Map::empty()
    } else {
        views_table(views.drop_last()).insert(views.last().0, snapshot_levels(views.last().1))
    }
}

/// The views of one book.
#[derive(Debug)]
pub struct L2Views {
    views: Vec<(L2SnapshotParams, Snapshot<InnerLevel>)>,
}

impl View for L2Views {
    type V = Map<L2SnapshotParams, LevelsView>;

    closed spec fn view(&self) -> Map<L2SnapshotParams, LevelsView> {
        views_table(self.views@)
    }
}

impl L2Views {
    /// The view at a rounding.
    pub fn get(&self, params: &L2SnapshotParams) -> (view: Option<&Snapshot<InnerLevel>>)
        ensures
            match view {
                Some(view) => self@.contains_pair(*params, snapshot_levels(*view)),
                None => !self@.contains_key(*params),
            },
    {
        let ghost all = self.views@;
        let mut at: usize = self.views.len();
        assert(all.take(at as int) =~= all);
        while at > 0
            invariant
                all == self.views@,
                at <= all.len(),
                self@.contains_key(*params) <==> views_table(all.take(at as int)).contains_key(
                    *params,
                ),
                self@.contains_key(*params) ==> self@[*params] == views_table(
                    all.take(at as int),
                )[*params],
            decreases at,
        {
            at = at - 1;
            assert(all.take(at + 1).drop_last() =~= all.take(at as int));
            if self.views[at].0 == *params {
                return Some(&self.views[at].1);
            }
        }
        None
    }
}

/// Adds the view at a rounding, made from the view `back` places before the end.
fn add_view(
    views: &mut Vec<(L2SnapshotParams, Snapshot<InnerLevel>)>,
    n_sig_figs: Option<u32>,
    mantissa: Option<u64>,
    back: usize,
)
    requires
        offered(n_sig_figs, mantissa),
        1 <= back <= old(views)@.len(),
        snapshot_bounded(old(views)@[old(views)@.len() - back].1),
    ensures
        final(views)@.len() == old(views)@.len() + 1,
        final(views)@.drop_last() == old(views)@,
        final(views)@.last().0 == (L2SnapshotParams { n_sig_figs, mantissa }),
        snapshot_levels(final(views)@.last().1) == merged_levels(
            snapshot_levels(old(views)@[old(views)@.len() - back].1),
            n_sig_figs,
            mantissa,
        ),
        snapshot_bounded(final(views)@.last().1),
{
    let base: usize = views.len() - back;
    let snapshot = views[base].1.to_l2_snapshot(n_sig_figs, mantissa);
    views.push((L2SnapshotParams { n_sig_figs, mantissa }, snapshot));
    assert(views@.drop_last() =~= old(views)@);
}

proof fn lemma_coarser(
    book: BookView,
    fine: (u32, Option<u64>),
    coarse: (u32, Option<u64>),
    k: int,
)
    requires
        offered(Some(fine.0), fine.1),
        offered(Some(coarse.0), coarse.1),
        coarse.0 <= fine.0,
        k > 0,
        k * mantissa_or_one(fine.1) == mantissa_or_one(coarse.1) * pow(
            10,
            (fine.0 - coarse.0) as nat,
        ),
    ensures
        merged_levels(book_levels(book, Some(fine.0), fine.1), Some(coarse.0), coarse.1)
            == book_levels(book, Some(coarse.0), coarse.1),
{
    assert(refines(fine, coarse));
    lemma_merged_twice(order_levels(book.bids), Side::Bid, fine, coarse);
    lemma_merged_twice(order_levels(book.asks), Side::Ask, fine, coarse);
}

/// The views of a book, each made from one that keeps all that it needs.
fn l2_views(book: &OrderBook) -> (views: L2Views)
    ensures
        views@ == book_views(book@),
{
    let mut views: Vec<(L2SnapshotParams, Snapshot<InnerLevel>)> = Vec::new();
    views.push((L2SnapshotParams { n_sig_figs: None, mantissa: None }, book.to_l2_snapshot()));
    let ghost v0 = views@;
    add_view(&mut views, Some(5), None, 1);
    let ghost v1 = views@;
    add_view(&mut views, Some(5), Some(2), 1);
    let ghost v2 = views@;
    assert(v2[v2.len() - 2] == v2.drop_last().last());
    // The multiples of two do not hold the multiples of five: take the view before.
    add_view(&mut views, Some(5), Some(5), 2);
    let ghost v3 = views@;
    add_view(&mut views, Some(4), None, 1);
    let ghost v4 = views@;
    add_view(&mut views, Some(3), None, 1);
    let ghost v5 = views@;
    add_view(&mut views, Some(2), None, 1);
    let ghost v6 = views@;
    proof {
        let b = book@;
        lemma_pow0(10);
        lemma_pow1(10);
        lemma_merged_base(order_levels(b.bids), Side::Bid, Some(5), None);
        lemma_merged_base(order_levels(b.asks), Side::Ask, Some(5), None);
        lemma_coarser(b, (5, None), (5, Some(2)), 2);
        lemma_coarser(b, (5, None), (5, Some(5)), 5);
        lemma_coarser(b, (5, Some(5)), (4, None), 2);
        lemma_coarser(b, (4, None), (3, None), 10);
        lemma_coarser(b, (3, None), (2, None), 10);
        assert(v0.drop_last() =~= Seq::empty());
        reveal_with_fuel(views_table, 8);
        assert(views_table(v6) =~= book_views(b));
    }
    L2Views { views }
}

/// A coin's entry, with the views of its book in place of the book.
fn entry_views(entry: &(Coin, OrderBook)) -> (shown: (Coin, L2Views))
    ensures
        shown.0@ == entry.0@,
        shown.1@ == book_views(entry.1@),
{
    (entry.0.clone(), l2_views(&entry.1))
}

/// The views of the books of all coins.
#[derive(Debug)]
pub struct L2Snapshots(CoinMap<L2Views>);

impl View for L2Snapshots {
    type V = Map<Seq<char>, Map<L2SnapshotParams, LevelsView>>;

    closed spec fn view(&self) -> Map<Seq<char>, Map<L2SnapshotParams, LevelsView>> {
        self.0@.map_values(|views: L2Views| views@)
    }
}

impl L2Snapshots {
    pub fn as_ref(&self) -> (views: &CoinMap<L2Views>)
        ensures
            views@.map_values(|views: L2Views| views@) == self@,
    {
        &self.0
    }
}

/// The views of all books.
pub open spec fn all_views(
    books: Map<Seq<char>, BookView>,
) -> Map<Seq<char>, Map<L2SnapshotParams, LevelsView>> {
    books.map_values(|book: BookView| book_views(book))
}

/// Makes the views of all books, in parallel.
pub fn compute_l2_snapshots(order_books: &OrderBooks) -> (snapshots: L2Snapshots)
    ensures
        snapshots@ == all_views(order_books@),
{
    let books = order_books.as_ref();
    let entries = books.entries();
    let shown = par_map(entries, entry_views);
    proof {
        assert forall|i: int| 0 <= i < entries@.len() implies (#[trigger] entries@[i]).0@ == (
        #[trigger] shown@[i]).0@ && book_views(entries@[i].1@) == shown@[i].1@ by {
            assert(call_ensures(entry_views, (&entries@[i],), shown@[i]));
        }
        lemma_table_mapped(
            entries@,
            shown@,
            |book: OrderBook| book_views(book@),
            |views: L2Views| views@,
        );
        assert(books@.map_values(|book: OrderBook| book_views(book@)) =~= all_views(order_books@));
    }
    L2Snapshots(CoinMap::from_entries(shown))
}

} // verus!
