//! Books added up by price level.

use crate::order_book::book::{
    goes_first, order_views, side_in_priority, BookView, OrderBook, Snapshot,
};
use crate::order_book::rounding::{
    bucket, bucket_px, lemma_bucket_monotone, lemma_bucket_twice, offered,
    refines, MAX_LEVEL_PX,
};
use crate::order_book::types::Side;
use crate::types::inner::{InnerL4Order, InnerLevel, OrderView};
use vstd::prelude::*;

verus! {

/// A price, the size that rests there, and the number of orders that make it up.
pub ghost struct LevelView {
    pub px: nat,
    pub sz: nat,
    pub n: nat,
}

impl View for InnerLevel {
    type V = LevelView;

    open spec fn view(&self) -> LevelView {
        LevelView { px: self.px as nat, sz: self.sz as nat, n: self.n as nat }
    }
}

/// What each of some levels says.
pub open spec fn level_views(levels: Seq<InnerLevel>) -> Seq<LevelView> {
    levels.map_values(|level: InnerLevel| level@)
}

/// The levels with one more amount: added to the last level where the price is the same.
pub open spec fn with_level(levels: Seq<LevelView>, level: LevelView) -> Seq<LevelView> {
    if levels.len() > 0 && levels.last().px == level.px {
        levels.update(
            levels.len() - 1,
            LevelView {
                px: level.px,
                sz: levels.last().sz + level.sz,
                n: levels.last().n + level.n,
            },
        )
    } else {
        levels.push(level)
    }
}

/// The levels with their prices rounded, and those that fall together added up.
pub open spec fn merged(
    levels: Seq<LevelView>,
    side: Side,
    n_sig_figs: Option<u32>,
    mantissa: Option<u64>,
) -> Seq<LevelView>
    decreases levels.len(),
{
    if levels.len() == 0 {
        Seq::empty()
    } else {
        let last = levels.last();
        with_level(
            merged(levels.drop_last(), side, n_sig_figs, mantissa),
            LevelView { px: bucket(side, last.px, n_sig_figs, mantissa), ..last },
        )
    }
}

/// Each order as a level of its own.
pub open spec fn order_levels(orders: Seq<OrderView>) -> Seq<LevelView> {
    orders.map_values(
        |order: OrderView| LevelView { px: order.limit_px as nat, sz: order.sz as nat, n: 1 },
    )
}

/// A book added up by price level.
#[verifier::ext_equal]
pub ghost struct LevelsView {
    pub bids: Seq<LevelView>,
    pub asks: Seq<LevelView>,
}

/// The levels of a book at a rounding.
pub open spec fn book_levels(
    book: BookView,
    n_sig_figs: Option<u32>,
    mantissa: Option<u64>,
) -> LevelsView {
    LevelsView {
        bids: merged(order_levels(book.bids), Side::Bid, n_sig_figs, mantissa),
        asks: merged(order_levels(book.asks), Side::Ask, n_sig_figs, mantissa),
    }
}

/// The levels of levels at a rounding.
pub open spec fn merged_levels(
    levels: LevelsView,
    n_sig_figs: Option<u32>,
    mantissa: Option<u64>,
) -> LevelsView {
    LevelsView {
        bids: merged(levels.bids, Side::Bid, n_sig_figs, mantissa),
        asks: merged(levels.asks, Side::Ask, n_sig_figs, mantissa),
    }
}

/// The levels that a snapshot of levels shows.
pub open spec fn snapshot_levels(snapshot: Snapshot<InnerLevel>) -> LevelsView {
    LevelsView { bids: level_views(snapshot.bids@), asks: level_views(snapshot.asks@) }
}

/// The size of some levels together.
pub open spec fn total_size(levels: Seq<LevelView>) -> nat
    decreases levels.len(),
{
    if levels.len() == 0 {
        0
    } else {
        total_size(levels.drop_last()) + levels.last().sz
    }
}

/// The number of orders of some levels together.
pub open spec fn total_orders(levels: Seq<LevelView>) -> nat
    decreases levels.len(),
{
    if levels.len() == 0 {
        0
    } else {
        total_orders(levels.drop_last()) + levels.last().n
    }
}

proof fn lemma_with_level_totals(levels: Seq<LevelView>, level: LevelView)
    ensures
        total_size(with_level(levels, level)) == total_size(levels) + level.sz,
        total_orders(with_level(levels, level)) == total_orders(levels) + level.n,
{
    let after = with_level(levels, level);
    if levels.len() > 0 && levels.last().px == level.px {
        assert(after.drop_last() =~= levels.drop_last());
    } else {
        assert(after.drop_last() =~= levels);
    }
}

/// Adding up loses nothing: size and number of orders stay what they were.
pub proof fn lemma_merged_totals(
    levels: Seq<LevelView>,
    side: Side,
    n_sig_figs: Option<u32>,
    mantissa: Option<u64>,
)
    ensures
        total_size(merged(levels, side, n_sig_figs, mantissa)) == total_size(levels),
        total_orders(merged(levels, side, n_sig_figs, mantissa)) == total_orders(levels),
    decreases levels.len(),
{
    if levels.len() > 0 {
        let last = levels.last();
        lemma_merged_totals(levels.drop_last(), side, n_sig_figs, mantissa);
        lemma_with_level_totals(
            merged(levels.drop_last(), side, n_sig_figs, mantissa),
            LevelView { px: bucket(side, last.px, n_sig_figs, mantissa), ..last },
        );
    }
}

/// Levels that were added up at a finer rounding add up, at a coarser one, to what the
/// unrounded levels add up to.
pub proof fn lemma_merged_twice(
    levels: Seq<LevelView>,
    side: Side,
    fine: (u32, Option<u64>),
    coarse: (u32, Option<u64>),
)
    requires
        offered(Some(fine.0), fine.1),
        offered(Some(coarse.0), coarse.1),
        refines(fine, coarse),
    ensures
        merged(merged(levels, side, Some(fine.0), fine.1), side, Some(coarse.0), coarse.1)
            == merged(levels, side, Some(coarse.0), coarse.1),
    decreases levels.len(),
{
    if levels.len() > 0 {
        let init = levels.drop_last();
        let last = levels.last();
        let f = merged(init, side, Some(fine.0), fine.1);
        let x = LevelView { px: bucket(side, last.px, Some(fine.0), fine.1), ..last };
        lemma_merged_twice(init, side, fine, coarse);
        lemma_bucket_twice(side, last.px, fine, coarse);
        let after = with_level(f, x);
        if f.len() > 0 && f.last().px == x.px {
            assert(after.drop_last() =~= f.drop_last());
            let g = merged(f.drop_last(), side, Some(coarse.0), coarse.1);
            let p = bucket(side, x.px, Some(coarse.0), coarse.1);
            let y = LevelView { px: p, ..f.last() };
            let z = LevelView { px: p, ..x };
            let yz = LevelView { px: p, sz: y.sz + z.sz, n: y.n + z.n };
            assert(with_level(with_level(g, y), z) =~= with_level(g, yz));
        } else {
            assert(after.drop_last() =~= f);
        }
    } else {
        assert(merged(levels, side, Some(fine.0), fine.1) =~= Seq::empty());
    }
}

/// Adding up the levels of the unrounded prices is adding up the orders.
pub proof fn lemma_merged_base(
    levels: Seq<LevelView>,
    side: Side,
    n_sig_figs: Option<u32>,
    mantissa: Option<u64>,
)
    ensures
        merged(merged(levels, side, None, None), side, n_sig_figs, mantissa) == merged(
            levels,
            side,
            n_sig_figs,
            mantissa,
        ),
    decreases levels.len(),
{
    if levels.len() > 0 {
        let init = levels.drop_last();
        let x = levels.last();
        let f = merged(init, side, None, None);
        lemma_merged_base(init, side, n_sig_figs, mantissa);
        let after = with_level(f, x);
        if f.len() > 0 && f.last().px == x.px {
            assert(after.drop_last() =~= f.drop_last());
            let g = merged(f.drop_last(), side, n_sig_figs, mantissa);
            let p = bucket(side, x.px, n_sig_figs, mantissa);
            let y = LevelView { px: p, ..f.last() };
            let z = LevelView { px: p, ..x };
            let yz = LevelView { px: p, sz: y.sz + z.sz, n: y.n + z.n };
            assert(with_level(with_level(g, y), z) =~= with_level(g, yz));
        } else {
            assert(after.drop_last() =~= f);
        }
    } else {
        assert(merged(levels, side, None, None) =~= Seq::empty());
    }
}

/// Best price first, and no price twice.
pub open spec fn strictly_ordered(levels: Seq<LevelView>, side: Side) -> bool {
    forall|i: int, j: int|
        0 <= i < j < levels.len() ==> match side {
            Side::Ask => (#[trigger] levels[i]).px < (#[trigger] levels[j]).px,
            Side::Bid => (#[trigger] levels[i]).px > (#[trigger] levels[j]).px,
        }
}

/// Best price first.
spec fn ordered(levels: Seq<LevelView>, side: Side) -> bool {
    forall|i: int, j: int|
        0 <= i < j < levels.len() ==> match side {
            Side::Ask => (#[trigger] levels[i]).px <= (#[trigger] levels[j]).px,
            Side::Bid => (#[trigger] levels[i]).px >= (#[trigger] levels[j]).px,
        }
}

proof fn lemma_merged_ordered(
    levels: Seq<LevelView>,
    side: Side,
    n_sig_figs: Option<u32>,
    mantissa: Option<u64>,
)
    requires
        offered(n_sig_figs, mantissa),
        ordered(levels, side),
    ensures
        strictly_ordered(merged(levels, side, n_sig_figs, mantissa), side),
        levels.len() > 0 ==> merged(levels, side, n_sig_figs, mantissa).len() > 0 && merged(
            levels,
            side,
            n_sig_figs,
            mantissa,
        ).last().px == bucket(side, levels.last().px, n_sig_figs, mantissa),
    decreases levels.len(),
{
    if levels.len() > 0 {
        let init = levels.drop_last();
        let last = levels.last();
        assert forall|i: int, j: int| 0 <= i < j < init.len() implies match side {
            Side::Ask => (#[trigger] init[i]).px <= (#[trigger] init[j]).px,
            Side::Bid => (#[trigger] init[i]).px >= (#[trigger] init[j]).px,
        } by {
            assert(levels[i] == init[i] && levels[j] == init[j]);
        }
        lemma_merged_ordered(init, side, n_sig_figs, mantissa);
        let before = merged(init, side, n_sig_figs, mantissa);
        let p = bucket(side, last.px, n_sig_figs, mantissa);
        let after = merged(levels, side, n_sig_figs, mantissa);
        if init.len() > 0 {
            let second = levels[levels.len() - 2];
            assert(init.last() == second);
            assert(levels[levels.len() - 1] == last);
            match side {
                Side::Ask => {
                    lemma_bucket_monotone(side, second.px, last.px, n_sig_figs, mantissa);
                },
                Side::Bid => {
                    lemma_bucket_monotone(side, last.px, second.px, n_sig_figs, mantissa);
                },
            }
        }
        assert forall|i: int, j: int| 0 <= i < j < after.len() implies match side {
            Side::Ask => (#[trigger] after[i]).px < (#[trigger] after[j]).px,
            Side::Bid => (#[trigger] after[i]).px > (#[trigger] after[j]).px,
        } by {
            assert(after[i].px == before[i].px);
            if j < before.len() {
                assert(after[j].px == before[j].px);
            } else {
                assert(before.len() == init.len() || before.len() > 0);
                assert(after[j].px == p);
                if i < before.len() - 1 {
                    assert(before[before.len() - 1] == before.last());
                }
            }
        }
    }
}

/// The levels of a book in priority stand best price first, and no price occurs twice.
pub proof fn lemma_levels_strictly_ordered(
    book: BookView,
    n_sig_figs: Option<u32>,
    mantissa: Option<u64>,
)
    requires
        book.in_priority(),
        offered(n_sig_figs, mantissa),
    ensures
        strictly_ordered(book_levels(book, n_sig_figs, mantissa).bids, Side::Bid),
        strictly_ordered(book_levels(book, n_sig_figs, mantissa).asks, Side::Ask),
{
    lemma_order_levels_ordered(book.bids, Side::Bid);
    lemma_order_levels_ordered(book.asks, Side::Ask);
    lemma_merged_ordered(order_levels(book.bids), Side::Bid, n_sig_figs, mantissa);
    lemma_merged_ordered(order_levels(book.asks), Side::Ask, n_sig_figs, mantissa);
}

proof fn lemma_order_levels_ordered(orders: Seq<OrderView>, side: Side)
    requires
        side_in_priority(orders, side),
    ensures
        ordered(order_levels(orders), side),
{
    let levels = order_levels(orders);
    assert forall|i: int, j: int| 0 <= i < j < levels.len() implies match side {
        Side::Ask => (#[trigger] levels[i]).px <= (#[trigger] levels[j]).px,
        Side::Bid => (#[trigger] levels[i]).px >= (#[trigger] levels[j]).px,
    } by {
        assert(goes_first(side, orders[i].limit_px, orders[j].limit_px));
    }
}

/// The sums over the levels fit their fields.
pub open spec fn bounded(levels: Seq<InnerLevel>) -> bool {
    &&& forall|i: int| 0 <= i < levels.len() ==> (#[trigger] levels[i]).px <= MAX_LEVEL_PX
    &&& total_size(level_views(levels)) <= u128::MAX
    &&& total_orders(level_views(levels)) <= usize::MAX
}

/// The sums over both sides fit their fields.
pub open spec fn snapshot_bounded(snapshot: Snapshot<InnerLevel>) -> bool {
    &&& bounded(snapshot.bids@)
    &&& bounded(snapshot.asks@)
}

proof fn lemma_total_parts(levels: Seq<LevelView>, i: int)
    requires
        0 <= i < levels.len(),
    ensures
        total_size(levels.take(i)) + levels[i].sz == total_size(levels.take(i + 1)),
        total_orders(levels.take(i)) + levels[i].n == total_orders(levels.take(i + 1)),
        total_size(levels.take(i + 1)) <= total_size(levels),
        total_orders(levels.take(i + 1)) <= total_orders(levels),
    decreases levels.len() - i,
{
    assert(levels.take(i + 1).drop_last() =~= levels.take(i));
    if i + 1 < levels.len() {
        lemma_total_parts(levels, i + 1);
    } else {
        assert(levels.take(i + 1) =~= levels);
    }
}

proof fn lemma_last_in_total(levels: Seq<LevelView>)
    requires
        levels.len() > 0,
    ensures
        levels.last().sz <= total_size(levels),
        levels.last().n <= total_orders(levels),
{
}

/// Rounds the prices of some levels and adds up those that fall together.
fn merge(
    levels: &Vec<InnerLevel>,
    side: Side,
    n_sig_figs: Option<u32>,
    mantissa: Option<u64>,
) -> (out: Vec<InnerLevel>)
    requires
        offered(n_sig_figs, mantissa),
        bounded(levels@),
    ensures
        level_views(out@) == merged(level_views(levels@), side, n_sig_figs, mantissa),
        bounded(out@),
{
    let ghost views = level_views(levels@);
    let mut out: Vec<InnerLevel> = Vec::new();
    let mut at: usize = 0;
    assert(level_views(out@) =~= merged(views.take(0), side, n_sig_figs, mantissa));
    while at < levels.len()
        invariant
            offered(n_sig_figs, mantissa),
            bounded(levels@),
            views == level_views(levels@),
            at <= levels@.len(),
            level_views(out@) == merged(views.take(at as int), side, n_sig_figs, mantissa),
            forall|i: int| 0 <= i < out@.len() ==> (#[trigger] out@[i]).px <= MAX_LEVEL_PX,
        decreases levels@.len() - at,
    {
        let level = levels[at];
        let ghost outs = level_views(out@);
        proof {
            assert(views[at as int] == level@);
            assert(views.take(at + 1).drop_last() =~= views.take(at as int));
            assert(views.take(at + 1).last() == level@);
            lemma_merged_totals(views.take(at as int), side, n_sig_figs, mantissa);
            lemma_total_parts(views, at as int);
        }
        let px = bucket_px(side, level.px, n_sig_figs, mantissa);
        let len: usize = out.len();
        if len > 0 && out[len - 1].px == px {
            let last = out[len - 1];
            proof {
                assert(outs.last() == last@);
                lemma_last_in_total(outs);
            }
            out.set(len - 1, InnerLevel { px, sz: last.sz + level.sz, n: last.n + level.n });
            assert(level_views(out@) =~= with_level(
                outs,
                LevelView { px: px as nat, ..level@ },
            ));
        } else {
            proof {
                if len > 0 {
                    assert(outs.last() == out@[len - 1]@);
                }
            }
            out.push(InnerLevel { px, ..level });
            assert(level_views(out@) =~= with_level(
                outs,
                LevelView { px: px as nat, ..level@ },
            ));
        }
        at = at + 1;
    }
    proof {
        assert(views.take(at as int) =~= views);
        lemma_merged_totals(views, side, n_sig_figs, mantissa);
    }
    out
}

/// Each order as a level of its own.
fn levels_of_orders(orders: &Vec<InnerL4Order>) -> (levels: Vec<InnerLevel>)
    ensures
        level_views(levels@) == order_levels(order_views(orders@)),
        bounded(levels@),
{
    let ghost views = order_levels(order_views(orders@));
    let mut levels: Vec<InnerLevel> = Vec::new();
    let mut at: usize = 0;
    while at < orders.len()
        invariant
            views == order_levels(order_views(orders@)),
            at <= orders@.len(),
            level_views(levels@) =~= views.take(at as int),
            forall|i: int| 0 <= i < levels@.len() ==> (#[trigger] levels@[i]).px <= MAX_LEVEL_PX,
            total_size(level_views(levels@)) <= at * u64::MAX,
            total_orders(level_views(levels@)) == at,
        decreases orders@.len() - at,
    {
        let order = &orders[at];
        let level = InnerLevel {
            px: order.limit_px.units as u128,
            sz: order.sz.units as u128,
            n: 1,
        };
        let ghost before = level_views(levels@);
        levels.push(level);
        proof {
            assert(views[at as int] == level@);
            assert(level_views(levels@) =~= before.push(level@));
            assert(level_views(levels@).drop_last() =~= before);
            assert((at + 1) * u64::MAX == at * u64::MAX + u64::MAX) by (nonlinear_arith);
        }
        at = at + 1;
    }
    proof {
        assert(views.take(at as int) =~= views);
        assert(at * u64::MAX <= u128::MAX) by (nonlinear_arith)
            requires
                at <= usize::MAX,
        ;
    }
    levels
}

impl OrderBook {
    /// The book added up by price.
    pub fn to_l2_snapshot(&self) -> (snapshot: Snapshot<InnerLevel>)
        ensures
            snapshot_levels(snapshot) == book_levels(self@, None, None),
            snapshot_bounded(snapshot),
    {
        let bids = levels_of_orders(self.bids());
        let asks = levels_of_orders(self.asks());
        Snapshot {
            bids: merge(&bids, Side::Bid, None, None),
            asks: merge(&asks, Side::Ask, None, None),
        }
    }
}

impl Snapshot<InnerLevel> {
    /// The levels added up at a rounding.
    pub fn to_l2_snapshot(&self, n_sig_figs: Option<u32>, mantissa: Option<u64>) -> (snapshot:
        Snapshot<InnerLevel>)
        requires
            offered(n_sig_figs, mantissa),
            snapshot_bounded(*self),
        ensures
            snapshot_levels(snapshot) == merged_levels(
                snapshot_levels(*self),
                n_sig_figs,
                mantissa,
            ),
            snapshot_bounded(snapshot),
    {
        Snapshot {
            bids: merge(&self.bids, Side::Bid, n_sig_figs, mantissa),
            asks: merge(&self.asks, Side::Ask, n_sig_figs, mantissa),
        }
    }
}

} // verus!
