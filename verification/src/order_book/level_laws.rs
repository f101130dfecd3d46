//! What the levels of a book say of its orders.

use crate::order_book::book::{BookView, Snapshot};
use crate::order_book::levels::{
    book_levels, lemma_levels_strictly_ordered, merged, order_levels, snapshot_levels,
    strictly_ordered, with_level, LevelView,
};
use crate::order_book::rounding::{
    bucket, digit_count, lemma_digit_count, lemma_digit_count_is, lemma_round_down,
    lemma_round_up, offered,
};
use crate::order_book::types::Side;
use crate::types::inner::{InnerLevel, OrderView};
use vstd::arithmetic::power::{lemma_pow_increases, lemma_pow_positive, pow};
use vstd::prelude::*;

verus! {

/// How much rests with the orders whose price is rounded to `px`.
pub open spec fn size_at(
    orders: Seq<OrderView>,
    side: Side,
    n_sig_figs: Option<u32>,
    mantissa: Option<u64>,
    px: nat,
) -> nat
    decreases orders.len(),
{
    if orders.len() == 0 {
        0
    } else {
        let rest = size_at(orders.drop_last(), side, n_sig_figs, mantissa, px);
        if bucket(side, orders.last().limit_px as nat, n_sig_figs, mantissa) == px {
            rest + orders.last().sz as nat
        } else {
            rest
        }
    }
}

/// How many orders have a price that is rounded to `px`.
pub open spec fn orders_at(
    orders: Seq<OrderView>,
    side: Side,
    n_sig_figs: Option<u32>,
    mantissa: Option<u64>,
    px: nat,
) -> nat
    decreases orders.len(),
{
    if orders.len() == 0 {
        0
    } else {
        let rest = orders_at(orders.drop_last(), side, n_sig_figs, mantissa, px);
        if bucket(side, orders.last().limit_px as nat, n_sig_figs, mantissa) == px {
            rest + 1
        } else {
            rest
        }
    }
}

spec fn level_size(levels: Seq<LevelView>, px: nat) -> nat
    decreases levels.len(),
{
    if levels.len() == 0 {
        0
    } else if levels.last().px == px {
        level_size(levels.drop_last(), px) + levels.last().sz
    } else {
        level_size(levels.drop_last(), px)
    }
}

spec fn level_orders(levels: Seq<LevelView>, px: nat) -> nat
    decreases levels.len(),
{
    if levels.len() == 0 {
        0
    } else if levels.last().px == px {
        level_orders(levels.drop_last(), px) + levels.last().n
    } else {
        level_orders(levels.drop_last(), px)
    }
}

proof fn lemma_with_level_at(levels: Seq<LevelView>, level: LevelView, px: nat)
    ensures
        level_size(with_level(levels, level), px) == level_size(levels, px) + if level.px == px {
            level.sz
        } else {
            0
        },
        level_orders(with_level(levels, level), px) == level_orders(levels, px) + if level.px
            == px {
            level.n
        } else {
            0
        },
{
    let after = with_level(levels, level);
    if levels.len() > 0 && levels.last().px == level.px {
        assert(after.drop_last() =~= levels.drop_last());
    } else {
        assert(after.drop_last() =~= levels);
    }
}

proof fn lemma_merged_at(
    orders: Seq<OrderView>,
    side: Side,
    n_sig_figs: Option<u32>,
    mantissa: Option<u64>,
    px: nat,
)
    ensures
        ({
            let levels = merged(order_levels(orders), side, n_sig_figs, mantissa);
            &&& level_size(levels, px) == size_at(orders, side, n_sig_figs, mantissa, px)
            &&& level_orders(levels, px) == orders_at(orders, side, n_sig_figs, mantissa, px)
            &&& forall|i: int| 0 <= i < levels.len() ==> (#[trigger] levels[i]).n >= 1
        }),
    decreases orders.len(),
{
    if orders.len() > 0 {
        let init = orders.drop_last();
        lemma_merged_at(init, side, n_sig_figs, mantissa, px);
        assert(order_levels(orders).drop_last() =~= order_levels(init));
        let last = order_levels(orders).last();
        lemma_with_level_at(
            merged(order_levels(init), side, n_sig_figs, mantissa),
            LevelView { px: bucket(side, last.px, n_sig_figs, mantissa), ..last },
            px,
        );
    }
}

proof fn lemma_one_level(levels: Seq<LevelView>, side: Side, i: int, n: int)
    requires
        strictly_ordered(levels, side),
        0 <= n <= levels.len(),
        0 <= i < levels.len(),
    ensures
        level_size(levels.take(n), levels[i].px) == if i < n {
            levels[i].sz
        } else {
            0
        },
        level_orders(levels.take(n), levels[i].px) == if i < n {
            levels[i].n
        } else {
            0
        },
    decreases n,
{
    if n > 0 {
        lemma_one_level(levels, side, i, n - 1);
        assert(levels.take(n).drop_last() =~= levels.take(n - 1));
        assert(levels.take(n).last() == levels[n - 1]);
        if i < n - 1 {
            assert(levels[i].px != levels[n - 1].px);
        } else if n - 1 < i {
            assert(levels[n - 1].px != levels[i].px);
        }
    }
}

proof fn lemma_some_level(levels: Seq<LevelView>, px: nat)
    requires
        level_orders(levels, px) > 0,
    ensures
        exists|i: int| 0 <= i < levels.len() && (#[trigger] levels[i]).px == px,
    decreases levels.len(),
{
    if levels.last().px == px {
        assert(levels[levels.len() - 1].px == px);
    } else {
        let init = levels.drop_last();
        lemma_some_level(init, px);
        let i = choose|i: int| 0 <= i < init.len() && (#[trigger] init[i]).px == px;
        assert(levels[i].px == px);
    }
}

proof fn lemma_order_counts(
    orders: Seq<OrderView>,
    side: Side,
    n_sig_figs: Option<u32>,
    mantissa: Option<u64>,
    i: int,
)
    requires
        0 <= i < orders.len(),
    ensures
        orders_at(
            orders,
            side,
            n_sig_figs,
            mantissa,
            bucket(side, orders[i].limit_px as nat, n_sig_figs, mantissa),
        ) > 0,
    decreases orders.len(),
{
    if i < orders.len() - 1 {
        lemma_order_counts(orders.drop_last(), side, n_sig_figs, mantissa, i);
    }
}

/// The levels add up the orders of one side, each order at its rounded price: the best price
/// stands first and no price twice, the size of a level is the size of all orders that are
/// rounded to its price and its count their number, and every order is at a level.
pub open spec fn adds_up(
    levels: Seq<LevelView>,
    orders: Seq<OrderView>,
    side: Side,
    n_sig_figs: Option<u32>,
    mantissa: Option<u64>,
) -> bool {
    &&& forall|i: int, j: int|
        0 <= i < j < levels.len() ==> match side {
            Side::Ask => (#[trigger] levels[i]).px < (#[trigger] levels[j]).px,
            Side::Bid => (#[trigger] levels[i]).px > (#[trigger] levels[j]).px,
        }
    &&& forall|i: int|
        0 <= i < levels.len() ==> {
            &&& (#[trigger] levels[i]).sz == size_at(
                orders,
                side,
                n_sig_figs,
                mantissa,
                levels[i].px,
            )
            &&& levels[i].n == orders_at(orders, side, n_sig_figs, mantissa, levels[i].px)
            &&& levels[i].n > 0
        }
    &&& forall|j: int|
        0 <= j < orders.len() ==> exists|i: int|
            0 <= i < levels.len() && (#[trigger] levels[i]).px == bucket(
                side,
                (#[trigger] orders[j]).limit_px as nat,
                n_sig_figs,
                mantissa,
            )
}

proof fn lemma_side_adds_up(
    orders: Seq<OrderView>,
    side: Side,
    n_sig_figs: Option<u32>,
    mantissa: Option<u64>,
)
    requires
        strictly_ordered(merged(order_levels(orders), side, n_sig_figs, mantissa), side),
    ensures
        adds_up(
            merged(order_levels(orders), side, n_sig_figs, mantissa),
            orders,
            side,
            n_sig_figs,
            mantissa,
        ),
{
    let levels = merged(order_levels(orders), side, n_sig_figs, mantissa);
    assert(levels.take(levels.len() as int) =~= levels);
    assert forall|i: int| 0 <= i < levels.len() implies {
        &&& (#[trigger] levels[i]).sz == size_at(orders, side, n_sig_figs, mantissa, levels[i].px)
        &&& levels[i].n == orders_at(orders, side, n_sig_figs, mantissa, levels[i].px)
        &&& levels[i].n > 0
    } by {
        lemma_merged_at(orders, side, n_sig_figs, mantissa, levels[i].px);
        lemma_one_level(levels, side, i, levels.len() as int);
    }
    assert forall|j: int| 0 <= j < orders.len() implies exists|i: int|
        0 <= i < levels.len() && (#[trigger] levels[i]).px == bucket(
            side,
            (#[trigger] orders[j]).limit_px as nat,
            n_sig_figs,
            mantissa,
        ) by {
        let px = bucket(side, orders[j].limit_px as nat, n_sig_figs, mantissa);
        lemma_merged_at(orders, side, n_sig_figs, mantissa, px);
        lemma_order_counts(orders, side, n_sig_figs, mantissa, j);
        lemma_some_level(levels, px);
    }
}

/// The levels of a book add up its orders, side by side, at every rounding that is offered.
pub proof fn lemma_levels_add_up_the_orders(
    book: BookView,
    n_sig_figs: Option<u32>,
    mantissa: Option<u64>,
)
    requires
        book.in_priority(),
        offered(n_sig_figs, mantissa),
    ensures
        ({
            let levels = book_levels(book, n_sig_figs, mantissa);
            &&& adds_up(levels.bids, book.bids, Side::Bid, n_sig_figs, mantissa)
            &&& adds_up(levels.asks, book.asks, Side::Ask, n_sig_figs, mantissa)
        }),
{
    lemma_levels_strictly_ordered(book, n_sig_figs, mantissa);
    lemma_side_adds_up(book.bids, Side::Bid, n_sig_figs, mantissa);
    lemma_side_adds_up(book.asks, Side::Ask, n_sig_figs, mantissa);
}

/// Without a number of figures a price is not rounded, and one with fewer digits than figures is
/// not either.
pub proof fn lemma_short_price_stays(
    side: Side,
    px: nat,
    figures: u32,
    mantissa: Option<u64>,
)
    requires
        offered(Some(figures), mantissa),
    ensures
        bucket(side, px, None, mantissa) == px,
        px < pow(10, (figures - 1) as nat) ==> bucket(side, px, Some(figures), mantissa) == px,
{
    lemma_digit_count(px);
    let d = digit_count(px);
    if px < pow(10, (figures - 1) as nat) && px > 0 && d >= figures {
        lemma_pow_increases(10, (figures - 1) as nat, (d - 1) as nat);
    }
}

/// A price of `digits` digits is rounded to the next price, away from the other side of the book,
/// that has no more than the figures asked for and whose last figure is a multiple of the
/// mantissa: a bid to the nearest such price that is not above it, an ask to the nearest that is
/// not below it.
pub proof fn lemma_long_price_is_rounded_away(
    side: Side,
    px: nat,
    digits: nat,
    figures: u32,
    mantissa: Option<u64>,
)
    requires
        offered(Some(figures), mantissa),
        figures <= digits,
        pow(10, (digits - 1) as nat) <= px < pow(10, digits),
    ensures
        ({
            let last_figure = pow(10, (digits - figures) as nat);
            let step = match mantissa {
                Some(mantissa) => mantissa * last_figure,
                None => last_figure,
            };
            let rounded = bucket(side, px, Some(figures), mantissa);
            &&& step > 0
            &&& rounded as int % step == 0
            &&& side == Side::Bid ==> rounded <= px < rounded + step
            &&& side == Side::Ask ==> px <= rounded < px + step
        }),
{
    lemma_digit_count_is(px, digits);
    let last_figure = pow(10, (digits - figures) as nat);
    lemma_pow_positive(10, (digits - figures) as nat);
    let times: int = match mantissa {
        Some(mantissa) => mantissa as int,
        None => 1,
    };
    let step = times * last_figure;
    assert(step > 0) by (nonlinear_arith)
        requires
            step == times * last_figure,
            times >= 1,
            last_figure > 0,
    ;
    lemma_round_down(px as int, step);
    lemma_round_up(px as int, step);
    assert(px as int / step * step >= 0) by (nonlinear_arith)
        requires
            px >= 0,
            step > 0,
    ;
}

/// What a snapshot of levels shows of each side is what stands there: price, size and number of
/// orders of each level, in the same places.
pub proof fn lemma_snapshot_shows_its_levels(snapshot: Snapshot<InnerLevel>, i: int)
    ensures
        snapshot_levels(snapshot).bids.len() == snapshot.bids@.len(),
        snapshot_levels(snapshot).asks.len() == snapshot.asks@.len(),
        0 <= i < snapshot.bids@.len() ==> {
            &&& snapshot_levels(snapshot).bids[i].px == snapshot.bids@[i].px
            &&& snapshot_levels(snapshot).bids[i].sz == snapshot.bids@[i].sz
            &&& snapshot_levels(snapshot).bids[i].n == snapshot.bids@[i].n
        },
        0 <= i < snapshot.asks@.len() ==> {
            &&& snapshot_levels(snapshot).asks[i].px == snapshot.asks@[i].px
            &&& snapshot_levels(snapshot).asks[i].sz == snapshot.asks@[i].sz
            &&& snapshot_levels(snapshot).asks[i].n == snapshot.asks@[i].n
        },
{
}

} // verus!
