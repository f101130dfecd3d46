//! What is read out of the node's statuses and diffs.

use crate::order_book::decimal::{decimal_value, DecimalError};
use crate::order_book::types::is_spot_name;
use crate::types::inner::{read_diff, reported_order, triggered, InnerOrderDiff, OrderView};
use crate::types::node_data::{enters_book, NodeDataOrderStatus};
use crate::types::OrderDiff;
use vstd::prelude::*;

verus! {

/// The order that a status reports is on the side, of the account and of the market that the
/// status names, with its price and its size read as numbers and all else as it is written.
pub proof fn lemma_reported_order_is_as_written(status: NodeDataOrderStatus, order: OrderView)
    requires
        reported_order(status) == Ok::<OrderView, DecimalError>(order),
    ensures
        decimal_value(status.order.limit_px@) == Ok::<u64, DecimalError>(order.limit_px),
        decimal_value(status.order.sz@) == Ok::<u64, DecimalError>(order.sz),
        order.side == status.order.side,
        order.user == status.user,
        order.coin == status.order.coin@,
        order.oid == status.order.oid,
        order.timestamp == status.order.timestamp,
        order.trigger_condition == status.order.trigger_condition@,
        order.is_trigger == status.order.is_trigger,
        order.trigger_px == status.order.trigger_px@,
        order.is_position_tpsl == status.order.is_position_tpsl,
        order.reduce_only == status.order.reduce_only,
        order.order_type == status.order.order_type@,
        order.tif is Some <==> status.order.tif is Some,
        order.tif is Some ==> order.tif->0 == status.order.tif->0@,
        order.cloid is Some <==> status.order.cloid is Some,
        order.cloid is Some ==> order.cloid->0 == status.order.cloid->0@,
{
}

/// A status can be read where its price and its size can be. Where they cannot, the price is what
/// is named first.
pub proof fn lemma_status_is_read_where_its_numbers_are(status: NodeDataOrderStatus)
    ensures
        reported_order(status) is Ok <==> decimal_value(status.order.limit_px@) is Ok
            && decimal_value(status.order.sz@) is Ok,
        decimal_value(status.order.limit_px@) matches Err(error) ==> reported_order(status)
            == Err::<OrderView, DecimalError>(error),
        decimal_value(status.order.limit_px@) is Ok ==> (decimal_value(
            status.order.sz@,
        ) matches Err(error) ==> reported_order(status) == Err::<OrderView, DecimalError>(error)),
{
}

/// An order that enters the book waits for no trigger any more. An ordinary one stays as it is;
/// a trigger order says that it was triggered, and has the time of its entry.
pub proof fn lemma_triggered_order(order: OrderView, time: u64)
    ensures
        !triggered(order, time).is_trigger,
        !order.is_trigger ==> triggered(order, time) == order,
        order.is_trigger ==> {
            let after = triggered(order, time);
            &&& after.timestamp == time
            &&& after.trigger_condition == "Triggered"@
            &&& after.trigger_px == "0.0"@
            &&& after == (OrderView {
                timestamp: after.timestamp,
                trigger_condition: after.trigger_condition,
                trigger_px: after.trigger_px,
                is_trigger: after.is_trigger,
                ..order
            })
        },
        triggered(triggered(order, time), time) == triggered(order, time),
{
}

/// Of the statuses of a trigger order only the one that it was triggered puts it on the book, and
/// of those of an ordinary order only the one that it is open, unless it must fill at once.
pub proof fn lemma_which_status_enters_the_book(status: NodeDataOrderStatus)
    ensures
        status.order.is_trigger ==> (enters_book(status) <==> status.status@ == "triggered"@),
        !status.order.is_trigger && status.status@ != "open"@ ==> !enters_book(status),
        !status.order.is_trigger && status.status@ == "open"@ && status.order.tif is None
            ==> enters_book(status),
        !status.order.is_trigger && status.status@ == "open"@ ==> (status.order.tif matches Some(
            tif,
        ) ==> (enters_book(status) <==> tif@ != "Ioc"@)),
{
}

/// A diff means what it says, with its sizes read as numbers: the size of a new order, the new
/// size, not the old one, of a changed one.
pub proof fn lemma_diff_means_what_it_says(diff: OrderDiff)
    ensures
        diff is Remove ==> read_diff(diff) == Ok::<InnerOrderDiff, DecimalError>(
            InnerOrderDiff::Remove,
        ),
        diff matches OrderDiff::New { sz } ==> match decimal_value(sz@) {
            Ok(units) => read_diff(diff) matches Ok(InnerOrderDiff::New { sz: read })
                && read.units == units,
            Err(error) => read_diff(diff) == Err::<InnerOrderDiff, DecimalError>(error),
        },
        diff matches OrderDiff::Update { orig_sz, new_sz } ==> match (
            decimal_value(orig_sz@),
            decimal_value(new_sz@),
        ) {
            (Ok(before), Ok(after)) => read_diff(diff) matches Ok(
                InnerOrderDiff::Update { orig_sz: first, new_sz: second },
            ) && first.units == before && second.units == after,
            (Err(error), _) => read_diff(diff) == Err::<InnerOrderDiff, DecimalError>(error),
            (Ok(_), Err(error)) => read_diff(diff) == Err::<InnerOrderDiff, DecimalError>(error),
        },
{
}

/// A name behind an at sign is that of a spot market, whatever follows, and so is the one named
/// market. No other name is.
pub proof fn lemma_spot_names(name: Seq<char>)
    ensures
        is_spot_name(seq!['@'] + name),
        is_spot_name("PURR/USDC"@),
        name.len() > 0 && name[0] != '@' && name != "PURR/USDC"@ ==> !is_spot_name(name),
        !is_spot_name(Seq::empty()),
{
    reveal_strlit("PURR/USDC");
    assert((seq!['@'] + name)[0] == '@');
    assert("PURR/USDC"@.len() == 9);
}

} // verus!
