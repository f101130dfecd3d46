//! Orders, levels and diffs with their numbers read.

use crate::address::{address_text, is_address_text, same_address, write_address};
use crate::order_book::decimal::{decimal_value, DecimalError};
use crate::order_book::types::{Coin, Px, Side, Sz};
use crate::text::{
    append_flag, decimal_text, flag_text, is_quoted_plainly, number_text, optional_text, quote,
    quoted, write_optional,
};
use crate::types::node_data::NodeDataOrderStatus;
use crate::types::{copy_text, OrderDiff};
use alloy::primitives::Address;
use vstd::prelude::*;

verus! {

/// A resting order.
#[derive(Debug)]
pub struct InnerL4Order {
    pub user: Address,
    pub coin: Coin,
    pub side: Side,
    pub limit_px: Px,
    pub sz: Sz,
    pub oid: u64,
    pub timestamp: u64,
    pub trigger_condition: String,
    pub is_trigger: bool,
    pub trigger_px: String,
    pub is_position_tpsl: bool,
    pub reduce_only: bool,
    pub order_type: String,
    pub tif: Option<String>,
    pub cloid: Option<String>,
}

/// What a resting order says.
#[verifier::ext_equal]
pub ghost struct OrderView {
    pub user: Address,
    pub coin: Seq<char>,
    pub side: Side,
    pub limit_px: u64,
    pub sz: u64,
    pub oid: u64,
    pub timestamp: u64,
    pub trigger_condition: Seq<char>,
    pub is_trigger: bool,
    pub trigger_px: Seq<char>,
    pub is_position_tpsl: bool,
    pub reduce_only: bool,
    pub order_type: Seq<char>,
    pub tif: Option<Seq<char>>,
    pub cloid: Option<Seq<char>>,
}

/// What an optional text says.
pub open spec fn text_view(text: Option<String>) -> Option<Seq<char>> {
    match text {
        Some(text) => Some(text@),
        None => None,
    }
}

impl View for InnerL4Order {
    type V = OrderView;

    open spec fn view(&self) -> OrderView {
        OrderView {
            user: self.user,
            coin: self.coin@,
            side: self.side,
            limit_px: self.limit_px.units,
            sz: self.sz.units,
            oid: self.oid,
            timestamp: self.timestamp,
            trigger_condition: self.trigger_condition@,
            is_trigger: self.is_trigger,
            trigger_px: self.trigger_px@,
            is_position_tpsl: self.is_position_tpsl,
            reduce_only: self.reduce_only,
            order_type: self.order_type@,
            tif: text_view(self.tif),
            cloid: text_view(self.cloid),
        }
    }
}

impl Clone for InnerL4Order {
    fn clone(&self) -> (copy: InnerL4Order)
        ensures
            copy == *self,
    {
        InnerL4Order {
            user: self.user,
            coin: self.coin.clone(),
            side: self.side,
            limit_px: self.limit_px,
            sz: self.sz,
            oid: self.oid,
            timestamp: self.timestamp,
            trigger_condition: self.trigger_condition.clone(),
            is_trigger: self.is_trigger,
            trigger_px: self.trigger_px.clone(),
            is_position_tpsl: self.is_position_tpsl,
            reduce_only: self.reduce_only,
            order_type: self.order_type.clone(),
            tif: copy_text(&self.tif),
            cloid: copy_text(&self.cloid),
        }
    }
}

/// Whether two optional texts say the same.
fn same_text(a: &Option<String>, b: &Option<String>) -> (same: bool)
    ensures
        same == (text_view(*a) == text_view(*b)),
{
    match (a, b) {
        (Some(a), Some(b)) => *a == *b,
        (None, None) => true,
        _ => false,
    }
}

impl PartialEq for InnerL4Order {
    fn eq(&self, other: &InnerL4Order) -> (same: bool) {
        let same_place = same_address(&self.user, &other.user) && self.coin.is(&other.coin)
            && self.side == other.side;
        let same_numbers = self.limit_px.units == other.limit_px.units && self.sz.units
            == other.sz.units && self.oid == other.oid && self.timestamp == other.timestamp;
        let same_flags = self.is_trigger == other.is_trigger && self.is_position_tpsl
            == other.is_position_tpsl && self.reduce_only == other.reduce_only;
        let same_texts = self.trigger_condition == other.trigger_condition && self.trigger_px
            == other.trigger_px && self.order_type == other.order_type && same_text(
            &self.tif,
            &other.tif,
        ) && same_text(&self.cloid, &other.cloid);
        let same = same_place && same_numbers && same_flags && same_texts;
        proof {
            let a = self@;
            let b = other@;
            assert(same_place == (a.user == b.user && a.coin == b.coin && a.side == b.side));
            assert(same_texts == (a.trigger_condition == b.trigger_condition && a.trigger_px
                == b.trigger_px && a.order_type == b.order_type && a.tif == b.tif && a.cloid
                == b.cloid));
            if same {
                assert(a =~= b);
            }
            assert(same == (a == b));
        }
        same
    }
}

impl vstd::std_specs::cmp::PartialEqSpecImpl for InnerL4Order {
    open spec fn obeys_eq_spec() -> bool {
        true
    }

    open spec fn eq_spec(&self, other: &InnerL4Order) -> bool {
        self@ == other@
    }
}

/// The order that a status reports, with its numbers read.
pub open spec fn reported_order(status: NodeDataOrderStatus) -> Result<OrderView, DecimalError> {
    let order = status.order;
    match (decimal_value(order.limit_px@), decimal_value(order.sz@)) {
        (Ok(limit_px), Ok(sz)) => Ok(
            OrderView {
                user: status.user,
                coin: order.coin@,
                side: order.side,
                limit_px,
                sz,
                oid: order.oid,
                timestamp: order.timestamp,
                trigger_condition: order.trigger_condition@,
                is_trigger: order.is_trigger,
                trigger_px: order.trigger_px@,
                is_position_tpsl: order.is_position_tpsl,
                reduce_only: order.reduce_only,
                order_type: order.order_type@,
                tif: text_view(order.tif),
                cloid: text_view(order.cloid),
            },
        ),
        (Err(error), _) => Err(error),
        (_, Err(error)) => Err(error),
    }
}

/// A trigger order that enters the book turns into an ordinary order of the time of entry.
pub open spec fn triggered(order: OrderView, time: u64) -> OrderView {
    if order.is_trigger {
        OrderView {
            trigger_condition: "Triggered"@,
            trigger_px: "0.0"@,
            is_trigger: false,
            timestamp: time,
            ..order
        }
    } else {
        order
    }
}

impl InnerL4Order {
    pub fn try_from_status(status: NodeDataOrderStatus) -> (order: Result<
        InnerL4Order,
        DecimalError,
    >)
        ensures
            match order {
                Ok(order) => reported_order(status) == Ok::<OrderView, DecimalError>(order@),
                Err(error) => reported_order(status) == Err::<OrderView, DecimalError>(error),
            },
    {
        let user = status.user;
        let order = status.order;
        let limit_px = match Px::parse_from_str(order.limit_px.as_str()) {
            Ok(px) => px,
            Err(error) => {
                return Err(error);
            },
        };
        let sz = match Sz::parse_from_str(order.sz.as_str()) {
            Ok(sz) => sz,
            Err(error) => {
                return Err(error);
            },
        };
        Ok(
            InnerL4Order {
                user,
                coin: Coin::new(order.coin),
                side: order.side,
                limit_px,
                sz,
                oid: order.oid,
                timestamp: order.timestamp,
                trigger_condition: order.trigger_condition,
                is_trigger: order.is_trigger,
                trigger_px: order.trigger_px,
                is_position_tpsl: order.is_position_tpsl,
                reduce_only: order.reduce_only,
                order_type: order.order_type,
                tif: order.tif,
                cloid: order.cloid,
            },
        )
    }

    pub fn modify_sz(&mut self, sz: Sz)
        ensures
            final(self)@ == (OrderView { sz: sz.units, ..old(self)@ }),
    {
        self.sz = sz;
    }

    /// Turns a trigger order into the ordinary order that enters the book at `time`.
    pub fn convert_trigger(&mut self, time: u64)
        ensures
            final(self)@ == triggered(old(self)@, time),
    {
        if self.is_trigger {
            self.trigger_condition = "Triggered".to_string();
            self.trigger_px = "0.0".to_string();
            self.is_trigger = false;
            self.timestamp = time;
        }
    }
}

/// The name of a side.
pub open spec fn side_text(side: Side) -> Seq<char> {
    match side {
        Side::Ask => "Ask"@,
        Side::Bid => "Bid"@,
    }
}

/// The texts of an order as they are written.
#[derive(Debug)]
pub struct OrderTexts {
    pub user: String,
    pub coin: String,
    pub trigger_condition: String,
    pub trigger_px: String,
    pub order_type: String,
    pub tif: String,
    pub cloid: String,
}

/// What the written texts of an order say.
pub ghost struct OrderTextsView {
    pub user: Seq<char>,
    pub coin: Seq<char>,
    pub trigger_condition: Seq<char>,
    pub trigger_px: Seq<char>,
    pub order_type: Seq<char>,
    pub tif: Seq<char>,
    pub cloid: Seq<char>,
}

impl View for OrderTexts {
    type V = OrderTextsView;

    open spec fn view(&self) -> OrderTextsView {
        OrderTextsView {
            user: self.user@,
            coin: self.coin@,
            trigger_condition: self.trigger_condition@,
            trigger_px: self.trigger_px@,
            order_type: self.order_type@,
            tif: self.tif@,
            cloid: self.cloid@,
        }
    }
}

/// The text of an order, with its texts written as given, and its price and size in units.
pub open spec fn order_line(texts: OrderTextsView, order: OrderView) -> Seq<char> {
    "InnerL4Order { user: "@ + texts.user + ", coin: "@ + texts.coin + ", side: "@ + side_text(
        order.side,
    ) + ", limit_px: "@ + decimal_text(order.limit_px as nat) + ", sz: "@ + decimal_text(
        order.sz as nat,
    ) + ", oid: "@ + decimal_text(order.oid as nat) + ", timestamp: "@ + decimal_text(
        order.timestamp as nat,
    ) + ", trigger_condition: "@ + texts.trigger_condition + ", is_trigger: "@ + flag_text(
        order.is_trigger,
    ) + ", trigger_px: "@ + texts.trigger_px + ", is_position_tpsl: "@ + flag_text(
        order.is_position_tpsl,
    ) + ", reduce_only: "@ + flag_text(order.reduce_only) + ", order_type: "@ + texts.order_type
        + ", tif: "@ + texts.tif + ", cloid: "@ + texts.cloid + " }"@
}

/// The texts of an order, the account written as an address and the others quoted.
pub open spec fn order_texts(order: OrderView) -> OrderTextsView {
    OrderTextsView {
        user: address_text(order.user),
        coin: quoted(order.coin),
        trigger_condition: quoted(order.trigger_condition),
        trigger_px: quoted(order.trigger_px),
        order_type: quoted(order.order_type),
        tif: optional_text(order.tif),
        cloid: optional_text(order.cloid),
    }
}

/// The text of an order.
pub open spec fn order_text(order: OrderView) -> Seq<char> {
    order_line(order_texts(order), order)
}

/// The account of an order is written as an address, and its texts plainly where they are
/// ordinary.
pub open spec fn is_order_written_plainly(order: OrderView) -> bool {
    &&& is_address_text(address_text(order.user))
    &&& is_quoted_plainly(order.coin)
    &&& is_quoted_plainly(order.trigger_condition)
    &&& is_quoted_plainly(order.trigger_px)
    &&& is_quoted_plainly(order.order_type)
    &&& order.tif matches Some(tif) ==> is_quoted_plainly(tif)
    &&& order.cloid matches Some(cloid) ==> is_quoted_plainly(cloid)
}

/// The text of an order, with its texts written as given.
pub fn write_order_line(texts: &OrderTexts, order: &InnerL4Order) -> (text: String)
    ensures
        text@ == order_line(texts@, order@),
{
    let mut text = String::new();
    text.append("InnerL4Order { user: ");
    text.append(texts.user.as_str());
    text.append(", coin: ");
    text.append(texts.coin.as_str());
    text.append(", side: ");
    match order.side {
        Side::Ask => text.append("Ask"),
        Side::Bid => text.append("Bid"),
    }
    text.append(", limit_px: ");
    text.append(number_text(order.limit_px.units).as_str());
    text.append(", sz: ");
    text.append(number_text(order.sz.units).as_str());
    text.append(", oid: ");
    text.append(number_text(order.oid).as_str());
    text.append(", timestamp: ");
    text.append(number_text(order.timestamp).as_str());
    text.append(", trigger_condition: ");
    text.append(texts.trigger_condition.as_str());
    text.append(", is_trigger: ");
    append_flag(&mut text, order.is_trigger);
    text.append(", trigger_px: ");
    text.append(texts.trigger_px.as_str());
    text.append(", is_position_tpsl: ");
    append_flag(&mut text, order.is_position_tpsl);
    text.append(", reduce_only: ");
    append_flag(&mut text, order.reduce_only);
    text.append(", order_type: ");
    text.append(texts.order_type.as_str());
    text.append(", tif: ");
    text.append(texts.tif.as_str());
    text.append(", cloid: ");
    text.append(texts.cloid.as_str());
    text.append(" }");
    assert(text@ =~= order_line(texts@, order@));
    text
}

/// The text of an order.
pub fn write_order(order: &InnerL4Order) -> (text: String)
    ensures
        text@ == order_text(order@),
        is_order_written_plainly(order@),
{
    let texts = OrderTexts {
        user: write_address(&order.user),
        coin: quote(order.coin.value()),
        trigger_condition: quote(order.trigger_condition.as_str()),
        trigger_px: quote(order.trigger_px.as_str()),
        order_type: quote(order.order_type.as_str()),
        tif: write_optional(&order.tif),
        cloid: write_optional(&order.cloid),
    };
    write_order_line(&texts, order)
}

/// A diff with its numbers read.
#[derive(Clone, Copy, Debug, PartialEq, Eq, Structural)]
pub enum InnerOrderDiff {
    New { sz: Sz },
    Update { orig_sz: Sz, new_sz: Sz },
    Remove,
}

/// The diff that the node's words mean.
pub open spec fn read_diff(diff: OrderDiff) -> Result<InnerOrderDiff, DecimalError> {
    match diff {
        OrderDiff::New { sz } => match decimal_value(sz@) {
            Ok(sz) => Ok(InnerOrderDiff::New { sz: Sz { units: sz } }),
            Err(error) => Err(error),
        },
        OrderDiff::Update { orig_sz, new_sz } => match (
            decimal_value(orig_sz@),
            decimal_value(new_sz@),
        ) {
            (Ok(orig_sz), Ok(new_sz)) => Ok(
                InnerOrderDiff::Update {
                    orig_sz: Sz { units: orig_sz },
                    new_sz: Sz { units: new_sz },
                },
            ),
            (Err(error), _) => Err(error),
            (_, Err(error)) => Err(error),
        },
        OrderDiff::Remove => Ok(InnerOrderDiff::Remove),
    }
}

impl InnerOrderDiff {
    pub fn try_from_diff(diff: &OrderDiff) -> (inner: Result<InnerOrderDiff, DecimalError>)
        ensures
            inner == read_diff(*diff),
    {
        match diff {
            OrderDiff::New { sz } => match Sz::parse_from_str(sz.as_str()) {
                Ok(sz) => Ok(InnerOrderDiff::New { sz }),
                Err(error) => Err(error),
            },
            OrderDiff::Update { orig_sz, new_sz } => {
                match Sz::parse_from_str(orig_sz.as_str()) {
                    Ok(orig_sz) => match Sz::parse_from_str(new_sz.as_str()) {
                        Ok(new_sz) => Ok(InnerOrderDiff::Update { orig_sz, new_sz }),
                        Err(error) => Err(error),
                    },
                    Err(error) => Err(error),
                }
            },
            OrderDiff::Remove => Ok(InnerOrderDiff::Remove),
        }
    }
}

/// The orders at one price, added up.
#[derive(Clone, Copy, Debug, PartialEq, Eq, Structural)]
pub struct InnerLevel {
    /// In units of 10^-8.
    pub px: u128,
    /// In units of 10^-8.
    pub sz: u128,
    /// How many orders.
    pub n: usize,
}

} // verus!
