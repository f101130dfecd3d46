//! Coins, sides, prices and sizes.

use crate::order_book::decimal::{decimal_value, parse_decimal, DecimalError};
use crate::text::chars_of;
use vstd::prelude::*;

verus! {

/// The side of the book that an order stands on.
#[derive(Clone, Copy, Debug, PartialEq, Eq, Structural)]
pub enum Side {
    Ask,
    Bid,
}

/// The name of a market.
#[derive(Debug)]
pub struct Coin {
    value: String,
}

impl View for Coin {
    type V = Seq<char>;

    closed spec fn view(&self) -> Seq<char> {
        self.value@
    }
}

/// The one spot market with a name of its own; the others are numbered.
pub open spec fn named_spot_market() -> Seq<char> {
    "PURR/USDC"@
}

/// A coin names a spot market: a number behind an `@`, or the one named market.
pub open spec fn is_spot_name(name: Seq<char>) -> bool {
    ||| name.len() > 0 && name[0] == '@'
    ||| name == named_spot_market()
}

impl Clone for Coin {
    fn clone(&self) -> (copy: Coin)
        ensures
            copy == *self,
    {
        Coin { value: self.value.clone() }
    }
}

impl Coin {
    pub fn new(value: String) -> (coin: Coin)
        ensures
            coin@ == value@,
    {
        Coin { value }
    }

    pub fn value(&self) -> (value: &str)
        ensures
            value@ == self@,
    {
        self.value.as_str()
    }

    /// Whether two coins have the same name.
    pub fn is(&self, other: &Coin) -> (same: bool)
        ensures
            same == (self@ == other@),
    {
        self.value == other.value
    }

    pub fn is_spot(&self) -> (spot: bool)
        ensures
            spot == is_spot_name(self@),
    {
        let chars = chars_of(self.value.as_str());
        if chars.len() > 0 && chars[0] == '@' {
            true
        } else {
            let named: String = "PURR/USDC".to_string();
            self.value == named
        }
    }
}

/// A price, in units of 10^-8.
#[derive(Clone, Copy, Debug, PartialEq, Eq, Structural)]
pub struct Px {
    pub units: u64,
}

impl Px {
    pub fn parse_from_str(text: &str) -> (px: Result<Px, DecimalError>)
        ensures
            match decimal_value(text@) {
                Ok(units) => px == Ok::<Px, DecimalError>(Px { units }),
                Err(error) => px == Err::<Px, DecimalError>(error),
            },
    {
        match parse_decimal(text) {
            Ok(units) => Ok(Px { units }),
            Err(error) => Err(error),
        }
    }
}

/// An order size, in units of 10^-8.
#[derive(Clone, Copy, Debug, PartialEq, Eq, Structural)]
pub struct Sz {
    pub units: u64,
}

impl Sz {
    pub fn parse_from_str(text: &str) -> (sz: Result<Sz, DecimalError>)
        ensures
            match decimal_value(text@) {
                Ok(units) => sz == Ok::<Sz, DecimalError>(Sz { units }),
                Err(error) => sz == Err::<Sz, DecimalError>(error),
            },
    {
        match parse_decimal(text) {
            Ok(units) => Ok(Sz { units }),
            Err(error) => Err(error),
        }
    }
}

} // verus!
