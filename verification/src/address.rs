//! Account addresses.

use alloy::primitives::Address;
use vstd::prelude::*;

verus! {

/// An account address, the 20 bytes that `alloy` calls [`Address`]; carried, never read.
#[verifier::external_type_specification]
#[verifier::external_body]
pub struct ExAddress(Address);

/// A hexadecimal digit, with a small letter above nine.
pub open spec fn is_hex_digit(c: char) -> bool {
    '0' <= c <= '9' || 'a' <= c <= 'f'
}

/// The shape of a written address: `0x` and two digits for each byte.
pub open spec fn is_address_text(text: Seq<char>) -> bool {
    &&& text.len() == 42
    &&& text[0] == '0'
    &&& text[1] == 'x'
    &&& forall|i: int| 2 <= i < 42 ==> is_hex_digit(#[trigger] text[i])
}

/// What `alloy` writes for an address with `{:?}`.
pub uninterp spec fn address_text(address: Address) -> Seq<char>;

/// An address in words, by `alloy`'s `Debug` of `Address`.
///
/// Trusted: what is written depends on the address alone, and is `0x` and the 20 bytes in
/// hexadecimal, with small letters.
#[verifier::external_body]
pub(crate) fn write_address(address: &Address) -> (text: String)
    ensures
        text@ == address_text(*address),
        is_address_text(text@),
{
    format!("{address:?}")
}

/// Whether two addresses are the same, by `alloy`'s `==` on `Address`.
///
/// Trusted: that `==` compares the 20 bytes, which are all that an address is.
#[verifier::external_body]
pub(crate) fn same_address(a: &Address, b: &Address) -> (same: bool)
    ensures
        same == (*a == *b),
{
    a == b
}

} // verus!
