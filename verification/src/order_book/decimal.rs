//! Decimal numbers as the node writes them, read into fixed point.

use crate::text::chars_of;
use vstd::prelude::*;

verus! {

/// Prices and sizes are counted in units of ten to the minus this many.
pub const FRACTION_DIGITS: usize = 8;

/// Why a text is no fixed-point number.
#[derive(Clone, Copy, Debug, PartialEq, Eq, Structural)]
pub enum DecimalError {
    /// The text is not digits with at most one point among them.
    Malformed,
    /// The number has more units than 64 bits hold.
    TooLarge,
}

pub open spec fn is_digit(c: char) -> bool {
    '0' <= c && c <= '9'
}

pub open spec fn digit_value(c: char) -> nat {
    (c as int - '0' as int) as nat
}

pub open spec fn all_digits(s: Seq<char>) -> bool {
    forall|i: int| 0 <= i < s.len() ==> is_digit(#[trigger] s[i])
}

/// The number that a run of digits writes.
pub open spec fn digits_value(s: Seq<char>) -> nat
    decreases s.len(),
{
    if s.len() == 0 {
        0
    } else {
        digits_value(s.drop_last()) * 10 + digit_value(s.last())
    }
}

/// What stands before the first point.
pub open spec fn whole_part(s: Seq<char>) -> Seq<char>
    decreases s.len(),
{
    if s.len() == 0 || s[0] == '.' {
        Seq::empty()
    } else {
        seq![s[0]] + whole_part(s.drop_first())
    }
}

/// What stands behind the first point.
pub open spec fn fraction_part(s: Seq<char>) -> Seq<char> {
    let whole = whole_part(s).len();
    if whole < s.len() {
        s.skip(whole as int + 1)
    } else {
        Seq::empty()
    }
}

/// Digits, with at most one point, and at least one digit.
pub open spec fn is_decimal(s: Seq<char>) -> bool {
    &&& all_digits(whole_part(s))
    &&& all_digits(fraction_part(s))
    &&& whole_part(s).len() + fraction_part(s).len() > 0
}

/// The first eight digits behind the point, with zeros where there are fewer.
pub open spec fn unit_digits(fraction: Seq<char>) -> Seq<char> {
    Seq::new(
        FRACTION_DIGITS as nat,
        |i: int|
            if i < fraction.len() {
                fraction[i]
            } else {
                '0'
            },
    )
}

/// The number in units, to the nearest unit, halves upwards.
pub open spec fn decimal_units(s: Seq<char>) -> nat {
    let fraction = fraction_part(s);
    let rounded_up: nat = if fraction.len() > FRACTION_DIGITS && fraction[FRACTION_DIGITS as int]
        >= '5' {
        1
    } else {
        0
    };
    digits_value(whole_part(s) + unit_digits(fraction)) + rounded_up
}

/// The fixed-point number that a text writes.
pub open spec fn decimal_value(s: Seq<char>) -> Result<u64, DecimalError> {
    if !is_decimal(s) {
        Err(DecimalError::Malformed)
    } else if decimal_units(s) > u64::MAX {
        Err(DecimalError::TooLarge)
    } else {
        Ok(decimal_units(s) as u64)
    }
}

proof fn lemma_whole_part(s: Seq<char>, n: int)
    requires
        0 <= n <= s.len(),
        forall|i: int| 0 <= i < n ==> s[i] != '.',
        n < s.len() ==> s[n] == '.',
    ensures
        whole_part(s) == s.take(n),
    decreases n,
{
    if n > 0 {
        let rest = s.drop_first();
        assert forall|i: int| 0 <= i < n - 1 implies rest[i] != '.' by {
            assert(rest[i] == s[i + 1]);
        }
        lemma_whole_part(rest, n - 1);
        assert(seq![s[0]] + rest.take(n - 1) =~= s.take(n));
    } else {
        assert(s.take(0) =~= Seq::empty());
    }
}

/// `total` is `value` where 64 bits hold it, and nothing where they do not.
spec fn held(total: Option<u64>, value: nat) -> bool {
    total == (if value <= u64::MAX {
        Some(value as u64)
    } else {
        None
    })
}

/// One more digit behind the digits read so far.
fn push_digit(total: Option<u64>, c: char, Ghost(before): Ghost<Seq<char>>) -> (next: Option<u64>)
    requires
        is_digit(c),
        held(total, digits_value(before)),
    ensures
        held(next, digits_value(before.push(c))),
{
    proof {
        assert(before.push(c).drop_last() =~= before);
    }
    let digit: u64 = (c as u32 - '0' as u32) as u64;
    match total {
        None => None,
        Some(value) => {
            let wide: u128 = value as u128 * 10 + digit as u128;
            if wide <= u64::MAX as u128 {
                Some(wide as u64)
            } else {
                None
            }
        },
    }
}

/// Reads a decimal number.
pub fn parse_decimal(text: &str) -> (value: Result<u64, DecimalError>)
    ensures
        value == decimal_value(text@),
{
    let chars = chars_of(text);
    let len: usize = chars.len();
    let mut whole: usize = 0;
    while whole < len && chars[whole] != '.'
        invariant
            chars@ == text@,
            len == chars@.len(),
            whole <= len,
            forall|i: int| 0 <= i < whole ==> chars@[i] != '.',
        decreases len - whole,
    {
        whole = whole + 1;
    }
    let ghost int_digits = text@.take(whole as int);
    let ghost fraction = fraction_part(text@);
    proof {
        lemma_whole_part(text@, whole as int);
    }
    let mut at: usize = 0;
    let mut total: Option<u64> = Some(0);
    assert(int_digits.take(0) =~= Seq::empty());
    while at < whole
        invariant
            chars@ == text@,
            len == chars@.len(),
            at <= whole <= len,
            int_digits == text@.take(whole as int),
            whole_part(text@) == int_digits,
            forall|i: int| 0 <= i < at ==> is_digit(#[trigger] int_digits[i]),
            held(total, digits_value(int_digits.take(at as int))),
        decreases whole - at,
    {
        let c = chars[at];
        assert(int_digits[at as int] == c);
        if c < '0' || c > '9' {
            return Err(DecimalError::Malformed);
        }
        total = push_digit(total, c, Ghost(int_digits.take(at as int)));
        assert(int_digits.take(at as int).push(c) =~= int_digits.take(at + 1));
        at = at + 1;
    }
    assert(int_digits.take(whole as int) =~= int_digits);
    let start: usize = if whole < len {
        whole + 1
    } else {
        len
    };
    let fraction_len: usize = len - start;
    assert(fraction.len() == fraction_len);
    assert(forall|i: int| 0 <= i < fraction_len ==> #[trigger] fraction[i] == chars@[start + i]);
    if whole == 0 && fraction_len == 0 {
        return Err(DecimalError::Malformed);
    }
    let mut scan: usize = 0;
    while scan < fraction_len
        invariant
            chars@ == text@,
            len == chars@.len(),
            start + fraction_len == len,
            scan <= fraction_len,
            fraction == fraction_part(text@),
            fraction.len() == fraction_len,
            forall|i: int| 0 <= i < fraction_len ==> #[trigger] fraction[i] == chars@[start + i],
            forall|i: int| 0 <= i < scan ==> is_digit(#[trigger] fraction[i]),
        decreases fraction_len - scan,
    {
        let c = chars[start + scan];
        assert(fraction[scan as int] == c);
        if c < '0' || c > '9' {
            return Err(DecimalError::Malformed);
        }
        scan = scan + 1;
    }
    let ghost units = unit_digits(fraction);
    let mut unit: usize = 0;
    assert(int_digits + units.take(0) =~= int_digits);
    while unit < FRACTION_DIGITS
        invariant
            chars@ == text@,
            len == chars@.len(),
            start + fraction_len == len,
            unit <= FRACTION_DIGITS,
            fraction.len() == fraction_len,
            forall|i: int| 0 <= i < fraction_len ==> #[trigger] fraction[i] == chars@[start + i],
            forall|i: int| 0 <= i < fraction_len ==> is_digit(#[trigger] fraction[i]),
            units == unit_digits(fraction),
            held(total, digits_value(int_digits + units.take(unit as int))),
        decreases FRACTION_DIGITS - unit,
    {
        let c = if unit < fraction_len {
            assert(fraction[unit as int] == chars@[start + unit]);
            chars[start + unit]
        } else {
            '0'
        };
        assert(units[unit as int] == c);
        assert(is_digit(c));
        total = push_digit(total, c, Ghost(int_digits + units.take(unit as int)));
        assert((int_digits + units.take(unit as int)).push(c) =~= int_digits + units.take(unit + 1));
        unit = unit + 1;
    }
    assert(units.take(FRACTION_DIGITS as int) =~= units);
    if fraction_len > FRACTION_DIGITS {
        assert(fraction[FRACTION_DIGITS as int] == chars@[start + FRACTION_DIGITS]);
    }
    let round_up: bool = fraction_len > FRACTION_DIGITS && chars[start + FRACTION_DIGITS] >= '5';
    match total {
        None => Err(DecimalError::TooLarge),
        Some(value) => {
            if !round_up {
                Ok(value)
            } else if value < u64::MAX {
                Ok(value + 1)
            } else {
                Err(DecimalError::TooLarge)
            }
        },
    }
}

} // verus!
