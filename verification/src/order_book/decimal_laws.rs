//! What the reading of decimal numbers keeps to.

use crate::order_book::decimal::{
    all_digits, decimal_units, decimal_value, digit_value, digits_value, fraction_part, is_decimal,
    is_digit, unit_digits, whole_part, DecimalError,
};
use crate::text::{decimal_text, digit_char};
use vstd::arithmetic::power::{lemma_pow0, lemma_pow_adds, pow};
use vstd::prelude::*;

verus! {

/// Every character is a digit.
pub open spec fn in_digits(text: Seq<char>) -> bool {
    forall|i: int| 0 <= i < text.len() ==> '0' <= #[trigger] text[i] <= '9'
}

/// A text with a point behind its whole part.
pub open spec fn pointed(whole: Seq<char>, fraction: Seq<char>) -> Seq<char> {
    whole + seq!['.'] + fraction
}

proof fn lemma_whole_digits(text: Seq<char>)
    requires
        in_digits(text),
    ensures
        whole_part(text) == text,
        fraction_part(text) == Seq::<char>::empty(),
    decreases text.len(),
{
    if text.len() > 0 {
        let rest = text.drop_first();
        assert forall|i: int| 0 <= i < rest.len() implies '0' <= #[trigger] rest[i] <= '9' by {
            assert(rest[i] == text[i + 1]);
        }
        lemma_whole_digits(rest);
        assert('0' <= text[0] <= '9');
        assert(seq![text[0]] + rest =~= text);
    } else {
        assert(text =~= Seq::empty());
    }
}

proof fn lemma_parts(whole: Seq<char>, fraction: Seq<char>)
    requires
        in_digits(whole),
    ensures
        whole_part(pointed(whole, fraction)) == whole,
        fraction_part(pointed(whole, fraction)) == fraction,
    decreases whole.len(),
{
    let text = pointed(whole, fraction);
    if whole.len() > 0 {
        let rest = whole.drop_first();
        assert forall|i: int| 0 <= i < rest.len() implies '0' <= #[trigger] rest[i] <= '9' by {
            assert(rest[i] == whole[i + 1]);
        }
        lemma_parts(rest, fraction);
        assert(text.drop_first() =~= pointed(rest, fraction));
        assert('0' <= whole[0] <= '9');
        assert(text[0] == whole[0]);
        assert(seq![whole[0]] + rest =~= whole);
    } else {
        assert(text[0] == '.');
        assert(whole =~= Seq::empty());
    }
    assert(text.skip(whole.len() as int + 1) =~= fraction);
}

proof fn lemma_digits_joined(a: Seq<char>, b: Seq<char>)
    ensures
        digits_value(a + b) == digits_value(a) * pow(10, b.len()) + digits_value(b),
    decreases b.len(),
{
    if b.len() == 0 {
        lemma_pow0(10);
        assert(a + b =~= a);
    } else {
        let init = b.drop_last();
        lemma_digits_joined(a, init);
        assert((a + b).drop_last() =~= a + init);
        lemma_pow_adds(10, init.len(), 1);
        vstd::arithmetic::power::lemma_pow1(10);
        let (x, p, y) = (digits_value(a) as int, pow(10, init.len()), digits_value(init) as int);
        assert((x * p + y) * 10 == x * (p * 10) + y * 10) by (nonlinear_arith);
    }
}

proof fn lemma_zeros(n: nat)
    ensures
        digits_value(Seq::new(n, |i: int| '0')) == 0,
    decreases n,
{
    if n > 0 {
        let zeros = Seq::new(n, |i: int| '0');
        assert(zeros.drop_last() =~= Seq::new((n - 1) as nat, |i: int| '0'));
        lemma_zeros((n - 1) as nat);
    }
}

proof fn lemma_unit_digits(whole: Seq<char>, fraction: Seq<char>)
    requires
        fraction.len() <= 8,
    ensures
        digits_value(whole + unit_digits(fraction)) == digits_value(whole + fraction) * pow(
            10,
            (8 - fraction.len()) as nat,
        ),
{
    let n = (8 - fraction.len()) as nat;
    let zeros = Seq::new(n, |i: int| '0');
    lemma_zeros(n);
    assert(whole + unit_digits(fraction) =~= whole + fraction + zeros);
    lemma_digits_joined(whole + fraction, zeros);
}

proof fn lemma_number_text(n: nat)
    ensures
        in_digits(decimal_text(n)),
        decimal_text(n).len() > 0,
        digits_value(decimal_text(n)) == n,
    decreases n,
{
    if n < 10 {
        assert(digit_value(digit_char(n)) == n);
        assert(decimal_text(n).drop_last() =~= Seq::empty());
        assert(digits_value(Seq::<char>::empty()) == 0);
    } else {
        lemma_number_text(n / 10);
        assert(digit_value(digit_char(n % 10)) == n % 10);
        assert(decimal_text(n).drop_last() =~= decimal_text(n / 10));
        assert forall|i: int| 0 <= i < decimal_text(n).len() implies '0'
            <= #[trigger] decimal_text(n)[i] <= '9' by {
            if i < decimal_text(n / 10).len() {
                assert(decimal_text(n)[i] == decimal_text(n / 10)[i]);
            }
        }
    }
}

/// A whole number that is written in decimal is read as that number, in units of ten to the minus
/// eight, or as too large where 64 bits do not hold it.
pub proof fn lemma_whole_number_is_read_back(n: nat)
    ensures
        n * 100_000_000 <= u64::MAX ==> decimal_value(decimal_text(n)) == Ok::<u64, DecimalError>(
            (n * 100_000_000) as u64,
        ),
        n * 100_000_000 > u64::MAX ==> decimal_value(decimal_text(n)) == Err::<u64, DecimalError>(
            DecimalError::TooLarge,
        ),
{
    let text = decimal_text(n);
    lemma_number_text(n);
    lemma_units_of_digits(text);
    assert forall|i: int| 0 <= i < text.len() implies is_digit(#[trigger] text[i]) by {}
}

proof fn lemma_units_of_digits(text: Seq<char>)
    requires
        in_digits(text),
    ensures
        whole_part(text) == text,
        fraction_part(text) == Seq::<char>::empty(),
        decimal_units(text) == digits_value(text) * 100_000_000,
{
    lemma_whole_digits(text);
    lemma_unit_digits(text, Seq::empty());
    assert(text + Seq::<char>::empty() =~= text);
    assert(pow(10, 8) == 100_000_000) by {
        lemma_ten_to_the_eighth();
    }
}

proof fn lemma_ten_to_the_eighth()
    ensures
        pow(10, 8) == 100_000_000,
{
    lemma_pow0(10);
    reveal(pow);
    assert(pow(10, 1) == 10 * pow(10, 0));
    assert(pow(10, 2) == 10 * pow(10, 1));
    assert(pow(10, 3) == 10 * pow(10, 2));
    assert(pow(10, 4) == 10 * pow(10, 3));
    assert(pow(10, 5) == 10 * pow(10, 4));
    assert(pow(10, 6) == 10 * pow(10, 5));
    assert(pow(10, 7) == 10 * pow(10, 6));
    assert(pow(10, 8) == 10 * pow(10, 7));
}

/// Zeros before a whole number, and behind the digits of a fraction, change nothing.
pub proof fn lemma_zeros_change_nothing(whole: Seq<char>, fraction: Seq<char>)
    requires
        in_digits(whole),
        in_digits(fraction),
        fraction.len() < 8,
        whole.len() + fraction.len() > 0,
    ensures
        decimal_value(pointed(seq!['0'] + whole, fraction)) == decimal_value(
            pointed(whole, fraction),
        ),
        decimal_value(pointed(whole, fraction.push('0'))) == decimal_value(
            pointed(whole, fraction),
        ),
{
    let zero = seq!['0'];
    assert(in_digits(zero + whole)) by {
        assert forall|i: int| 0 <= i < (zero + whole).len() implies '0' <= #[trigger] (zero
            + whole)[i] <= '9' by {
            if i > 0 {
                assert((zero + whole)[i] == whole[i - 1]);
            }
        }
    }
    lemma_parts(whole, fraction);
    lemma_parts(zero + whole, fraction);
    lemma_parts(whole, fraction.push('0'));
    let units = unit_digits(fraction);
    assert(unit_digits(fraction.push('0')) =~= units);
    assert((zero + whole) + units =~= zero + (whole + units));
    lemma_digits_joined(zero, whole + units);
    assert(zero.drop_last() =~= Seq::empty());
    assert(digits_value(zero) == 0) by {
        assert(digits_value(Seq::<char>::empty()) == 0);
        assert(zero.last() == '0');
    }
    lemma_all_digits(whole);
    lemma_all_digits(zero + whole);
    lemma_all_digits(fraction);
    assert(in_digits(fraction.push('0')));
    lemma_all_digits(fraction.push('0'));
}

proof fn lemma_all_digits(text: Seq<char>)
    requires
        in_digits(text),
    ensures
        all_digits(text),
{
    assert forall|i: int| 0 <= i < text.len() implies is_digit(#[trigger] text[i]) by {
        assert('0' <= text[i] <= '9');
    }
}

/// Moving the point behind the last of up to eight digits multiplies the number by ten for each
/// of them: a price or a size loses none of its first eight decimals.
pub proof fn lemma_point_moves_by_powers_of_ten(whole: Seq<char>, fraction: Seq<char>)
    requires
        in_digits(whole),
        in_digits(fraction),
        fraction.len() <= 8,
    ensures
        decimal_units(pointed(whole, fraction)) * pow(10, fraction.len()) == decimal_units(
            whole + fraction,
        ),
{
    let text = whole + fraction;
    assert(in_digits(text)) by {
        assert forall|i: int| 0 <= i < text.len() implies '0' <= #[trigger] text[i] <= '9' by {
            if i < whole.len() {
                assert(text[i] == whole[i]);
            } else {
                assert(text[i] == fraction[i - whole.len()]);
            }
        }
    }
    lemma_units_of_digits(text);
    lemma_parts(whole, fraction);
    lemma_unit_digits(whole, fraction);
    lemma_ten_to_the_eighth();
    let k = fraction.len();
    lemma_pow_adds(10, (8 - k) as nat, k);
    let (v, p, q) = (digits_value(text) as int, pow(10, (8 - k) as nat), pow(10, k));
    assert((v * p) * q == v * (p * q)) by (nonlinear_arith);
}

/// Digits behind the eighth are rounded: the ninth, where it is five or more, adds one unit, and
/// no digit behind that one matters.
pub proof fn lemma_ninth_digit_rounds(whole: Seq<char>, fraction: Seq<char>)
    requires
        in_digits(whole),
        in_digits(fraction),
        fraction.len() > 8,
    ensures
        decimal_units(pointed(whole, fraction)) == decimal_units(pointed(whole, fraction.take(8)))
            + if fraction[8] >= '5' {
            1nat
        } else {
            0nat
        },
{
    lemma_parts(whole, fraction);
    lemma_parts(whole, fraction.take(8));
    assert(unit_digits(fraction) =~= unit_digits(fraction.take(8)));
}

/// A number that is well written is read as its units where 64 bits hold them, and is too large
/// where they do not.
pub proof fn lemma_only_large_numbers_are_too_large(whole: Seq<char>, fraction: Seq<char>)
    requires
        in_digits(whole),
        in_digits(fraction),
        whole.len() + fraction.len() > 0,
    ensures
        match decimal_value(pointed(whole, fraction)) {
            Ok(units) => units == decimal_units(pointed(whole, fraction)),
            Err(error) => error == DecimalError::TooLarge && decimal_units(
                pointed(whole, fraction),
            ) > u64::MAX,
        },
        whole.len() > 0 ==> decimal_value(whole) == decimal_value(pointed(whole, Seq::empty())),
{
    lemma_parts(whole, fraction);
    lemma_all_digits(whole);
    lemma_all_digits(fraction);
    lemma_whole_digits(whole);
    lemma_parts(whole, Seq::empty());
}

proof fn lemma_split(text: Seq<char>)
    ensures
        whole_part(text).len() <= text.len(),
        forall|i: int| 0 <= i < whole_part(text).len() ==> #[trigger] whole_part(text)[i] == text[i]
            && text[i] != '.',
        whole_part(text).len() < text.len() ==> text[whole_part(text).len() as int] == '.',
    decreases text.len(),
{
    if text.len() > 0 && text[0] != '.' {
        let rest = text.drop_first();
        lemma_split(rest);
        assert forall|i: int| 0 <= i < whole_part(text).len() implies #[trigger] whole_part(text)[i]
            == text[i] && text[i] != '.' by {
            if i > 0 {
                assert(whole_part(text)[i] == whole_part(rest)[i - 1]);
                assert(rest[i - 1] == text[i]);
            }
        }
    }
}

/// A text that holds anything but digits and points, more than one point, or no digit is no
/// number.
pub proof fn lemma_what_is_no_number(text: Seq<char>, i: int, j: int)
    requires
        ({
            ||| 0 <= i < text.len() && text[i] != '.' && !('0' <= text[i] <= '9')
            ||| 0 <= i < j < text.len() && text[i] == '.' && text[j] == '.'
            ||| forall|k: int| 0 <= k < text.len() ==> !('0' <= #[trigger] text[k] <= '9')
        }),
    ensures
        decimal_value(text) == Err::<u64, DecimalError>(DecimalError::Malformed),
{
    lemma_split(text);
    let whole = whole_part(text);
    let fraction = fraction_part(text);
    let n = whole.len() as int;
    if n < text.len() {
        assert(forall|k: int| 0 <= k < fraction.len() ==> #[trigger] fraction[k] == text[n + 1 + k]);
    }
    if is_decimal(text) {
        if 0 <= i < text.len() && text[i] != '.' && !('0' <= text[i] <= '9') {
            if i < n {
                assert(is_digit(whole[i]));
            } else {
                assert(is_digit(fraction[i - n - 1]));
            }
        } else if 0 <= i < j < text.len() && text[i] == '.' && text[j] == '.' {
            if i < n {
                assert(whole[i] == text[i]);
            }
            assert(is_digit(fraction[j - n - 1]));
        } else if whole.len() > 0 {
            assert(is_digit(whole[0]));
            assert(!('0' <= text[0] <= '9'));
        } else {
            assert(is_digit(fraction[0]));
            assert(!('0' <= text[n + 1] <= '9'));
        }
    }
}

} // verus!
