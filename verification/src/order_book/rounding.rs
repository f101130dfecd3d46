//! Rounding prices to significant figures.

use crate::order_book::types::Side;
use vstd::arithmetic::div_mod::{lemma_fundamental_div_mod, lemma_mod_multiples_basic};
use vstd::arithmetic::power::{
    lemma_pow1, lemma_pow_adds, lemma_pow_increases, lemma_pow_positive, pow,
};
use vstd::prelude::*;

verus! {

/// No price, and no rounded price, has more units than this.
pub const MAX_LEVEL_PX: u128 = 100_000_000_000_000_000_000;

/// How many decimal digits a number has.
pub open spec fn digit_count(n: nat) -> nat
    decreases n,
{
    if n < 10 {
        1
    } else {
        1 + digit_count(n / 10)
    }
}

/// The greatest multiple of `step` that is not above `n`.
pub open spec fn round_down(n: int, step: int) -> int {
    n / step * step
}

/// The least multiple of `step` that is not below `n`.
pub open spec fn round_up(n: int, step: int) -> int {
    (n + step - 1) / step * step
}

/// The distance between the prices that have `figures` significant figures around `px`,
/// the last figure a multiple of `mantissa`.
pub open spec fn price_step(px: nat, figures: nat, mantissa: nat) -> int {
    mantissa * pow(10, (digit_count(px) - figures) as nat)
}

/// The price of the level that an order at price `px` belongs to: rounded away from the
/// other side of the book, and kept where it has fewer figures than asked for.
pub open spec fn bucket(
    side: Side,
    px: nat,
    n_sig_figs: Option<u32>,
    mantissa: Option<u64>,
) -> nat {
    match n_sig_figs {
        None => px,
        Some(figures) => {
            let mantissa: nat = match mantissa {
                Some(mantissa) => mantissa as nat,
                None => 1,
            };
            if digit_count(px) < figures {
                px
            } else {
                let step = price_step(px, figures as nat, mantissa);
                match side {
                    Side::Bid => round_down(px as int, step) as nat,
                    Side::Ask => round_up(px as int, step) as nat,
                }
            }
        },
    }
}

/// The roundings that the listener offers.
pub open spec fn offered(n_sig_figs: Option<u32>, mantissa: Option<u64>) -> bool {
    &&& n_sig_figs matches Some(figures) ==> 2 <= figures <= 5
    &&& mantissa matches Some(mantissa) ==> mantissa == 1 || mantissa == 2 || mantissa == 5
}

pub proof fn lemma_digit_count(n: nat)
    ensures
        digit_count(n) >= 1,
        n < pow(10, digit_count(n)),
        n >= 1 ==> pow(10, (digit_count(n) - 1) as nat) <= n,
    decreases n,
{
    lemma_pow1(10);
    reveal(pow);
    if n >= 10 {
        lemma_digit_count(n / 10);
        let d = digit_count(n / 10);
        assert(pow(10, d + 1) == 10 * pow(10, d));
        assert(pow(10, d) == 10 * pow(10, (d - 1) as nat));
    }
}

pub(crate) proof fn lemma_digit_count_is(n: nat, d: nat)
    requires
        d >= 1,
        pow(10, (d - 1) as nat) <= n < pow(10, d),
    ensures
        digit_count(n) == d,
{
    lemma_digit_count(n);
    let c = digit_count(n);
    lemma_pow_positive(10, (d - 1) as nat);
    if c < d {
        lemma_pow_increases(10, c, (d - 1) as nat);
    } else if c > d {
        lemma_pow_increases(10, d, (c - 1) as nat);
    }
}

pub(crate) proof fn lemma_round_down(n: int, step: int)
    requires
        step > 0,
    ensures
        round_down(n, step) <= n < round_down(n, step) + step,
        round_down(n, step) % step == 0,
{
    lemma_fundamental_div_mod(n, step);
    lemma_mod_multiples_basic(n / step, step);
    assert(n / step * step == step * (n / step)) by (nonlinear_arith);
}

pub(crate) proof fn lemma_round_up(n: int, step: int)
    requires
        step > 0,
    ensures
        n <= round_up(n, step) < n + step,
        round_up(n, step) % step == 0,
{
    lemma_round_down(n + step - 1, step);
}

/// Two multiples of a step that are less than a step apart are the same.
proof fn lemma_same_multiple(a: int, b: int, step: int)
    requires
        step > 0,
        a % step == 0,
        b % step == 0,
        -step < a - b < step,
    ensures
        a == b,
{
    lemma_fundamental_div_mod(a, step);
    lemma_fundamental_div_mod(b, step);
    let (p, q) = (a / step, b / step);
    assert(p == q) by (nonlinear_arith)
        requires
            a == step * p,
            b == step * q,
            -step < a - b < step,
            step > 0,
    ;
}

/// A multiple of `step` that is not below `n` is not below the rounded `n` either.
proof fn lemma_round_up_least(n: int, step: int, m: int)
    requires
        step > 0,
        m % step == 0,
        n <= m,
    ensures
        round_up(n, step) <= m,
{
    lemma_round_up(n, step);
    let u = round_up(n, step);
    if m < u {
        lemma_same_multiple(u, m, step);
    }
}

/// A multiple of `step` that is not above `n` is not above the rounded `n` either.
proof fn lemma_round_down_greatest(n: int, step: int, m: int)
    requires
        step > 0,
        m % step == 0,
        m <= n,
    ensures
        m <= round_down(n, step),
{
    lemma_round_down(n, step);
    let d = round_down(n, step);
    if m > d {
        lemma_same_multiple(m, d, step);
    }
}

proof fn lemma_multiple_of_multiple(m: int, step: int, k: int)
    requires
        step > 0,
        k > 0,
        m % (k * step) == 0,
    ensures
        k * step > 0,
        m % step == 0,
{
    assert(k * step > 0) by (nonlinear_arith)
        requires
            step > 0,
            k > 0,
    ;
    lemma_fundamental_div_mod(m, k * step);
    let q = m / (k * step);
    assert(m == (q * k) * step) by (nonlinear_arith)
        requires
            m == (k * step) * q,
    ;
    lemma_mod_multiples_basic(q * k, step);
}

/// Rounding down by a step, then by a multiple of it, is rounding by the multiple.
proof fn lemma_round_down_twice(n: int, step: int, k: int)
    requires
        step > 0,
        k > 0,
    ensures
        round_down(round_down(n, step), k * step) == round_down(n, k * step),
{
    let coarse = round_down(n, k * step);
    let fine = round_down(n, step);
    assert(k * step > 0) by (nonlinear_arith)
        requires
            step > 0,
            k > 0,
    ;
    lemma_round_down(n, step);
    lemma_round_down(n, k * step);
    lemma_multiple_of_multiple(coarse, step, k);
    lemma_round_down_greatest(n, step, coarse);
    let twice = round_down(fine, k * step);
    lemma_round_down(fine, k * step);
    lemma_round_down_greatest(fine, k * step, coarse);
    lemma_round_down_greatest(n, k * step, twice);
}

/// Rounding up by a step, then by a multiple of it, is rounding by the multiple.
proof fn lemma_round_up_twice(n: int, step: int, k: int)
    requires
        step > 0,
        k > 0,
    ensures
        round_up(round_up(n, step), k * step) == round_up(n, k * step),
{
    let coarse = round_up(n, k * step);
    let fine = round_up(n, step);
    assert(k * step > 0) by (nonlinear_arith)
        requires
            step > 0,
            k > 0,
    ;
    lemma_round_up(n, step);
    lemma_round_up(n, k * step);
    lemma_multiple_of_multiple(coarse, step, k);
    lemma_round_up_least(n, step, coarse);
    let twice = round_up(fine, k * step);
    lemma_round_up(fine, k * step);
    lemma_round_up_least(fine, k * step, coarse);
    lemma_round_up_least(n, k * step, twice);
}

/// The powers of ten at both ends of the prices of a length are multiples of their step.
proof fn lemma_step_divides(d: nat, figures: nat, mantissa: nat)
    requires
        2 <= figures <= d,
        mantissa == 1 || mantissa == 2 || mantissa == 5,
    ensures
        mantissa * pow(10, (d - figures) as nat) > 0,
        pow(10, (d - 1) as nat) % (mantissa * pow(10, (d - figures) as nat)) == 0,
        pow(10, d) % (mantissa * pow(10, (d - figures) as nat)) == 0,
{
    let rest = pow(10, (d - figures) as nat);
    let step = mantissa * rest;
    lemma_pow_positive(10, (d - figures) as nat);
    assert(step > 0) by (nonlinear_arith)
        requires
            step == mantissa * rest,
            mantissa > 0,
            rest > 0,
    ;
    let cofactor: int = if mantissa == 1 {
        10
    } else if mantissa == 2 {
        5
    } else {
        2
    };
    let ten_more = pow(10, (figures - 2) as nat);
    lemma_pow1(10);
    lemma_pow_adds(10, (d - figures) as nat, (figures - 2) as nat);
    lemma_pow_adds(10, (d - 2) as nat, 1);
    lemma_pow_adds(10, (d - 1) as nat, 1);
    assert(pow(10, (d - 2) as nat) == rest * ten_more);
    let low = pow(10, (d - 1) as nat);
    assert(low == (cofactor * ten_more) * step) by (nonlinear_arith)
        requires
            low == rest * ten_more * 10,
            step == mantissa * rest,
            cofactor * mantissa == 10,
    ;
    lemma_mod_multiples_basic(cofactor * ten_more, step);
    let high = pow(10, d);
    assert(high == (cofactor * ten_more * 10) * step) by (nonlinear_arith)
        requires
            low == (cofactor * ten_more) * step,
            high == low * 10,
    ;
    lemma_mod_multiples_basic(cofactor * ten_more * 10, step);
}

/// A price and its level's price: they have the same number of digits, or the level's price
/// is the power of ten above.
proof fn lemma_bucket_range(side: Side, px: nat, figures: nat, mantissa: nat)
    requires
        2 <= figures <= digit_count(px),
        mantissa == 1 || mantissa == 2 || mantissa == 5,
    ensures
        price_step(px, figures, mantissa) > 0,
        side == Side::Bid ==> {
            let down = round_down(px as int, price_step(px, figures, mantissa));
            pow(10, (digit_count(px) - 1) as nat) <= down <= px
        },
        side == Side::Ask ==> {
            let up = round_up(px as int, price_step(px, figures, mantissa));
            px <= up <= pow(10, digit_count(px))
        },
{
    let d = digit_count(px);
    let step = price_step(px, figures, mantissa);
    lemma_digit_count(px);
    lemma_step_divides(d, figures, mantissa);
    match side {
        Side::Bid => {
            lemma_round_down(px as int, step);
            lemma_round_down_greatest(px as int, step, pow(10, (d - 1) as nat));
        },
        Side::Ask => {
            lemma_round_up(px as int, step);
            lemma_round_up_least(px as int, step, pow(10, d));
        },
    }
}

pub open spec fn mantissa_or_one(mantissa: Option<u64>) -> nat {
    match mantissa {
        Some(mantissa) => mantissa as nat,
        None => 1,
    }
}

/// Rounding keeps prices in order.
pub proof fn lemma_bucket_monotone(
    side: Side,
    p: nat,
    q: nat,
    n_sig_figs: Option<u32>,
    mantissa: Option<u64>,
)
    requires
        offered(n_sig_figs, mantissa),
        p <= q,
    ensures
        bucket(side, p, n_sig_figs, mantissa) <= bucket(side, q, n_sig_figs, mantissa),
{
    if n_sig_figs is Some {
        let n = n_sig_figs->0 as nat;
        let m = mantissa_or_one(mantissa);
        let dp = digit_count(p);
        let dq = digit_count(q);
        lemma_digit_count(p);
        lemma_digit_count(q);
        if dq < dp {
            lemma_pow_increases(10, dq, (dp - 1) as nat);
        }
        if dp >= n {
            lemma_bucket_range(side, p, n, m);
        }
        if dq >= n {
            lemma_bucket_range(side, q, n, m);
        }
        if dp < dq {
            lemma_pow_increases(10, dp, (dq - 1) as nat);
        } else if dp >= n {
            let step = price_step(p, n, m);
            match side {
                Side::Bid => {
                    lemma_round_down(p as int, step);
                    lemma_round_down_greatest(q as int, step, round_down(p as int, step));
                },
                Side::Ask => {
                    lemma_round_up(q as int, step);
                    lemma_round_up_least(p as int, step, round_up(q as int, step));
                },
            }
        }
    }
}

/// Rounding keeps prices within bounds.
pub proof fn lemma_bucket_bounded(
    side: Side,
    px: nat,
    n_sig_figs: Option<u32>,
    mantissa: Option<u64>,
)
    requires
        offered(n_sig_figs, mantissa),
        px <= MAX_LEVEL_PX,
    ensures
        bucket(side, px, n_sig_figs, mantissa) <= MAX_LEVEL_PX,
{
    let top = MAX_LEVEL_PX as nat;
    lemma_bucket_monotone(side, px, top, n_sig_figs, mantissa);
    if n_sig_figs is Some {
        let n = n_sig_figs->0 as nat;
        let m = mantissa_or_one(mantissa);
        lemma_max_level_px();
        lemma_pow_positive(10, 20);
        lemma_pow_adds(10, 20, 1);
        lemma_pow1(10);
        lemma_digit_count_is(top, 21);
        lemma_bucket_range(side, top, n, m);
        lemma_step_divides(21, n, m);
        let step = price_step(top, n, m);
        match side {
            Side::Bid => {},
            Side::Ask => {
                lemma_round_up_least(top as int, step, top as int);
            },
        }
    }
}

proof fn lemma_max_level_px()
    ensures
        MAX_LEVEL_PX == pow(10, 20),
{
    reveal_with_fuel(pow, 21);
    assert(pow(10, 20) == 100_000_000_000_000_000_000int);
}

/// Counts the decimal digits of a number.
fn count_digits(n: u128) -> (count: u32)
    ensures
        count == digit_count(n as nat),
        count <= 39,
    decreases n,
{
    if n < 10 {
        1
    } else {
        let rest = count_digits(n / 10);
        proof {
            lemma_digit_count(n as nat);
            if rest >= 39 {
                lemma_pow_increases(10, 39, rest as nat);
                lemma_two_to_the_128();
            }
        }
        rest + 1
    }
}

proof fn lemma_two_to_the_128()
    ensures
        u128::MAX < pow(10, 39),
{
    reveal_with_fuel(pow, 40);
    assert(pow(10, 39) == 1_000_000_000_000_000_000_000_000_000_000_000_000_000int);
}

/// Ten to the power of `exponent`.
fn power_of_ten(exponent: u32) -> (power: u128)
    requires
        exponent <= 20,
    ensures
        power == pow(10, exponent as nat),
        0 < power <= MAX_LEVEL_PX,
    decreases exponent,
{
    proof {
        reveal(pow);
        lemma_max_level_px();
        lemma_pow_positive(10, exponent as nat);
        lemma_pow_increases(10, exponent as nat, 20);
    }
    if exponent == 0 {
        1
    } else {
        10 * power_of_ten(exponent - 1)
    }
}

/// The price of the level that a price belongs to.
pub fn bucket_px(
    side: Side,
    px: u128,
    n_sig_figs: Option<u32>,
    mantissa: Option<u64>,
) -> (level_px: u128)
    requires
        px <= MAX_LEVEL_PX,
        offered(n_sig_figs, mantissa),
    ensures
        level_px == bucket(side, px as nat, n_sig_figs, mantissa),
        level_px <= MAX_LEVEL_PX,
{
    let figures: u32 = match n_sig_figs {
        None => {
            return px;
        },
        Some(figures) => figures,
    };
    let mantissa_factor: u128 = match mantissa {
        Some(mantissa) => mantissa as u128,
        None => 1,
    };
    let digits = count_digits(px);
    if digits < figures {
        return px;
    }
    proof {
        lemma_bucket_bounded(side, px as nat, n_sig_figs, mantissa);
        lemma_bucket_range(side, px as nat, figures as nat, mantissa_factor as nat);
        lemma_digit_count(px as nat);
        if digits >= 22 {
            lemma_max_level_px();
            lemma_pow_increases(10, 21, (digits - 1) as nat);
            lemma_pow_adds(10, 20, 1);
            lemma_pow1(10);
        }
    }
    let power = power_of_ten(digits - figures);
    assert(0 < mantissa_factor * power <= 5 * MAX_LEVEL_PX) by (nonlinear_arith)
        requires
            0 < mantissa_factor <= 5,
            0 < power <= MAX_LEVEL_PX,
    ;
    let step: u128 = mantissa_factor * power;
    match side {
        Side::Bid => {
            proof {
                lemma_round_down(px as int, step as int);
            }
            px / step * step
        },
        Side::Ask => {
            proof {
                lemma_round_up(px as int, step as int);
            }
            (px + step - 1) / step * step
        },
    }
}

/// The first rounding keeps all that the second one needs: the second one's steps are
/// multiples of the first one's.
pub open spec fn refines(fine: (u32, Option<u64>), coarse: (u32, Option<u64>)) -> bool {
    &&& 2 <= coarse.0 <= fine.0 <= 5
    &&& exists|k: int|
        k > 0 && #[trigger] (k * mantissa_or_one(fine.1)) == mantissa_or_one(coarse.1) * pow(
            10,
            (fine.0 - coarse.0) as nat,
        )
}

/// Rounding a price by a finer rounding first does not change where the coarser one puts it.
pub proof fn lemma_bucket_twice(
    side: Side,
    px: nat,
    fine: (u32, Option<u64>),
    coarse: (u32, Option<u64>),
)
    requires
        offered(Some(fine.0), fine.1),
        offered(Some(coarse.0), coarse.1),
        refines(fine, coarse),
    ensures
        bucket(side, bucket(side, px, Some(fine.0), fine.1), Some(coarse.0), coarse.1) == bucket(
            side,
            px,
            Some(coarse.0),
            coarse.1,
        ),
{
    let d = digit_count(px);
    let m1 = mantissa_or_one(fine.1);
    let m2 = mantissa_or_one(coarse.1);
    if d >= fine.0 {
        let n1 = fine.0 as nat;
        let n2 = coarse.0 as nat;
        let k = choose|k: int| k > 0 && #[trigger] (k * m1) == m2 * pow(10, (n1 - n2) as nat);
        let step1 = price_step(px, n1, m1);
        let step2 = price_step(px, n2, m2);
        let rest = pow(10, (d - n1) as nat);
        let gap = pow(10, (n1 - n2) as nat);
        lemma_pow_adds(10, (d - n1) as nat, (n1 - n2) as nat);
        assert(step2 == k * step1) by (nonlinear_arith)
            requires
                step1 == m1 * rest,
                step2 == m2 * (rest * gap),
                k * m1 == m2 * gap,
        ;
        lemma_digit_count(px);
        lemma_bucket_range(side, px, n1, m1);
        lemma_bucket_range(side, px, n2, m2);
        match side {
            Side::Bid => {
                let down = round_down(px as int, step1);
                lemma_pow_positive(10, (d - 1) as nat);
                lemma_digit_count_is(down as nat, d);
                lemma_round_down_twice(px as int, step1, k);
            },
            Side::Ask => {
                let up = round_up(px as int, step1);
                lemma_round_up_twice(px as int, step1, k);
                lemma_pow_increases(10, (d - 1) as nat, d);
                if up < pow(10, d) {
                    lemma_digit_count_is(up as nat, d);
                } else {
                    // The price rounds up to the power of ten, which every later rounding keeps.
                    let top = pow(10, d);
                    lemma_pow_positive(10, d);
                    lemma_pow_adds(10, d, 1);
                    lemma_pow1(10);
                    lemma_digit_count_is(top as nat, d + 1);
                    let step = price_step(top as nat, n2, m2);
                    lemma_step_divides((d + 1) as nat, n2, m2);
                    lemma_round_up(top, step);
                    lemma_round_up_least(top, step, top);
                    // A coarser rounding from `px` ends there too.
                    lemma_round_up(px as int, step2);
                    lemma_multiple_of_multiple(round_up(px as int, step2), step1, k);
                    lemma_round_up_least(px as int, step1, round_up(px as int, step2));
                }
            },
        }
    }
}

} // verus!
