//! Conversion from luma and chroma to red, green and blue.
//!
//! The conversion is defined over binary64 arithmetic: every product, sum and
//! difference is rounded to 53 significant bits, ties to even, and the result
//! is truncated towards zero and clamped to a byte.  Here a binary64 value is
//! held as an integer count of units of 2^-54, which is exact for every value
//! that the conversion meets, so the rounding is stated and computed over
//! integers.
use vstd::prelude::*;

verus! {

/// The weight of the integer one in units of 2^-54.
pub const ONE: i128 = 0x40_0000_0000_0000;

/// The least magnitude that needs more than 53 bits.
pub const SIGNIFICAND_LIMIT: u128 = 0x20_0000_0000_0000;

/// The binary64 value nearest to 1402/1000, in units of 2^-54: the weight of
/// the red chroma in red.
pub const RED_FROM_CR: i128 = 25256186710293740;

/// The binary64 value nearest to 344136/1000000, in units of 2^-54: the
/// weight of the blue chroma in green.
pub const GREEN_FROM_CB: i128 = 6199403045459092;

/// The binary64 value nearest to 714136/1000000, in units of 2^-54: the
/// weight of the red chroma in green.
pub const GREEN_FROM_CR: i128 = 12864730493967426;

/// The binary64 value nearest to 1772/1000, in units of 2^-54: the weight of
/// the blue chroma in blue.
pub const BLUE_FROM_CB: i128 = 31921514158802076;

/// The spacing of the values with 53 significant bits around the magnitude
/// `a`: one below 2^53, and doubling with each further bit.
pub open spec fn grid_step(a: nat) -> nat
    decreases a,
{
    if a < SIGNIFICAND_LIMIT {
        1
    } else {
        2 * grid_step(a / 2)
    }
}

/// The multiple of `step` nearest to `a`; of two that are equally near, the
/// even multiple.
pub open spec fn round_to_step(a: nat, step: nat) -> nat {
    let below = a / step;
    let rest = a % step;
    if 2 * rest < step || (2 * rest == step && below % 2 == 0) {
        below * step
    } else {
        (below + 1) * step
    }
}

/// The magnitude `a` rounded to 53 significant bits, ties to even.
pub open spec fn round_magnitude(a: nat) -> nat {
    round_to_step(a, grid_step(a))
}

/// The value `n` rounded to 53 significant bits, ties to even: the rounding
/// of every binary64 operation whose exact result is `n` units of 2^-54.
pub open spec fn binary64_round(n: int) -> int {
    if n >= 0 {
        round_magnitude(n as nat) as int
    } else {
        -(round_magnitude((-n) as nat) as int)
    }
}

/// The byte that a binary64 value of `n` units of 2^-54 is cast to: its
/// integer part, at least 0 and at most 255.
pub open spec fn truncate_to_byte(n: int) -> u8 {
    if n <= 0 {
        0
    } else if n / (ONE as int) > 255 {
        255
    } else {
        (n / (ONE as int)) as u8
    }
}

/// Red: `y + 1402/1000 * (cr - 128)` in binary64, cast to a byte.
pub open spec fn red_of(y: u8, cr: u8) -> u8 {
    truncate_to_byte(binary64_round(y * ONE + binary64_round(RED_FROM_CR * (cr - 128))))
}

/// Green: `y - 344136/1000000 * (cb - 128) - 714136/1000000 * (cr - 128)` in
/// binary64, evaluated from the left, cast to a byte.
pub open spec fn green_of(y: u8, cb: u8, cr: u8) -> u8 {
    truncate_to_byte(
        binary64_round(
            binary64_round(y * ONE - binary64_round(GREEN_FROM_CB * (cb - 128))) - binary64_round(
                GREEN_FROM_CR * (cr - 128),
            ),
        ),
    )
}

/// Blue: `y + 1772/1000 * (cb - 128)` in binary64, cast to a byte.
pub open spec fn blue_of(y: u8, cb: u8) -> u8 {
    truncate_to_byte(binary64_round(y * ONE + binary64_round(BLUE_FROM_CB * (cb - 128))))
}

/// The spacing is positive, and reaches two only where 53 bits no longer
/// hold the magnitude.
pub proof fn lemma_grid_step_positive(a: nat)
    ensures
        grid_step(a) >= 1,
        a < SIGNIFICAND_LIMIT ==> grid_step(a) == 1,
    decreases a,
{
    if a >= SIGNIFICAND_LIMIT {
        lemma_grid_step_positive(a / 2);
    }
}

/// Rounding gives a nearest point of the grid: a multiple of the spacing, no
/// further than half of it from the magnitude, and the even multiple where
/// the magnitude lies halfway between two.  Below 2^53 nothing is changed.
pub proof fn lemma_round_magnitude_is_nearest_even(a: nat)
    ensures
        round_magnitude(a) % grid_step(a) == 0,
        2 * (round_magnitude(a) - a) <= grid_step(a),
        2 * (a - round_magnitude(a)) <= grid_step(a),
        2 * (round_magnitude(a) - a) == grid_step(a) || 2 * (a - round_magnitude(a)) == grid_step(
            a,
        ) ==> (round_magnitude(a) / grid_step(a)) % 2 == 0,
        a < SIGNIFICAND_LIMIT ==> round_magnitude(a) == a,
{
    lemma_grid_step_positive(a);
    let step = grid_step(a) as int;
    let below = (a as int) / step;
    let rest = (a as int) % step;
    vstd::arithmetic::div_mod::lemma_fundamental_div_mod(a as int, step);
    vstd::arithmetic::div_mod::lemma_mod_bound(a as int, step);
    assert(below >= 0) by (nonlinear_arith)
        requires
            a == step * below + rest,
            0 <= rest < step,
            a >= 0,
    ;
    assert(below * step == step * below) by (nonlinear_arith);
    assert((below + 1) * step == step * below + step) by (nonlinear_arith);
    vstd::arithmetic::div_mod::lemma_mod_multiples_basic(below, step);
    vstd::arithmetic::div_mod::lemma_mod_multiples_basic(below + 1, step);
    vstd::arithmetic::div_mod::lemma_div_multiples_vanish(below, step);
    vstd::arithmetic::div_mod::lemma_div_multiples_vanish(below + 1, step);
    assert(step * below / step == below) by {
        assert(step * below == below * step);
    }
    assert(step * (below + 1) == (below + 1) * step) by (nonlinear_arith);
}

/// Rounds a magnitude to 53 significant bits, ties to even.
fn round_magnitude_exec(a: u128) -> (r: u128)
    requires
        a < 0x1_0000_0000_0000_0000_0000_0000,
    ensures
        r == round_magnitude(a as nat),
        r <= 2 * a,
{
    let mut step: u128 = 1;
    let mut rest: u128 = a;
    while rest >= SIGNIFICAND_LIMIT
        invariant
            a < 0x1_0000_0000_0000_0000_0000_0000,
            step >= 1,
            rest == a / step,
            step * rest <= a,
            step == 1 || rest >= 1,
            grid_step(a as nat) == step * grid_step(rest as nat),
        decreases rest,
    {
        proof {
            assert(step < 0x1_0000_0000_0000_0000_0000_0000) by (nonlinear_arith)
                requires
                    step * rest <= a,
                    rest >= 1,
                    a < 0x1_0000_0000_0000_0000_0000_0000,
                    step >= 1,
            ;
            vstd::arithmetic::div_mod::lemma_div_denominator(a as int, step as int, 2);
            vstd::arithmetic::div_mod::lemma_fundamental_div_mod(rest as int, 2);
            assert((step * 2) * (rest / 2) <= step * rest) by (nonlinear_arith)
                requires
                    rest == 2 * (rest / 2) + rest % 2,
                    0 <= rest % 2,
                    step >= 1,
            ;
            assert(step * (2 * grid_step((rest / 2) as nat)) == (step * 2) * grid_step(
                (rest / 2) as nat,
            )) by (nonlinear_arith);
        }
        rest = rest / 2;
        step = step * 2;
    }
    proof {
        vstd::arithmetic::div_mod::lemma_fundamental_div_mod(a as int, step as int);
        vstd::arithmetic::div_mod::lemma_mod_bound(a as int, step as int);
        assert(step <= a || step == 1) by (nonlinear_arith)
            requires
                step * rest <= a,
                step == 1 || rest >= 1,
                step >= 1,
        ;
        assert(rest * step == step * rest) by (nonlinear_arith);
        assert((rest + 1) * step == step * rest + step) by (nonlinear_arith);
        assert(grid_step(rest as nat) == 1);
        assert(step * 1 == step);
        assert(grid_step(a as nat) == step);
        assert((a as nat) / (step as nat) == rest);
    }
    let remainder: u128 = a % step;
    if 2 * remainder < step || (2 * remainder == step && rest % 2 == 0) {
        rest * step
    } else {
        (rest + 1) * step
    }
}

/// Rounds a signed value to 53 significant bits, ties to even.
fn round_binary64(n: i128) -> (r: i128)
    requires
        -0x1_0000_0000_0000_0000_0000_0000 < n < 0x1_0000_0000_0000_0000_0000_0000,
    ensures
        r == binary64_round(n as int),
        n >= 0 ==> 0 <= r <= 2 * n,
        n < 0 ==> 2 * n <= r <= 0,
{
    if n >= 0 {
        round_magnitude_exec(n as u128) as i128
    } else {
        -(round_magnitude_exec((-n) as u128) as i128)
    }
}

/// Casts a value in units of 2^-54 to a byte: towards zero, and clamped.
fn truncate_to_byte_exec(n: i128) -> (b: u8)
    ensures
        b == truncate_to_byte(n as int),
{
    if n <= 0 {
        0
    } else {
        let whole: i128 = n / ONE;
        if whole > 255 {
            255
        } else {
            whole as u8
        }
    }
}

/// Converts one pixel from luma, blue chroma and red chroma to red, green and
/// blue.  The first three bytes of `ycbr` are read.
pub fn ycbr_to_rgb(ycbr: &[u8]) -> (rgb: Vec<u8>)
    requires
        ycbr@.len() >= 3,
    ensures
        rgb@ == seq![
            red_of(ycbr@[0], ycbr@[2]),
            green_of(ycbr@[0], ycbr@[1], ycbr@[2]),
            blue_of(ycbr@[0], ycbr@[1]),
        ],
{
    let y: i128 = (ycbr[0] as i128) * ONE;
    let cb: i128 = ycbr[1] as i128 - 128;
    let cr: i128 = ycbr[2] as i128 - 128;
    let red = truncate_to_byte_exec(round_binary64(y + round_binary64(RED_FROM_CR * cr)));
    let green = truncate_to_byte_exec(
        round_binary64(
            round_binary64(y - round_binary64(GREEN_FROM_CB * cb)) - round_binary64(
                GREEN_FROM_CR * cr,
            ),
        ),
    );
    let blue = truncate_to_byte_exec(round_binary64(y + round_binary64(BLUE_FROM_CB * cb)));
    let mut rgb: Vec<u8> = Vec::with_capacity(3);
    rgb.push(red);
    rgb.push(green);
    rgb.push(blue);
    rgb
}

} // verus!
