//! The chance with which an item is drawn when a few slots are left for many items.
//!
//! The chance is the ratio of slots to items in single precision, as a share of the range of a
//! `u32`. Single precision keeps the 24 leading binary digits of a number, rounded to the nearest
//! and, halfway, to the even one; the functions here compute with those digits as integers.

use vstd::prelude::*;

verus! {

/// The least integer with 24 binary digits.
pub const LEADING_DIGITS_MIN: u128 = 0x80_0000;

/// One more than the greatest integer with 24 binary digits.
pub const LEADING_DIGITS_END: u128 = 0x100_0000;

/// `num / den` rounded to the nearest integer, and to the even one halfway between two.
pub open spec fn nearest_even(num: nat, den: nat) -> nat {
    let quotient = num / den;
    let remainder = num % den;
    if 2 * remainder > den || (2 * remainder == den && quotient % 2 == 1) {
        quotient + 1
    } else {
        quotient
    }
}

/// The power of two by which `n` is divided to have at most 24 digits before the point.
pub open spec fn integer_step(n: nat) -> nat
    decreases n,
{
    if n < LEADING_DIGITS_END {
        1
    } else {
        2 * integer_step(n / 2)
    }
}

/// The integer `n` in single precision.
pub open spec fn single_of_integer(n: nat) -> nat {
    nearest_even(n, integer_step(n)) * integer_step(n)
}

/// The power of two by which `num / den` is multiplied to have 24 digits before the point.
pub open spec fn ratio_scale(num: nat, den: nat) -> nat
    decreases LEADING_DIGITS_END * den - num,
{
    if num == 0 || num >= LEADING_DIGITS_MIN * den {
        1
    } else {
        2 * ratio_scale(2 * num, den)
    }
}

/// `num / den` in single precision, for a ratio below one, is
/// `ratio_digits(num, den) / ratio_scale(num, den)`.
pub open spec fn ratio_digits(num: nat, den: nat) -> nat {
    nearest_even(num * ratio_scale(num, den), den)
}

/// `slots / items` in single precision, times two to the 32, cut to an integer and capped at the
/// greatest `u32`.
pub open spec fn chance(slots: nat, items: nat) -> u32 {
    let den = single_of_integer(items);
    if slots >= den {
        u32::MAX
    } else {
        let share = ratio_digits(slots, den) * 0x1_0000_0000 / ratio_scale(slots, den);
        if share < u32::MAX {
            share as u32
        } else {
            u32::MAX
        }
    }
}

/// `num / den` rounded to the nearest integer.
fn round_nearest_even(num: u128, den: u128) -> (rounded: u128)
    requires
        0 < den <= u128::MAX / 2,
        num < u128::MAX,
    ensures
        rounded == nearest_even(num as nat, den as nat),
{
    let quotient: u128 = num / den;
    let remainder: u128 = num % den;
    assert(quotient <= num) by (nonlinear_arith)
        requires
            quotient == num / den,
            den > 0,
    ;
    if 2 * remainder > den || (2 * remainder == den && quotient % 2 == 1) {
        quotient + 1
    } else {
        quotient
    }
}

/// What single precision makes of an integer lies between one and twice the integer.
proof fn lemma_single_of_integer(n: nat)
    requires
        0 < n,
    ensures
        0 < integer_step(n) <= n,
        0 < single_of_integer(n) <= 2 * n,
        n < LEADING_DIGITS_END ==> single_of_integer(n) == n,
{
    lemma_integer_step(n);
    let step = integer_step(n);
    let q = n / step;
    assert(q * step <= n && 1 <= q) by (nonlinear_arith)
        requires
            q == n / step,
            0 < step <= n,
    ;
    let m = nearest_even(n, step);
    assert(0 < m * step <= 2 * n) by (nonlinear_arith)
        requires
            m == q || m == q + 1,
            q * step <= n,
            1 <= q,
            0 < step <= n,
    ;
    if n < LEADING_DIGITS_END {
        assert(step == 1);
        assert(n / 1 == n && n % 1 == 0);
        assert(m == n);
        assert(m * step == n) by (nonlinear_arith)
            requires
                m == n,
                step == 1,
        ;
    }
}

proof fn lemma_integer_step(n: nat)
    requires
        0 < n,
    ensures
        0 < integer_step(n) <= n,
    decreases n,
{
    if n >= LEADING_DIGITS_END {
        lemma_integer_step(n / 2);
    }
}

/// The integer `n` in single precision.
fn to_single(n: usize) -> (single: u128)
    requires
        0 < n,
    ensures
        single == single_of_integer(n as nat),
        0 < single <= 2 * n,
{
    let mut step: u128 = 1;
    let mut rest: u128 = n as u128;
    while rest >= LEADING_DIGITS_END
        invariant
            0 < rest,
            0 < step,
            rest * step <= n,
            step * integer_step(rest as nat) == integer_step(n as nat),
        decreases rest,
    {
        let ghost s = integer_step((rest / 2) as nat);
        let ghost before = rest;
        assert(integer_step(rest as nat) == 2 * s);
        assert((step * 2) * s == step * (2 * s)) by (nonlinear_arith);
        assert((rest / 2) * (step * 2) <= rest * step) by (nonlinear_arith)
            requires
                rest >= 0,
                step >= 0,
        ;
        assert(step <= rest * step) by (nonlinear_arith)
            requires
                rest >= 1,
                step >= 0,
        ;
        rest = rest / 2;
        step = step * 2;
    }
    proof {
        lemma_single_of_integer(n as nat);
        assert(step * 1 == step);
        assert(integer_step(n as nat) == step);
    }
    let digits = round_nearest_even(n as u128, step);
    proof {
        assert(digits * step == single_of_integer(n as nat));
    }
    digits * step
}

/// The share of the range of a `u32` below which a random number draws an item, when `slots`
/// slots are left for `items` items.
pub fn draw_chance(slots: usize, items: usize) -> (share: u32)
    requires
        slots < LEADING_DIGITS_END,
        0 < items,
    ensures
        share == chance(slots as nat, items as nat),
{
    let den = to_single(items);
    if slots as u128 >= den {
        return u32::MAX;
    }
    let mut scale: u128 = 1;
    let mut num: u128 = slots as u128;
    while num != 0 && num < LEADING_DIGITS_MIN * den
        invariant
            0 < den <= 2 * usize::MAX,
            0 < scale,
            num == slots * scale,
            num != 0 ==> scale <= num,
            num == 0 ==> scale == 1,
            num < LEADING_DIGITS_END * den,
            scale * ratio_scale(num as nat, den as nat) == ratio_scale(slots as nat, den as nat),
        decreases LEADING_DIGITS_END * den - num,
    {
        let ghost s = ratio_scale((2 * num) as nat, den as nat);
        assert(ratio_scale(num as nat, den as nat) == 2 * s);
        assert((scale * 2) * s == scale * (2 * s)) by (nonlinear_arith);
        assert(slots * (scale * 2) == (slots * scale) * 2) by (nonlinear_arith);
        num = num * 2;
        scale = scale * 2;
    }
    assert(ratio_scale(num as nat, den as nat) == 1);
    assert(scale * 1 == scale);
    let digits = round_nearest_even(num, den);
    proof {
        assert(digits <= LEADING_DIGITS_END) by (nonlinear_arith)
            requires
                num < LEADING_DIGITS_END * den,
                0 < den,
                digits <= num / den + 1,
        ;
    }
    let share: u128 = digits * 0x1_0000_0000 / scale;
    if share < u32::MAX as u128 {
        share as u32
    } else {
        u32::MAX
    }
}

/// When there are at least as many slots as items, the chance is the greatest that there is.
pub proof fn law_enough_slots_is_certain(slots: nat, items: nat)
    requires
        0 < items <= slots,
        items < LEADING_DIGITS_END,
    ensures
        chance(slots, items) == u32::MAX,
{
    lemma_single_of_integer(items);
}

/// The scaled ratio has 24 digits before the point.
proof fn lemma_ratio_scale(num: nat, den: nat)
    requires
        0 < num < LEADING_DIGITS_END * den,
    ensures
        0 < ratio_scale(num, den),
        LEADING_DIGITS_MIN * den <= num * ratio_scale(num, den) < LEADING_DIGITS_END * den,
    decreases LEADING_DIGITS_END * den - num,
{
    if num < LEADING_DIGITS_MIN * den {
        lemma_ratio_scale(2 * num, den);
        let s = ratio_scale(2 * num, den);
        assert(num * (2 * s) == (2 * num) * s) by (nonlinear_arith);
    } else {
        assert(num * 1 == num);
    }
}

/// What is rounded lies no more than one half away.
proof fn lemma_nearest(num: nat, den: nat)
    requires
        0 < den,
    ensures
        2 * num - den <= 2 * (nearest_even(num, den) * den) <= 2 * num + den,
{
    let q = num / den;
    let r = num % den;
    assert(num == q * den + r && 0 <= r < den) by (nonlinear_arith)
        requires
            q == num / den,
            r == num % den,
            0 < den,
    ;
    assert((q + 1) * den == q * den + den) by (nonlinear_arith);
}

/// The chance is the share of slots among the items, of the range of a `u32`: it differs from it by
/// less than one, and one part in two to the 24 that single precision cannot tell.
pub proof fn law_chance_is_the_share_of_slots(slots: nat, items: nat)
    requires
        0 < slots < items < 0x100_0000,
    ensures
        0x100_0000 * chance(slots, items) * items <= 0x100_0001 * slots * 0x1_0000_0000,
        0x100_0000 * (chance(slots, items) + 1) * items > 0xff_ffff * slots * 0x1_0000_0000,
{
    lemma_single_of_integer(items);
    let den = single_of_integer(items);
    lemma_ratio_scale(slots, den);
    let s = ratio_scale(slots, den);
    let d = ratio_digits(slots, den);
    lemma_nearest(slots * s, den);
    let share = d * 0x1_0000_0000 / s;
    let c = chance(slots, items);
    let x = slots * s;
    let e = d * items;
    assert(share * s <= d * 0x1_0000_0000 < (share + 1) * s) by (nonlinear_arith)
        requires
            share == d * 0x1_0000_0000 / s,
            0 < s,
    ;
    // The rounding error is one part in two to the 24 at most.
    assert(0xff_ffff * x <= 0x100_0000 * e <= 0x100_0001 * x) by (nonlinear_arith)
        requires
            2 * x - items <= 2 * e <= 2 * x + items,
            0x80_0000 * items <= x,
    ;
    assert(c <= share);
    assert(c * s * items <= share * s * items) by (nonlinear_arith)
        requires
            c <= share,
    ;
    assert(share * s * items <= e * 0x1_0000_0000) by (nonlinear_arith)
        requires
            share * s <= d * 0x1_0000_0000,
            e == d * items,
    ;
    assert(0x100_0000 * (c * s * items) <= 0x100_0001 * x * 0x1_0000_0000);
    assert(0x100_0000 * c * items <= 0x100_0001 * slots * 0x1_0000_0000) by (nonlinear_arith)
        requires
            0x100_0000 * (c * s * items) <= 0x100_0001 * x * 0x1_0000_0000,
            x == slots * s,
            0 < s,
    ;
    if share < u32::MAX {
        assert(e * 0x1_0000_0000 < (c + 1) * s * items) by (nonlinear_arith)
            requires
                d * 0x1_0000_0000 < (share + 1) * s,
                e == d * items,
                c == share,
                0 < items,
        ;
        assert(0xff_ffff * x * 0x1_0000_0000 < 0x100_0000 * ((c + 1) * s * items));
        assert(0x100_0000 * (c + 1) * items > 0xff_ffff * slots * 0x1_0000_0000) by (nonlinear_arith)
            requires
                0xff_ffff * x * 0x1_0000_0000 < 0x100_0000 * ((c + 1) * s * items),
                x == slots * s,
                0 < s,
        ;
    } else {
        assert(0x100_0000 * (c + 1) * items > 0xff_ffff * slots * 0x1_0000_0000) by (nonlinear_arith)
            requires
                c + 1 == 0x1_0000_0000,
                slots < items,
        ;
    }
}

/// Without slots there is no chance.
pub proof fn law_no_slots_no_chance(items: nat)
    requires
        0 < items,
    ensures
        chance(0, items) == 0,
{
    lemma_single_of_integer(items);
    let den = single_of_integer(items);
    assert(0 * ratio_scale(0, den) == 0);
    assert(0nat / den == 0 && 0nat % den == 0) by (nonlinear_arith)
        requires
            0 < den,
    ;
}

/// An integer with more than 24 digits has 24 of them before the point after it is divided.
proof fn lemma_integer_step_keeps_digits(n: nat)
    requires
        LEADING_DIGITS_END <= n,
    ensures
        LEADING_DIGITS_MIN * integer_step(n) <= n,
    decreases n,
{
    if LEADING_DIGITS_END <= n / 2 {
        lemma_integer_step_keeps_digits(n / 2);
    } else {
        assert(integer_step(n / 2) == 1);
    }
}

/// Single precision changes an integer by one part in two to the 24 at most, and not at all if it
/// has no more than 24 digits.
pub proof fn law_single_precision_keeps_24_digits(n: nat)
    requires
        0 < n,
    ensures
        n < 0x100_0000 ==> single_of_integer(n) == n,
        0xff_ffff * n <= 0x100_0000 * single_of_integer(n) <= 0x100_0001 * n,
{
    lemma_single_of_integer(n);
    if n >= LEADING_DIGITS_END {
        lemma_integer_step_keeps_digits(n);
        lemma_nearest(n, integer_step(n));
    }
}

} // verus!
