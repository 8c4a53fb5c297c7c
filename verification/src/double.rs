//! Numbers with 53 significant bits, as double-precision arithmetic gives them.
//!
//! A number is held as a whole multiple of a fixed power of two, so that no step
//! but the rounding loses anything. A tie is rounded to the even neighbour.
use vstd::arithmetic::power2::{lemma2_to64, lemma_pow2_pos, lemma_pow2_unfold, pow2};
use vstd::prelude::*;

verus! {

/// 2 to the 53: a number below it is exact.
pub const MANTISSA: u128 = 0x20_0000_0000_0000;

/// The whole number nearest to `a / b`; of two that are as near the even one.
pub open spec fn half_even(a: nat, b: nat) -> nat {
    let down = a / b;
    let rest = a % b;
    if 2 * rest > b || (2 * rest == b && down % 2 == 1) {
        down + 1
    } else {
        down
    }
}

/// The multiple of `unit` nearest to `a * unit / step`, or of twice `unit`, of four
/// times `unit` and so on, where it would not fit in 53 bits.
pub open spec fn nearest_multiple(a: nat, step: nat, unit: nat) -> nat
    decreases
            (if a >= MANTISSA * step {
                a - MANTISSA * step + 1
            } else {
                0
            }),
{
    if step == 0 {
        0
    } else if a < MANTISSA * step {
        half_even(a, step) * unit
    } else {
        nearest_multiple(a, 2 * step, 2 * unit)
    }
}

/// `a / b` to 53 significant bits, where it is 2 to the 52 at least; else the
/// nearest whole number.
pub open spec fn nearest(a: nat, b: nat) -> nat {
    nearest_multiple(a, b, 1)
}

/// Rounds `a / b` to the nearest whole number.
pub fn round_half_even(a: u128, b: u128) -> (r: u128)
    requires
        0 < b < 0x4000_0000_0000_0000_0000_0000_0000_0000,
        a < 0x8000_0000_0000_0000_0000_0000_0000_0000,
    ensures
        r == half_even(a as nat, b as nat),
{
    let down: u128 = a / b;
    let rest: u128 = a % b;
    proof {
        lemma_quotient_small(a as nat, b as nat);
    }
    if 2 * rest > b || (2 * rest == b && down % 2 == 1) {
        down + 1
    } else {
        down
    }
}

/// A quotient is no larger than what is divided.
proof fn lemma_quotient_small(a: nat, b: nat)
    requires
        b > 0,
    ensures
        a / b <= a,
        (a / b) * b + a % b == a,
        a % b < b,
{
    assert(a / b <= a && (a / b) * b + a % b == a && a % b < b) by (nonlinear_arith)
        requires
            b > 0,
    ;
}

/// Rounds `a / b` to 53 significant bits.
pub fn round_to_nearest(a: u128, b: u128) -> (r: u128)
    requires
        0 < b < 0x4000_0000_0000_0000,
        a < 0x8000_0000_0000_0000_0000_0000_0000_0000,
    ensures
        r == nearest(a as nat, b as nat),
        r <= a / b + 2 * (a / MANTISSA) + 1,
{
    let mut step: u128 = b;
    let mut unit: u128 = 1;
    let top: u128 = a / MANTISSA;
    while step <= top
        invariant
            0 < unit <= step,
            step < 0x4000_0000_0000_0000 || step <= 2 * top,
            unit == 1 || unit <= 2 * top,
            step == b * unit,
            top == a / MANTISSA,
            nearest(a as nat, b as nat) == nearest_multiple(a as nat, step as nat, unit as nat),
        decreases
                (if step <= top {
                    top + 1 - step
                } else {
                    0
                }),
    {
        assert(2 * step == b * (2 * unit)) by (nonlinear_arith)
            requires
                step == b * unit,
        ;
        step = 2 * step;
        unit = 2 * unit;
    }
    let q: u128 = round_half_even(a, step);
    proof {
        lemma_quotient_small(a as nat, step as nat);
        lemma_quotient_small(a as nat, b as nat);
        let down = a as nat / step as nat;
        assert(down * unit <= a / b) by (nonlinear_arith)
            requires
                down * step <= a,
                step == b * unit,
                a < (a / b) * b + b,
                b > 0,
        ;
        assert(q * unit <= down * unit + unit) by (nonlinear_arith)
            requires
                q <= down + 1,
        ;
    }
    q * unit
}

/// An even whole number may be added before the rounding or after it.
pub proof fn half_even_of_sum(k: nat, a: nat, b: nat)
    requires
        b > 0,
        k % 2 == 0,
    ensures
        half_even(k * b + a, b) == k + half_even(a, b),
{
    let all = k * b + a;
    assert(all / b == k + a / b && all % b == a % b) by (nonlinear_arith)
        requires
            all == k * b + a,
            b > 0,
    ;
}

/// Rounding keeps the order.
pub proof fn half_even_keeps_order(a: nat, b: nat, step: nat)
    requires
        a <= b,
        step > 0,
    ensures
        half_even(a, step) <= half_even(b, step),
{
    lemma_quotient_small(a, step);
    lemma_quotient_small(b, step);
    let (p, q) = (a / step, b / step);
    assert(p <= q) by (nonlinear_arith)
        requires
            p * step <= a,
            a <= b,
            b < q * step + step,
            step > 0,
    ;
    if p == q {
        assert(p * step == q * step);
        assert(a % step <= b % step);
    }
}

/// A number of `k` steps at most is rounded to `k` at most, and one of `k` steps at
/// least to `k` at least.
proof fn lemma_half_even_bounds(a: nat, step: nat, k: nat)
    requires
        step > 0,
    ensures
        a <= k * step ==> half_even(a, step) <= k,
        a >= k * step ==> half_even(a, step) >= k,
{
    let exact = k * step;
    assert(exact / step == k && exact % step == 0) by (nonlinear_arith)
        requires
            exact == k * step,
            step > 0,
    ;
    if a <= exact {
        half_even_keeps_order(a, exact, step);
    }
    if a >= exact {
        half_even_keeps_order(exact, a, step);
    }
}

/// What has 53 bits above `step` keeps them.
proof fn lemma_nearest_at_least(a: nat, step: nat, unit: nat)
    requires
        step > 0,
        2 * a >= MANTISSA * step,
    ensures
        2 * nearest_multiple(a, step, unit) >= MANTISSA * unit,
    decreases
            (if a >= MANTISSA * step {
                a - MANTISSA * step + 1
            } else {
                0
            }),
{
    if a < MANTISSA * step {
        lemma_half_even_bounds(a, step, 0x10_0000_0000_0000);
        let q = half_even(a, step);
        assert(2 * (q * unit) >= MANTISSA * unit) by (nonlinear_arith)
            requires
                2 * q >= MANTISSA,
        ;
    } else {
        lemma_nearest_at_least(a, 2 * step, 2 * unit);
    }
}

/// Rounding to 53 bits keeps the order.
proof fn lemma_multiples_keep_order(a: nat, b: nat, step: nat, unit: nat)
    requires
        a <= b,
        step > 0,
    ensures
        nearest_multiple(a, step, unit) <= nearest_multiple(b, step, unit),
    decreases
            (if b >= MANTISSA * step {
                b - MANTISSA * step + 1
            } else {
                0
            }),
{
    if b < MANTISSA * step {
        half_even_keeps_order(a, b, step);
        let (p, q) = (half_even(a, step), half_even(b, step));
        assert(p * unit <= q * unit) by (nonlinear_arith)
            requires
                p <= q,
        ;
    } else if a < MANTISSA * step {
        lemma_half_even_bounds(a, step, MANTISSA as nat);
        let p = half_even(a, step);
        assert(p * unit <= MANTISSA * unit) by (nonlinear_arith)
            requires
                p <= MANTISSA,
        ;
        lemma_nearest_at_least(b, 2 * step, 2 * unit);
    } else {
        lemma_multiples_keep_order(a, b, 2 * step, 2 * unit);
    }
}

/// Rounding to 53 bits keeps the order.
pub proof fn nearest_keeps_order(a: nat, b: nat, step: nat)
    requires
        a <= b,
        step > 0,
    ensures
        nearest(a, step) <= nearest(b, step),
{
    lemma_multiples_keep_order(a, b, step, 1);
}

/// How far two numbers are apart.
pub open spec fn distance(a: nat, b: nat) -> nat {
    if a <= b {
        (b - a) as nat
    } else {
        (a - b) as nat
    }
}

/// What is nearer to a whole number than a half is rounded to it.
pub proof fn half_even_of_near(a: nat, b: nat, k: nat)
    requires
        2 * distance(a, k * b) < b,
    ensures
        half_even(a, b) == k,
{
    if a >= k * b {
        assert(a / b == k && a % b == a - k * b) by (nonlinear_arith)
            requires
                k * b <= a < k * b + b,
        ;
    } else {
        assert(a / b == k - 1 && a % b == a - k * b + b) by (nonlinear_arith)
            requires
                k * b - b <= a < k * b,
                k >= 1,
                b > 0,
        ;
    }
}

/// A number is rounded by a half at most.
pub proof fn half_even_is_close(a: nat, b: nat)
    requires
        b > 0,
    ensures
        2 * distance(half_even(a, b) * b, a) <= b,
{
    lemma_quotient_small(a, b);
    let down = a / b;
    assert((down + 1) * b == down * b + b) by (nonlinear_arith);
}

/// A multiple is off by half a step at most, or by what 53 bits leave.
proof fn lemma_multiple_is_close(a: nat, b: nat, step: nat, unit: nat)
    requires
        step > 0,
        step == b * unit,
    ensures
        ({
            let off = distance(nearest_multiple(a, step, unit) * b, a);
            2 * off <= step || MANTISSA * off <= a
        }),
    decreases
            (if a >= MANTISSA * step {
                a - MANTISSA * step + 1
            } else {
                0
            }),
{
    if a < MANTISSA * step {
        let q = half_even(a, step);
        half_even_is_close(a, step);
        assert((q * unit) * b == q * step) by (nonlinear_arith)
            requires
                step == b * unit,
        ;
    } else {
        assert(2 * step == b * (2 * unit)) by (nonlinear_arith)
            requires
                step == b * unit,
        ;
        lemma_multiple_is_close(a, b, 2 * step, 2 * unit);
    }
}

/// A quotient to 53 bits is off by a half at most, or by what 53 bits leave.
pub proof fn nearest_is_close(a: nat, b: nat)
    requires
        b > 0,
    ensures
        2 * distance(nearest(a, b) * b, a) <= b || MANTISSA * distance(nearest(a, b) * b, a) <= a,
{
    lemma_multiple_is_close(a, b, b, 1);
}

/// A number that has 53 bits at most is not changed.
pub proof fn small_numbers_are_exact(a: nat)
    requires
        a < MANTISSA,
    ensures
        nearest(a, 1) == a,
{
    assert(a / 1 == a && a % 1 == 0);
}

/// A tie goes to the even neighbour.
pub proof fn ties_go_to_even(k: nat, half: nat)
    requires
        half > 0,
    ensures
        half_even((2 * k) * (2 * half) + half, 2 * half) == 2 * k,
        half_even((2 * k + 1) * (2 * half) + half, 2 * half) == 2 * k + 2,
{
    half_even_of_sum(2 * k, half, 2 * half);
    let whole = (2 * k + 1) * (2 * half);
    assert(whole == (2 * k) * (2 * half) + 2 * half) by (nonlinear_arith)
        requires
            whole == (2 * k + 1) * (2 * half),
    ;
    half_even_of_sum(2 * k, 3 * half, 2 * half);
    assert((3 * half) / (2 * half) == 1 && (3 * half) % (2 * half) == half) by (nonlinear_arith)
        requires
            half > 0,
    ;
    assert(half / (2 * half) == 0 && half % (2 * half) == half) by (nonlinear_arith)
        requires
            half > 0,
    ;
}

/// A rounded quotient has 53 significant bits: it is as many units as 53 bits count,
/// or one more, and the unit is no larger than that takes.
pub proof fn rounded_has_53_bits(a: nat, step: nat, unit: nat) -> (r: (nat, nat))
    requires
        step > 0,
        unit > 0,
    ensures
        nearest_multiple(a, step, unit) == r.0 * r.1,
        r.0 <= 9007199254740992,
        a < 9007199254740992 * step ==> r.1 == unit,
        2 * a >= 9007199254740992 * step ==> r.0 >= 4503599627370496,
    decreases
            (if a >= MANTISSA * step {
                a - MANTISSA * step + 1
            } else {
                0
            }),
{
    if a < MANTISSA * step {
        lemma_half_even_bounds(a, step, MANTISSA as nat);
        lemma_half_even_bounds(a, step, 0x10_0000_0000_0000);
        (half_even(a, step), unit)
    } else {
        rounded_has_53_bits(a, 2 * step, 2 * unit)
    }
}

/// A number below 2 to the 53 is not changed, and a larger one by one part in 2 to
/// the 53 at most.
pub proof fn rounding_errors_are_small(a: nat)
    ensures
        a < 9007199254740992 ==> nearest(a, 1) == a,
        9007199254740992 * distance(nearest(a, 1), a) <= a,
{
    if a < MANTISSA {
        small_numbers_are_exact(a);
    } else {
        nearest_is_close(a, 1);
    }
}

/// A common factor changes no rounding.
pub proof fn half_even_of_multiples(a: nat, b: nat, f: nat)
    requires
        b > 0,
        f > 0,
    ensures
        half_even(a * f, b * f) == half_even(a, b),
{
    lemma_quotient_small(a, b);
    let (q, r) = (a / b, a % b);
    assert(a * f == q * (b * f) + r * f && 0 <= r * f < b * f) by (nonlinear_arith)
        requires
            a == q * b + r,
            0 <= r < b,
            f > 0,
    ;
    vstd::arithmetic::div_mod::lemma_fundamental_div_mod_converse(
        (a * f) as int,
        (b * f) as int,
        q as int,
        (r * f) as int,
    );
    assert((2 * r > b <==> 2 * (r * f) > b * f) && (2 * r == b <==> 2 * (r * f) == b * f))
        by (nonlinear_arith)
        requires
            f > 0,
    ;
}

/// A quotient that has 53 bits in front of `2^k` is rounded to a multiple of `2^k`.
pub proof fn rounding_takes_the_fitting_unit(a: nat, step: nat, unit: nat, k: nat)
    requires
        step > 0,
        a < 9007199254740992 * (step * pow2(k)),
        k == 0 || a >= 4503599627370496 * (step * pow2(k)),
    ensures
        nearest_multiple(a, step, unit) == half_even(a, step * pow2(k)) * (unit * pow2(k)),
    decreases k,
{
    lemma2_to64();
    if k > 0 {
        lemma_pow2_unfold(k);
        let p = pow2((k - 1) as nat);
        lemma_pow2_pos((k - 1) as nat);
        assert(step * pow2(k) == (2 * step) * p && unit * pow2(k) == (2 * unit) * p)
            by (nonlinear_arith)
            requires
                pow2(k) == 2 * p,
        ;
        assert(step * p >= step) by (nonlinear_arith)
            requires
                p >= 1,
        ;
        assert((2 * step) * p == 2 * (step * p)) by (nonlinear_arith);
        rounding_takes_the_fitting_unit(a, 2 * step, 2 * unit, (k - 1) as nat);
    } else {
        assert(step * pow2(k) == step && unit * pow2(k) == unit) by (nonlinear_arith)
            requires
                pow2(k) == 1,
        ;
    }
}

/// A number with 53 significant bits is not changed.
pub proof fn few_bits_are_exact(v: nat, k: nat, step: nat, unit: nat)
    requires
        step > 0,
        v < 9007199254740992,
    ensures
        nearest_multiple((v * pow2(k)) * step, step, unit) == (v * pow2(k)) * unit,
    decreases k,
{
    lemma2_to64();
    lemma_pow2_pos(k);
    let n = v * pow2(k);
    let a = n * step;
    if a < MANTISSA * step {
        vstd::arithmetic::div_mod::lemma_fundamental_div_mod_converse(
            a as int,
            step as int,
            n as int,
            0,
        );
    } else {
        if k == 0 {
            assert(v * 1 < MANTISSA);
            assert(a < MANTISSA * step) by (nonlinear_arith)
                requires
                    a == n * step,
                    n < MANTISSA,
                    step > 0,
            ;
        }
        lemma_pow2_unfold(k);
        let half = v * pow2((k - 1) as nat);
        assert(n == 2 * half) by (nonlinear_arith)
            requires
                n == v * pow2(k),
                half == v * pow2((k - 1) as nat),
                pow2(k) == 2 * pow2((k - 1) as nat),
        ;
        assert(a == half * (2 * step) && n * unit == half * (2 * unit)) by (nonlinear_arith)
            requires
                a == n * step,
                n == 2 * half,
        ;
        few_bits_are_exact(v, (k - 1) as nat, 2 * step, 2 * unit);
    }
}

} // verus!
