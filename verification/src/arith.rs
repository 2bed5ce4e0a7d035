//! Integer helpers: flooring division, wrapping into a cycle, and the
//! greatest common divisor.

use vstd::prelude::*;
use vstd::arithmetic::div_mod::lemma_fundamental_div_mod;
use vstd::arithmetic::div_mod::lemma_fundamental_div_mod_converse;
use vstd::arithmetic::div_mod::lemma_mod_multiples_vanish;
use vstd::arithmetic::div_mod::lemma_mod_self_0;
use vstd::arithmetic::div_mod::lemma_small_mod;

verus! {

/// Division and remainder of a negative number, from those of its
/// magnitude: where `magnitude == divisor * q + r` with `0 <= r < divisor`,
/// the quotient of `-magnitude` is `-q` or `-q - 1`, as `r` is 0 or not.
pub proof fn lemma_div_mod_of_negative(magnitude: int, divisor: int)
    requires
        divisor > 0,
    ensures
        magnitude % divisor == 0 ==> (-magnitude) / divisor == -(magnitude / divisor) && (
        -magnitude) % divisor == 0,
        magnitude % divisor != 0 ==> (-magnitude) / divisor == -(magnitude / divisor) - 1 && (
        -magnitude) % divisor == divisor - magnitude % divisor,
{
    let q = magnitude / divisor;
    let r = magnitude % divisor;
    lemma_fundamental_div_mod(magnitude, divisor);
    if r == 0 {
        assert(-magnitude == (-q) * divisor + 0) by (nonlinear_arith)
            requires
                magnitude == divisor * q + r,
                r == 0,
        ;
        lemma_fundamental_div_mod_converse(-magnitude, divisor, -q, 0);
    } else {
        assert(-magnitude == (-q - 1) * divisor + (divisor - r)) by (nonlinear_arith)
            requires
                magnitude == divisor * q + r,
        ;
        lemma_fundamental_div_mod_converse(-magnitude, divisor, -q - 1, divisor - r);
    }
}

/// The quotient of `numerator` by `denominator`, rounded towards minus infinity.
pub fn floor_div(numerator: i128, denominator: u64) -> (quotient: i128)
    requires
        denominator > 0,
    ensures
        quotient == numerator as int / denominator as int,
{
    let d: u128 = denominator as u128;
    if numerator >= 0 {
        let q: u128 = numerator as u128 / d;
        q as i128
    } else {
        let magnitude: u128 = (-(numerator + 1)) as u128 + 1;
        let q: u128 = magnitude / d;
        let r: u128 = magnitude % d;
        proof {
            lemma_div_mod_of_negative(magnitude as int, d as int);
            lemma_fundamental_div_mod(magnitude as int, d as int);
            assert(1 <= q as int * d as int + r as int && (r > 0 ==> q as int <= magnitude as int
                - 1) && (r == 0 ==> q >= 1)) by (nonlinear_arith)
                requires
                    magnitude as int == d as int * q as int + r as int,
                    magnitude >= 1,
                    d >= 1,
                    0 <= r < d,
                    q >= 0,
            ;
        }
        if r == 0 {
            -((q - 1) as i128) - 1
        } else {
            -(q as i128) - 1
        }
    }
}

/// `position + step` wrapped into `[0, cycle)`, for a `position` already in it.
pub fn wrap_add(position: u128, step: i128, cycle: u128) -> (wrapped: u128)
    requires
        cycle > 0,
        2 * cycle <= u128::MAX,
        position < cycle,
    ensures
        wrapped == (position as int + step as int) % (cycle as int),
        wrapped < cycle,
{
    let forward: u128 = if step >= 0 {
        step as u128 % cycle
    } else {
        let magnitude: u128 = (-(step + 1)) as u128 + 1;
        let back: u128 = magnitude % cycle;
        proof {
            lemma_div_mod_of_negative(magnitude as int, cycle as int);
        }
        if back == 0 {
            0
        } else {
            cycle - back
        }
    };
    assert(forward as int == step as int % cycle as int);
    let sum: u128 = position + forward;
    proof {
        // position + step is position + forward and a whole number of cycles.
        let turns = step as int / cycle as int;
        lemma_fundamental_div_mod(step as int, cycle as int);
        lemma_mod_multiples_vanish(turns, sum as int, cycle as int);
        assert(cycle as int * turns + sum as int == position as int + step as int);
        if sum >= cycle {
            lemma_mod_multiples_vanish(-1, sum as int, cycle as int);
            lemma_small_mod((sum - cycle) as nat, cycle as nat);
        } else {
            lemma_small_mod(sum as nat, cycle as nat);
        }
    }
    if sum >= cycle {
        sum - cycle
    } else {
        sum
    }
}

/// The greatest common divisor of `a` and `b`, by Euclid's algorithm.
pub open spec fn gcd(a: nat, b: nat) -> nat
    decreases b,
{
    if b == 0 {
        a
    } else {
        gcd(b, a % b)
    }
}

/// `gcd(a, b)` is positive and divides both `a` and `b`, unless both are 0.
pub proof fn lemma_gcd_divides(a: nat, b: nat)
    requires
        a > 0 || b > 0,
    ensures
        gcd(a, b) > 0,
        a % gcd(a, b) == 0,
        b % gcd(a, b) == 0,
    decreases b,
{
    if b == 0 {
        lemma_mod_self_0(a as int);
    } else {
        let r = a % b;
        let g = gcd(a, b);
        lemma_gcd_divides(b, r);
        // b = g * x and r = g * y, so a = b * (a / b) + r = g * (x * (a / b) + y).
        lemma_fundamental_div_mod(a as int, b as int);
        lemma_fundamental_div_mod(b as int, g as int);
        lemma_fundamental_div_mod(r as int, g as int);
        let x = b as int / g as int;
        let y = r as int / g as int;
        let q = a as int / b as int;
        assert(a as int == g as int * (x * q + y)) by (nonlinear_arith)
            requires
                a as int == b as int * q + r as int,
                b as int == g as int * x,
                r as int == g as int * y,
        ;
        lemma_mod_multiples_vanish(x * q + y, 0, g as int);
        lemma_small_mod(0, g);
    }
}

/// Every common divisor of `a` and `b` divides `gcd(a, b)`: none is greater.
pub proof fn lemma_gcd_is_greatest(a: nat, b: nat, divisor: nat)
    requires
        divisor > 0,
        a % divisor == 0,
        b % divisor == 0,
    ensures
        gcd(a, b) % divisor == 0,
    decreases b,
{
    if b != 0 {
        let r = a % b;
        let q = a as int / b as int;
        lemma_fundamental_div_mod(a as int, b as int);
        lemma_fundamental_div_mod(a as int, divisor as int);
        lemma_fundamental_div_mod(b as int, divisor as int);
        let x = a as int / divisor as int;
        let y = b as int / divisor as int;
        assert(r as int == divisor as int * (x - y * q)) by (nonlinear_arith)
            requires
                a as int == b as int * q + r as int,
                a as int == divisor as int * x,
                b as int == divisor as int * y,
        ;
        lemma_mod_multiples_vanish(x - y * q, 0, divisor as int);
        lemma_small_mod(0, divisor);
        lemma_gcd_is_greatest(b, r, divisor);
    }
}

/// Bezout's identity: `gcd(a, b)` is a combination of `a` and `b` with
/// integer coefficients, which are returned.
pub proof fn lemma_gcd_is_combination(a: nat, b: nat) -> (coefficients: (int, int))
    ensures
        a * coefficients.0 + b * coefficients.1 == gcd(a, b),
    decreases b,
{
    if b == 0 {
        (1, 0)
    } else {
        let r = a % b;
        let q = a as int / b as int;
        let (x, y) = lemma_gcd_is_combination(b, r);
        lemma_fundamental_div_mod(a as int, b as int);
        assert(a * y + b * (x - q * y) == b * x + r * y) by (nonlinear_arith)
            requires
                a as int == b as int * q + r as int,
        ;
        (y, x - q * y)
    }
}

} // verus!
