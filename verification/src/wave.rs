//! The growing truncated triangle wave and the true-modulo helper
//! that drives it.
//!
//! One coordinate axis of a hexagon is a triangle wave in its spiral
//! index: the wave rises, holds a plateau, falls, holds the opposite
//! plateau, and rises again, once per trip around a ring.  Unlike a
//! textbook triangle wave, both the amplitude and the period grow in
//! proportion to the ring number `c`, and the wave is truncated so it
//! never exceeds `c` in absolute value.

use vstd::arithmetic::div_mod::lemma_fundamental_div_mod;
use vstd::arithmetic::div_mod::lemma_fundamental_div_mod_converse_mod;
use vstd::arithmetic::div_mod::lemma_mod_bound;
use vstd::prelude::*;

verus! {

/// `y / 2` rounded toward zero, the rounding Rust applies when a
/// floating wave value is cast to an integer.
pub open spec fn half_toward_zero(y: int) -> int {
    if y >= 0 {
        y / 2
    } else {
        -((-y) / 2)
    }
}

/// Twice the raw (untruncated) triangle-wave value at offset `k` into
/// ring `c`, for phase shift `phi`.
///
/// The raw wave is `|((k - (c/4)*(2*phi + 6)) mod 6c) - 3c| - 1.5c`;
/// doubling every term keeps the computation in the integers even when
/// `c` is odd.
pub open spec fn wave_y2(c: int, k: int, phi: int) -> int {
    let m2: int = (2 * k - (phi + 3) * c) % (12 * c);
    vstd::math::abs(m2 - 6 * c) - 3 * c
}

/// The growing truncated triangle wave: the raw value `wave_y2 / 2`
/// rounded toward zero, clamped to `c` wherever its magnitude exceeds
/// the amplitude bound `c`.
pub open spec fn spec_wave(c: int, k: int, phi: int) -> int {
    let y2: int = wave_y2(c, k, phi);
    if y2 > 2 * c {
        c
    } else if y2 < -2 * c {
        -c
    } else {
        half_toward_zero(y2)
    }
}

/// True mathematical modulo: always in `[0, b)` for `b > 0`, unlike
/// Rust's `%` operator, which returns negative values for negative `a`.
pub fn modulo(a: i64, b: i64) -> (r: i64)
    requires
        b > 0,
    ensures
        r == a as int % b as int,
        0 <= r < b,
{
    let rem = a % b;
    proof {
        lemma_truncated_rem_to_euclidean(a as int, b as int, rem as int);
    }
    if rem < 0 {
        rem + b
    } else {
        rem
    }
}

/// Rust's `%` truncates toward zero, so for `a < 0` it returns
/// `-((-a) % b)`; this relates that value to the Euclidean remainder.
proof fn lemma_truncated_rem_to_euclidean(a: int, b: int, rem: int)
    requires
        b > 0,
        rem == if a >= 0 {
            a % b
        } else {
            ((a * -1) % b) * -1
        },
    ensures
        rem < 0 ==> a % b == rem + b,
        rem >= 0 ==> a % b == rem,
{
    if a >= 0 {
    } else {
        let m = (-a) % b;
        let q = (-a) / b;
        lemma_fundamental_div_mod(-a, b);
        lemma_mod_bound(-a, b);
        assert(a == (-q - 1) * b + (b - m)) by (nonlinear_arith)
            requires
                -a == q * b + m,
        ;
        if m == 0 {
            assert(a == (-q) * b + 0) by (nonlinear_arith)
                requires
                    -a == q * b + m,
                    m == 0,
            ;
            lemma_fundamental_div_mod_converse_mod(a, b, -q, 0);
        } else {
            lemma_fundamental_div_mod_converse_mod(a, b, -q - 1, b - m);
        }
    }
}

/// Evaluates the wave `f(x) = growing_trunc_tri(x, c, x_prime, phi)`
/// in exact integer arithmetic.
///
/// `c` is the current cycle (ring) number, `x_prime` the value of `x`
/// on which the cycle began, and `phi` a phase shift measured in
/// sixths of the base period.
pub fn growing_trunc_tri(x: i64, c: i64, x_prime: i64, phi: i64) -> (y: i8)
    requires
        1 <= c <= 127,
        0 <= phi <= 4,
        x_prime <= x,
        x - x_prime < 6 * c,
    ensures
        y as int == spec_wave(c as int, x - x_prime, phi as int),
        -c <= y as int <= c,
{
    let k = x - x_prime;
    proof {
        assert(0 <= (phi + 3) * c <= 7 * 127) by (nonlinear_arith)
            requires
                1 <= c <= 127 && 0 <= phi <= 4,
        ;
    }
    let m2 = modulo(2 * k - (phi + 3) * c, 12 * c);
    let spread = if m2 >= 6 * c {
        m2 - 6 * c
    } else {
        6 * c - m2
    };
    let y2 = spread - 3 * c;
    proof {
        assert(y2 == wave_y2(c as int, k as int, phi as int));
    }
    if y2 > 2 * c {
        c as i8
    } else if y2 < -(2 * c) {
        -(c as i8)
    } else if y2 >= 0 {
        (y2 / 2) as i8
    } else {
        (-((-y2) / 2)) as i8
    }
}

/// On ring `c`, the `q` axis (phase 0) of the wave is, piece by piece
/// over one trip around the ring: a rise from 0 to `c`, a plateau at
/// `c`, a fall to `-c`, a plateau at `-c`, and a rise back toward 0.
pub proof fn lemma_wave_q(c: int, k: int)
    requires
        1 <= c,
        0 <= k < 6 * c,
    ensures
        0 <= k <= c ==> spec_wave(c, k, 0) == k,
        c <= k <= 2 * c ==> spec_wave(c, k, 0) == c,
        2 * c <= k <= 4 * c ==> spec_wave(c, k, 0) == 3 * c - k,
        4 * c <= k <= 5 * c ==> spec_wave(c, k, 0) == -c,
        5 * c <= k ==> spec_wave(c, k, 0) == k - 6 * c,
{
    if 2 * k < 3 * c {
        lemma_fundamental_div_mod_converse_mod(2 * k - 3 * c, 12 * c, -1, 2 * k + 9 * c);
        assert((2 * k - 3 * c) % (12 * c) == 2 * k + 9 * c);
    } else {
        lemma_fundamental_div_mod_converse_mod(2 * k - 3 * c, 12 * c, 0, 2 * k - 3 * c);
        assert((2 * k - 3 * c) % (12 * c) == 2 * k - 3 * c);
    }
}

/// On ring `c`, the `r` axis (phase 4) of the wave is, piece by piece
/// over one trip around the ring: a plateau at `-c`, a rise from `-c`
/// to `c`, a plateau at `c`, and a fall back toward `-c`.
pub proof fn lemma_wave_r(c: int, k: int)
    requires
        1 <= c,
        0 <= k < 6 * c,
    ensures
        0 <= k <= c ==> spec_wave(c, k, 4) == -c,
        c <= k <= 3 * c ==> spec_wave(c, k, 4) == k - 2 * c,
        3 * c <= k <= 4 * c ==> spec_wave(c, k, 4) == c,
        4 * c <= k ==> spec_wave(c, k, 4) == 5 * c - k,
{
    if 2 * k < 7 * c {
        lemma_fundamental_div_mod_converse_mod(2 * k - 7 * c, 12 * c, -1, 2 * k + 5 * c);
        assert((2 * k - 7 * c) % (12 * c) == 2 * k + 5 * c);
    } else {
        lemma_fundamental_div_mod_converse_mod(2 * k - 7 * c, 12 * c, 0, 2 * k - 7 * c);
        assert((2 * k - 7 * c) % (12 * c) == 2 * k - 7 * c);
    }
}

} // verus!
