//! Laws that relate the operations across calls.
//!
//! Each law is stated over the spec functions that the operations'
//! contracts use, so it composes with those contracts: what holds of
//! `fixed_mul(a, b)` holds of the value `mul(a, b)` returns.

use crate::fixed::div_trunc;
use crate::fixed::fixed_div;
use crate::fixed::fixed_mul;
use crate::fixed::fixed_sqrt;
use crate::fixed::int_abs;
use crate::fixed::isqrt;
use crate::fixed::lemma_isqrt_unique;
use crate::fixed::wrap_i32;
use vstd::arithmetic::div_mod::lemma_div_multiples_vanish;
use vstd::arithmetic::div_mod::lemma_fundamental_div_mod;
use vstd::arithmetic::div_mod::lemma_fundamental_div_mod_converse;
use vstd::arithmetic::div_mod::lemma_small_mod;
use vstd::prelude::*;

verus! {

/// Narrowing a value already in the `i32` range is the identity.
pub proof fn lemma_wrap_in_range(v: int)
    requires
        -0x8000_0000 <= v < 0x8000_0000,
    ensures
        wrap_i32(v) == v,
{
    if v >= 0 {
        lemma_small_mod(v as nat, 0x1_0000_0000nat);
    } else {
        lemma_fundamental_div_mod_converse(v, 0x1_0000_0000, -1, v + 0x1_0000_0000);
    }
}

/// The fixed-point product never overshoots: scaled back up by two to the
/// sixteenth it sits at most one fractional unit below the exact product,
/// whenever the scaled product is representable in 32 bits.
pub proof fn lemma_mul_within_one_ulp(a: i32, b: i32)
    requires
        -0x8000_0000 <= (a as int * b as int) / 0x10000 < 0x8000_0000,
    ensures
        0 <= a as int * b as int - 0x10000 * fixed_mul(a as int, b as int) < 0x10000,
{
    let p = a as int * b as int;
    lemma_fundamental_div_mod(p, 0x10000);
    lemma_wrap_in_range(p / 0x10000);
}

/// Multiplying by the representation of `1.0` is the identity, for every
/// 32-bit fixed-point value.
pub proof fn lemma_mul_identity(x: i32)
    ensures
        fixed_mul(x as int, 0x10000) == x as int,
{
    lemma_div_multiples_vanish(x as int, 0x10000);
    assert(x as int * 0x10000 == 0x10000 * (x as int));
    lemma_wrap_in_range(x as int);
}

/// Dividing by the representation of `1.0` is the identity, for every
/// 32-bit fixed-point value.
pub proof fn lemma_div_identity(x: i32)
    ensures
        fixed_div(x as int, 0x10000) == x as int,
{
    let v = x as int;
    if v >= 0 {
        lemma_div_multiples_vanish(v, 0x10000);
        assert(int_abs(v * 0x10000) == 0x10000 * v);
        assert(div_trunc(v * 0x10000, 0x10000) == v);
    } else {
        lemma_div_multiples_vanish(-v, 0x10000);
        assert(int_abs(v * 0x10000) == 0x10000 * (-v));
        assert(div_trunc(v * 0x10000, 0x10000) == v);
    }
    lemma_wrap_in_range(v);
}

/// Round trip through the square root: a whole number `k`, squared and
/// encoded as the raw value `k * k * 0x10000`, comes back as the encoding
/// of `k` itself.
pub proof fn lemma_sqrt_round_trip(k: int)
    requires
        0 <= k,
    ensures
        fixed_sqrt(k * k * 0x10000) == k * 0x10000,
{
    if k == 0 {
        assert(k * k * 0x10000 == 0);
    } else {
        let v = k * k * 0x10000;
        assert(0 < v && (0x100 * k) * (0x100 * k) == v && v < (0x100 * k + 1) * (0x100 * k
            + 1)) by (nonlinear_arith)
            requires
                1 <= k,
                v == k * k * 0x10000,
        ;
        lemma_isqrt_unique(v, 0x100 * k);
        assert(0x100 * isqrt(v) == k * 0x10000);
    }
}

} // verus!
