//! The three Q16.16 operations and the mathematical model of each.
//!
//! The model works on unbounded integers: a product or scaled dividend is
//! computed exactly, divided by a power of two with the operation's rounding
//! rule, and narrowed to the `i32` range by two's-complement wrapping. The
//! executable functions are proved to return exactly the modelled value.

use vstd::arithmetic::div_mod::lemma_div_by_self;
use vstd::arithmetic::div_mod::lemma_div_pos_is_pos;
use vstd::arithmetic::div_mod::lemma_fundamental_div_mod;
use vstd::arithmetic::div_mod::lemma_fundamental_div_mod_converse;
use vstd::arithmetic::div_mod::lemma_mod_division_less_than_divisor;
use vstd::prelude::*;

verus! {

/// The Q16.16 representation of `1.0`: one in the low fractional bit
/// position times two to the sixteenth.
pub const FP_ONE: i32 = 65536;

/// The magnitude of an integer.
pub open spec fn int_abs(x: int) -> int {
    if x < 0 {
        -x
    } else {
        x
    }
}

/// Two's-complement narrowing of an unbounded integer to the `i32` range:
/// the unique value in `[-0x8000_0000, 0x8000_0000)` congruent to `v`
/// modulo `0x1_0000_0000`.
pub open spec fn wrap_i32(v: int) -> int {
    let m = v % 0x1_0000_0000;
    if m >= 0x8000_0000 {
        m - 0x1_0000_0000
    } else {
        m
    }
}

/// The fixed-point product: the exact product scaled down by two to the
/// sixteenth, rounding toward negative infinity, then narrowed to 32 bits.
pub open spec fn fixed_mul(a: int, b: int) -> int {
    wrap_i32((a * b) / 0x10000)
}

/// Quotient truncated toward zero, the rounding rule of 64-bit machine
/// division.
pub open spec fn div_trunc(a: int, b: int) -> int
    recommends
        b != 0,
{
    if (0 <= a) == (0 <= b) {
        int_abs(a) / int_abs(b)
    } else {
        -(int_abs(a) / int_abs(b))
    }
}

/// The fixed-point quotient for a non-zero divisor: the dividend scaled up
/// by two to the sixteenth, divided with truncation toward zero, then
/// narrowed to 32 bits.
pub open spec fn fixed_div(a: int, b: int) -> int
    recommends
        b != 0,
{
    wrap_i32(div_trunc(a * 0x10000, b))
}

/// The integer square root: the largest `s` with `s * s <= v`.
pub open spec fn isqrt(v: int) -> int
    recommends
        0 <= v,
    decreases v,
{
    if v <= 0 {
        0
    } else {
        let s = isqrt(v - 1);
        if (s + 1) * (s + 1) <= v {
            s + 1
        } else {
            s
        }
    }
}

/// The fixed-point square root: zero for non-positive inputs, otherwise the
/// integer square root of the raw value rescaled by two to the eighth,
/// which restores the Q16.16 scale.
pub open spec fn fixed_sqrt(v: int) -> int {
    if v <= 0 {
        0
    } else {
        0x100 * isqrt(v)
    }
}

/// `isqrt` returns the integer square root: its square is at most `v` and
/// the next square is beyond `v`.
pub proof fn lemma_isqrt_bounds(v: int)
    requires
        0 <= v,
    ensures
        0 <= isqrt(v),
        isqrt(v) * isqrt(v) <= v,
        v < (isqrt(v) + 1) * (isqrt(v) + 1),
    decreases v,
{
    if v == 0 {
    } else {
        lemma_isqrt_bounds(v - 1);
        let s = isqrt(v - 1);
        if (s + 1) * (s + 1) <= v {
            assert((s + 2) * (s + 2) > v) by (nonlinear_arith)
                requires
                    0 <= s,
                    v - 1 < (s + 1) * (s + 1),
            ;
        }
    }
}

/// Any `r` whose square is at most `v` while the next square is beyond `v`
/// is the integer square root of `v`.
pub proof fn lemma_isqrt_unique(v: int, r: int)
    requires
        0 <= v,
        0 <= r,
        r * r <= v,
        v < (r + 1) * (r + 1),
    ensures
        r == isqrt(v),
{
    lemma_isqrt_bounds(v);
    let s = isqrt(v);
    if r < s {
        assert((r + 1) * (r + 1) <= s * s) by (nonlinear_arith)
            requires
                0 <= r,
                r + 1 <= s,
        ;
    }
    if s < r {
        assert((s + 1) * (s + 1) <= r * r) by (nonlinear_arith)
            requires
                0 <= s,
                s + 1 <= r,
        ;
    }
}

/// The Euclidean remainder of a negative value, expressed through the
/// remainder of its magnitude.
proof fn lemma_mod_of_negative(v: int, d: int)
    requires
        0 < d,
        v < 0,
    ensures
        (-v) % d == 0 ==> v % d == 0,
        (-v) % d != 0 ==> v % d == d - ((-v) % d),
{
    let g = (-v) / d;
    let s = (-v) % d;
    lemma_fundamental_div_mod(-v, d);
    lemma_mod_division_less_than_divisor(-v, d);
    assert(v == (-g) * d + (-s)) by (nonlinear_arith)
        requires
            -v == d * g + s,
    ;
    if s == 0 {
        lemma_fundamental_div_mod_converse(v, d, -g, 0);
    } else {
        assert(v == (-g - 1) * d + (d - s)) by (nonlinear_arith)
            requires
                v == (-g) * d + (-s),
        ;
        lemma_fundamental_div_mod_converse(v, d, -g - 1, d - s);
    }
}

/// The single truncation point of every operation: keeps the low 32 bits of
/// a 64-bit intermediate and reads them as a signed 32-bit value.
fn narrow_to_i32(v: i64) -> (r: i32)
    ensures
        r as int == wrap_i32(v as int),
{
    let m: i64 = v % 0x1_0000_0000;
    proof {
        if v < 0 {
            lemma_mod_of_negative(v as int, 0x1_0000_0000);
        }
    }
    let e: i64 = if m < 0 {
        m + 0x1_0000_0000
    } else {
        m
    };
    assert(e == (v as int) % 0x1_0000_0000);
    let w: i64 = if e >= 0x8000_0000 {
        e - 0x1_0000_0000
    } else {
        e
    };
    w as i32
}

/// Fixed-point multiply.
///
/// Widens both operands to 64 bits, computes the exact product, scales it
/// down by two to the sixteenth rounding toward negative infinity (the
/// rounding of an arithmetic right shift), and narrows the result to 32
/// bits. A product whose scaled value exceeds the 32-bit range wraps; that
/// is deliberate, deterministic behaviour, not an error.
pub fn mul(a: i32, b: i32) -> (r: i32)
    ensures
        r as int == fixed_mul(a as int, b as int),
{
    let a64: i64 = a as i64;
    let b64: i64 = b as i64;
    proof {
        assert(-0x4000_0000_0000_0000 <= a64 * b64 <= 0x4000_0000_0000_0000) by (nonlinear_arith)
            requires
                -0x8000_0000 <= a64 <= 0x7fff_ffff,
                -0x8000_0000 <= b64 <= 0x7fff_ffff,
        ;
    }
    let p: i64 = a64 * b64;
    // Rounding toward negative infinity: a non-negative product divides
    // directly; a negative one divides the offset magnitude and negates.
    let q: i64 = if p >= 0 {
        p / 0x10000
    } else {
        proof {
            let f = (p as int) / 0x10000;
            lemma_fundamental_div_mod(p as int, 0x10000);
            lemma_fundamental_div_mod_converse(
                -(p as int) + 0xffff,
                0x10000,
                -f,
                0xffff - (p as int) % 0x10000,
            );
        }
        -((-p + 0xffff) / 0x10000)
    };
    assert(q == (a as int * b as int) / 0x10000);
    narrow_to_i32(q)
}

/// Fixed-point divide.
///
/// A zero divisor yields a saturating sentinel — `i32::MAX` for a
/// non-negative dividend, `i32::MIN` for a negative one — since the
/// function has no error channel. Otherwise the dividend is widened and
/// scaled up by two to the sixteenth, divided with truncation toward zero
/// (the rounding of 64-bit machine division), and narrowed to 32 bits; a
/// quotient outside the 32-bit range wraps deterministically.
pub fn div(a: i32, b: i32) -> (r: i32)
    ensures
        b != 0 ==> r as int == fixed_div(a as int, b as int),
        b == 0 && a >= 0 ==> r == i32::MAX,
        b == 0 && a < 0 ==> r == i32::MIN,
{
    if b == 0 {
        return if a >= 0 {
            i32::MAX
        } else {
            i32::MIN
        };
    }
    let a64: i64 = a as i64;
    let b64: i64 = b as i64;
    // Truncation toward zero is division of the magnitudes with the sign
    // restored afterwards.
    let am: i64 = if a64 < 0 {
        -a64
    } else {
        a64
    };
    let bm: i64 = if b64 < 0 {
        -b64
    } else {
        b64
    };
    let sh: i64 = am * 0x10000;
    let qm: i64 = sh / bm;
    assert(sh as int == int_abs(a as int * 0x10000));
    let q: i64 = if (a64 < 0) != (b64 < 0) {
        -qm
    } else {
        qm
    };
    assert(q == div_trunc(a as int * 0x10000, b as int));
    narrow_to_i32(q)
}

/// Fixed-point square root.
///
/// Non-positive inputs return zero; there is no error channel. A positive
/// input is widened to 64 bits and its integer square root is found by
/// Newton iteration on the raw value; the root is then rescaled by two to
/// the eighth, which restores the Q16.16 scale, and narrowed to 32 bits
/// (always in range, since the root of a 31-bit value fits 16 bits).
pub fn sqrt(fp: i32) -> (r: i32)
    ensures
        r as int == fixed_sqrt(fp as int),
        fp <= 0 ==> r == 0,
{
    if fp <= 0 {
        return 0;
    }
    let n: i64 = fp as i64;
    let mut x: i64 = n;
    let mut y: i64 = (x + 1) / 2;
    proof {
        lemma_div_by_self(n as int);
        lemma_fundamental_div_mod(n as int + 1, 2);
        lemma_mod_division_less_than_divisor(n as int + 1, 2);
        assert(n < (y + 1) * (y + 1)) by (nonlinear_arith)
            requires
                0 <= y,
                n <= 2 * y,
        ;
        assert(n < (x + 1) * (x + 1)) by (nonlinear_arith)
            requires
                1 <= n,
                x == n,
        ;
    }
    while y < x
        invariant
            1 <= n <= 0x7fff_ffff,
            1 <= x <= n,
            n < (x + 1) * (x + 1),
            0 <= y <= n,
            n < (y + 1) * (y + 1),
            2 * y <= x + (n as int) / (x as int),
        decreases x,
    {
        proof {
            assert(y >= 1) by (nonlinear_arith)
                requires
                    0 <= y,
                    1 <= n,
                    n < (y + 1) * (y + 1),
            ;
        }
        x = y;
        let d: i64 = n / x;
        proof {
            lemma_div_pos_is_pos(n as int, x as int);
            lemma_fundamental_div_mod(n as int, x as int);
            lemma_mod_division_less_than_divisor(n as int, x as int);
            assert(d <= n) by (nonlinear_arith)
                requires
                    1 <= x,
                    0 <= d,
                    0 <= n - x * d,
                    d == (n as int) / (x as int),
                    n as int == x as int * d + (n as int) % (x as int),
            ;
        }
        y = (x + d) / 2;
        proof {
            lemma_fundamental_div_mod(x as int + d as int, 2);
            lemma_mod_division_less_than_divisor(x as int + d as int, 2);
            lemma_div_pos_is_pos(x as int + d as int, 2);
            lemma_newton_upper(n as int, x as int, y as int);
        }
    }
    proof {
        lemma_fundamental_div_mod(n as int, x as int);
        lemma_mod_division_less_than_divisor(n as int, x as int);
        assert(x * x <= n) by (nonlinear_arith)
            requires
                1 <= x,
                x <= (n as int) / (x as int),
                n as int == (x as int) * ((n as int) / (x as int)) + (n as int) % (x as int),
                0 <= (n as int) % (x as int),
        ;
        lemma_isqrt_unique(n as int, x as int);
        assert(x <= 46340) by (nonlinear_arith)
            requires
                1 <= x,
                x * x <= 0x7fff_ffff,
        ;
    }
    let root: i64 = x * 0x100;
    root as i32
}

/// One Newton step never falls below the integer square root: from the
/// division facts for `n / x`, any `y` with `x + n / x <= 2 * y + 1`
/// satisfies `n < (y + 1) * (y + 1)`.
proof fn lemma_newton_upper(n: int, x: int, y: int)
    requires
        1 <= x,
        0 <= n,
        x + n / x <= 2 * y + 1,
    ensures
        n < (y + 1) * (y + 1),
{
    let d = n / x;
    let r = n % x;
    lemma_fundamental_div_mod(n, x);
    lemma_mod_division_less_than_divisor(n, x);
    lemma_div_pos_is_pos(n, x);
    assert((x + d + 1) * (x + d + 1) - 4 * (x * d) - 4 * (x - 1) == (x - d - 1) * (x - d - 1)
        + 4) by (nonlinear_arith);
    assert((x - d - 1) * (x - d - 1) >= 0) by (nonlinear_arith);
    assert(4 * n < (x + d + 1) * (x + d + 1));
    assert((x + d + 1) * (x + d + 1) <= (2 * (y + 1)) * (2 * (y + 1))) by (nonlinear_arith)
        requires
            0 < x + d + 1,
            x + d + 1 <= 2 * (y + 1),
    ;
    assert((2 * (y + 1)) * (2 * (y + 1)) == 4 * ((y + 1) * (y + 1))) by (nonlinear_arith);
}

} // verus!
