//! Residues modulo `q`, powers and logarithms of machine integers.

use vstd::arithmetic::div_mod::{
    lemma_fundamental_div_mod, lemma_fundamental_div_mod_converse, lemma_small_mod,
};
use vstd::arithmetic::power::{lemma_pow0, lemma_pow_increases, lemma_pow_positive, pow};
use vstd::arithmetic::power2::{lemma2_to64_rest, lemma_pow2};
use vstd::prelude::*;

verus! {

/// `q` can serve as a modulus: it is at least two, and every residue fits a
/// signed machine integer.
pub open spec fn is_modulus(q: int) -> bool {
    2 <= q <= i64::MAX
}

/// Tells whether `q` can serve as a modulus.
pub fn check_modulus(q: u64) -> (ok: bool)
    ensures
        ok <==> is_modulus(q as int),
{
    2 <= q && q <= 0x7fff_ffff_ffff_ffff
}

/// The least non-negative residue of `x` modulo `q`.
pub fn reduce(x: i64, q: u64) -> (r: u64)
    requires
        is_modulus(q as int),
    ensures
        r == (x as int) % (q as int),
        r < q,
{
    if x >= 0 {
        (x as u64) % q
    } else {
        let minus: u64 = ((-(x as i128)) as u64) % q;
        proof {
            let xi = x as int;
            let qi = q as int;
            let d = (-xi) / qi;
            lemma_fundamental_div_mod(-xi, qi);
            if minus == 0 {
                assert(xi == qi * (-d) + 0) by (nonlinear_arith)
                    requires
                        -xi == qi * d,
                ;
                lemma_fundamental_div_mod_converse(xi, qi, -d, 0);
            } else {
                assert(xi == qi * (-d - 1) + (qi - minus)) by (nonlinear_arith)
                    requires
                        -xi == qi * d + minus,
                ;
                lemma_fundamental_div_mod_converse(xi, qi, -d - 1, qi - minus);
            }
        }
        if minus == 0 {
            0
        } else {
            q - minus
        }
    }
}

/// The residue of `acc + a * b` modulo `q`, for residues `acc`, `a` and `b`.
pub fn mul_add_mod(acc: u64, a: u64, b: u64, q: u64) -> (r: u64)
    requires
        is_modulus(q as int),
        acc < q,
        a < q,
        b < q,
    ensures
        r == (acc + a * b) % (q as int),
        r < q,
{
    assert(0 <= a * b <= 0x3fff_ffff_ffff_ffff_0000_0000_0000_0001) by (nonlinear_arith)
        requires
            0 <= a <= 0x7fff_ffff_ffff_ffff,
            0 <= b <= 0x7fff_ffff_ffff_ffff,
    ;
    let wide: u128 = (acc as u128) + (a as u128) * (b as u128);
    (wide % (q as u128)) as u64
}

/// The residue of `a - b` modulo `q`, for residues `a` and `b`.
pub fn sub_mod(a: u64, b: u64, q: u64) -> (r: u64)
    requires
        is_modulus(q as int),
        a < q,
        b < q,
    ensures
        r == (a - b) % (q as int),
        r < q,
{
    if a >= b {
        proof {
            lemma_small_mod((a - b) as nat, q as nat);
        }
        a - b
    } else {
        proof {
            let qi = q as int;
            lemma_fundamental_div_mod_converse(a - b, qi, -1, qi - b + a);
        }
        q - b + a
    }
}

/// The residue of `a + b` modulo `q`, for residues `a` and `b`.
pub fn add_mod(a: u64, b: u64, q: u64) -> (r: u64)
    requires
        is_modulus(q as int),
        a < q,
        b < q,
    ensures
        r == (a + b) % (q as int),
        r < q,
{
    let wide: u128 = (a as u128) + (b as u128);
    (wide % (q as u128)) as u64
}

/// `k` is the least exponent for which `base` to the `k` reaches `x`.
pub open spec fn is_log_ceil(base: int, x: int, k: int) -> bool {
    &&& k >= 0
    &&& pow(base, k as nat) >= x
    &&& forall|j: int| 0 <= j < k ==> #[trigger] pow(base, j as nat) < x
}

/// The logarithm of `x` to the base `base`, rounded up: the least `k` with
/// `base^k >= x`.
pub fn log_ceil(base: u64, x: u64) -> (k: u32)
    requires
        base >= 2,
    ensures
        is_log_ceil(base as int, x as int, k as int),
        k == spec_log_ceil(base as int, x as int),
        k <= 64,
{
    let mut k: u32 = 0;
    let mut p: u64 = 1;
    proof {
        lemma_pow0(base as int);
        lemma_pow0(2);
    }
    while p < x
        invariant
            base >= 2,
            p == pow(base as int, k as nat),
            p >= 1,
            k <= 64,
            pow(2, k as nat) <= p,
            forall|j: int| 0 <= j < k ==> #[trigger] pow(base as int, j as nat) < x,
        decreases 64 - k,
    {
        proof {
            reveal(pow);
            lemma_pow_positive(2, k as nat);
            assert(2 * pow(2, k as nat) <= base * p) by (nonlinear_arith)
                requires
                    base >= 2,
                    0 <= pow(2, k as nat) <= p,
            ;
            assert(base * p == p * base) by (nonlinear_arith);
            if k == 64 {
                lemma_pow_bound_64();
            }
        }
        match p.checked_mul(base) {
            Some(next) => {
                p = next;
                k = k + 1;
            },
            None => {
                return k + 1;
            },
        }
    }
    k
}

/// The logarithm of `x` to the base `base`, rounded up.
pub open spec fn spec_log_ceil(base: int, x: int) -> int {
    choose|k: int| is_log_ceil(base, x, k)
}

/// Tells whether `base` to the `e` is at most `limit`.
pub fn pow_at_most(base: u64, e: usize, limit: u64) -> (yes: bool)
    requires
        base >= 2,
        limit >= 1,
    ensures
        yes <==> pow(base as int, e as nat) <= limit,
{
    let mut p: u64 = 1;
    let mut i: usize = 0;
    proof {
        lemma_pow0(base as int);
    }
    while i < e
        invariant
            i <= e,
            base >= 2,
            limit >= 1,
            1 <= p <= limit,
            p == pow(base as int, i as nat),
        decreases e - i,
    {
        proof {
            reveal(pow);
            assert(base * p == p * base) by (nonlinear_arith);
            lemma_fundamental_div_mod(limit as int, base as int);
        }
        if p > limit / base {
            proof {
                assert(p * base > limit) by (nonlinear_arith)
                    requires
                        p > limit / base,
                        base >= 2,
                        limit >= 1,
                        limit == base * (limit / base) + limit % base,
                        0 <= limit % base < base,
                ;
                lemma_pow_increases(base as nat, (i + 1) as nat, e as nat);
            }
            return false;
        }
        assert(1 <= p * base <= limit) by (nonlinear_arith)
            requires
                1 <= p <= limit / base,
                base >= 2,
                limit == base * (limit / base) + limit % base,
                0 <= limit % base < base,
        ;
        p = p * base;
        i += 1;
    }
    true
}

/// Two to the 64 exceeds every 64-bit unsigned integer.
proof fn lemma_pow_bound_64()
    ensures
        pow(2, 64) == 0x1_0000_0000_0000_0000,
{
    lemma2_to64_rest();
    lemma_pow2(64);
}

/// `f` is the square root of `x`, rounded down.
pub open spec fn is_sqrt_floor(x: int, f: int) -> bool {
    f >= 0 && f * f <= x < (f + 1) * (f + 1)
}

/// The square root of `x`, rounded down.
pub open spec fn spec_sqrt_floor(x: int) -> int {
    choose|f: int| is_sqrt_floor(x, f)
}

/// Only one number is the rounded-down square root of `x`.
pub proof fn lemma_sqrt_floor_unique(x: int, f: int, g: int)
    requires
        is_sqrt_floor(x, f),
        is_sqrt_floor(x, g),
    ensures
        f == g,
{
    if f < g {
        assert((f + 1) * (f + 1) <= g * g) by (nonlinear_arith)
            requires
                0 <= f + 1 <= g,
        ;
    } else if g < f {
        assert((g + 1) * (g + 1) <= f * f) by (nonlinear_arith)
            requires
                0 <= g + 1 <= f,
        ;
    }
}

/// The square root of `x`, rounded down.
pub fn sqrt_floor(x: u64) -> (f: u64)
    ensures
        is_sqrt_floor(x as int, f as int),
        f == spec_sqrt_floor(x as int),
        f <= 0xffff_ffff,
{
    let mut low: u64 = 0;
    let mut high: u64 = 0x1_0000_0000;
    while high - low > 1
        invariant
            low < high <= 0x1_0000_0000,
            low * low <= x < high * high,
        decreases high - low,
    {
        let mid: u64 = low + (high - low) / 2;
        assert(mid * mid <= 0x1_0000_0000 * 0x1_0000_0000) by (nonlinear_arith)
            requires
                0 <= mid <= 0x1_0000_0000,
        ;
        if (mid as u128) * (mid as u128) <= x as u128 {
            low = mid;
        } else {
            high = mid;
        }
    }
    proof {
        assert(is_sqrt_floor(x as int, low as int));
        lemma_sqrt_floor_unique(x as int, low as int, spec_sqrt_floor(x as int));
    }
    low
}

/// Every number that is not negative has a rounded-down square root.
pub proof fn lemma_sqrt_floor_exists(x: int)
    requires
        x >= 0,
    ensures
        is_sqrt_floor(x, spec_sqrt_floor(x)),
    decreases x,
{
    if x == 0 {
        assert(is_sqrt_floor(0, 0));
    } else {
        lemma_sqrt_floor_exists(x - 1);
        let f = spec_sqrt_floor(x - 1);
        if (f + 1) * (f + 1) <= x {
            assert(x < (f + 2) * (f + 2)) by (nonlinear_arith)
                requires
                    x - 1 < (f + 1) * (f + 1),
                    f >= 0,
            ;
            assert(is_sqrt_floor(x, f + 1));
        } else {
            assert(is_sqrt_floor(x, f));
        }
    }
}

/// Below every exponent at which the power reaches `x` lies the least such
/// exponent.
proof fn lemma_log_ceil_below(base: int, x: int, k: int)
    requires
        base >= 2,
        k >= 0,
        pow(base, k as nat) >= x,
    ensures
        is_log_ceil(base, x, spec_log_ceil(base, x)),
    decreases k,
{
    if k > 0 && pow(base, (k - 1) as nat) >= x {
        lemma_log_ceil_below(base, x, k - 1);
    } else {
        assert forall|j: int| 0 <= j < k implies #[trigger] pow(base, j as nat) < x by {
            lemma_pow_increases(base as nat, j as nat, (k - 1) as nat);
        }
        assert(is_log_ceil(base, x, k));
    }
}

/// Every number has a rounded-up logarithm, which is positive for numbers from
/// two on.
pub proof fn lemma_log_ceil_exists(base: int, x: int)
    requires
        base >= 2,
    ensures
        is_log_ceil(base, x, spec_log_ceil(base, x)),
        x >= 2 ==> spec_log_ceil(base, x) >= 1,
{
    let k = if x >= 0 {
        x
    } else {
        0
    };
    lemma_pow_above_exponent(base, k as nat);
    lemma_log_ceil_below(base, x, k);
    if x >= 2 && spec_log_ceil(base, x) == 0 {
        lemma_pow0(base);
    }
}

/// A power of a base from two on is above its exponent.
proof fn lemma_pow_above_exponent(base: int, k: nat)
    requires
        base >= 2,
    ensures
        pow(base, k) > k,
    decreases k,
{
    reveal(pow);
    if k > 0 {
        lemma_pow_above_exponent(base, (k - 1) as nat);
        assert(base * pow(base, (k - 1) as nat) > k) by (nonlinear_arith)
            requires
                base >= 2,
                pow(base, (k - 1) as nat) > k - 1,
                k >= 1,
        ;
    }
}

/// The product of `a` and `b` in two halves: `high * 2^128 + low`.
pub fn mul_wide(a: u128, b: u128) -> (out: (u128, u128))
    ensures
        out.0 * 0x1_0000_0000_0000_0000_0000_0000_0000_0000 + out.1 == a * b,
{
    let base: u128 = 0x1_0000_0000_0000_0000;
    let a0: u128 = a % base;
    let a1: u128 = a / base;
    let b0: u128 = b % base;
    let b1: u128 = b / base;
    assert(a == a1 * base + a0 && b == b1 * base + b0);
    assert(a0 * b0 <= 0xffff_ffff_ffff_ffff * 0xffff_ffff_ffff_ffff) by (nonlinear_arith)
        requires
            0 <= a0 <= 0xffff_ffff_ffff_ffff,
            0 <= b0 <= 0xffff_ffff_ffff_ffff,
    ;
    assert(a0 * b1 <= 0xffff_ffff_ffff_ffff * 0xffff_ffff_ffff_ffff) by (nonlinear_arith)
        requires
            0 <= a0 <= 0xffff_ffff_ffff_ffff,
            0 <= b1 <= 0xffff_ffff_ffff_ffff,
    ;
    assert(a1 * b0 <= 0xffff_ffff_ffff_ffff * 0xffff_ffff_ffff_ffff) by (nonlinear_arith)
        requires
            0 <= a1 <= 0xffff_ffff_ffff_ffff,
            0 <= b0 <= 0xffff_ffff_ffff_ffff,
    ;
    assert(a1 * b1 <= 0xffff_ffff_ffff_ffff * 0xffff_ffff_ffff_ffff) by (nonlinear_arith)
        requires
            0 <= a1 <= 0xffff_ffff_ffff_ffff,
            0 <= b1 <= 0xffff_ffff_ffff_ffff,
    ;
    let p00: u128 = a0 * b0;
    let p01: u128 = a0 * b1;
    let p10: u128 = a1 * b0;
    let p11: u128 = a1 * b1;
    let r0: u128 = p00 % base;
    let t1: u128 = p00 / base + p01 % base + p10 % base;
    let r1: u128 = t1 % base;
    let c1: u128 = t1 / base;
    let upper: u128 = p01 / base + p10 / base + c1;
    assert(a * b == p11 * (base * base) + (p01 + p10) * base + p00) by (nonlinear_arith)
        requires
            a == a1 * base + a0,
            b == b1 * base + b0,
            p00 == a0 * b0,
            p01 == a0 * b1,
            p10 == a1 * b0,
            p11 == a1 * b1,
    ;
    assert((p01 + p10) * base + p00 == upper * (base * base) + r1 * base + r0)
        by (nonlinear_arith)
        requires
            p00 == (p00 / base) * base + p00 % base,
            p01 == (p01 / base) * base + p01 % base,
            p10 == (p10 / base) * base + p10 % base,
            t1 == p00 / base + p01 % base + p10 % base,
            t1 == c1 * base + r1,
            r0 == p00 % base,
            upper == p01 / base + p10 / base + c1,
    ;
    assert(p11 + upper <= 0xffff_ffff_ffff_ffff_ffff_ffff_ffff_ffff) by (nonlinear_arith)
        requires
            a * b == (p11 + upper) * (base * base) + r1 * base + r0,
            r1 >= 0,
            r0 >= 0,
            base == 0x1_0000_0000_0000_0000,
            0 <= a <= 0xffff_ffff_ffff_ffff_ffff_ffff_ffff_ffff,
            0 <= b <= 0xffff_ffff_ffff_ffff_ffff_ffff_ffff_ffff,
    ;
    let high: u128 = p11 + upper;
    let low: u128 = r1 * base + r0;
    (high, low)
}

/// Tells whether `a * b <= c * d`, for factors of any size.
pub fn product_le(a: u128, b: u128, c: u128, d: u128) -> (yes: bool)
    ensures
        yes <==> a * b <= c * d,
{
    let (left_high, left_low) = mul_wide(a, b);
    let (right_high, right_low) = mul_wide(c, d);
    left_high < right_high || (left_high == right_high && left_low <= right_low)
}

} // verus!
