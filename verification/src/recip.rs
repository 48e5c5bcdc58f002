//! The binary32 reciprocal of a component count, in integer arithmetic.
//!
//! Normalizing a waveform's amplitude weights gives every component the
//! weight `1 / count`, as a binary32 value.  That value is computed here
//! from the count alone: the count is first rounded to binary32 precision
//! (counts beyond 2^24 are not exactly representable), then the correctly
//! rounded reciprocal of the rounded count is assembled digit by digit.
//! Both steps round to nearest, ties to even, exactly as IEEE 754 binary32
//! conversion and division do, and both are carried out — and verified — on
//! plain integers.

use vstd::arithmetic::div_mod::{
    lemma_basic_div, lemma_div_is_ordered, lemma_div_multiples_vanish,
    lemma_fundamental_div_mod, lemma_fundamental_div_mod_converse, lemma_mod_multiples_basic,
    lemma_multiply_divide_lt, lemma_small_mod,
};
use vstd::arithmetic::mul::lemma_mul_inequality;
use vstd::arithmetic::power2::{
    lemma2_to64, lemma2_to64_rest, lemma_pow2_adds, lemma_pow2_strictly_increases,
    lemma_pow2_unfold, pow2,
};
use vstd::prelude::*;

use crate::quant::{f32_exp, f32_mant, f32_point, f32_sign, f32_significand};

verus! {

/// The distance between two numbers.
pub open spec fn abs_diff(a: nat, b: nat) -> nat {
    if a >= b {
        (a - b) as nat
    } else {
        (b - a) as nat
    }
}

/// The exponent of the greatest power of two not above `n`.
pub open spec fn floor_log2(n: nat) -> nat
    decreases n,
{
    if n <= 1 {
        0
    } else {
        floor_log2(n / 2) + 1
    }
}

/// `floor_log2` names the binade its argument falls in.
pub proof fn lemma_floor_log2_bounds(n: nat)
    requires
        1 <= n,
    ensures
        pow2(floor_log2(n)) <= n < pow2(floor_log2(n) + 1),
    decreases n,
{
    if n <= 1 {
        lemma2_to64();
    } else {
        lemma_floor_log2_bounds(n / 2);
        lemma_pow2_unfold(floor_log2(n));
        lemma_pow2_unfold(floor_log2(n) + 1);
    }
}

/// `n` rounded to the nearest multiple of `2^d`, halfway cases to the even
/// multiple.
pub open spec fn round_even_mult(n: nat, d: nat) -> nat
    recommends
        1 <= d,
{
    let q = n / pow2(d);
    let r = n % pow2(d);
    let h = pow2((d - 1) as nat);
    let q2 = if r < h {
        q
    } else if r > h {
        q + 1
    } else if q % 2 == 0 {
        q
    } else {
        q + 1
    };
    q2 * pow2(d)
}

/// The count rounded to binary32 precision: counts below 2^24 are exact;
/// above, the trailing digits beyond the 24 significand digits round to
/// nearest, ties to even — the value a binary32 conversion of the count
/// produces.
pub open spec fn round_f32_nat(n: nat) -> nat
    recommends
        1 <= n,
{
    let k = floor_log2(n);
    if k <= 23 {
        n
    } else {
        round_even_mult(n, (k - 23) as nat)
    }
}

/// A positive normal binary32 bit pattern from its effective exponent and
/// its full significand.
pub open spec fn pack_normal(point: nat, sig: nat) -> u32
    recommends
        1 <= point < 255,
        pow2(23) <= sig < pow2(24),
{
    (point * 0x0080_0000 + (sig - pow2(23))) as u32
}

/// The binary32 bit pattern nearest to `1 / n`, ties to even, for a count
/// `n` that is itself representable in binary32.
///
/// With `k` the binade of `n`, the reciprocal lies in `(2^(−k−1), 2^(−k)]`:
/// for an exact power of two it is that power's own pattern; otherwise its
/// significand is `2^(k+24) / n` rounded to nearest, ties to even, bumped
/// into the next binade when rounding carries it to 2^24.
pub open spec fn recip_bits_spec(n: nat) -> u32
    recommends
        1 <= n,
{
    let k = floor_log2(n);
    if n == pow2(k) {
        pack_normal((127 - k) as nat, pow2(23))
    } else {
        let q = pow2(k + 24) / n;
        let r = pow2(k + 24) % n;
        let s = if 2 * r < n {
            q
        } else if 2 * r > n {
            q + 1
        } else if q % 2 == 0 {
            q
        } else {
            q + 1
        };
        if s == pow2(24) {
            pack_normal((127 - k) as nat, pow2(23))
        } else {
            pack_normal((126 - k) as nat, s)
        }
    }
}

/// Powers of two do not decrease with the exponent.
proof fn lemma_pow2_le(e1: nat, e2: nat)
    requires
        e1 <= e2,
    ensures
        pow2(e1) <= pow2(e2),
{
    if e1 < e2 {
        lemma_pow2_strictly_increases(e1, e2);
    }
}

/// 2^128 as a number, to bound binades of 128-bit integers.
proof fn lemma_pow2_128()
    ensures
        pow2(127) == 0x8000_0000_0000_0000_0000_0000_0000_0000,
        pow2(128) == 0x1_0000_0000_0000_0000_0000_0000_0000_0000,
{
    lemma2_to64();
    lemma2_to64_rest();
    lemma_pow2_adds(63, 64);
    lemma_pow2_adds(64, 64);
}

/// The binade of a 128-bit integer.
fn floor_log2_u128(n: u128) -> (r: u32)
    requires
        1 <= n,
    ensures
        r == floor_log2(n as nat),
        r <= 127,
{
    proof {
        lemma_floor_log2_bounds(n as nat);
        if floor_log2(n as nat) > 127 {
            lemma_pow2_le(128, floor_log2(n as nat));
            lemma_pow2_128();
        }
    }
    let mut m: u128 = n;
    let mut k: u32 = 0;
    while m >= 2
        invariant
            1 <= m <= n,
            k + floor_log2(m as nat) == floor_log2(n as nat),
            floor_log2(n as nat) <= 127,
        decreases m,
    {
        m = m / 2;
        k = k + 1;
    }
    k
}

/// 2^e as a 128-bit integer.
fn pow2_u128(e: u32) -> (r: u128)
    requires
        e <= 127,
    ensures
        r == pow2(e as nat),
        r >= 1,
{
    proof {
        lemma2_to64();
        lemma_pow2_128();
    }
    let mut i: u32 = 0;
    let mut f: u128 = 1;
    while i < e
        invariant
            i <= e <= 127,
            f == pow2(i as nat),
            f >= 1,
        decreases e - i,
    {
        proof {
            lemma_pow2_unfold((i + 1) as nat);
            lemma_pow2_le((i + 1) as nat, 127);
            lemma_pow2_128();
        }
        f = f * 2;
        i = i + 1;
    }
    f
}

/// The binary32 bit pattern of the reciprocal of a count: the count rounded
/// to binary32 precision, then the correctly rounded reciprocal of that —
/// the value IEEE 754 arithmetic produces for one divided by the count.
pub fn count_recip_bits(n: u64) -> (r: u32)
    requires
        1 <= n,
    ensures
        r == recip_bits_spec(round_f32_nat(n as nat)),
{
    proof {
        lemma2_to64();
        lemma2_to64_rest();
        lemma_floor_log2_bounds(n as nat);
    }
    // Round the count to binary32 precision.
    let k0: u32 = floor_log2_u128(n as u128);
    proof {
        // A 64-bit count sits in a binade below 2^64.
        if k0 >= 64 {
            lemma_pow2_le(64, k0 as nat);
        }
        assert(k0 <= 63);
    }
    let m: u128 = if k0 <= 23 {
        n as u128
    } else {
        let d: u32 = k0 - 23;
        let p: u128 = pow2_u128(d);
        let q: u128 = (n as u128) / p;
        let rm: u128 = (n as u128) % p;
        let h: u128 = pow2_u128(d - 1);
        let q2: u128 = if rm < h {
            q
        } else if rm > h {
            q + 1
        } else if q % 2 == 0 {
            q
        } else {
            q + 1
        };
        proof {
            // q < 2^24 since n < 2^(k0+1) = 2^d · 2^24, so q2 ≤ 2^24 and
            // the rounded count q2 · 2^d stays within 2^(k0+1) ≤ 2^64.
            lemma_pow2_adds(d as nat, 24);
            lemma_multiply_divide_lt(n as int, p as int, pow2(24) as int);
            assert(q2 <= pow2(24));
            lemma_mul_inequality(q2 as int, pow2(24) as int, p as int);
            lemma_pow2_adds(24, d as nat);
            lemma_pow2_le((k0 + 1) as nat, 64);
            assert((q2 * p) as nat <= pow2(64));
            // q ≥ 2^23 since n ≥ 2^k0 = 2^d · 2^23, so the rounded count is
            // positive.
            lemma_pow2_adds(d as nat, 23);
            vstd::arithmetic::mul::lemma_mul_is_commutative(pow2(23) as int, p as int);
            lemma_div_multiples_vanish(pow2(23) as int, p as int);
            lemma_div_is_ordered((pow2(23) * p) as int, n as int, p as int);
            assert(q >= pow2(23));
            lemma_mul_inequality(1, q2 as int, p as int);
        }
        q2 * p
    };
    assert(m as nat == round_f32_nat(n as nat));
    assert(1 <= m);
    proof {
        // The rounded count still fits the count's own binade or the next:
        // it stays at or below 2^64.
        if k0 <= 23 {
            lemma_pow2_le((k0 + 1) as nat, 64);
        }
        assert(m as nat <= pow2(64));
        lemma_floor_log2_bounds(m as nat);
    }
    // The correctly rounded reciprocal of the rounded count.
    let k: u32 = floor_log2_u128(m);
    proof {
        if k > 64 {
            lemma_pow2_strictly_increases(64, k as nat);
        }
    }
    let pk: u128 = pow2_u128(k);
    if m == pk {
        return (127 - k) * 0x0080_0000;
    }
    proof {
        // m is strictly inside its binade, so k ≤ 63.
        if k == 64 {
            assert(pow2(64) <= m as nat <= pow2(64));
        }
    }
    let big: u128 = pow2_u128(k + 24);
    let q: u128 = big / m;
    let r2: u128 = big % m;
    proof {
        // 2^23 ≤ q < 2^24: the significand of the reciprocal before rounding.
        lemma_pow2_adds(k as nat, 24);
        assert((m as int) * (pow2(24) as int) >= (pow2(k as nat) as int + 1) * (pow2(24) as int))
            by (nonlinear_arith)
            requires
                m as int >= pow2(k as nat) as int + 1,
                pow2(24) as int > 0,
        ;
        lemma_multiply_divide_lt(big as int, m as int, pow2(24) as int);
        lemma_pow2_adds(23, (k + 1) as nat);
        lemma_mul_inequality(m as int, pow2((k + 1) as nat) as int, pow2(23) as int);
        vstd::arithmetic::mul::lemma_mul_is_commutative(m as int, pow2(23) as int);
        lemma_div_multiples_vanish(pow2(23) as int, m as int);
        lemma_div_is_ordered((pow2(23) * m) as int, big as int, m as int);
    }
    let s: u128 = if 2 * r2 < m {
        q
    } else if 2 * r2 > m {
        q + 1
    } else if q % 2 == 0 {
        q
    } else {
        q + 1
    };
    if s == 0x100_0000 {
        (127 - k) * 0x0080_0000
    } else {
        (126 - k) * 0x0080_0000 + (s as u32 - 0x0080_0000)
    }
}

/// A packed positive normal pattern reads back field by field.
proof fn lemma_pack_normal_fields(point: nat, sig: nat)
    requires
        1 <= point <= 254,
        pow2(23) <= sig < pow2(24),
    ensures
        ({
            let b = pack_normal(point, sig);
            &&& f32_exp(b) == point
            &&& f32_mant(b) == sig - pow2(23)
            &&& f32_significand(b) == sig
            &&& f32_point(b) == point
            &&& !f32_sign(b)
        }),
{
    lemma2_to64();
    let m = (sig - pow2(23)) as int;
    let bv = point * 0x0080_0000 + m;
    assert(bv < 0x8000_0000);
    let b = pack_normal(point, sig);
    assert(b == bv);
    lemma_fundamental_div_mod_converse(bv as int, 0x0080_0000, point as int, m);
    lemma_small_mod(point, 0x100);
    lemma_basic_div(bv, 0x8000_0000);
}

/// Rounding a count to binary32 precision is correct rounding: the rounded
/// count is a multiple of the spacing `2^(k−23)` of binary32 values in the
/// count's binade, it sits within half that spacing of the count, and a
/// halfway count goes to the even multiple.  Counts of at most 24 binary
/// digits are kept exactly.
pub proof fn lemma_round_f32_nearest(n: nat)
    requires
        1 <= n,
    ensures
        floor_log2(n) <= 23 ==> round_f32_nat(n) == n,
        floor_log2(n) > 23 ==> ({
            let d = (floor_log2(n) - 23) as nat;
            let m = round_f32_nat(n);
            &&& m % pow2(d) == 0
            &&& 2 * abs_diff(m, n) <= pow2(d)
            &&& (2 * abs_diff(m, n) == pow2(d) ==> (m / pow2(d)) % 2 == 0)
        }),
{
    let k = floor_log2(n);
    if k > 23 {
        let d = (k - 23) as nat;
        let p = pow2(d);
        let h = pow2((d - 1) as nat);
        lemma_pow2_unfold(d);
        vstd::arithmetic::power2::lemma_pow2_pos((d - 1) as nat);
        let q = n / p;
        let r = n % p;
        lemma_fundamental_div_mod(n as int, p as int);
        vstd::arithmetic::div_mod::lemma_mod_division_less_than_divisor(n as int, p as int);
        let q2 = if r < h {
            q
        } else if r > h {
            q + 1
        } else if q % 2 == 0 {
            q
        } else {
            q + 1
        };
        let m = round_f32_nat(n);
        assert(m == q2 * p);
        lemma_mod_multiples_basic(q2 as int, p as int);
        lemma_div_multiples_vanish(q2 as int, p as int);
        assert(m % p == 0);
        assert(m / p == q2);
        if q2 == q {
            assert(n - m == r) by (nonlinear_arith)
                requires
                    n == q * p + r,
                    m == q * p,
            ;
        } else {
            assert(m - n == p - r) by (nonlinear_arith)
                requires
                    n == q * p + r,
                    m == (q + 1) * p,
                    r < p,
            ;
        }
    }
}

/// Rounding a count of at most 2^64 to binary32 precision keeps it positive
/// and at most 2^64.
pub proof fn lemma_count_rounding_in_range(n: nat)
    requires
        1 <= n <= pow2(64),
    ensures
        1 <= round_f32_nat(n) <= pow2(64),
{
    lemma2_to64();
    lemma2_to64_rest();
    lemma_floor_log2_bounds(n);
    let k = floor_log2(n);
    if k > 64 {
        lemma_pow2_le(65, k);
        lemma_pow2_unfold(65);
    }
    assert(k <= 64);
    if k > 23 {
        let d = (k - 23) as nat;
        let p = pow2(d);
        let h = pow2((d - 1) as nat);
        let q = n / p;
        let r = n % p;
        lemma_fundamental_div_mod(n as int, p as int);
        vstd::arithmetic::div_mod::lemma_mod_division_less_than_divisor(n as int, p as int);
        let q2 = if r < h {
            q
        } else if r > h {
            q + 1
        } else if q % 2 == 0 {
            q
        } else {
            q + 1
        };
        assert(round_f32_nat(n) == q2 * p);
        // q stays below 2^24 — strictly, unless the count is exactly 2^64,
        // which divides evenly and rounds to itself.
        lemma_pow2_adds(d, 24);
        if n < pow2(k + 1) {
            lemma_multiply_divide_lt(n as int, p as int, pow2(24) as int);
        } else {
            assert(n == pow2(64) && k == 64);
            lemma_pow2_adds(d, 23);
            lemma_fundamental_div_mod_converse(n as int, p as int, pow2(23) as int, 0);
            assert(q == pow2(23) && r == 0);
        }
        assert(q2 <= pow2(24));
        lemma_mul_inequality(q2 as int, pow2(24) as int, p as int);
        lemma_pow2_adds(24, d);
        lemma_pow2_le(k + 1, 65);
        if k <= 63 {
            lemma_pow2_le(k + 1, 64);
            assert(q2 * p <= pow2(64));
        } else {
            // The count is exactly 2^64 and rounds to itself.
            assert(q2 == pow2(23));
            lemma_pow2_adds(23, d);
            assert(q2 * p == pow2(64));
        }
        // The rounded count is positive: q is at least 2^23.
        lemma_pow2_adds(d, 23);
        vstd::arithmetic::mul::lemma_mul_is_commutative(pow2(23) as int, p as int);
        lemma_div_multiples_vanish(pow2(23) as int, p as int);
        lemma_div_is_ordered((pow2(23) * p) as int, n as int, p as int);
        lemma_mul_inequality(1, q2 as int, p as int);
    }
}

/// The reciprocal pattern is correct rounding: `recip_bits_spec(n)` encodes
/// a positive normal value whose significand `S` at scale `d = 150 − point`
/// makes `S / 2^d` the binary32 value nearest to `1 / n` — multiplied
/// through by `n · 2^(d+1)`, the distance `2 · |2^d − S·n|` is at most `n`,
/// half an ulp — and a halfway reciprocal goes to the even significand.
pub proof fn lemma_recip_bits_nearest(n: nat)
    requires
        1 <= n <= pow2(64),
    ensures
        ({
            let b = recip_bits_spec(n);
            let s = f32_significand(b);
            let point = f32_point(b);
            &&& !f32_sign(b)
            &&& 1 <= f32_exp(b) <= 254
            &&& point < 150
            &&& 2 * abs_diff(pow2((150 - point) as nat), s * n) <= n
            &&& (2 * abs_diff(pow2((150 - point) as nat), s * n) == n ==> s % 2 == 0)
        }),
{
    lemma2_to64();
    lemma2_to64_rest();
    lemma_floor_log2_bounds(n);
    let k = floor_log2(n);
    if k > 64 {
        lemma_pow2_le(65, k);
        lemma_pow2_unfold(65);
    }
    assert(k <= 64);
    let b = recip_bits_spec(n);
    if n == pow2(k) {
        // The reciprocal of a power of two is exact.
        lemma_pack_normal_fields((127 - k) as nat, pow2(23));
        lemma_pow2_adds(23, k);
        assert(pow2(23) * n == pow2((23 + k) as nat));
    } else {
        assert(pow2(k) < n);
        if k == 64 {
            assert(pow2(64) < n);
        }
        assert(k <= 63);
        let big = pow2(k + 24);
        let q = big / n;
        let r = big % n;
        lemma_fundamental_div_mod(big as int, n as int);
        vstd::arithmetic::div_mod::lemma_mod_division_less_than_divisor(big as int, n as int);
        assert(big == q * n + r) by {
            vstd::arithmetic::mul::lemma_mul_is_commutative(q as int, n as int);
        }
        // 2^23 ≤ q < 2^24, as the unrounded significand of the reciprocal.
        lemma_pow2_adds(k, 24);
        assert((n as int) * (pow2(24) as int) >= (pow2(k) as int + 1) * (pow2(24) as int))
            by (nonlinear_arith)
            requires
                n as int >= pow2(k) as int + 1,
                pow2(24) as int > 0,
        ;
        lemma_multiply_divide_lt(big as int, n as int, pow2(24) as int);
        lemma_pow2_adds(23, k + 1);
        lemma_mul_inequality(n as int, pow2(k + 1) as int, pow2(23) as int);
        vstd::arithmetic::mul::lemma_mul_is_commutative(n as int, pow2(23) as int);
        lemma_div_multiples_vanish(pow2(23) as int, n as int);
        lemma_div_is_ordered((pow2(23) * n) as int, big as int, n as int);
        assert(pow2(23) <= q < pow2(24));
        let s = if 2 * r < n {
            q
        } else if 2 * r > n {
            q + 1
        } else if q % 2 == 0 {
            q
        } else {
            q + 1
        };
        if s == pow2(24) {
            // Rounding carried the significand into the next binade: the
            // result is the power of two above, still within half an ulp.
            assert(q == pow2(24) - 1);
            assert(2 * r >= n);
            lemma_pack_normal_fields((127 - k) as nat, pow2(23));
            lemma_pow2_adds(23, k);
            let x = (n - pow2(k)) as nat;
            assert(pow2(24) * x == n - r) by (nonlinear_arith)
                requires
                    big == q * n + r,
                    q == pow2(24) - 1,
                    big == pow2(k) * pow2(24),
                    x == n - pow2(k),
                    pow2(k) < n,
                    0 <= r < n,
            ;
            assert(pow2(23) * n - pow2((23 + k) as nat) == pow2(23) * x) by (nonlinear_arith)
                requires
                    pow2((23 + k) as nat) == pow2(23) * pow2(k),
                    x == n - pow2(k),
                    pow2(k) < n,
            ;
            assert(2 * (pow2(23) * x) == pow2(24) * x) by (nonlinear_arith)
                requires
                    pow2(24) == 2 * pow2(23),
            ;
            assert(abs_diff(pow2((23 + k) as nat), pow2(23) * n) == pow2(23) * x);
            // No tie here: a tie would need an exact division, but the
            // round-up case has a positive remainder.
            if 2 * (pow2(23) * x) == n {
                assert(r == 0);
                assert(2 * r >= n && n >= 1);
            }
        } else {
            lemma_pack_normal_fields((126 - k) as nat, s);
            assert(pow2((150 - (126 - k)) as nat) == big);
            if s == q {
                assert(abs_diff(big, s * n) == r);
            } else {
                assert(s == q + 1);
                assert((q + 1) * n - big == n - r) by (nonlinear_arith)
                    requires
                        big == q * n + r,
                        0 <= r < n,
                ;
                assert(abs_diff(big, s * n) == n - r);
            }
        }
    }
}

/// The weight that amplitude normalization assigns — the reciprocal pattern
/// of the component count rounded to binary32 precision — is itself the
/// correctly rounded binary32 reciprocal of that rounded count, ties to
/// even, for every count a machine can hold.
pub proof fn lemma_normalized_weight_nearest(n: nat)
    requires
        1 <= n <= pow2(64),
    ensures
        ({
            let m = round_f32_nat(n);
            let b = recip_bits_spec(m);
            let s = f32_significand(b);
            let point = f32_point(b);
            &&& !f32_sign(b)
            &&& 1 <= f32_exp(b) <= 254
            &&& point < 150
            &&& 2 * abs_diff(pow2((150 - point) as nat), s * m) <= m
            &&& (2 * abs_diff(pow2((150 - point) as nat), s * m) == m ==> s % 2 == 0)
        }),
{
    lemma_count_rounding_in_range(n);
    lemma_recip_bits_nearest(round_f32_nat(n));
}

} // verus!
