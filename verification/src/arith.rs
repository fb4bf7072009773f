//! Integer helpers with exact contracts.
use vstd::prelude::*;

verus! {

/// Quotient rounded up, for a positive divisor.
pub open spec fn ceil_div(a: int, b: int) -> int {
    if a % b == 0 {
        a / b
    } else {
        a / b + 1
    }
}

/// The smaller of two integers.
pub open spec fn min_int(a: int, b: int) -> int {
    if a <= b {
        a
    } else {
        b
    }
}

/// The larger of two integers.
pub open spec fn max_int(a: int, b: int) -> int {
    if a >= b {
        a
    } else {
        b
    }
}

/// `ceil_div` is the least multiple count that covers `a`.
pub proof fn lemma_ceil_div(a: int, b: int)
    requires
        0 <= a,
        0 < b,
    ensures
        0 <= ceil_div(a, b) <= a,
        (ceil_div(a, b) - 1) * b < a || a == 0,
        a <= ceil_div(a, b) * b,
        a > 0 ==> ceil_div(a, b) >= 1,
{
    vstd::arithmetic::div_mod::lemma_fundamental_div_mod(a, b);
    let q = a / b;
    let r = a % b;
    assert(a == b * q + r);
    assert(q >= 0 && q <= a && (r != 0 ==> q + 1 <= a)) by (nonlinear_arith)
        requires
            a == b * q + r,
            0 <= r < b,
            0 <= a,
            0 < b,
    ;
    assert((q + 1) * b == b * q + b) by (nonlinear_arith);
    assert((q - 1) * b == b * q - b) by (nonlinear_arith);
    assert(q * b == b * q) by (nonlinear_arith);
    if a > 0 && r == 0 {
        assert(q >= 1) by (nonlinear_arith)
            requires
                a == b * q,
                a > 0,
                b > 0,
        ;
    }
}

/// Number of groups of `b` needed to hold `a` elements.
pub fn div_ceil_usize(a: usize, b: usize) -> (r: usize)
    requires
        b > 0,
    ensures
        r == ceil_div(a as int, b as int),
{
    proof {
        lemma_ceil_div(a as int, b as int);
    }
    if a % b == 0 {
        a / b
    } else {
        a / b + 1
    }
}

/// The smaller of two sizes.
pub fn min_usize(a: usize, b: usize) -> (r: usize)
    ensures
        r == min_int(a as int, b as int),
{
    if a <= b {
        a
    } else {
        b
    }
}

/// The larger of two sizes.
pub fn max_usize(a: usize, b: usize) -> (r: usize)
    ensures
        r == max_int(a as int, b as int),
{
    if a >= b {
        a
    } else {
        b
    }
}

/// The smaller of two 64-bit counters.
pub fn min_u64(a: u64, b: u64) -> (r: u64)
    ensures
        r == min_int(a as int, b as int),
{
    if a <= b {
        a
    } else {
        b
    }
}

/// The larger of two 64-bit counters.
pub fn max_u64(a: u64, b: u64) -> (r: u64)
    ensures
        r == max_int(a as int, b as int),
{
    if a >= b {
        a
    } else {
        b
    }
}

/// Product clamped to the largest size.
pub fn saturating_mul_usize(a: usize, b: usize) -> (r: usize)
    ensures
        r == min_int(a * b, usize::MAX as int),
{
    match a.checked_mul(b) {
        Some(product) => product,
        None => usize::MAX,
    }
}

/// Product clamped to the largest counter value.
pub fn saturating_mul_u64(a: u64, b: u64) -> (r: u64)
    ensures
        r == min_int(a * b, u64::MAX as int),
{
    match a.checked_mul(b) {
        Some(product) => product,
        None => u64::MAX,
    }
}

/// Whether `p` is a power of two.
pub open spec fn is_pow2(p: int) -> bool {
    exists|k: nat| p == #[trigger] vstd::arithmetic::power2::pow2(k)
}

/// `p` is the least power of two that is at least `x`.
pub open spec fn is_next_pow2(x: int, p: int) -> bool {
    &&& is_pow2(p)
    &&& x <= p
    &&& forall|q: int| is_pow2(q) && x <= q ==> p <= q
}

/// The least power of two that is at least `x`, for `x` up to the largest power of two that a
/// 64-bit counter holds.
pub fn next_power_of_two_u64(x: u64) -> (r: u64)
    requires
        x <= 0x8000_0000_0000_0000,
    ensures
        is_next_pow2(x as int, r as int),
        r < 2 * x || r == 1,
{
    let mut p: u64 = 1;
    let ghost mut k: nat = 0;
    proof {
        vstd::arithmetic::power2::lemma2_to64();
        assert(is_pow2(1));
        assert forall|q: int| is_pow2(q) implies 1 <= q by {
            let j = choose|j: nat| q == #[trigger] vstd::arithmetic::power2::pow2(j);
            vstd::arithmetic::power2::lemma_pow2_pos(j);
        }
    }
    while p < x
        invariant
            x <= 0x8000_0000_0000_0000,
            p == vstd::arithmetic::power2::pow2(k),
            1 <= p <= 0x8000_0000_0000_0000,
            p < 2 * x || p == 1,
            forall|q: int| is_pow2(q) && x <= q ==> p <= q,
        decreases 0x8000_0000_0000_0000 - p,
    {
        proof {
            vstd::arithmetic::power2::lemma_pow2_unfold(k + 1);
            assert forall|q: int| is_pow2(q) && x <= q implies 2 * p <= q by {
                let j = choose|j: nat| q == #[trigger] vstd::arithmetic::power2::pow2(j);
                if j <= k {
                    if j < k {
                        vstd::arithmetic::power2::lemma_pow2_strictly_increases(j, k);
                    }
                    assert(q <= p);
                    assert(false);
                }
                if k + 1 < j {
                    vstd::arithmetic::power2::lemma_pow2_strictly_increases(k + 1, j);
                }
            }
            vstd::arithmetic::power2::lemma2_to64();
            vstd::arithmetic::power2::lemma2_to64_rest();
            if k >= 63 {
                if k > 63 {
                    vstd::arithmetic::power2::lemma_pow2_strictly_increases(63, k);
                }
                assert(p >= 0x8000_0000_0000_0000);
                assert(false);
            }
            if k + 1 < 63 {
                vstd::arithmetic::power2::lemma_pow2_strictly_increases(k + 1, 63);
            }
            k = k + 1;
        }
        p = p * 2;
    }
    proof {
        assert(is_pow2(p as int));
    }
    p
}

} // verus!
