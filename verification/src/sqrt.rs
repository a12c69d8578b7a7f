//! Exact integer square roots of 64-bit values.

use vstd::prelude::*;

verus! {

/// `r` is the integer square root of `n`: the largest natural number whose
/// square does not exceed `n`.
pub open spec fn is_floor_sqrt(r: nat, n: nat) -> bool {
    r * r <= n && n < (r + 1) * (r + 1)
}

/// Squaring is monotone on the naturals.
pub proof fn lemma_square_monotone(a: nat, b: nat)
    requires
        a <= b,
    ensures
        a * a <= b * b,
{
    assert(a * a <= b * b) by (nonlinear_arith)
        requires
            a <= b,
    ;
}

/// The integer square root is unique.
pub proof fn lemma_floor_sqrt_unique(r1: nat, r2: nat, n: nat)
    requires
        is_floor_sqrt(r1, n),
        is_floor_sqrt(r2, n),
    ensures
        r1 == r2,
{
    if r1 < r2 {
        lemma_square_monotone(r1 + 1, r2);
    } else if r2 < r1 {
        lemma_square_monotone(r2 + 1, r1);
    }
}

/// Computes `floor(sqrt(n))` exactly, by bisection over `[0, 2^32]`.
pub fn integer_sqrt(n: u64) -> (r: u64)
    ensures
        is_floor_sqrt(r as nat, n as nat),
        r <= 0xFFFF_FFFF,
{
    let mut lo: u64 = 0;
    let mut hi: u64 = 0x1_0000_0000;
    while hi - lo > 1
        invariant
            lo < hi <= 0x1_0000_0000,
            lo * lo <= n,
            n < hi * hi,
        decreases hi - lo,
    {
        let mid: u64 = lo + (hi - lo) / 2;
        assert(mid * mid <= 0xFFFF_FFFF * 0xFFFF_FFFF) by (nonlinear_arith)
            requires
                mid <= 0xFFFF_FFFF,
        ;
        if mid * mid <= n {
            lo = mid;
        } else {
            hi = mid;
        }
    }
    lo
}

} // verus!
