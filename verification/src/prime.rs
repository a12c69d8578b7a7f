//! Primality of natural numbers, and a test for 64-bit candidates that
//! decides it by trial division over the numbers of the form `6k - 1` and
//! `6k + 1`.

use vstd::prelude::*;
use crate::sqrt::{integer_sqrt, is_floor_sqrt};

verus! {

/// `d` is a positive divisor of `n`.
pub open spec fn divides(d: nat, n: nat) -> bool {
    d > 0 && n % d == 0
}

/// `n` is prime: greater than 1, with no positive divisor but 1 and itself.
pub open spec fn is_prime_number(n: nat) -> bool {
    n > 1 && forall|d: nat| #[trigger] divides(d, n) ==> d == 1 || d == n
}

/// No number in `[2, bound)` divides `n`.
pub open spec fn no_divisor_below(n: nat, bound: nat) -> bool {
    forall|d: nat| 2 <= d < bound ==> !#[trigger] divides(d, n)
}

/// A divisor of a positive number is at most that number.
pub proof fn lemma_divisor_at_most(d: nat, n: nat)
    requires
        divides(d, n),
        n > 0,
    ensures
        d <= n,
{
    if d > n {
        vstd::arithmetic::div_mod::lemma_small_mod(n, d);
    }
}

/// A divisor comes with a cofactor: `n == d * (n / d)`, and the cofactor
/// divides `n` too.
pub proof fn lemma_cofactor(d: nat, n: nat)
    requires
        divides(d, n),
        n > 0,
    ensures
        n == d * (n / d),
        n / d > 0,
        divides(n / d, n),
{
    let q = n / d;
    vstd::arithmetic::div_mod::lemma_fundamental_div_mod(n as int, d as int);
    if q == 0 {
        assert(d * q == 0) by (nonlinear_arith)
            requires
                q == 0,
        ;
    }
    assert(n == q * d) by (nonlinear_arith)
        requires
            n == d * q,
    ;
    vstd::arithmetic::div_mod::lemma_mod_multiples_basic(d as int, q as int);
}

/// Divisibility is transitive.
pub proof fn lemma_divides_transitive(a: nat, b: nat, c: nat)
    requires
        divides(a, b),
        divides(b, c),
    ensures
        divides(a, c),
{
    let x = b / a;
    let y = c / b;
    vstd::arithmetic::div_mod::lemma_fundamental_div_mod(b as int, a as int);
    vstd::arithmetic::div_mod::lemma_fundamental_div_mod(c as int, b as int);
    assert(c == (y * x) * a) by (nonlinear_arith)
        requires
            b == a * x,
            c == b * y,
    ;
    vstd::arithmetic::div_mod::lemma_mod_multiples_basic((y * x) as int, a as int);
}

/// A number is prime exactly when it exceeds 1 and nothing in `[2, n)`
/// divides it.
pub proof fn lemma_prime_iff_no_divisor_below(n: nat)
    ensures
        is_prime_number(n) <==> n > 1 && no_divisor_below(n, n),
{
    if n > 1 && no_divisor_below(n, n) {
        assert forall|d: nat| #[trigger] divides(d, n) implies d == 1 || d == n by {
            lemma_divisor_at_most(d, n);
        }
    }
}

/// Trial division may stop at the square root: when nothing in `[2, r]`
/// divides `n`, with `r` the integer square root of `n`, nothing in `[2, n)`
/// does.
pub proof fn lemma_search_to_sqrt_suffices(n: nat, r: nat)
    requires
        n > 1,
        is_floor_sqrt(r, n),
        no_divisor_below(n, r + 1),
    ensures
        is_prime_number(n),
{
    assert forall|d: nat| 2 <= d < n implies !#[trigger] divides(d, n) by {
        if divides(d, n) {
            // `d` lies above `r`, so its cofactor `q` cannot: `d * q`
            // would exceed `n`. And `q` is not 1, since `d < n`.
            let q = n / d;
            lemma_cofactor(d, n);
            if q > r {
                assert(d * q >= (r + 1) * (r + 1)) by (nonlinear_arith)
                    requires
                        d >= r + 1,
                        q >= r + 1,
                ;
            }
            if q < 2 {
                assert(d * q == d) by (nonlinear_arith)
                    requires
                        q == 1,
                ;
            }
            assert(2 <= q <= r && divides(q, n));
        }
    }
    lemma_prime_iff_no_divisor_below(n);
}

/// Neither 0 nor 1 is prime.
pub proof fn lemma_zero_and_one_not_prime()
    ensures
        !is_prime_number(0),
        !is_prime_number(1),
{
}

/// 2 and 3 are prime.
pub proof fn lemma_two_and_three_prime()
    ensures
        is_prime_number(2),
        is_prime_number(3),
{
    lemma_prime_iff_no_divisor_below(2);
    lemma_prime_iff_no_divisor_below(3);
}

/// A number with a divisor strictly between 1 and itself is not prime.
pub proof fn lemma_proper_divisor_not_prime(d: nat, n: nat)
    requires
        1 < d < n,
        n % d == 0,
    ensures
        !is_prime_number(n),
{
    assert(divides(d, n));
}

/// Every even number greater than 2 is composite.
pub proof fn lemma_even_above_two_not_prime(n: nat)
    requires
        n > 2,
        n % 2 == 0,
    ensures
        !is_prime_number(n),
{
    lemma_proper_divisor_not_prime(2, n);
}

/// Two verdicts that each agree with the definition of primality for the
/// same candidate are equal: the verdict is a function of the candidate
/// alone.
pub proof fn lemma_verdict_determined_by_candidate(n: u64, first: bool, second: bool)
    requires
        first == is_prime_number(n as nat),
        second == is_prime_number(n as nat),
    ensures
        first == second,
{
}

/// A multiple of 2 or 3 does not divide a number that is coprime to 6.
proof fn lemma_multiple_of_two_or_three_skipped(d: nat, n: nat)
    requires
        d > 0,
        d % 2 == 0 || d % 3 == 0,
        n % 2 != 0,
        n % 3 != 0,
    ensures
        !divides(d, n),
{
    if divides(d, n) {
        if d % 2 == 0 {
            lemma_divides_transitive(2, d, n);
        } else {
            lemma_divides_transitive(3, d, n);
        }
    }
}

/// Decides whether `n` is prime.
///
/// After the candidates up to 3 and the multiples of 2 and 3 are settled,
/// the possible divisors `i` and `i + 2` are tried for `i = 5, 11, 17, ...`
/// up to the integer square root of `n`.
pub fn is_prime(n: u64) -> (verdict: bool)
    ensures
        verdict == is_prime_number(n as nat),
        n <= 1 ==> !verdict,
        n > 2 && n % 2 == 0 ==> !verdict,
{
    if n <= 1 {
        return false;
    }
    if n <= 3 {
        proof {
            lemma_two_and_three_prime();
        }
        return true;
    }
    if n % 2 == 0 || n % 3 == 0 {
        proof {
            if n % 2 == 0 {
                lemma_proper_divisor_not_prime(2, n as nat);
            } else {
                lemma_proper_divisor_not_prime(3, n as nat);
            }
        }
        return false;
    }
    let limit: u64 = integer_sqrt(n);
    let mut i: u64 = 5;
    proof {
        assert forall|d: nat| 2 <= d < 5 implies !#[trigger] divides(d, n as nat) by {
            if d == 4 {
                lemma_multiple_of_two_or_three_skipped(4, n as nat);
            }
        }
    }
    while i <= limit
        invariant
            n > 3,
            n % 2 != 0,
            n % 3 != 0,
            is_floor_sqrt(limit as nat, n as nat),
            limit <= 0xFFFF_FFFF,
            5 <= i <= limit + 6,
            i % 6 == 5,
            no_divisor_below(n as nat, i as nat),
        decreases limit + 6 - i,
    {
        proof {
            assert(limit * limit >= 5 * limit) by (nonlinear_arith)
                requires
                    limit >= 5,
            ;
        }
        if n % i == 0 || n % (i + 2) == 0 {
            proof {
                if n % i == 0 {
                    lemma_proper_divisor_not_prime(i as nat, n as nat);
                } else {
                    lemma_proper_divisor_not_prime((i + 2) as nat, n as nat);
                }
            }
            return false;
        }
        proof {
            assert forall|d: nat| 2 <= d < i + 6 implies !#[trigger] divides(d, n as nat) by {
                if d >= i && d != i && d != i + 2 {
                    lemma_multiple_of_two_or_three_skipped(d, n as nat);
                }
            }
        }
        i += 6;
    }
    proof {
        lemma_search_to_sqrt_suffices(n as nat, limit as nat);
    }
    true
}

} // verus!
