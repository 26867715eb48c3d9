//! Primality, for the prime-checking session protocol.
//!
//! The service answers whether the number a request carries is prime;
//! trial division up to the square root decides it exactly.

use vstd::prelude::*;

verus! {

/// A prime: at least two, with no divisor strictly between one and
/// itself.
pub open spec fn spec_is_prime(n: nat) -> bool {
    n >= 2 && forall|d: nat| 2 <= d < n ==> #[trigger] (n as int % d as int) != 0
}

/// A composite witness at or below the square root rules out the need
/// to search further.
proof fn lemma_divisor_pair(n: u64, a: u64)
    requires
        2 <= a < n,
        n as int % a as int == 0,
    ensures
        exists|d: u64| 2 <= d < n && #[trigger] (d * d) <= n && n as int % d as int == 0,
{
    let b = n / a;
    assert(n == a * b + n % a) by (nonlinear_arith)
        requires
            a > 0,
            b == n / a,
    ;
    assert(n == a * b);
    assert(2 <= b < n) by (nonlinear_arith)
        requires
            n == a * b,
            2 <= a < n,
            n >= 3,
    ;
    if a * a <= n {
        assert(2 <= a < n && a * a <= n && n as int % a as int == 0);
    } else {
        assert(b * b <= n) by (nonlinear_arith)
            requires
                n == a * b,
                a * a > n,
                b >= 2,
        ;
        assert(n as int % b as int == 0) by (nonlinear_arith)
            requires
                n == a * b,
                b >= 2,
        ;
        assert(2 <= b < n && b * b <= n && n as int % b as int == 0);
    }
}

/// Decides [`spec_is_prime`] by trial division.
pub fn is_prime(n: u64) -> (r: bool)
    ensures
        r == spec_is_prime(n as nat),
{
    if n < 2 {
        return false;
    }
    let mut d: u64 = 2;
    while d <= n / d
        invariant
            2 <= d,
            n >= 2,
            forall|q: u64| 2 <= q < d ==> #[trigger] (n as int % q as int) != 0,
        decreases n - d,
    {
        if n % d == 0 {
            proof {
                assert(d < n) by (nonlinear_arith)
                    requires
                        d <= n / d,
                        n >= 2,
                        d >= 2,
                        n as int % d as int == 0,
                ;
            }
            return false;
        }
        proof {
            assert(2 * d <= n) by (nonlinear_arith)
                requires
                    d <= n / d,
                    d >= 2,
                    n >= 2,
            ;
        }
        d = d + 1;
    }
    proof {
        assert forall|q: nat| 2 <= q < n implies #[trigger] (n as int % q as int) != 0 by {
            if n as int % q as int == 0 {
                lemma_divisor_pair(n, q as u64);
                let w = choose|w: u64|
                    2 <= w < n && #[trigger] (w * w) <= n && n as int % w as int == 0;
                assert(w < d) by (nonlinear_arith)
                    requires
                        w * w <= n,
                        d > n / d,
                        w >= 2,
                        d >= 2,
                ;
            }
        }
    }
    true
}

} // verus!
