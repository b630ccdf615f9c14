//! The prime-counting workload.

use vstd::prelude::*;

verus! {

/// `u64::isqrt` returns the square root of its argument, rounded down.
pub assume_specification[ u64::isqrt ](n: u64) -> (r: u64)
    ensures
        r * r <= n,
        n < (r + 1) * (r + 1),
;

/// Has `n` no divisor but 1 and itself?
pub open spec fn is_prime(n: nat) -> bool {
    n >= 2 && forall|d: nat| 2 <= d < n ==> #[trigger] (n % d) != 0
}

/// The number of primes from 3 up to, and not including, `bound`.
pub open spec fn primes_below(bound: nat) -> nat
    decreases bound,
{
    if bound <= 3 {
        0
    } else if is_prime((bound - 1) as nat) {
        primes_below((bound - 1) as nat) + 1
    } else {
        primes_below((bound - 1) as nat)
    }
}

proof fn lemma_no_small_divisor(n: nat, root: nat)
    requires
        n >= 2,
        n < (root + 1) * (root + 1),
        forall|d: nat| 2 <= d <= root ==> #[trigger] (n % d) != 0,
    ensures
        is_prime(n),
{
    assert forall|d: nat| 2 <= d < n implies #[trigger] (n % d) != 0 by {
        if n % d == 0 {
            let e = n / d;
            vstd::arithmetic::div_mod::lemma_fundamental_div_mod(n as int, d as int);
            assert(n == d * e);
            assert(e >= 2) by (nonlinear_arith)
                requires
                    n == d * e,
                    d < n,
                    n >= 2,
            ;
            if d > root {
                assert(e <= root) by (nonlinear_arith)
                    requires
                        n == d * e,
                        d > root,
                        n < (root + 1) * (root + 1),
                ;
                assert(n % e == 0) by {
                    vstd::arithmetic::div_mod::lemma_mod_multiples_basic(d as int, e as int);
                }
            }
        }
    }
}

/// Is `n` prime? Divides by every number up to the square root.
pub fn has_no_divisor(n: u64) -> (r: bool)
    requires
        n >= 2,
    ensures
        r == is_prime(n as nat),
{
    let root: u64 = n.isqrt();
    assert(root < n) by (nonlinear_arith)
        requires
            root * root <= n,
            n >= 2,
    ;
    let mut divisor: u64 = 2;
    while divisor <= root
        invariant
            2 <= divisor <= root + 1 || root < 2 == divisor,
            root < n,
            n >= 2,
            n < (root + 1) * (root + 1),
            forall|d: nat| 2 <= d < divisor ==> #[trigger] (n as nat % d) != 0,
        decreases root + 1 - divisor,
    {
        if n % divisor == 0 {
            assert(n as nat % divisor as nat == 0);
            return false;
        }
        divisor = divisor + 1;
    }
    proof {
        lemma_no_small_divisor(n as nat, root as nat);
    }
    true
}

/// One event of the workload: counts the primes from 3 up to, and not including, `max_prime`.
pub fn count_primes(max_prime: u64) -> (r: u64)
    ensures
        r == primes_below(max_prime as nat),
{
    let mut count: u64 = 0;
    let mut candidate: u64 = 3;
    while candidate < max_prime
        invariant
            3 <= candidate,
            candidate <= max_prime || candidate == 3,
            count == primes_below(candidate as nat),
            count <= candidate,
        decreases max_prime - candidate,
    {
        if has_no_divisor(candidate) {
            count = count + 1;
        }
        candidate = candidate + 1;
    }
    count
}

/// A higher bound never counts fewer primes.
pub proof fn higher_bound_counts_no_fewer(low: nat, high: nat)
    requires
        low <= high,
    ensures
        primes_below(low) <= primes_below(high),
    decreases high - low,
{
    if low < high {
        higher_bound_counts_no_fewer(low, (high - 1) as nat);
    }
}

/// A prime is no product of two numbers above one, and every other number above one is.
pub proof fn primes_are_no_products(n: nat, a: nat, b: nat)
    requires
        n >= 2,
    ensures
        is_prime(n) && a > 1 && b > 1 ==> a * b != n,
        !is_prime(n) ==> exists|d: nat, e: nat| d > 1 && e > 1 && #[trigger] (d * e) == n,
        !is_prime(0) && !is_prime(1),
{
    if is_prime(n) && a > 1 && b > 1 && a * b == n {
        assert(a < n) by (nonlinear_arith)
            requires
                a > 1,
                b > 1,
                a * b == n,
        ;
        assert(n == b * a) by (nonlinear_arith)
            requires
                a * b == n,
        ;
        vstd::arithmetic::div_mod::lemma_mod_multiples_basic(b as int, a as int);
        assert(n % a == 0);
    }
    if !is_prime(n) {
        let d = choose|d: nat| 2 <= d < n && #[trigger] (n % d) == 0;
        let e = n / d;
        vstd::arithmetic::div_mod::lemma_fundamental_div_mod(n as int, d as int);
        assert(d * e == n);
        assert(e > 1) by (nonlinear_arith)
            requires
                d * e == n,
                d < n,
                n >= 2,
        ;
    }
}

/// Primes are counted from 3 on: a higher bound by one counts one more exactly where the number
/// below it is a prime from 3 on.
pub proof fn each_prime_counts_once(bound: nat)
    ensures
        primes_below(bound + 1) == primes_below(bound) + if bound >= 3 && is_prime(bound) {
            1nat
        } else {
            0nat
        },
        primes_below(0) == 0,
{
}

} // verus!
