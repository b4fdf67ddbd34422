use vstd::arithmetic::div_mod::{
    lemma_fundamental_div_mod, lemma_mod_multiples_basic, lemma_small_mod,
};
use vstd::prelude::*;

verus! {

/// Whether a number is prime: at least two, and divisible by no number
/// strictly between one and itself.
pub open spec fn prime(n: nat) -> bool {
    n >= 2 && forall|d: nat| 1 < d < n ==> #[trigger] (n % d) != 0
}

/// An odd number has no even divisor.
proof fn lemma_odd_no_even_divisor(n: nat, e: nat)
    requires
        n % 2 == 1,
        e > 0,
        e % 2 == 0,
    ensures
        n % e != 0,
{
    if n % e == 0 {
        lemma_fundamental_div_mod(n as int, e as int);
        lemma_fundamental_div_mod(e as int, 2);
        let q = n as int / e as int;
        let h = e as int / 2;
        assert(n == (2 * h) * q);
        assert((2 * h) * q == 2 * (h * q)) by (nonlinear_arith);
        assert(n % 2 == 0) by {
            lemma_mod_multiples_basic(h * q, 2);
            assert((h * q) * 2 == 2 * (h * q));
        }
    }
}

/// A number without a divisor from two up to `d`, where `d * d >= n`, has no
/// divisor at all between one and itself.
proof fn lemma_no_small_divisor_is_prime(n: nat, d: nat)
    requires
        n >= 2,
        d * d >= n,
        forall|e: nat| 1 < e <= d && e < n ==> #[trigger] (n % e) != 0,
    ensures
        prime(n),
{
    assert forall|e: nat| 1 < e < n implies #[trigger] (n % e) != 0 by {
        if n % e == 0 {
            lemma_fundamental_div_mod(n as int, e as int);
            let q = (n / e) as nat;
            assert(n == e * q);
            assert(1 < q < n) by (nonlinear_arith)
                requires
                    n == e * q,
                    1 < e < n,
            ;
            assert(n % q == 0) by {
                lemma_mod_multiples_basic(e as int, q as int);
            }
            assert(e <= d || q <= d) by (nonlinear_arith)
                requires
                    n == e * q,
                    d * d >= n,
            ;
        }
    }
}

/// Primality test by trial division with the odd numbers from three up to
/// the square root.
pub fn is_prime(n: u64) -> (b: bool)
    ensures
        b == prime(n as nat),
{
    if n == 2 {
        assert(prime(2)) by {
            assert forall|d: nat| 1 < d < 2 implies #[trigger] (2nat % d) != 0 by {}
        }
        return true;
    }
    if n % 2 == 0 {
        assert(!prime(n as nat)) by {
            if n >= 2 {
                assert(n as nat % 2 == 0);
            }
        }
        return false;
    }
    if n == 0 || n == 1 {
        return false;
    }
    let mut i: u64 = 0;
    while i < n
        invariant
            n >= 3,
            n % 2 == 1,
            i <= n,
            i > 0 ==> (1 + 2 * i) * (1 + 2 * i) < n,
            forall|e: nat| 1 < e < 3 + 2 * i && e < n ==> #[trigger] (n as nat % e) != 0,
        decreases n - i,
    {
        // the square of `3 + 2 i` may pass 64 bits, but not 128
        assert(3 + 2 * i <= 0x1_0000_0001) by (nonlinear_arith)
            requires
                i > 0 ==> (1 + 2 * i) * (1 + 2 * i) < n,
                n <= u64::MAX,
                i >= 0,
        ;
        assert((3 + 2 * i) * (3 + 2 * i) <= u128::MAX) by (nonlinear_arith)
            requires
                0 <= 3 + 2 * i <= 0x1_0000_0001,
        ;
        let d: u64 = 3 + 2 * i;
        if n != d && n % d == 0 {
            proof {
                if d > n {
                    lemma_small_mod(n as nat, d as nat);
                }
                assert(n as nat % (d as nat) == 0);
            }
            return false;
        }
        proof {
            assert forall|e: nat| 1 < e < 3 + 2 * (i + 1) && e < n implies #[trigger] (n as nat
                % e) != 0 by {
                if e == d + 1 {
                    lemma_odd_no_even_divisor(n as nat, e);
                }
            }
        }
        if (d as u128) * (d as u128) >= n as u128 {
            proof {
                lemma_no_small_divisor_is_prime(n as nat, d as nat);
            }
            return true;
        }
        i += 1;
    }
    proof {
        assert forall|e: nat| 1 < e < n implies #[trigger] (n as nat % e) != 0 by {}
    }
    true
}

} // verus!
