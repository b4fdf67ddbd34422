use crate::primality::prime;
use vstd::arithmetic::div_mod::{
    lemma_fundamental_div_mod, lemma_mod_multiples_vanish, lemma_mul_mod_noop_left,
    lemma_mul_mod_noop_right, lemma_small_mod,
};
use vstd::prelude::*;

verus! {

/// A number `u` with `u * a == 1` modulo the prime `p`, for `0 < a < p`,
/// found by descending from `a` to the remainder of `p` by `a`.
pub open spec fn bezout_coefficient(a: nat, p: nat) -> int
    decreases a,
{
    if a <= 1 {
        1
    } else {
        -((p / a) as int) * bezout_coefficient(p % a, p)
    }
}

/// Every number strictly between zero and a prime has an inverse modulo it.
pub proof fn lemma_bezout(a: nat, p: nat)
    requires
        prime(p),
        0 < a < p,
    ensures
        (bezout_coefficient(a, p) * a) % (p as int) == 1,
    decreases a,
{
    if a == 1 {
        lemma_small_mod(1, p);
    } else {
        let q = (p / a) as int;
        let r = p % a;
        assert(r != 0);
        lemma_fundamental_div_mod(p as int, a as int);
        lemma_bezout(r, p);
        let v = bezout_coefficient(r, p);
        // v * r == v * p - v * q * a, so (-q * v) * a == v * r - v * p
        let m = p as int;
        assert((-q * v) * a == m * (-v) + v * r) by (nonlinear_arith)
            requires
                m == a * q + r,
        ;
        lemma_mod_multiples_vanish(-v, v * r, m);
        assert(bezout_coefficient(a, p) == -q * v);
    }
}

/// A prime that divides a product divides one of the factors.
pub proof fn lemma_euclid(a: int, b: int, p: nat)
    requires
        prime(p),
        (a * b) % (p as int) == 0,
    ensures
        a % (p as int) == 0 || b % (p as int) == 0,
{
    let m = p as int;
    let a0 = a % m;
    if a0 != 0 {
        let u = bezout_coefficient(a0 as nat, p);
        lemma_bezout(a0 as nat, p);
        // b == 1 * b == (u * a0) * b == u * (a * b) == 0, all modulo p
        lemma_mul_mod_noop_left(u * a0, b, m);
        assert((u * a0) * b == u * (a0 * b)) by (nonlinear_arith);
        lemma_mul_mod_noop_left(a, b, m);
        lemma_mul_mod_noop_right(u, a0 * b, m);
        assert(u * 0 == 0);
        lemma_small_mod(0, p);
        assert(((u * a0) % m) * b == b) by (nonlinear_arith)
            requires
                (u * a0) % m == 1,
        ;
    }
}

} // verus!
