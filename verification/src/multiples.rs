use crate::inverse::Inverse;
use crate::rational_point::RationalPoint;
use vstd::arithmetic::div_mod::{lemma_mod_sub_multiples_vanish, lemma_small_mod};
use vstd::prelude::*;

verus! {

impl<T: Inverse> RationalPoint<T> {
    /// Whether sums of multiples of the point are multiples again: the sum
    /// of `j` and of `k` summands exists and is the sum of `j + k` summands.
    /// On the points of an elliptic curve over a field, where the addition is
    /// associative, this holds of every point.
    pub open spec fn additive_on_multiples(self, a: T) -> bool {
        forall|j: nat, k: nat|
            {
                &&& (#[trigger] self.repeated_sum(a, j).add_defined(self.repeated_sum(a, k), a))
                &&& self.repeated_sum(a, j).add_spec(self.repeated_sum(a, k), a)
                    == self.repeated_sum(a, j + k)
            }
    }

    /// Where sums of multiples are multiples, double-and-add started with the
    /// sums of `i` and of `d` summands ends with the sum of `i + d m`.
    proof fn lemma_ladder_on_multiples(self, a: T, i: nat, d: nat, m: nat)
        requires
            self.additive_on_multiples(a),
        ensures
            Self::ladder_defined(self.repeated_sum(a, i), self.repeated_sum(a, d), a, m),
            Self::ladder_spec(self.repeated_sum(a, i), self.repeated_sum(a, d), a, m)
                == self.repeated_sum(a, i + d * m),
        decreases m,
    {
        let acc = self.repeated_sum(a, i);
        let now = self.repeated_sum(a, d);
        if m == 0 {
            assert(d * 0 == 0);
        } else {
            assert(acc.add_defined(now, a));
            assert(now.add_defined(now, a));
            let bit: nat = m % 2;
            let half: nat = m / 2;
            self.lemma_ladder_on_multiples(a, i + d * bit, d + d, half);
            assert(i + d * bit + (d + d) * half == i + d * m) by (nonlinear_arith)
                requires
                    m == 2 * half + bit,
            ;
            assert(d * 1 == d && d * 0 == 0);
        }
    }

    /// Every sum of summands the point at infinity is the point at infinity.
    pub proof fn lemma_multiples_of_infinity(a: T, n: nat)
        ensures
            RationalPoint::<T>::O.repeated_sum(a, n) is O,
            RationalPoint::<T>::O.repeated_defined(a, n),
        decreases n,
    {
        if n > 0 {
            Self::lemma_multiples_of_infinity(a, (n - 1) as nat);
        }
    }

    /// Where sums of multiples are multiples, scalar multiplication adds the
    /// point to itself: the multiple with the factor `n` exists and is the
    /// sum of `n` summands.
    pub proof fn lemma_multiple_is_repeated_sum(self, a: T, n: nat)
        requires
            self.additive_on_multiples(a),
        ensures
            self.multiply_defined(a, n),
            self.multiply_spec(a, n) == self.repeated_sum(a, n),
    {
        match self {
            RationalPoint::O => {
                Self::lemma_multiples_of_infinity(a, n);
            },
            RationalPoint::Point(_, _) => {
                self.lemma_ladder_on_multiples(a, 0, 1, n);
                assert(self.repeated_sum(a, 1) == self) by {
                    assert(self.repeated_sum(a, 0) is O);
                }
                assert(1 * n == n);
            },
        }
    }

    /// The sum of `k` summands, each the sum of `x` summands, is the sum of
    /// `x k` summands.
    pub proof fn lemma_multiples_of_multiple(self, a: T, x: nat, k: nat)
        requires
            self.additive_on_multiples(a),
        ensures
            self.repeated_sum(a, x).repeated_sum(a, k) == self.repeated_sum(a, x * k),
        decreases k,
    {
        if k == 0 {
            assert(x * 0 == 0);
        } else {
            self.lemma_multiples_of_multiple(a, x, (k - 1) as nat);
            let before = self.repeated_sum(a, x * ((k - 1) as nat));
            assert(before.add_defined(self.repeated_sum(a, x), a));
            assert(x * ((k - 1) as nat) + x == x * k) by (nonlinear_arith)
                requires
                    k >= 1,
            ;
        }
    }

    /// Where sums of multiples of a point are multiples, the same holds of
    /// each of its multiples.
    pub proof fn lemma_multiple_is_additive(self, a: T, x: nat)
        requires
            self.additive_on_multiples(a),
        ensures
            self.repeated_sum(a, x).additive_on_multiples(a),
    {
        let q = self.repeated_sum(a, x);
        assert forall|j: nat, k: nat|
            {
                &&& (#[trigger] q.repeated_sum(a, j).add_defined(q.repeated_sum(a, k), a))
                &&& q.repeated_sum(a, j).add_spec(q.repeated_sum(a, k), a) == q.repeated_sum(
                    a,
                    j + k,
                )
            } by {
            self.lemma_multiples_of_multiple(a, x, j);
            self.lemma_multiples_of_multiple(a, x, k);
            self.lemma_multiples_of_multiple(a, x, j + k);
            assert(self.repeated_sum(a, x * j).add_defined(self.repeated_sum(a, x * k), a));
            assert(x * j + x * k == x * (j + k)) by (nonlinear_arith);
        }
    }

    /// Key agreement: where sums of multiples of the point are multiples,
    /// multiplying by `x` and then by `y` gives the multiple with the factor
    /// `x y`, and so the same as multiplying by `y` and then by `x`.
    pub proof fn lemma_key_agreement(self, a: T, x: nat, y: nat)
        requires
            self.additive_on_multiples(a),
        ensures
            self.multiply_defined(a, x),
            self.multiply_spec(a, x).multiply_defined(a, y),
            self.multiply_spec(a, x).multiply_spec(a, y) == self.multiply_spec(a, x * y),
            self.multiply_spec(a, x).multiply_spec(a, y) == self.multiply_spec(a, y).multiply_spec(
                a,
                x,
            ),
    {
        self.lemma_multiple_is_repeated_sum(a, x);
        self.lemma_multiple_is_repeated_sum(a, y);
        self.lemma_multiple_is_repeated_sum(a, x * y);
        self.lemma_multiple_is_additive(a, x);
        self.lemma_multiple_is_additive(a, y);
        self.repeated_sum(a, x).lemma_multiple_is_repeated_sum(a, y);
        self.repeated_sum(a, y).lemma_multiple_is_repeated_sum(a, x);
        self.lemma_multiples_of_multiple(a, x, y);
        self.lemma_multiples_of_multiple(a, y, x);
        assert(x * y == y * x) by (nonlinear_arith);
    }

    /// Where the sum of `n` summands is the point at infinity, factors may be
    /// reduced modulo `n`.
    pub proof fn lemma_multiple_modulo_order(self, a: T, n: nat, k: nat)
        requires
            self.additive_on_multiples(a),
            n > 0,
            self.repeated_sum(a, n) is O,
        ensures
            self.repeated_sum(a, k) == self.repeated_sum(a, k % n),
            self.multiply_spec(a, k) == self.multiply_spec(a, k % n),
        decreases k,
    {
        self.lemma_multiple_is_repeated_sum(a, k);
        self.lemma_multiple_is_repeated_sum(a, k % n);
        if k >= n {
            let rest = (k - n) as nat;
            self.lemma_multiple_modulo_order(a, n, rest);
            assert(self.repeated_sum(a, rest).add_defined(self.repeated_sum(a, n), a));
            assert(rest + n == k);
            assert(rest % n == k % n) by {
                lemma_mod_sub_multiples_vanish(k as int, n as int);
            }
        } else {
            lemma_small_mod(k, n);
        }
    }
}

} // verus!
