use crate::complexification::Complex;
use crate::cubic::{
    lemma_chord_point_on_curve, lemma_chord_slope, lemma_cubic_value, lemma_slope_square,
    lemma_tangent_slope, lemma_three_times, weierstrass,
};
use crate::extension_field::lemma_inverse_in_extension;
use crate::finite_domain::{is_domain, lemma_cancel, lemma_sub_laws};
use crate::identities::{Identity, Zero};
use crate::inverse::{inversion_ready, Inverse};
use crate::modint::{lemma_inverse_in_prime_field, lemma_two_is_not_zero, ModInt};
use crate::polynomial::eval_spec;
use crate::primality::prime;
use crate::rational_point::{chord_spec, two, RationalPoint};
use crate::ring::{
    lemma_add_interchange, lemma_closure, lemma_distrib_right, lemma_mul_neg, lemma_mul_zero,
    lemma_neg_add, lemma_neg_neg, lemma_neg_unique, lemma_neg_zero, lemma_one_mul,
    lemma_zero_add, Ring,
};
use vstd::prelude::*;

verus! {

/// Whether the ring is a field as `inverse` sees it: for every nonzero
/// element `inverse` gives an element, and the product of the two is one.
pub open spec fn is_field<T: Inverse>() -> bool {
    forall|x: T|
        x.wf() && x != T::zero_spec() ==> (#[trigger] x.inverse_spec()) is Some && x.mul_spec(
            x.inverse_spec().unwrap(),
        ) == T::identity_spec()
}

/// A field has no zero divisors.
pub proof fn lemma_field_is_domain<T: Inverse>()
    requires
        is_field::<T>(),
    ensures
        is_domain::<T>(),
{
    assert forall|a: T, b: T|
        a.wf() && b.wf() && #[trigger] a.mul_spec(b) == T::zero_spec() implies a == T::zero_spec()
        || b == T::zero_spec() by {
        if a != T::zero_spec() {
            let inv = a.inverse_spec().unwrap();
            T::lemma_inverse_wf(a);
            // b == 1 b == (inv a) b == inv (a b) == inv 0 == 0
            lemma_one_mul(b);
            T::lemma_mul_comm(a, inv);
            T::lemma_mul_assoc(inv, a, b);
            lemma_mul_zero(inv);
        }
    }
}

/// The integers modulo a prime are a field.
pub proof fn lemma_prime_field<const P: u64>()
    requires
        prime(P as nat),
        ModInt::<P>::modulus_ok(),
    ensures
        is_field::<ModInt<P>>(),
{
    assert forall|x: ModInt<P>| x.wf() && x != ModInt::<P>::zero_spec() implies (
    #[trigger] x.inverse_spec()) is Some && x.mul_spec(x.inverse_spec().unwrap()) == ModInt::<
        P,
    >::identity_spec() by {
        lemma_inverse_in_prime_field(x);
    }
}

/// The pairs over the integers modulo a prime of the form `4k + 3` are a
/// field.
pub proof fn lemma_extension_field<const P: u64>()
    requires
        prime(P as nat),
        P % 4 == 3,
        ModInt::<P>::modulus_ok(),
    ensures
        is_field::<Complex<ModInt<P>>>(),
{
    assert forall|x: Complex<ModInt<P>>|
        x.wf() && x != Complex::<ModInt<P>>::zero_spec() implies (
    #[trigger] x.inverse_spec()) is Some && x.mul_spec(x.inverse_spec().unwrap()) == Complex::<
        ModInt<P>,
    >::identity_spec() by {
        lemma_inverse_in_extension(x);
    }
}

/// `(p - c) + (c - q) == p - q`.
proof fn lemma_telescope<T: Ring>(p: T, c: T, q: T)
    requires
        p.wf(),
        c.wf(),
        q.wf(),
    ensures
        p.sub_spec(c).add_spec(c.sub_spec(q)) == p.sub_spec(q),
{
    lemma_closure::<T>();
    let (nc, nq) = (c.neg_spec(), q.neg_spec());
    T::lemma_sub_def(p, c);
    T::lemma_sub_def(c, q);
    T::lemma_sub_def(p, q);
    // (p + -c) + (c + -q) == p + ((-c + c) + -q) == p + -q
    T::lemma_add_assoc(p, nc, c.add_spec(nq));
    T::lemma_add_assoc(nc, c, nq);
    T::lemma_add_comm(nc, c);
    T::lemma_add_neg(c);
    lemma_zero_add(nq);
}

/// `a - b == -(b - a)`.
proof fn lemma_sub_reversed<T: Ring>(a: T, b: T)
    requires
        a.wf(),
        b.wf(),
    ensures
        a.sub_spec(b) == b.sub_spec(a).neg_spec(),
{
    lemma_closure::<T>();
    T::lemma_sub_def(a, b);
    T::lemma_sub_def(b, a);
    lemma_neg_add(b, a.neg_spec());
    lemma_neg_neg(a);
    T::lemma_add_comm(a, b.neg_spec());
}

/// The rearrangements by which the sum of two points does not depend on
/// their order: `(s - x1) - x2 == (s - x2) - x1` and
/// `(x2 - s) + x2 + x1 == ((x1 - s) + x1 + x2) + (x2 - x1)`.
proof fn lemma_chord_rearranged<T: Ring>(s: T, x1: T, x2: T)
    requires
        s.wf(),
        x1.wf(),
        x2.wf(),
    ensures
        s.sub_spec(x1).sub_spec(x2) == s.sub_spec(x2).sub_spec(x1),
        x2.sub_spec(s).add_spec(x2).add_spec(x1) == x1.sub_spec(s).add_spec(x1).add_spec(
            x2,
        ).add_spec(x2.sub_spec(x1)),
{
    lemma_closure::<T>();
    let (ns, n1, n2) = (s.neg_spec(), x1.neg_spec(), x2.neg_spec());
    // first: s + (-x1 + -x2) == s + (-x2 + -x1)
    T::lemma_sub_def(s, x1);
    T::lemma_sub_def(s, x2);
    T::lemma_sub_def(s.sub_spec(x1), x2);
    T::lemma_sub_def(s.sub_spec(x2), x1);
    T::lemma_add_assoc(s, n1, n2);
    T::lemma_add_assoc(s, n2, n1);
    T::lemma_add_comm(n1, n2);
    // second, right side: ((q + x1) + x2) + (-x1 + x2) == q + (x2 + x2)
    //   == (x1 + x2) + (-s + x2), where q = x1 + -s
    T::lemma_sub_def(x1, s);
    T::lemma_sub_def(x2, s);
    T::lemma_sub_def(x2, x1);
    let q = x1.add_spec(ns);
    T::lemma_add_comm(x2, n1);
    lemma_add_interchange(q.add_spec(x1), x2, n1, x2);
    T::lemma_add_assoc(q, x1, n1);
    T::lemma_add_neg(x1);
    T::lemma_add_zero(q);
    lemma_add_interchange(x1, ns, x2, x2);
    // left side: ((x2 + -s) + x2) + x1 == x1 + (x2 + (-s + x2)) == (x1 + x2) + (-s + x2)
    let l = x2.add_spec(ns).add_spec(x2);
    T::lemma_add_comm(l, x1);
    T::lemma_add_assoc(x2, ns, x2);
    T::lemma_add_assoc(x1, x2, ns.add_spec(x2));
}

/// `(c + (y2 - y1)) - y2 == c - y1`.
proof fn lemma_shift_ordinate<T: Ring>(c: T, y1: T, y2: T)
    requires
        c.wf(),
        y1.wf(),
        y2.wf(),
    ensures
        c.add_spec(y2.sub_spec(y1)).sub_spec(y2) == c.sub_spec(y1),
{
    lemma_closure::<T>();
    let (n1, n2) = (y1.neg_spec(), y2.neg_spec());
    T::lemma_sub_def(y2, y1);
    T::lemma_sub_def(c.add_spec(y2.sub_spec(y1)), y2);
    T::lemma_sub_def(c, y1);
    // (c + (y2 + -y1)) + -y2 == c + ((y2 + -y2) + -y1) == c + -y1
    T::lemma_add_assoc(c, y2.add_spec(n1), n2);
    T::lemma_add_assoc(y2, n1, n2);
    T::lemma_add_comm(n1, n2);
    T::lemma_add_assoc(y2, n2, n1);
    T::lemma_add_neg(y2);
    lemma_zero_add(n1);
}

/// In a domain, elements with equal squares are equal or negatives of each
/// other.
pub proof fn lemma_equal_squares<T: Ring>(y1: T, y2: T)
    requires
        is_domain::<T>(),
        y1.wf(),
        y2.wf(),
        y1.mul_spec(y1) == y2.mul_spec(y2),
    ensures
        y1 == y2 || y1 == y2.neg_spec(),
{
    lemma_closure::<T>();
    y1.lemma_constants_exist();
    let (d, s) = (y1.sub_spec(y2), y1.add_spec(y2));
    // (y1 - y2)(y1 + y2) == (y1 y1 - y2 y1) + (y1 y2 - y2 y2) == y1 y1 - y2 y2 == 0
    T::lemma_distrib(d, y1, y2);
    lemma_distrib_right(y1, y2, y1);
    lemma_distrib_right(y1, y2, y2);
    T::lemma_mul_comm(y1, y2);
    let (p, c, q) = (y1.mul_spec(y1), y1.mul_spec(y2), y2.mul_spec(y2));
    lemma_telescope(p, c, q);
    lemma_sub_laws(p, p);
    assert(d.mul_spec(s) == T::zero_spec());
    if d == T::zero_spec() {
        lemma_sub_laws(y1, y2);
        lemma_zero_add(y2);
    } else {
        T::lemma_add_comm(y1, y2);
        lemma_neg_unique(y2, y1);
    }
}

impl<T: Inverse> RationalPoint<T> {
    /// Whether the point lies on the curve `y^2 = f(x)`, where `f` is given
    /// by its coefficients; the point at infinity lies on every curve.
    pub open spec fn on_curve(self, f: Seq<T>) -> bool {
        match self {
            RationalPoint::O => true,
            RationalPoint::Point(x, y) => y.mul_spec(y) == eval_spec(f, x),
        }
    }

    /// Over a field in which `1 + 1` is not zero, the sum of two points of
    /// one curve always exists: the branches of the addition leave no
    /// denominator that is zero.
    pub proof fn lemma_sum_exists_on_curve(self, rhs: Self, a: T, f: Seq<T>)
        requires
            is_field::<T>(),
            two::<T>() != T::zero_spec(),
            self.wf(),
            rhs.wf(),
            self.on_curve(f),
            rhs.on_curve(f),
        ensures
            self.add_defined(rhs, a),
    {
        lemma_field_is_domain::<T>();
        if let (RationalPoint::Point(x1, y1), RationalPoint::Point(x2, y2)) = (self, rhs) {
            x1.lemma_constants_exist();
            lemma_closure::<T>();
            let o = T::zero_spec();
            if x1 == x2 {
                if y1 != y2.neg_spec() {
                    lemma_equal_squares(y1, y2);
                    let den = two::<T>().mul_spec(y1);
                    if den == o {
                        assert(y1 == o);
                        lemma_neg_zero::<T>();
                        assert(false);
                    }
                }
            } else {
                let den = x2.sub_spec(x1);
                if den == o {
                    lemma_sub_laws(x2, x1);
                    lemma_zero_add(x1);
                    assert(false);
                }
            }
        }
    }

    /// Over a field in which `1 + 1` is not zero, the addition of points of
    /// one curve is commutative.
    pub proof fn lemma_add_commutes_on_curve(self, rhs: Self, a: T, f: Seq<T>)
        requires
            is_field::<T>(),
            two::<T>() != T::zero_spec(),
            self.wf(),
            rhs.wf(),
            a.wf(),
            self.on_curve(f),
            rhs.on_curve(f),
        ensures
            self.add_spec(rhs, a) == rhs.add_spec(self, a),
    {
        lemma_field_is_domain::<T>();
        if let (RationalPoint::Point(x1, y1), RationalPoint::Point(x2, y2)) = (self, rhs) {
            x1.lemma_constants_exist();
            lemma_closure::<T>();
            let o = T::zero_spec();
            if x1 == x2 {
                if y1 == y2.neg_spec() {
                    lemma_neg_neg(y2);
                } else {
                    lemma_equal_squares(y1, y2);
                    assert(y1 == y2);
                }
            } else {
                let (u, v) = (y2.sub_spec(y1), x2.sub_spec(x1));
                let (nu, nv) = (y1.sub_spec(y2), x1.sub_spec(x2));
                lemma_sub_reversed(y1, y2);
                lemma_sub_reversed(x1, x2);
                if v == o {
                    lemma_sub_laws(x2, x1);
                    lemma_zero_add(x1);
                    assert(false);
                }
                if nv == o {
                    lemma_sub_laws(x1, x2);
                    lemma_zero_add(x2);
                    assert(false);
                }
                let iv = v.inverse_spec().unwrap();
                let iw = nv.inverse_spec().unwrap();
                T::lemma_inverse_wf(v);
                T::lemma_inverse_wf(nv);
                // (-v)(-iv) == v iv == 1 == (-v) iw, so iw == -iv
                lemma_mul_neg(v.neg_spec(), iv);
                lemma_mul_neg(v, iv);
                lemma_neg_neg(v.mul_spec(iv));
                T::lemma_mul_comm(nv, iw);
                T::lemma_mul_comm(nv, iv.neg_spec());
                lemma_cancel(iw, iv.neg_spec(), nv);
                // the slopes agree: (-u)(-iv) == u iv
                lemma_mul_neg(u.neg_spec(), iv);
                lemma_mul_neg(u, iv);
                lemma_neg_neg(u.mul_spec(iv));
                let m = u.mul_spec(iv);
                assert(nu.mul_spec(iw) == m);
                let mm = m.mul_spec(m);
                let left = x1.sub_spec(mm).add_spec(x1).add_spec(x2);
                let right = x2.sub_spec(mm).add_spec(x2).add_spec(x1);
                lemma_chord_rearranged(mm, x1, x2);
                assert(right == left.add_spec(v));
                // m v == u (iv v) == u
                T::lemma_distrib(m, left, v);
                T::lemma_mul_assoc(u, iv, v);
                T::lemma_mul_comm(iv, v);
                T::lemma_mul_one(u);
                let c = m.mul_spec(left);
                assert(m.mul_spec(right) == c.add_spec(y2.sub_spec(y1)));
                lemma_shift_ordinate(c, y1, y2);
                assert(chord_spec(m, x1, y1, x2) == chord_spec(m, x2, y2, x1));
            }
        }
    }
}

impl<T: Inverse> RationalPoint<T> {
    /// Over a field in which `1 + 1` is not zero, the sum of two points of
    /// the curve `y^2 = x^3 + a x + b` exists and is a point of the curve.
    pub proof fn lemma_sum_on_curve(self, rhs: Self, a: T, b: T)
        requires
            is_field::<T>(),
            two::<T>() != T::zero_spec(),
            self.wf(),
            rhs.wf(),
            a.wf(),
            b.wf(),
            self.on_curve(weierstrass(a, b)),
            rhs.on_curve(weierstrass(a, b)),
        ensures
            self.add_defined(rhs, a),
            self.add_spec(rhs, a).wf(),
            self.add_spec(rhs, a).on_curve(weierstrass(a, b)),
    {
        lemma_field_is_domain::<T>();
        self.lemma_sum_exists_on_curve(rhs, a, weierstrass(a, b));
        self.lemma_add_wf(rhs, a);
        if let (RationalPoint::Point(x1, y1), RationalPoint::Point(x2, y2)) = (self, rhs) {
            if !(x1 == x2 && y1 == y2.neg_spec()) {
                x1.lemma_constants_exist();
                lemma_closure::<T>();
                lemma_cubic_value(x1, a, b);
                lemma_cubic_value(x2, a, b);
                let o = T::zero_spec();
                let den = Self::denominator_spec(x1, y1, x2);
                let num = Self::numerator_spec(x1, y1, x2, y2, a);
                let inv = den.inverse_spec().unwrap();
                T::lemma_inverse_wf(den);
                let m = num.mul_spec(inv);
                let mm = m.mul_spec(m);
                let x3 = mm.sub_spec(x1).sub_spec(x2);
                let d = x3.sub_spec(x1);
                let e = x2.sub_spec(x1);
                lemma_three_times(x1);
                lemma_three_times(y1);
                if x1 == x2 {
                    // the two points are one, and the line is the tangent
                    lemma_sub_laws(x1, x1);
                    lemma_mul_zero(d);
                    T::lemma_add_zero(y1.add_spec(y1).mul_spec(m));
                    if den == o {
                        lemma_equal_squares(y1, y2);
                        lemma_neg_zero::<T>();
                        assert(false);
                    }
                    lemma_tangent_slope(den, num, inv);
                } else {
                    // the line is the chord: it passes through the second point
                    if e == o {
                        lemma_sub_laws(x2, x1);
                        lemma_zero_add(x1);
                        assert(false);
                    }
                    let u = y2.sub_spec(y1);
                    T::lemma_mul_assoc(u, inv, e);
                    T::lemma_mul_comm(inv, e);
                    T::lemma_mul_one(u);
                    lemma_sub_laws(y2, y1);
                    T::lemma_add_comm(u, y1);
                    lemma_sub_laws(x2, x1);
                    T::lemma_add_comm(e, x1);
                    lemma_slope_square(mm, x1, x2);
                    lemma_chord_slope(x1, y1, m, d, e, a, b);
                }
                lemma_chord_point_on_curve(m, x1, y1, x2, a, b);
                let sum = chord_spec(m, x1, y1, x2);
                assert(self.add_spec(rhs, a) == sum);
                if let RationalPoint::Point(sx, sy) = sum {
                    lemma_cubic_value(sx, a, b);
                }
            }
        }
    }

    /// Over a field in which `1 + 1` is not zero, all sums of summands a
    /// point of the curve exist and are points of the curve.
    pub proof fn lemma_repeated_sums_on_curve(self, a: T, b: T, n: nat)
        requires
            is_field::<T>(),
            two::<T>() != T::zero_spec(),
            self.wf(),
            a.wf(),
            b.wf(),
            self.on_curve(weierstrass(a, b)),
        ensures
            self.repeated_defined(a, n),
            self.repeated_sum(a, n).wf(),
            self.repeated_sum(a, n).on_curve(weierstrass(a, b)),
        decreases n,
    {
        if n > 0 {
            self.lemma_repeated_sums_on_curve(a, b, (n - 1) as nat);
            self.repeated_sum(a, (n - 1) as nat).lemma_sum_on_curve(self, a, b);
        }
    }

    /// Over a field in which `1 + 1` is not zero, double-and-add started
    /// with points of the curve runs through and ends with one.
    proof fn lemma_ladder_on_curve(acc: Self, now: Self, a: T, b: T, m: nat)
        requires
            is_field::<T>(),
            two::<T>() != T::zero_spec(),
            acc.wf(),
            now.wf(),
            a.wf(),
            b.wf(),
            acc.on_curve(weierstrass(a, b)),
            now.on_curve(weierstrass(a, b)),
        ensures
            Self::ladder_defined(acc, now, a, m),
            Self::ladder_spec(acc, now, a, m).wf(),
            Self::ladder_spec(acc, now, a, m).on_curve(weierstrass(a, b)),
        decreases m,
    {
        if m > 0 {
            acc.lemma_sum_on_curve(now, a, b);
            now.lemma_sum_on_curve(now, a, b);
            let next = if m % 2 == 1 {
                acc.add_spec(now, a)
            } else {
                acc
            };
            Self::lemma_ladder_on_curve(next, now.add_spec(now, a), a, b, m / 2);
        }
    }

    /// Over a field in which `1 + 1` is not zero, every multiple of a point
    /// of the curve exists and is a point of the curve: for such a point
    /// what `multiply_rational_point` asks for holds.
    pub proof fn lemma_multiple_on_curve(self, a: T, b: T, n: nat)
        requires
            is_field::<T>(),
            two::<T>() != T::zero_spec(),
            self.wf(),
            a.wf(),
            b.wf(),
            self.on_curve(weierstrass(a, b)),
        ensures
            self.multiply_defined(a, n),
            self.multiply_spec(a, n).wf(),
            self.multiply_spec(a, n).on_curve(weierstrass(a, b)),
    {
        Self::lemma_ladder_on_curve(RationalPoint::O, self, a, b, n);
    }
}

/// Over a prime of the form `4k + 3` the pairs are a field in which
/// `1 + 1` is not zero and every well-formed element may be handed to
/// `inverse`: all that the addition of points of a curve asks of its
/// coordinates.
pub proof fn lemma_extension_carries_curves<const P: u64>()
    requires
        prime(P as nat),
        P % 4 == 3,
        ModInt::<P>::modulus_ok(),
    ensures
        is_field::<Complex<ModInt<P>>>(),
        two::<Complex<ModInt<P>>>() != Complex::<ModInt<P>>::zero_spec(),
        inversion_ready::<Complex<ModInt<P>>>(),
{
    lemma_extension_field::<P>();
    lemma_two_is_not_zero::<P>();
    let p = P as int;
    assert(P != 0x1_0000_0000) by {
        if P == 0x1_0000_0000 {
            assert(0x1_0000_0000nat % 2 == 0);
        }
    }
    assert(2 <= p * p <= u64::MAX) by (nonlinear_arith)
        requires
            3 <= p <= 0xFFFF_FFFF,
    ;
}

} // verus!
