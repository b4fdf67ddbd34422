use crate::identities::{Identity, Zero};
use vstd::prelude::*;

verus! {

/// Arithmetic of a commutative ring with identity.
///
/// Every element type carries its own mathematical model: the `*_spec`
/// functions say what the operations compute, and the proof functions state
/// the laws of a ring for well-formed elements. Generic algorithms and their
/// proofs rest on these laws alone.
pub trait Ring: Zero + Identity + Copy {
    /// Whether a value is a valid element (a canonical representative).
    spec fn wf(self) -> bool;

    /// The sum, as a mathematical value.
    spec fn add_spec(self, rhs: Self) -> Self;

    /// The difference, as a mathematical value.
    spec fn sub_spec(self, rhs: Self) -> Self;

    /// The product, as a mathematical value.
    spec fn mul_spec(self, rhs: Self) -> Self;

    /// The negative, as a mathematical value.
    spec fn neg_spec(self) -> Self;

    /// Addition.
    fn add(self, rhs: Self) -> (r: Self)
        requires
            self.wf(),
            rhs.wf(),
        ensures
            r == self.add_spec(rhs),
            r.wf(),
    ;

    /// Subtraction.
    fn sub(self, rhs: Self) -> (r: Self)
        requires
            self.wf(),
            rhs.wf(),
        ensures
            r == self.sub_spec(rhs),
            r.wf(),
    ;

    /// Multiplication.
    fn mul(self, rhs: Self) -> (r: Self)
        requires
            self.wf(),
            rhs.wf(),
        ensures
            r == self.mul_spec(rhs),
            r.wf(),
    ;

    /// The negative.
    fn neg(self) -> (r: Self)
        requires
            self.wf(),
        ensures
            r == self.neg_spec(),
            r.wf(),
    ;

    /// Adds to the element in place.
    fn add_assign(&mut self, rhs: Self)
        requires
            old(self).wf(),
            rhs.wf(),
        ensures
            *final(self) == old(self).add_spec(rhs),
            final(self).wf(),
    ;

    /// Subtracts from the element in place.
    fn sub_assign(&mut self, rhs: Self)
        requires
            old(self).wf(),
            rhs.wf(),
        ensures
            *final(self) == old(self).sub_spec(rhs),
            final(self).wf(),
    ;

    /// Multiplies the element in place.
    fn mul_assign(&mut self, rhs: Self)
        requires
            old(self).wf(),
            rhs.wf(),
        ensures
            *final(self) == old(self).mul_spec(rhs),
            final(self).wf(),
    ;

    /// Equality of elements; on values of this type it is equality of the
    /// mathematical values.
    fn equals(&self, rhs: &Self) -> (b: bool)
        ensures
            b == (*self == *rhs),
    ;

    /// A well-formed element exists only where the constants do.
    proof fn lemma_wf_has_constants(x: Self)
        requires
            x.wf(),
        ensures
            Self::has_zero(),
            Self::has_identity(),
    ;

    /// The constants come together and are well formed.
    proof fn lemma_constants()
        requires
            Self::has_zero() || Self::has_identity(),
        ensures
            Self::has_zero(),
            Self::has_identity(),
            Self::zero_spec().wf(),
            Self::identity_spec().wf(),
    ;

    /// The operations stay within the well-formed elements.
    proof fn lemma_closed(a: Self, b: Self)
        requires
            a.wf(),
            b.wf(),
        ensures
            a.add_spec(b).wf(),
            a.sub_spec(b).wf(),
            a.mul_spec(b).wf(),
            a.neg_spec().wf(),
    ;

    /// Addition is commutative.
    proof fn lemma_add_comm(a: Self, b: Self)
        requires
            a.wf(),
            b.wf(),
        ensures
            a.add_spec(b) == b.add_spec(a),
    ;

    /// Addition is associative.
    proof fn lemma_add_assoc(a: Self, b: Self, c: Self)
        requires
            a.wf(),
            b.wf(),
            c.wf(),
        ensures
            a.add_spec(b).add_spec(c) == a.add_spec(b.add_spec(c)),
    ;

    /// Zero is neutral for the addition.
    proof fn lemma_add_zero(a: Self)
        requires
            a.wf(),
        ensures
            a.add_spec(Self::zero_spec()) == a,
    ;

    /// An element and its negative add up to zero.
    proof fn lemma_add_neg(a: Self)
        requires
            a.wf(),
        ensures
            a.add_spec(a.neg_spec()) == Self::zero_spec(),
    ;

    /// Subtracting is adding the negative.
    proof fn lemma_sub_def(a: Self, b: Self)
        requires
            a.wf(),
            b.wf(),
        ensures
            a.sub_spec(b) == a.add_spec(b.neg_spec()),
    ;

    /// Multiplication is commutative.
    proof fn lemma_mul_comm(a: Self, b: Self)
        requires
            a.wf(),
            b.wf(),
        ensures
            a.mul_spec(b) == b.mul_spec(a),
    ;

    /// Multiplication is associative.
    proof fn lemma_mul_assoc(a: Self, b: Self, c: Self)
        requires
            a.wf(),
            b.wf(),
            c.wf(),
        ensures
            a.mul_spec(b).mul_spec(c) == a.mul_spec(b.mul_spec(c)),
    ;

    /// One is neutral for the multiplication.
    proof fn lemma_mul_one(a: Self)
        requires
            a.wf(),
        ensures
            a.mul_spec(Self::identity_spec()) == a,
    ;

    /// Multiplication distributes over addition.
    proof fn lemma_distrib(a: Self, b: Self, c: Self)
        requires
            a.wf(),
            b.wf(),
            c.wf(),
        ensures
            a.mul_spec(b.add_spec(c)) == a.mul_spec(b).add_spec(a.mul_spec(c)),
    ;

    /// Where there is a well-formed element, the constants exist and are
    /// well formed.
    proof fn lemma_constants_exist(self)
        requires
            self.wf(),
        ensures
            Self::has_zero(),
            Self::has_identity(),
            Self::zero_spec().wf(),
            Self::identity_spec().wf(),
    {
        Self::lemma_wf_has_constants(self);
        Self::lemma_constants();
    }
}

/// Whether all elements of a sequence are well formed.
pub open spec fn all_wf<T: Ring>(s: Seq<T>) -> bool {
    forall|i: int| 0 <= i < s.len() ==> (#[trigger] s[i]).wf()
}

/// The `n`-th power of `x`: the product of `n` factors `x`.
pub open spec fn ring_pow<R: Ring>(x: R, n: nat) -> R
    decreases n,
{
    if n == 0 {
        R::identity_spec()
    } else {
        x.mul_spec(ring_pow(x, (n - 1) as nat))
    }
}

/// Powers of a well-formed element are well formed.
pub proof fn lemma_pow_wf<R: Ring>(x: R, n: nat)
    requires
        x.wf(),
    ensures
        ring_pow(x, n).wf(),
    decreases n,
{
    R::lemma_wf_has_constants(x);
    R::lemma_constants();
    if n > 0 {
        lemma_pow_wf(x, (n - 1) as nat);
        R::lemma_closed(x, ring_pow(x, (n - 1) as nat));
    }
}

/// One is a left identity as well.
pub proof fn lemma_one_mul<R: Ring>(a: R)
    requires
        a.wf(),
    ensures
        R::identity_spec().mul_spec(a) == a,
{
    R::lemma_wf_has_constants(a);
    R::lemma_constants();
    R::lemma_mul_comm(R::identity_spec(), a);
    R::lemma_mul_one(a);
}

/// Exponents add: `x^(m+n) == x^m * x^n`.
pub proof fn lemma_pow_add<R: Ring>(x: R, m: nat, n: nat)
    requires
        x.wf(),
    ensures
        ring_pow(x, m + n) == ring_pow(x, m).mul_spec(ring_pow(x, n)),
    decreases m,
{
    lemma_pow_wf(x, n);
    if m == 0 {
        lemma_one_mul(ring_pow(x, n));
    } else {
        let m1 = (m - 1) as nat;
        lemma_pow_add(x, m1, n);
        lemma_pow_wf(x, m1);
        assert(ring_pow(x, m + n) == x.mul_spec(ring_pow(x, (m + n - 1) as nat)));
        assert((m + n - 1) as nat == m1 + n);
        R::lemma_mul_assoc(x, ring_pow(x, m1), ring_pow(x, n));
    }
}

/// The first power is the element itself.
pub proof fn lemma_pow_one<R: Ring>(x: R)
    requires
        x.wf(),
    ensures
        ring_pow(x, 1) == x,
{
    assert(ring_pow(x, 1) == x.mul_spec(ring_pow(x, 0)));
    R::lemma_mul_one(x);
}

/// A power of a square: `(x * x)^k == x^(2k)`.
pub proof fn lemma_pow_square<R: Ring>(x: R, k: nat)
    requires
        x.wf(),
    ensures
        ring_pow(x.mul_spec(x), k) == ring_pow(x, 2 * k),
    decreases k,
{
    if k > 0 {
        let k1 = (k - 1) as nat;
        lemma_pow_square(x, k1);
        lemma_pow_one(x);
        lemma_pow_add(x, 1, 1);
        lemma_pow_add(x, 2, 2 * k1);
        assert(2 + 2 * k1 == 2 * k);
    }
}

/// Closure under the operations, for all elements at once.
pub proof fn lemma_closure<R: Ring>()
    ensures
        forall|a: R, b: R| a.wf() && b.wf() ==> (#[trigger] a.add_spec(b)).wf(),
        forall|a: R, b: R| a.wf() && b.wf() ==> (#[trigger] a.sub_spec(b)).wf(),
        forall|a: R, b: R| a.wf() && b.wf() ==> (#[trigger] a.mul_spec(b)).wf(),
        forall|a: R| a.wf() ==> (#[trigger] a.neg_spec()).wf(),
{
    assert forall|a: R, b: R| a.wf() && b.wf() implies (#[trigger] a.add_spec(b)).wf() by {
        R::lemma_closed(a, b);
    }
    assert forall|a: R, b: R| a.wf() && b.wf() implies (#[trigger] a.sub_spec(b)).wf() by {
        R::lemma_closed(a, b);
    }
    assert forall|a: R, b: R| a.wf() && b.wf() implies (#[trigger] a.mul_spec(b)).wf() by {
        R::lemma_closed(a, b);
    }
    assert forall|a: R| a.wf() implies (#[trigger] a.neg_spec()).wf() by {
        R::lemma_closed(a, a);
    }
}

/// Zero is a left identity of addition as well.
pub proof fn lemma_zero_add<R: Ring>(a: R)
    requires
        a.wf(),
    ensures
        R::zero_spec().add_spec(a) == a,
{
    R::lemma_wf_has_constants(a);
    R::lemma_constants();
    R::lemma_add_comm(R::zero_spec(), a);
    R::lemma_add_zero(a);
}

/// The negative is the only element that adds up to zero.
pub proof fn lemma_neg_unique<R: Ring>(a: R, b: R)
    requires
        a.wf(),
        b.wf(),
        a.add_spec(b) == R::zero_spec(),
    ensures
        b == a.neg_spec(),
{
    lemma_closure::<R>();
    let n = a.neg_spec();
    // n == n + (a + b) == (n + a) + b == 0 + b == b
    R::lemma_add_zero(n);
    R::lemma_add_assoc(n, a, b);
    R::lemma_add_comm(n, a);
    R::lemma_add_neg(a);
    lemma_zero_add(b);
}

/// Zero is its own negative.
pub proof fn lemma_neg_zero<R: Ring>()
    requires
        R::has_zero(),
    ensures
        R::zero_spec().neg_spec() == R::zero_spec(),
{
    R::lemma_constants();
    R::lemma_add_zero(R::zero_spec());
    lemma_neg_unique(R::zero_spec(), R::zero_spec());
}

/// Subtracting zero changes nothing.
pub proof fn lemma_sub_zero<R: Ring>(a: R)
    requires
        a.wf(),
    ensures
        a.sub_spec(R::zero_spec()) == a,
{
    R::lemma_wf_has_constants(a);
    R::lemma_constants();
    lemma_neg_zero::<R>();
    R::lemma_sub_def(a, R::zero_spec());
    R::lemma_add_zero(a);
}

/// An element that is its own double is zero.
pub proof fn lemma_idempotent_is_zero<R: Ring>(z: R)
    requires
        z.wf(),
        z.add_spec(z) == z,
    ensures
        z == R::zero_spec(),
{
    lemma_closure::<R>();
    // z == z + (z + -z) == (z + z) + -z == z + -z == 0
    R::lemma_add_neg(z);
    R::lemma_add_zero(z);
    R::lemma_add_assoc(z, z, z.neg_spec());
}

/// A product with zero is zero.
pub proof fn lemma_mul_zero<R: Ring>(a: R)
    requires
        a.wf(),
    ensures
        a.mul_spec(R::zero_spec()) == R::zero_spec(),
        R::zero_spec().mul_spec(a) == R::zero_spec(),
{
    R::lemma_wf_has_constants(a);
    R::lemma_constants();
    lemma_closure::<R>();
    let o = R::zero_spec();
    R::lemma_add_zero(o);
    R::lemma_distrib(a, o, o);
    lemma_idempotent_is_zero(a.mul_spec(o));
    R::lemma_mul_comm(a, o);
}

/// A negative factor can be pulled out of a product.
pub proof fn lemma_mul_neg<R: Ring>(a: R, b: R)
    requires
        a.wf(),
        b.wf(),
    ensures
        a.mul_spec(b.neg_spec()) == a.mul_spec(b).neg_spec(),
        a.neg_spec().mul_spec(b) == a.mul_spec(b).neg_spec(),
{
    lemma_closure::<R>();
    R::lemma_distrib(a, b, b.neg_spec());
    R::lemma_add_neg(b);
    lemma_mul_zero(a);
    lemma_neg_unique(a.mul_spec(b), a.mul_spec(b.neg_spec()));
    R::lemma_distrib(b, a, a.neg_spec());
    R::lemma_add_neg(a);
    lemma_mul_zero(b);
    lemma_neg_unique(b.mul_spec(a), b.mul_spec(a.neg_spec()));
    R::lemma_mul_comm(a, b);
    R::lemma_mul_comm(a.neg_spec(), b);
}

/// Two sums added: `(p + q) + (r + s) == (p + r) + (q + s)`.
pub proof fn lemma_add_interchange<R: Ring>(p: R, q: R, r: R, s: R)
    requires
        p.wf(),
        q.wf(),
        r.wf(),
        s.wf(),
    ensures
        p.add_spec(q).add_spec(r.add_spec(s)) == p.add_spec(r).add_spec(q.add_spec(s)),
{
    lemma_closure::<R>();
    // (p + q) + (r + s) == p + (q + (r + s)) == p + ((q + r) + s)
    R::lemma_add_assoc(p, q, r.add_spec(s));
    R::lemma_add_assoc(q, r, s);
    // == p + ((r + q) + s) == p + (r + (q + s)) == (p + r) + (q + s)
    R::lemma_add_comm(q, r);
    R::lemma_add_assoc(r, q, s);
    R::lemma_add_assoc(p, r, q.add_spec(s));
}

/// Two products multiplied: `(a b)(c d) == (a c)(b d)`.
pub proof fn lemma_mul_interchange<T: Ring>(a: T, b: T, c: T, d: T)
    requires
        a.wf(),
        b.wf(),
        c.wf(),
        d.wf(),
    ensures
        a.mul_spec(b).mul_spec(c.mul_spec(d)) == a.mul_spec(c).mul_spec(b.mul_spec(d)),
{
    lemma_closure::<T>();
    T::lemma_mul_assoc(a, b, c.mul_spec(d));
    T::lemma_mul_assoc(b, c, d);
    T::lemma_mul_comm(b, c);
    T::lemma_mul_assoc(c, b, d);
    T::lemma_mul_assoc(a, c, b.mul_spec(d));
}

/// The negative of a sum is the sum of the negatives.
pub proof fn lemma_neg_add<R: Ring>(a: R, b: R)
    requires
        a.wf(),
        b.wf(),
    ensures
        a.add_spec(b).neg_spec() == a.neg_spec().add_spec(b.neg_spec()),
{
    R::lemma_wf_has_constants(a);
    R::lemma_constants();
    lemma_closure::<R>();
    lemma_add_interchange(a, b, a.neg_spec(), b.neg_spec());
    R::lemma_add_neg(a);
    R::lemma_add_neg(b);
    R::lemma_add_zero(R::zero_spec());
    lemma_neg_unique(a.add_spec(b), a.neg_spec().add_spec(b.neg_spec()));
}

/// A difference of sums: `(p + q) - (r + s) == (p - r) + (q - s)`.
pub proof fn lemma_sub_interchange<T: Ring>(p: T, q: T, r: T, s: T)
    requires
        p.wf(),
        q.wf(),
        r.wf(),
        s.wf(),
    ensures
        p.add_spec(q).sub_spec(r.add_spec(s)) == p.sub_spec(r).add_spec(q.sub_spec(s)),
{
    lemma_closure::<T>();
    T::lemma_sub_def(p.add_spec(q), r.add_spec(s));
    lemma_neg_add(r, s);
    lemma_add_interchange(p, q, r.neg_spec(), s.neg_spec());
    T::lemma_sub_def(p, r);
    T::lemma_sub_def(q, s);
}

/// Multiplication distributes over subtraction.
pub proof fn lemma_mul_sub<R: Ring>(a: R, b: R, c: R)
    requires
        a.wf(),
        b.wf(),
        c.wf(),
    ensures
        a.mul_spec(b.sub_spec(c)) == a.mul_spec(b).sub_spec(a.mul_spec(c)),
{
    lemma_closure::<R>();
    R::lemma_sub_def(b, c);
    R::lemma_distrib(a, b, c.neg_spec());
    lemma_mul_neg(a, c);
    R::lemma_sub_def(a.mul_spec(b), a.mul_spec(c));
}

/// Multiplication distributes from the right, over sums and differences.
pub proof fn lemma_distrib_right<R: Ring>(a: R, b: R, c: R)
    requires
        a.wf(),
        b.wf(),
        c.wf(),
    ensures
        a.add_spec(b).mul_spec(c) == a.mul_spec(c).add_spec(b.mul_spec(c)),
        a.sub_spec(b).mul_spec(c) == a.mul_spec(c).sub_spec(b.mul_spec(c)),
{
    lemma_closure::<R>();
    R::lemma_mul_comm(a.add_spec(b), c);
    R::lemma_mul_comm(a.sub_spec(b), c);
    R::lemma_distrib(c, a, b);
    lemma_mul_sub(c, a, b);
    R::lemma_mul_comm(a, c);
    R::lemma_mul_comm(b, c);
}

/// The negative of the negative is the element itself.
pub proof fn lemma_neg_neg<R: Ring>(a: R)
    requires
        a.wf(),
    ensures
        a.neg_spec().neg_spec() == a,
{
    lemma_closure::<R>();
    R::lemma_add_comm(a.neg_spec(), a);
    R::lemma_add_neg(a);
    lemma_neg_unique(a.neg_spec(), a);
}

/// An odd power of a negative is the negative of the power.
pub proof fn lemma_pow_neg_odd<R: Ring>(y: R, j: nat)
    requires
        y.wf(),
    ensures
        ring_pow(y.neg_spec(), 2 * j + 1) == ring_pow(y, 2 * j + 1).neg_spec(),
{
    lemma_closure::<R>();
    let n = y.neg_spec();
    // (-y)(-y) == y y
    lemma_mul_neg(n, y);
    lemma_mul_neg(y, y);
    lemma_neg_neg(y.mul_spec(y));
    lemma_pow_square(n, j);
    lemma_pow_square(y, j);
    lemma_pow_wf(y, 2 * j);
    lemma_mul_neg(y, ring_pow(y, 2 * j));
    assert(ring_pow(n, 2 * j + 1) == n.mul_spec(ring_pow(n, 2 * j)));
    assert(ring_pow(y, 2 * j + 1) == y.mul_spec(ring_pow(y, 2 * j)));
}

} // verus!
