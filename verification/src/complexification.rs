use crate::characteristic::Characteristic;
use crate::identities::{Identity, Zero};
use crate::inverse::Inverse;
use crate::printable::{append_plus, plus_text, push_char, Printable};
use crate::ring::{
    lemma_add_interchange, lemma_closure, lemma_distrib_right, lemma_mul_sub, lemma_mul_zero,
    lemma_neg_add, lemma_one_mul, lemma_pow_square, lemma_pow_wf, lemma_sub_interchange,
    lemma_sub_zero, ring_pow, Ring,
};
use vstd::prelude::*;
use vstd::string::StringExecFns;

verus! {

/// Elements in `R[x]/(x^2 + 1)`
/// where `R` is a ring consisting of the objects of type `T`.
#[derive(Debug, Clone, Copy, Eq, PartialEq, Hash)]
pub struct Complex<T> {
    /// The real part `a` of `a + bi`.
    pub real: T,
    /// The imaginary part `b` of `a + bi`.
    pub imaginary: T,
}

impl<T> View for Complex<T> {
    type V = (T, T);

    /// The real and the imaginary part.
    open spec fn view(&self) -> (T, T) {
        (self.real, self.imaginary)
    }
}

impl<T> Complex<T> {
    /// The element `real + imaginary * i`.
    pub open spec fn pair(re: T, im: T) -> Self {
        Complex { real: re, imaginary: im }
    }

    /// Constructor.
    pub fn new(re: T, im: T) -> (r: Self)
        ensures
            r == Self::pair(re, im),
            r@ == (re, im),
    {
        Self { real: re, imaginary: im }
    }
}

impl<T: Ring> Zero for Complex<T> {
    open spec fn zero_spec() -> Self {
        Self::pair(T::zero_spec(), T::zero_spec())
    }

    open spec fn has_zero() -> bool {
        T::has_zero()
    }

    /// The element `0 + 0i`.
    fn zero() -> (z: Self) {
        Self { real: T::zero(), imaginary: T::zero() }
    }
}

impl<T: Ring> Identity for Complex<T> {
    open spec fn identity_spec() -> Self {
        Self::pair(T::identity_spec(), T::zero_spec())
    }

    open spec fn has_identity() -> bool {
        T::has_identity() && T::has_zero()
    }

    /// The element `1 + 0i`.
    fn identity() -> (e: Self) {
        Self { real: T::identity(), imaginary: T::zero() }
    }
}

impl<T: Characteristic> Characteristic for Complex<T> {
    open spec fn characteristic_spec() -> nat {
        T::characteristic_spec()
    }

    /// The characteristic of the ring of coefficients.
    fn characteristic() -> (c: u64) {
        T::characteristic()
    }
}

impl<T: Ring> Ring for Complex<T> {
    open spec fn wf(self) -> bool {
        self@.0.wf() && self@.1.wf()
    }

    open spec fn add_spec(self, rhs: Self) -> Self {
        Self::pair(self@.0.add_spec(rhs@.0), self@.1.add_spec(rhs@.1))
    }

    open spec fn sub_spec(self, rhs: Self) -> Self {
        Self::pair(self@.0.sub_spec(rhs@.0), self@.1.sub_spec(rhs@.1))
    }

    /// `(a + bi)(c + di) = (ac - bd) + (bc + ad)i`.
    open spec fn mul_spec(self, rhs: Self) -> Self {
        Self::pair(
            self@.0.mul_spec(rhs@.0).sub_spec(self@.1.mul_spec(rhs@.1)),
            self@.1.mul_spec(rhs@.0).add_spec(self@.0.mul_spec(rhs@.1)),
        )
    }

    open spec fn neg_spec(self) -> Self {
        Self::pair(self@.0.neg_spec(), self@.1.neg_spec())
    }

    fn add(self, rhs: Self) -> (r: Self) {
        Self { real: self.real.add(rhs.real), imaginary: self.imaginary.add(rhs.imaginary) }
    }

    fn sub(self, rhs: Self) -> (r: Self) {
        Self { real: self.real.sub(rhs.real), imaginary: self.imaginary.sub(rhs.imaginary) }
    }

    fn mul(self, rhs: Self) -> (r: Self) {
        Self {
            real: self.real.mul(rhs.real).sub(self.imaginary.mul(rhs.imaginary)),
            imaginary: self.imaginary.mul(rhs.real).add(self.real.mul(rhs.imaginary)),
        }
    }

    fn neg(self) -> (r: Self) {
        Self { real: self.real.neg(), imaginary: self.imaginary.neg() }
    }

    fn add_assign(&mut self, rhs: Self) {
        *self = Self {
            real: self.real.add(rhs.real),
            imaginary: self.imaginary.add(rhs.imaginary),
        }
    }

    fn sub_assign(&mut self, rhs: Self) {
        *self = Self {
            real: self.real.sub(rhs.real),
            imaginary: self.imaginary.sub(rhs.imaginary),
        }
    }

    fn mul_assign(&mut self, rhs: Self) {
        *self = Self {
            real: self.real.mul(rhs.real).sub(self.imaginary.mul(rhs.imaginary)),
            imaginary: self.imaginary.mul(rhs.real).add(self.real.mul(rhs.imaginary)),
        }
    }

    fn equals(&self, rhs: &Self) -> (b: bool) {
        self.real.equals(&rhs.real) && self.imaginary.equals(&rhs.imaginary)
    }

    proof fn lemma_wf_has_constants(x: Self) {
        T::lemma_wf_has_constants(x@.0);
    }

    proof fn lemma_constants() {
        T::lemma_constants();
    }

    proof fn lemma_closed(a: Self, b: Self) {
        lemma_closure::<T>();
    }

    proof fn lemma_add_comm(a: Self, b: Self) {
        T::lemma_add_comm(a@.0, b@.0);
        T::lemma_add_comm(a@.1, b@.1);
    }

    proof fn lemma_add_assoc(a: Self, b: Self, c: Self) {
        T::lemma_add_assoc(a@.0, b@.0, c@.0);
        T::lemma_add_assoc(a@.1, b@.1, c@.1);
    }

    proof fn lemma_add_zero(a: Self) {
        T::lemma_add_zero(a@.0);
        T::lemma_add_zero(a@.1);
    }

    proof fn lemma_add_neg(a: Self) {
        T::lemma_add_neg(a@.0);
        T::lemma_add_neg(a@.1);
    }

    proof fn lemma_sub_def(a: Self, b: Self) {
        T::lemma_sub_def(a@.0, b@.0);
        T::lemma_sub_def(a@.1, b@.1);
    }

    proof fn lemma_mul_comm(a: Self, b: Self) {
        lemma_closure::<T>();
        T::lemma_mul_comm(a@.0, b@.0);
        T::lemma_mul_comm(a@.1, b@.1);
        T::lemma_mul_comm(a@.1, b@.0);
        T::lemma_mul_comm(a@.0, b@.1);
        T::lemma_add_comm(a@.1.mul_spec(b@.0), a@.0.mul_spec(b@.1));
    }

    proof fn lemma_mul_assoc(a: Self, b: Self, c: Self) {
        lemma_complex_mul_assoc(a@.0, a@.1, b@.0, b@.1, c@.0, c@.1);
    }

    proof fn lemma_mul_one(a: Self) {
        T::lemma_wf_has_constants(a@.0);
        T::lemma_constants();
        T::lemma_mul_one(a@.0);
        T::lemma_mul_one(a@.1);
        lemma_mul_zero(a@.0);
        lemma_mul_zero(a@.1);
        lemma_sub_zero(a@.0);
        T::lemma_add_zero(a@.1);
    }

    proof fn lemma_distrib(a: Self, b: Self, c: Self) {
        lemma_closure::<T>();
        let (a0, a1) = a@;
        let (b0, b1) = b@;
        let (c0, c1) = c@;
        T::lemma_distrib(a0, b0, c0);
        T::lemma_distrib(a1, b1, c1);
        T::lemma_distrib(a1, b0, c0);
        T::lemma_distrib(a0, b1, c1);
        lemma_sub_interchange(
            a0.mul_spec(b0),
            a0.mul_spec(c0),
            a1.mul_spec(b1),
            a1.mul_spec(c1),
        );
        lemma_add_interchange(
            a1.mul_spec(b0),
            a1.mul_spec(c0),
            a0.mul_spec(b1),
            a0.mul_spec(c1),
        );
    }
}

impl<T: Ring> Complex<T> {
    /// Calculate exponentiation by repeated squaring: the product of `n`
    /// factors `self`.
    pub fn modpow(&self, n: u64) -> (r: Self)
        requires
            self.wf(),
        ensures
            r == ring_pow(*self, n as nat),
            r.wf(),
    {
        proof {
            T::lemma_wf_has_constants(self.real);
            T::lemma_constants();
            lemma_pow_wf(*self, n as nat);
            lemma_one_mul(ring_pow(*self, n as nat));
        }
        let mut res_r = T::identity();
        let mut res_i = T::zero();
        let mut a = self.real;
        let mut b = self.imaginary;
        let mut m = n;
        while m != 0
            invariant
                res_r.wf(),
                res_i.wf(),
                a.wf(),
                b.wf(),
                Self::pair(res_r, res_i).mul_spec(ring_pow(Self::pair(a, b), m as nat))
                    == ring_pow(*self, n as nat),
            decreases m,
        {
            let ghost res = Self::pair(res_r, res_i);
            let ghost cur = Self::pair(a, b);
            let ghost k: nat = (m / 2) as nat;
            proof {
                lemma_closure::<T>();
                lemma_pow_square(cur, k);
                lemma_pow_wf(cur, 2 * k);
                T::lemma_add_comm(a.mul_spec(b), b.mul_spec(a));
            }
            if m % 2 == 1 {
                proof {
                    assert(ring_pow(cur, m as nat) == cur.mul_spec(ring_pow(cur, (m - 1) as nat)));
                    Self::lemma_mul_assoc(res, cur, ring_pow(cur, 2 * k));
                    T::lemma_mul_comm(a, res_i);
                    T::lemma_add_comm(res_r.mul_spec(b), res_i.mul_spec(a));
                }
                let tmp_r = res_r;
                let tmp_i = res_i;
                res_r = tmp_r.mul(a).sub(tmp_i.mul(b));
                res_i = tmp_r.mul(b).add(a.mul(tmp_i));
            }
            let tmp_a = a;
            let tmp_b = b;
            a = tmp_a.mul(tmp_a).sub(tmp_b.mul(tmp_b));
            b = tmp_a.mul(tmp_b).add(tmp_b.mul(tmp_a));
            m = m / 2;
        }
        proof {
            Self::lemma_mul_one(Self::pair(res_r, res_i));
        }
        Self { real: res_r, imaginary: res_i }
    }
}

impl<T: Ring + Characteristic> Inverse for Complex<T> {
    /// Undefined for zero; otherwise the power with exponent `p^2 - 2`, where
    /// `p` is the characteristic. That power is the inverse where the ring of
    /// coefficients is the field of `p` elements and `p` is a prime of the
    /// form `4k + 3`.
    open spec fn inverse_spec(self) -> Option<Self> {
        if self == Self::zero_spec() {
            None
        } else {
            Some(
                ring_pow(
                    self,
                    (T::characteristic_spec() * T::characteristic_spec() - 2) as nat,
                ),
            )
        }
    }

    open spec fn can_invert(self) -> bool {
        self.wf() && 2 <= T::characteristic_spec() * T::characteristic_spec() <= u64::MAX
    }

    /// The element `x^(-1)` of `R[x]/(x^2 + 1)`, where `R` is the field of
    /// `p` elements and `-1` is no square in it.
    fn inverse(self) -> (r: Option<Self>) {
        proof {
            T::lemma_wf_has_constants(self.real);
        }
        if self.real.equals(&T::zero()) && self.imaginary.equals(&T::zero()) {
            None
        } else {
            Some(self.modpow(T::characteristic() * T::characteristic() - 2))
        }
    }

    proof fn lemma_inverse_wf(x: Self) {
        lemma_pow_wf(x, (T::characteristic_spec() * T::characteristic_spec() - 2) as nat);
    }
}

impl<T: Ring + Printable> Printable for Complex<T> {
    /// The real part alone where the imaginary part is zero, the imaginary
    /// part with `i` where the real part is zero, and else `(a + bi)`.
    open spec fn text(&self) -> Seq<char> {
        if self@.1 == T::zero_spec() {
            self@.0.text()
        } else if self@.0 == T::zero_spec() {
            self@.1.text().push('i')
        } else {
            seq!['('] + self@.0.text() + plus_text() + self@.1.text() + seq!['i', ')']
        }
    }

    open spec fn printable(&self) -> bool {
        T::has_zero() && self@.0.printable() && self@.1.printable()
    }

    fn to_string(&self) -> (s: String) {
        if self.imaginary.equals(&T::zero()) {
            self.real.to_string()
        } else if self.real.equals(&T::zero()) {
            let mut s = self.imaginary.to_string();
            push_char(&mut s, 'i');
            s
        } else {
            let mut s = String::new();
            push_char(&mut s, '(');
            s.append(self.real.to_string().as_str());
            append_plus(&mut s);
            s.append(self.imaginary.to_string().as_str());
            push_char(&mut s, 'i');
            push_char(&mut s, ')');
            assert(s@ =~= self.text());
            s
        }
    }
}

/// The operator `+`: addition of pairs.
impl<T: Ring> std::ops::Add for Complex<T> {
    type Output = Self;

    fn add(self, rhs: Self) -> (r: Self) {
        Ring::add(self, rhs)
    }
}

impl<T: Ring> vstd::std_specs::ops::AddSpecImpl for Complex<T> {
    open spec fn obeys_add_spec() -> bool {
        true
    }

    open spec fn add_req(self, rhs: Self) -> bool {
        self.wf() && rhs.wf()
    }

    open spec fn add_spec(self, rhs: Self) -> Self {
        Ring::add_spec(self, rhs)
    }
}

/// The operator `-`: subtraction of pairs.
impl<T: Ring> std::ops::Sub for Complex<T> {
    type Output = Self;

    fn sub(self, rhs: Self) -> (r: Self) {
        Ring::sub(self, rhs)
    }
}

impl<T: Ring> vstd::std_specs::ops::SubSpecImpl for Complex<T> {
    open spec fn obeys_sub_spec() -> bool {
        true
    }

    open spec fn sub_req(self, rhs: Self) -> bool {
        self.wf() && rhs.wf()
    }

    open spec fn sub_spec(self, rhs: Self) -> Self {
        Ring::sub_spec(self, rhs)
    }
}

/// The operator `*`: multiplication of pairs.
impl<T: Ring> std::ops::Mul for Complex<T> {
    type Output = Self;

    fn mul(self, rhs: Self) -> (r: Self) {
        Ring::mul(self, rhs)
    }
}

impl<T: Ring> vstd::std_specs::ops::MulSpecImpl for Complex<T> {
    open spec fn obeys_mul_spec() -> bool {
        true
    }

    open spec fn mul_req(self, rhs: Self) -> bool {
        self.wf() && rhs.wf()
    }

    open spec fn mul_spec(self, rhs: Self) -> Self {
        Ring::mul_spec(self, rhs)
    }
}

/// `(t1 - t2) - (t3 + t4) == (t1 - t4) - (t2 + t3)`.
proof fn lemma_sub_regroup<T: Ring>(t1: T, t2: T, t3: T, t4: T)
    requires
        t1.wf(),
        t2.wf(),
        t3.wf(),
        t4.wf(),
    ensures
        t1.sub_spec(t2).sub_spec(t3.add_spec(t4)) == t1.sub_spec(t4).sub_spec(t2.add_spec(t3)),
{
    lemma_closure::<T>();
    let (n2, n3, n4) = (t2.neg_spec(), t3.neg_spec(), t4.neg_spec());
    // left: (t1 + n2) + (n3 + n4)
    T::lemma_sub_def(t1, t2);
    T::lemma_sub_def(t1.sub_spec(t2), t3.add_spec(t4));
    lemma_neg_add(t3, t4);
    // right: (t1 + n4) + (n2 + n3)
    T::lemma_sub_def(t1, t4);
    T::lemma_sub_def(t1.sub_spec(t4), t2.add_spec(t3));
    lemma_neg_add(t2, t3);
    T::lemma_add_comm(n3, n4);
    lemma_add_interchange(t1, n2, n4, n3);
}

/// `(u1 + u2) + (u3 - u4) == (u1 - u4) + (u2 + u3)`.
proof fn lemma_add_regroup<T: Ring>(u1: T, u2: T, u3: T, u4: T)
    requires
        u1.wf(),
        u2.wf(),
        u3.wf(),
        u4.wf(),
    ensures
        u1.add_spec(u2).add_spec(u3.sub_spec(u4)) == u1.sub_spec(u4).add_spec(u2.add_spec(u3)),
{
    lemma_closure::<T>();
    let n4 = u4.neg_spec();
    T::lemma_sub_def(u3, u4);
    T::lemma_sub_def(u1, u4);
    T::lemma_add_comm(u3, n4);
    lemma_add_interchange(u1, u2, n4, u3);
}

/// Associativity of the multiplication of pairs, part by part.
proof fn lemma_complex_mul_assoc<T: Ring>(a: T, b: T, c: T, d: T, e: T, f: T)
    requires
        a.wf(),
        b.wf(),
        c.wf(),
        d.wf(),
        e.wf(),
        f.wf(),
    ensures
        Complex::pair(a, b).mul_spec(Complex::pair(c, d)).mul_spec(Complex::pair(e, f))
            == Complex::pair(a, b).mul_spec(Complex::pair(c, d).mul_spec(Complex::pair(e, f))),
{
    lemma_closure::<T>();
    // the eight products of three factors, associated either way
    T::lemma_mul_assoc(a, c, e);
    T::lemma_mul_assoc(b, d, e);
    T::lemma_mul_assoc(b, c, f);
    T::lemma_mul_assoc(a, d, f);
    T::lemma_mul_assoc(b, c, e);
    T::lemma_mul_assoc(a, d, e);
    T::lemma_mul_assoc(a, c, f);
    T::lemma_mul_assoc(b, d, f);
    let (ac, bd, bc, ad) = (a.mul_spec(c), b.mul_spec(d), b.mul_spec(c), a.mul_spec(d));
    let (ce, df, de, cf) = (c.mul_spec(e), d.mul_spec(f), d.mul_spec(e), c.mul_spec(f));
    // left factor first: ((ac - bd) e - (bc + ad) f, (bc + ad) e + (ac - bd) f)
    lemma_distrib_right(ac, bd, e);
    lemma_distrib_right(bc, ad, f);
    lemma_distrib_right(bc, ad, e);
    lemma_distrib_right(ac, bd, f);
    // right factor first: (a (ce - df) - b (de + cf), b (ce - df) + a (de + cf))
    lemma_mul_sub(a, ce, df);
    T::lemma_distrib(b, de, cf);
    lemma_mul_sub(b, ce, df);
    T::lemma_distrib(a, de, cf);
    lemma_sub_regroup(ac.mul_spec(e), bd.mul_spec(e), bc.mul_spec(f), ad.mul_spec(f));
    lemma_add_regroup(bc.mul_spec(e), ad.mul_spec(e), ac.mul_spec(f), bd.mul_spec(f));
}

} // verus!
