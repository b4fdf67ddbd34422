use crate::complexification::Complex;
use crate::finite_domain::{is_domain, lemma_power_of_order, lemma_sub_laws, lists_nonzero};
use crate::identities::{Identity, Zero};
use crate::inverse::Inverse;
use crate::modint::{
    lemma_fermat, lemma_prime_field_is_domain, lemma_two_is_not_zero, ModInt,
};
use crate::primality::prime;
use crate::ring::{
    lemma_add_interchange, lemma_closure, lemma_distrib_right, lemma_mul_sub, lemma_mul_zero,
    lemma_neg_add, lemma_neg_neg, lemma_neg_unique, lemma_neg_zero, lemma_pow_neg_odd,
    lemma_pow_square, lemma_zero_add, ring_pow, Ring,
};
use vstd::arithmetic::div_mod::{
    lemma_fundamental_div_mod, lemma_fundamental_div_mod_converse,
};
use vstd::prelude::*;

verus! {

/// Whether a sum of two squares is zero only where both elements are.
pub open spec fn squares_definite<T: Ring>() -> bool {
    forall|a: T, b: T|
        a.wf() && b.wf() && #[trigger] a.mul_spec(a).add_spec(b.mul_spec(b)) == T::zero_spec()
            ==> a == T::zero_spec() && b == T::zero_spec()
}

/// `(p - z) + (q + z) == p + q`.
proof fn lemma_cancel_middle<T: Ring>(p: T, q: T, z: T)
    requires
        p.wf(),
        q.wf(),
        z.wf(),
    ensures
        p.sub_spec(z).add_spec(q.add_spec(z)) == p.add_spec(q),
        z.add_spec(p).sub_spec(z.sub_spec(q)) == p.add_spec(q),
{
    lemma_closure::<T>();
    let nz = z.neg_spec();
    T::lemma_sub_def(p, z);
    lemma_add_interchange(p, nz, q, z);
    T::lemma_add_comm(nz, z);
    T::lemma_add_neg(z);
    T::lemma_add_zero(p.add_spec(q));
    // second: (z + p) + -(z + -q) == (z + p) + (-z + q) == (z + -z) + (p + q)
    T::lemma_sub_def(z, q);
    T::lemma_sub_def(z.add_spec(p), z.sub_spec(q));
    lemma_neg_add(z, q.neg_spec());
    lemma_neg_neg(q);
    lemma_add_interchange(z, p, nz, q);
    lemma_zero_add(p.add_spec(q));
}

/// `a (a c - b d) + b (b c + a d) == (a a + b b) c` and
/// `a (b c + a d) - b (a c - b d) == (a a + b b) d`.
proof fn lemma_norm_times<T: Ring>(a: T, b: T, c: T, d: T)
    requires
        a.wf(),
        b.wf(),
        c.wf(),
        d.wf(),
    ensures
        a.mul_spec(a.mul_spec(c).sub_spec(b.mul_spec(d))).add_spec(
            b.mul_spec(b.mul_spec(c).add_spec(a.mul_spec(d))),
        ) == a.mul_spec(a).add_spec(b.mul_spec(b)).mul_spec(c),
        a.mul_spec(b.mul_spec(c).add_spec(a.mul_spec(d))).sub_spec(
            b.mul_spec(a.mul_spec(c).sub_spec(b.mul_spec(d))),
        ) == a.mul_spec(a).add_spec(b.mul_spec(b)).mul_spec(d),
{
    lemma_closure::<T>();
    let (ac, bd, bc, ad) = (a.mul_spec(c), b.mul_spec(d), b.mul_spec(c), a.mul_spec(d));
    let (aa, bb) = (a.mul_spec(a), b.mul_spec(b));
    lemma_mul_sub(a, ac, bd);
    T::lemma_distrib(b, bc, ad);
    T::lemma_distrib(a, bc, ad);
    lemma_mul_sub(b, ac, bd);
    // a (b d) == b (a d) and a (b c) == b (a c)
    T::lemma_mul_assoc(a, b, d);
    T::lemma_mul_assoc(b, a, d);
    T::lemma_mul_assoc(a, b, c);
    T::lemma_mul_assoc(b, a, c);
    T::lemma_mul_comm(a, b);
    T::lemma_mul_assoc(a, a, c);
    T::lemma_mul_assoc(b, b, c);
    T::lemma_mul_assoc(a, a, d);
    T::lemma_mul_assoc(b, b, d);
    lemma_cancel_middle(a.mul_spec(ac), b.mul_spec(bc), a.mul_spec(bd));
    lemma_cancel_middle(a.mul_spec(ad), b.mul_spec(bd), a.mul_spec(bc));
    lemma_distrib_right(aa, bb, c);
    lemma_distrib_right(aa, bb, d);
}

/// The pairs over a domain in which sums of two squares are definite form a
/// domain again.
pub proof fn lemma_extension_is_domain<T: Ring>()
    requires
        is_domain::<T>(),
        squares_definite::<T>(),
    ensures
        is_domain::<Complex<T>>(),
{
    assert forall|x: Complex<T>, y: Complex<T>|
        x.wf() && y.wf() && #[trigger] x.mul_spec(y) == Complex::<T>::zero_spec() implies x
        == Complex::<T>::zero_spec() || y == Complex::<T>::zero_spec() by {
        let (a, b) = x@;
        let (c, d) = y@;
        let o = T::zero_spec();
        a.lemma_constants_exist();
        lemma_closure::<T>();
        let re = a.mul_spec(c).sub_spec(b.mul_spec(d));
        let im = b.mul_spec(c).add_spec(a.mul_spec(d));
        assert(re == o && im == o);
        lemma_norm_times(a, b, c, d);
        lemma_mul_zero(a);
        lemma_mul_zero(b);
        T::lemma_add_zero(o);
        lemma_sub_laws(o, o);
        let norm = a.mul_spec(a).add_spec(b.mul_spec(b));
        assert(norm.mul_spec(c) == o);
        assert(norm.mul_spec(d) == o);
        if norm == o {
            assert(a == o && b == o);
        } else {
            assert(c == o && d == o);
        }
    }
}

/// Modulo a prime of the form `4k + 3`, a sum of two squares is zero only
/// where both numbers are: `-1` is no square.
pub proof fn lemma_squares_definite<const P: u64>()
    requires
        prime(P as nat),
        P % 4 == 3,
        ModInt::<P>::modulus_ok(),
    ensures
        squares_definite::<ModInt<P>>(),
{
    lemma_prime_field_is_domain::<P>();
    assert forall|a: ModInt<P>, b: ModInt<P>|
        a.wf() && b.wf() && #[trigger] a.mul_spec(a).add_spec(b.mul_spec(b)) == ModInt::<
            P,
        >::zero_spec() implies a == ModInt::<P>::zero_spec() && b == ModInt::<P>::zero_spec() by {
        let o = ModInt::<P>::zero_spec();
        let e = ModInt::<P>::identity_spec();
        a.lemma_constants_exist();
        lemma_closure::<ModInt<P>>();
        let (s, t) = (a.mul_spec(a), b.mul_spec(b));
        if b != o {
            let j = ((P - 3) / 4) as nat;
            assert(2 * (2 * j + 1) == P - 1);
            // b b == -(a a), so (b b)^k == -((a a)^k) for the odd k == (P - 1) / 2
            lemma_neg_unique(s, t);
            lemma_pow_neg_odd(s, j);
            lemma_pow_square(a, 2 * j + 1);
            lemma_pow_square(b, 2 * j + 1);
            lemma_fermat(b);
            if a != o {
                lemma_fermat(a);
                ModInt::<P>::lemma_add_neg(e);
                lemma_two_is_not_zero::<P>();
            } else {
                lemma_mul_zero(a);
                lemma_neg_zero::<ModInt<P>>();
            }
            assert(false);
        }
        lemma_mul_zero(b);
        ModInt::<P>::lemma_add_zero(s);
    }
}

/// The nonzero elements of the extension of `Z / (P)Z`: the pairs
/// `(k / P, k % P)` for `k` from `1` to `P^2 - 1`.
pub open spec fn nonzero_pairs<const P: u64>() -> Seq<Complex<ModInt<P>>> {
    Seq::new(
        (P * P - 1) as nat,
        |i: int|
            Complex::pair(
                ModInt::<P>::residue((i + 1) / P as int),
                ModInt::<P>::residue((i + 1) % P as int),
            ),
    )
}

/// The pairs `(k / P, k % P)` are the nonzero elements, each once.
pub proof fn lemma_nonzero_pairs<const P: u64>()
    requires
        ModInt::<P>::modulus_ok(),
    ensures
        lists_nonzero(nonzero_pairs::<P>()),
        nonzero_pairs::<P>().len() == P * P - 1,
{
    let p = P as int;
    let elems = nonzero_pairs::<P>();
    let o = ModInt::<P>::zero_spec();
    assert(p * p >= 1) by (nonlinear_arith)
        requires
            p >= 1,
    ;
    assert forall|i: int| 0 <= i < elems.len() implies {
        &&& (#[trigger] elems[i])@.0@ == (i + 1) / p
        &&& elems[i]@.1@ == (i + 1) % p
        &&& elems[i].wf()
        &&& elems[i] != Complex::<ModInt<P>>::zero_spec()
    } by {
        let k = i + 1;
        lemma_fundamental_div_mod(k, p);
        assert(0 <= k / p < p) by (nonlinear_arith)
            requires
                0 < k < p * p,
                k == p * (k / p) + k % p,
                0 <= k % p < p,
        ;
        if k / p == 0 && k % p == 0 {
            assert(p * 0 == 0);
        }
    }
    assert(elems.no_duplicates()) by {
        assert forall|i: int, j: int|
            0 <= i < elems.len() && 0 <= j < elems.len() && i != j implies elems[i] != elems[j] by {
            lemma_fundamental_div_mod(i + 1, p);
            lemma_fundamental_div_mod(j + 1, p);
        }
    }
    assert forall|y: Complex<ModInt<P>>|
        y.wf() && y != Complex::<ModInt<P>>::zero_spec() implies #[trigger] elems.contains(y) by {
        let (a, b) = (y@.0@, y@.1@);
        let k = a * p + b;
        assert(0 <= a * p <= (p - 1) * p && (p - 1) * p + p == p * p) by (nonlinear_arith)
            requires
                0 <= a <= p - 1,
                p >= 1,
        ;
        lemma_fundamental_div_mod_converse(k, p, a, b);
        if k == 0 {
            assert(a == 0 && b == 0) by (nonlinear_arith)
                requires
                    a * p + b == 0,
                    a >= 0,
                    b >= 0,
                    p >= 1,
            ;
            assert(false);
        }
        assert(elems[k - 1] == y);
    }
}

/// The extension of the field of `P` elements by a square root of `-1` is a
/// field where `P` is a prime of the form `4k + 3`: the power with exponent
/// `P^2 - 1` of every nonzero element is one.
pub proof fn lemma_fermat_in_extension<const P: u64>(x: Complex<ModInt<P>>)
    requires
        prime(P as nat),
        P % 4 == 3,
        x.wf(),
        x != Complex::<ModInt<P>>::zero_spec(),
    ensures
        ring_pow(x, (P * P - 1) as nat) == Complex::<ModInt<P>>::identity_spec(),
{
    lemma_prime_field_is_domain::<P>();
    lemma_squares_definite::<P>();
    lemma_extension_is_domain::<ModInt<P>>();
    lemma_nonzero_pairs::<P>();
    let o = ModInt::<P>::zero_spec();
    let e = ModInt::<P>::identity_spec();
    lemma_power_of_order(nonzero_pairs::<P>(), x);
}

/// In the extension of the field of `P` elements, `P` a prime of the form
/// `4k + 3`, every nonzero element has an inverse, and `inverse` gives it:
/// the product of the element and what `inverse` returns is one.
pub proof fn lemma_inverse_in_extension<const P: u64>(x: Complex<ModInt<P>>)
    requires
        prime(P as nat),
        P % 4 == 3,
        x.wf(),
        x != Complex::<ModInt<P>>::zero_spec(),
    ensures
        x.can_invert(),
        x.inverse_spec() is Some,
        x.mul_spec(x.inverse_spec().unwrap()) == Complex::<ModInt<P>>::identity_spec(),
{
    let p = P as int;
    assert(P != 0x1_0000_0000) by {
        if P == 0x1_0000_0000 {
            assert(0x1_0000_0000nat % 2 == 0);
        }
    }
    assert(2 <= p * p <= u64::MAX) by (nonlinear_arith)
        requires
            3 <= p <= 0xFFFF_FFFF,
    ;
    lemma_fermat_in_extension(x);
    assert(ring_pow(x, (p * p - 1) as nat) == x.mul_spec(ring_pow(x, (p * p - 2) as nat)));
}

} // verus!
