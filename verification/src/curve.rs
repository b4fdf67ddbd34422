use crate::complexification::Complex;
use crate::cubic::weierstrass;
use crate::group_law::lemma_extension_carries_curves;
use crate::homomorphism::lemma_eval_normalize;
use crate::identities::{Identity, Zero};
use crate::modint::ModInt;
use crate::polynomial::{eval_spec, normalize, Polynomial};
use crate::primality::{is_prime, prime};
use crate::rational_point::RationalPoint;
use crate::ring::{all_wf, Ring};
use vstd::arithmetic::div_mod::{
    lemma_add_mod_noop, lemma_mod_bound, lemma_mul_mod_noop_general, lemma_small_mod,
};
use vstd::arithmetic::power::{lemma_pow_mod_noop, pow};
use vstd::prelude::*;

verus! {

/// What the test of a modulus for the key exchange found.
#[derive(Debug, Clone, Copy, Eq, PartialEq, Hash)]
pub enum ModulusCheck {
    /// The modulus is no prime.
    NotPrime,
    /// The modulus is a prime, but below seven or of the form `4k + 1`.
    Unsuitable,
    /// The modulus is a prime of the form `4k + 3`, at least seven.
    Accepted,
}

/// Tests whether a modulus is a prime of the form `4k + 3`, at least seven:
/// the moduli over which the pairs form a field.
pub fn check_modulus(p: u64) -> (r: ModulusCheck)
    ensures
        match r {
            ModulusCheck::NotPrime => !prime(p as nat),
            ModulusCheck::Unsuitable => prime(p as nat) && (p < 7 || p % 4 == 1),
            ModulusCheck::Accepted => prime(p as nat) && p >= 7 && p % 4 == 3,
        },
{
    if !is_prime(p) {
        return ModulusCheck::NotPrime;
    }
    if p < 7 || p % 4 == 1 {
        return ModulusCheck::Unsuitable;
    }
    proof {
        if p % 2 == 0 {
            assert(p as nat % 2 == 0);
        }
    }
    ModulusCheck::Accepted
}

/// The element `n + 0i` of the extension, for a number `n`.
pub open spec fn embed_spec<const P: u64>(n: u64) -> Complex<ModInt<P>> {
    Complex::pair(ModInt::<P>::residue(n as int % P as int), ModInt::<P>::zero_spec())
}

/// The element `n + 0i` of the extension, for a number `n`.
pub fn embed<const P: u64>(n: u64) -> (x: Complex<ModInt<P>>)
    requires
        ModInt::<P>::modulus_ok(),
    ensures
        x == embed_spec::<P>(n),
        x.wf(),
{
    proof {
        lemma_mod_bound(n as int, P as int);
    }
    Complex::new(ModInt::<P>::new(n), ModInt::<P>::zero())
}

/// Whether the curve `y^2 = x^3 + a x + b` is nonsingular modulo `P`:
/// `4 a^3 + 27 b^2` is not divisible by `P`.
pub fn is_nonsingular<const P: u64>(a: u64, b: u64) -> (ok: bool)
    requires
        ModInt::<P>::modulus_ok(),
    ensures
        ok == ((4 * pow(a as int, 3) + 27 * pow(b as int, 2)) % P as int != 0),
{
    let m = ModInt::<P>::new(4).mul(ModInt::<P>::new(a).power(3));
    let n = ModInt::<P>::new(27).mul(ModInt::<P>::new(b).power(2));
    let sum = m.add(n);
    proof {
        let p = P as int;
        let (a3, b2) = (pow(a as int, 3), pow(b as int, 2));
        lemma_pow_mod_noop(a as int, 3, p);
        lemma_pow_mod_noop(b as int, 2, p);
        lemma_mul_mod_noop_general(4, a3, p);
        lemma_mul_mod_noop_general(27, b2, p);
        lemma_add_mod_noop(4 * a3, 27 * b2, p);
        lemma_mod_bound(4 * a3, p);
        lemma_mod_bound(27 * b2, p);
        lemma_mod_bound(4 * a3 + 27 * b2, p);
        lemma_mod_bound(4, p);
        lemma_mod_bound(27, p);
        lemma_mod_bound(a3, p);
        lemma_mod_bound(b2, p);
        lemma_mod_bound(a as int, p);
        lemma_mod_bound(b as int, p);
        lemma_small_mod(0, P as nat);
        assert(sum@ == (4 * a3 + 27 * b2) % p);
    }
    !sum.equals(&ModInt::<P>::new(0))
}

/// The coefficients `b, a, 0, 1` of `x^3 + a x + b`.
pub open spec fn curve_coefficients<const P: u64>(a: u64, b: u64) -> Seq<Complex<ModInt<P>>> {
    seq![
        embed_spec::<P>(b),
        embed_spec::<P>(a),
        Complex::<ModInt<P>>::zero_spec(),
        Complex::<ModInt<P>>::identity_spec(),
    ]
}

/// The polynomial `x^3 + a x + b` over the extension, the right-hand side of
/// the curve's equation.
pub fn curve_polynomial<const P: u64>(a: u64, b: u64) -> (f: Polynomial<Complex<ModInt<P>>>)
    requires
        ModInt::<P>::modulus_ok(),
    ensures
        f@ == normalize(curve_coefficients::<P>(a, b)),
        f.wf(),
{
    let mut v: Vec<Complex<ModInt<P>>> = Vec::new();
    v.push(embed::<P>(b));
    v.push(embed::<P>(a));
    v.push(Complex::<ModInt<P>>::zero());
    v.push(Complex::<ModInt<P>>::identity());
    proof {
        Complex::<ModInt<P>>::lemma_constants();
        assert(v@ =~= curve_coefficients::<P>(a, b));
        assert(all_wf(v@));
    }
    Polynomial::new(&v)
}

/// Whether the point `(x, y)` lies on the curve `y^2 = f(x)`.
pub fn is_on_curve<T: Ring>(f: &Polynomial<T>, x: T, y: T) -> (ok: bool)
    requires
        f.wf(),
        x.wf(),
        y.wf(),
    ensures
        ok == (y.mul_spec(y) == eval_spec(f@, x)),
{
    y.mul(y).equals(&Polynomial::evaluate(f, x))
}

/// The multiple of a point of the curve `y^2 = x^3 + a x + b` over the
/// extension of the field of `P` elements, after testing what makes it
/// exist: that `P` is a prime of the form `4k + 3`, at least seven, and
/// that the point lies on the curve. `None` where one of the two fails.
pub fn multiple_on_curve<const P: u64>(
    point: &RationalPoint<Complex<ModInt<P>>>,
    a: u64,
    b: u64,
    n: u64,
) -> (r: Option<RationalPoint<Complex<ModInt<P>>>>)
    requires
        ModInt::<P>::modulus_ok(),
        point.wf(),
    ensures
        r == if prime(P as nat) && P >= 7 && P % 4 == 3 && point.on_curve(
            weierstrass(embed_spec::<P>(a), embed_spec::<P>(b)),
        ) {
            Some(point.multiply_spec(embed_spec::<P>(a), n as nat))
        } else {
            None
        },
        r matches Some(q) ==> q.wf() && q.on_curve(
            weierstrass(embed_spec::<P>(a), embed_spec::<P>(b)),
        ),
{
    match check_modulus(P) {
        ModulusCheck::Accepted => {},
        _ => {
            return None;
        },
    }
    let f = curve_polynomial::<P>(a, b);
    let a = embed::<P>(a);
    let ghost coefficients = weierstrass(a, embed_spec::<P>(b));
    proof {
        assert(all_wf(coefficients));
        lemma_extension_carries_curves::<P>();
    }
    match *point {
        RationalPoint::O => {},
        RationalPoint::Point(x, y) => {
            proof {
                lemma_eval_normalize(coefficients, x);
            }
            if !is_on_curve(&f, x, y) {
                return None;
            }
        },
    }
    proof {
        point.lemma_multiple_on_curve(a, embed_spec::<P>(b), n as nat);
    }
    Some(point.multiply_rational_point(a, n))
}

} // verus!
