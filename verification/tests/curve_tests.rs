use ecdh::complexification::Complex;
use ecdh::curve::{
    check_modulus, curve_polynomial, embed, is_nonsingular, is_on_curve, multiple_on_curve,
    ModulusCheck,
};
use ecdh::modint::ModInt;
use ecdh::polynomial::Polynomial;
use ecdh::primality::is_prime;
use ecdh::rational_point::RationalPoint;
use ecdh::ring::Ring;

fn naive_is_prime(n: u64) -> bool {
    n >= 2 && (2..n).all(|d| n % d != 0)
}

#[test]
fn is_prime_agrees_with_trial_division() {
    for n in 0..2000 {
        assert_eq!(is_prime(n), naive_is_prime(n));
    }
}

#[test]
fn is_prime_exact_values() {
    assert!(!is_prime(0));
    assert!(!is_prime(1));
    assert!(is_prime(2));
    assert!(is_prime(3));
    assert!(!is_prime(9));
    assert!(!is_prime(25));
    assert!(is_prime(863));
    assert!(is_prime(4294967291));
    assert!(!is_prime(4294967291 * 3));
    assert!(!is_prime(4294967291 * 4294967291));
    assert!(!is_prime(0xFFFF_FFFE_0000_0001));
    // beyond the squares of 32-bit numbers: 2^64 - 1 and 2^64 - 3 have small factors
    assert!(!is_prime(u64::MAX));
    assert!(!is_prime(u64::MAX - 2));
    assert!(!is_prime(3 * 6148914691236517199));
}

#[test]
fn check_modulus_variants() {
    assert_eq!(check_modulus(863), ModulusCheck::Accepted);
    assert_eq!(check_modulus(7), ModulusCheck::Accepted);
    assert_eq!(check_modulus(11), ModulusCheck::Accepted);
    assert_eq!(check_modulus(3), ModulusCheck::Unsuitable);
    assert_eq!(check_modulus(2), ModulusCheck::Unsuitable);
    assert_eq!(check_modulus(5), ModulusCheck::Unsuitable);
    assert_eq!(check_modulus(13), ModulusCheck::Unsuitable);
    assert_eq!(check_modulus(0), ModulusCheck::NotPrime);
    assert_eq!(check_modulus(1), ModulusCheck::NotPrime);
    assert_eq!(check_modulus(15), ModulusCheck::NotPrime);
    assert_eq!(check_modulus(862), ModulusCheck::NotPrime);
}

#[test]
fn embed_reduces_the_number() {
    assert_eq!(embed::<7>(9), Complex::new(ModInt::<7>::new(2), ModInt::<7>::new(0)));
    assert_eq!(embed::<7>(0), Complex::new(ModInt::<7>::new(0), ModInt::<7>::new(0)));
}

#[test]
fn nonsingular_goes_by_the_discriminant() {
    // 4 + 27 = 31
    assert!(is_nonsingular::<7>(1, 1));
    assert!(!is_nonsingular::<31>(1, 1));
    assert!(!is_nonsingular::<7>(0, 0));
    assert!(!is_nonsingular::<7>(7, 14));
    // 4 * 8 + 27 * 9 = 275 = 25 * 11
    assert!(!is_nonsingular::<11>(2, 3));
    assert!(!is_nonsingular::<5>(2, 3));
    assert!(is_nonsingular::<7>(2, 3));
    for a in 0..20 {
        for b in 0..20 {
            assert_eq!(is_nonsingular::<863>(a, b), (4 * a * a * a + 27 * b * b) % 863 != 0);
        }
    }
}

#[test]
fn curve_polynomial_is_the_cubic() {
    let f = curve_polynomial::<7>(3, 5);
    assert_eq!(f.deg(), 3);
    assert_eq!(f.strict_deg(), Some(3));
    let expected =
        Polynomial::new(&vec![embed::<7>(5), embed::<7>(3), embed::<7>(0), embed::<7>(1)]);
    assert_eq!(f, expected);
    for a in 0..7 {
        for b in 0..7 {
            let x = Complex::new(ModInt::<7>::new(a), ModInt::<7>::new(b));
            let value = x.mul(x).mul(x).add(embed::<7>(3).mul(x)).add(embed::<7>(5));
            assert_eq!(Polynomial::evaluate(&f, x), value);
        }
    }
}

#[test]
fn on_curve_test() {
    let f = curve_polynomial::<7>(1, 1);
    assert!(is_on_curve(&f, embed::<7>(0), embed::<7>(1)));
    assert!(is_on_curve(&f, embed::<7>(2), embed::<7>(5)));
    assert!(!is_on_curve(&f, embed::<7>(1), embed::<7>(1)));
    // x = 1 gives 3, no square modulo 7, but a square in the extension: (2i)^2 = -4 = 3
    let two_i = Complex::new(ModInt::<7>::new(0), ModInt::<7>::new(2));
    assert!(is_on_curve(&f, embed::<7>(1), two_i));
}

#[test]
fn multiple_on_curve_tests_modulus_and_point() {
    let on = RationalPoint::new(embed::<7>(0), embed::<7>(1));
    let off = RationalPoint::new(embed::<7>(1), embed::<7>(1));
    let a = embed::<7>(1);
    for n in 0..12 {
        assert_eq!(multiple_on_curve::<7>(&on, 1, 1, n), Some(on.multiply_rational_point(a, n)));
        assert_eq!(multiple_on_curve::<7>(&off, 1, 1, n), None);
        assert_eq!(multiple_on_curve::<7>(&RationalPoint::O, 1, 1, n), Some(RationalPoint::O));
    }
    assert_eq!(
        multiple_on_curve::<7>(&on, 1, 1, 2),
        Some(RationalPoint::new(embed::<7>(2), embed::<7>(5)))
    );
    // 13 is a prime of the form 4k + 1, 9 is no prime, 3 is below seven
    let p13 = RationalPoint::new(embed::<13>(0), embed::<13>(1));
    assert_eq!(multiple_on_curve::<13>(&p13, 1, 1, 2), None);
    let p9 = RationalPoint::new(embed::<9>(0), embed::<9>(1));
    assert_eq!(multiple_on_curve::<9>(&p9, 1, 1, 2), None);
    let p3 = RationalPoint::new(embed::<3>(0), embed::<3>(1));
    assert_eq!(multiple_on_curve::<3>(&p3, 1, 1, 2), None);
}
