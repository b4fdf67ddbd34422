use ecdh::characteristic::Characteristic;
use ecdh::complexification::Complex;
use ecdh::identities::{Identity, Zero};
use ecdh::inverse::Inverse;
use ecdh::modint::ModInt;
use ecdh::printable::Printable;
use ecdh::ring::Ring;

fn c7(a: u64, b: u64) -> Complex<ModInt<7>> {
    Complex::new(ModInt::<7>::new(a), ModInt::<7>::new(b))
}

fn c11(a: u64, b: u64) -> Complex<ModInt<11>> {
    Complex::new(ModInt::<11>::new(a), ModInt::<11>::new(b))
}

#[test]
fn complex_componentwise_operations() {
    assert_eq!(c7(3, 4).add(c7(5, 6)), c7(1, 3));
    assert_eq!(c7(3, 4).sub(c7(5, 6)), c7(5, 5));
    assert_eq!(c7(3, 4).neg(), c7(4, 3));
}

#[test]
fn complex_multiplication_formula() {
    // (3 + 4i)(5 + 6i) = (15 - 24) + (20 + 18)i = -9 + 38i = 5 + 3i modulo 7
    assert_eq!(c7(3, 4).mul(c7(5, 6)), c7(5, 3));
    // i * i = -1
    assert_eq!(c7(0, 1).mul(c7(0, 1)), c7(6, 0));
    assert_eq!(c7(2, 0).mul(c7(0, 3)), c7(0, 6));
}

#[test]
fn complex_assign_operations() {
    let mut x = c7(3, 4);
    x.add_assign(c7(5, 6));
    assert_eq!(x, c7(1, 3));
    x.sub_assign(c7(5, 6));
    assert_eq!(x, c7(3, 4));
    x.mul_assign(c7(5, 6));
    assert_eq!(x, c7(5, 3));
}

#[test]
fn complex_zero_and_identity() {
    assert_eq!(Complex::<ModInt<7>>::zero(), c7(0, 0));
    assert_eq!(Complex::<ModInt<7>>::identity(), c7(1, 0));
    assert!(c7(1, 0).equals(&Complex::<ModInt<7>>::identity()));
    assert!(!c7(1, 1).equals(&Complex::<ModInt<7>>::identity()));
}

#[test]
fn complex_characteristic_is_that_of_the_base() {
    assert_eq!(Complex::<ModInt<7>>::characteristic(), 7);
    assert_eq!(Complex::<Complex<ModInt<11>>>::characteristic(), 11);
}

#[test]
fn modpow_agrees_with_repeated_multiplication() {
    for a in 0..7 {
        for b in 0..7 {
            let x = c7(a, b);
            let mut naive = Complex::<ModInt<7>>::identity();
            for n in 0..=50 {
                assert_eq!(x.modpow(n), naive);
                naive = naive.mul(x);
            }
        }
    }
}

#[test]
fn modpow_exact_values() {
    assert_eq!(c7(0, 1).modpow(2), c7(6, 0));
    assert_eq!(c7(0, 1).modpow(4), c7(1, 0));
    assert_eq!(c7(1, 1).modpow(2), c7(0, 2));
    assert_eq!(c7(3, 4).modpow(0), c7(1, 0));
    assert_eq!(c7(0, 0).modpow(0), c7(1, 0));
}

#[test]
fn every_nonzero_element_times_its_inverse_is_one() {
    for a in 0..7 {
        for b in 0..7 {
            if a != 0 || b != 0 {
                let x = c7(a, b);
                let inv = x.inverse().unwrap();
                assert_eq!(x.mul(inv), Complex::<ModInt<7>>::identity());
            }
        }
    }
    for a in 0..11 {
        for b in 0..11 {
            if a != 0 || b != 0 {
                let x = c11(a, b);
                let inv = x.inverse().unwrap();
                assert_eq!(x.mul(inv), Complex::<ModInt<11>>::identity());
            }
        }
    }
}

#[test]
fn inverse_over_the_default_modulus() {
    for (a, b) in [(1, 0), (0, 1), (862, 862), (17, 400), (5, 0), (0, 7)] {
        let x = Complex::new(ModInt::<863>::new(a), ModInt::<863>::new(b));
        let inv = x.inverse().unwrap();
        assert_eq!(x.mul(inv), Complex::<ModInt<863>>::identity());
    }
}

#[test]
fn complex_inverse_exact_value() {
    // 1 / i = -i
    assert_eq!(c7(0, 1).inverse(), Some(c7(0, 6)));
    // 1 / (1 + i) = (1 - i) / 2 = 4 (1 - i) = 4 + 3i modulo 7
    assert_eq!(c7(1, 1).inverse(), Some(c7(4, 3)));
}

#[test]
fn complex_inverse_of_zero_is_none() {
    assert_eq!(c7(0, 0).inverse(), None);
    assert_eq!(Complex::<ModInt<863>>::zero().inverse(), None);
}

#[test]
fn complex_to_string_forms() {
    assert_eq!(c7(3, 0).to_string(), "3");
    assert_eq!(c7(0, 4).to_string(), "4i");
    assert_eq!(c7(3, 4).to_string(), "(3 + 4i)");
    assert_eq!(c7(0, 0).to_string(), "0");
}

#[test]
fn complex_ring_laws_on_samples() {
    let samples = [c7(0, 0), c7(1, 0), c7(0, 1), c7(3, 4), c7(6, 6), c7(2, 5)];
    for &x in &samples {
        for &y in &samples {
            assert_eq!(x.mul(y), y.mul(x));
            assert_eq!(x.add(y), y.add(x));
            for &z in &samples {
                assert_eq!(x.mul(y).mul(z), x.mul(y.mul(z)));
                assert_eq!(x.mul(y.add(z)), x.mul(y).add(x.mul(z)));
            }
        }
    }
}

#[test]
fn complex_operators_agree_with_the_methods() {
    assert_eq!(c7(3, 4) + c7(5, 6), c7(1, 3));
    assert_eq!(c7(3, 4) - c7(5, 6), c7(5, 5));
    assert_eq!(c7(3, 4) * c7(5, 6), c7(5, 3));
    for a in 0..7 {
        for b in 0..7 {
            let (x, y) = (c7(a, b), c7(b, 3));
            assert_eq!(x + y, x.add(y));
            assert_eq!(x - y, x.sub(y));
            assert_eq!(x * y, x.mul(y));
        }
    }
}
