use ecdh::characteristic::Characteristic;
use ecdh::identities::{Identity, Zero};
use ecdh::inverse::Inverse;
use ecdh::modint::ModInt;
use ecdh::printable::{decimal_string, Printable};
use ecdh::ring::Ring;

fn naive_power<const M: u64>(x: ModInt<M>, n: u64) -> ModInt<M> {
    let mut r = ModInt::<M>::identity();
    for _ in 0..n {
        r = r.mul(x);
    }
    r
}

#[test]
fn new_reduces_modulo() {
    assert_eq!(ModInt::<7>::new(0).to_int(), 0);
    assert_eq!(ModInt::<7>::new(6).to_int(), 6);
    assert_eq!(ModInt::<7>::new(7).to_int(), 0);
    assert_eq!(ModInt::<7>::new(23).to_int(), 2);
    assert_eq!(ModInt::<863>::new(u64::MAX).to_int(), u64::MAX % 863);
    assert_eq!(ModInt::<1>::new(5).to_int(), 0);
}

#[test]
fn modint_add_sub_mul_neg() {
    let a = ModInt::<7>::new(5);
    let b = ModInt::<7>::new(4);
    assert_eq!(a.add(b), ModInt::<7>::new(2));
    assert_eq!(a.sub(b), ModInt::<7>::new(1));
    assert_eq!(b.sub(a), ModInt::<7>::new(6));
    assert_eq!(a.mul(b), ModInt::<7>::new(6));
    assert_eq!(a.neg(), ModInt::<7>::new(2));
    assert_eq!(ModInt::<7>::new(0).neg(), ModInt::<7>::new(0));
}

#[test]
fn modint_assign_operations() {
    let mut a = ModInt::<11>::new(9);
    a.add_assign(ModInt::<11>::new(5));
    assert_eq!(a.to_int(), 3);
    a.sub_assign(ModInt::<11>::new(7));
    assert_eq!(a.to_int(), 7);
    a.mul_assign(ModInt::<11>::new(8));
    assert_eq!(a.to_int(), 1);
}

#[test]
fn modint_largest_modulus_does_not_overflow() {
    const M: u64 = 0x1_0000_0000;
    let a = ModInt::<M>::new(M - 1);
    assert_eq!(a.mul(a).to_int(), 1);
    assert_eq!(a.add(a).to_int(), M - 2);
    assert_eq!(ModInt::<M>::new(0).sub(a).to_int(), 1);
    assert_eq!(a.power(2).to_int(), 1);
}

#[test]
fn modint_zero_and_identity() {
    assert_eq!(ModInt::<7>::zero().to_int(), 0);
    assert_eq!(ModInt::<7>::identity().to_int(), 1);
    assert_eq!(ModInt::<1>::identity().to_int(), 0);
}

#[test]
fn modint_equals_is_equality_of_representatives() {
    assert!(ModInt::<7>::new(3).equals(&ModInt::<7>::new(10)));
    assert!(!ModInt::<7>::new(3).equals(&ModInt::<7>::new(4)));
}

#[test]
fn power_agrees_with_repeated_multiplication() {
    for x in 0..7 {
        for n in 0..=50 {
            let a = ModInt::<7>::new(x);
            assert_eq!(a.power(n), naive_power(a, n));
        }
    }
    for x in 0..13 {
        for n in 0..=50 {
            let a = ModInt::<13>::new(x);
            assert_eq!(a.power(n), naive_power(a, n));
        }
    }
}

#[test]
fn power_exact_values() {
    assert_eq!(ModInt::<7>::new(3).power(6).to_int(), 1);
    assert_eq!(ModInt::<7>::new(3).power(0).to_int(), 1);
    assert_eq!(ModInt::<7>::new(0).power(0).to_int(), 1);
    assert_eq!(ModInt::<7>::new(3).power(5).to_int(), 5);
    assert_eq!(ModInt::<1000>::new(2).power(10).to_int(), 24);
    assert_eq!(ModInt::<1>::new(0).power(0).to_int(), 0);
}

#[test]
fn fermat_for_every_nonzero_residue_mod_seven() {
    for x in 1..7 {
        assert_eq!(ModInt::<7>::new(x).power(6), ModInt::<7>::identity());
    }
}

#[test]
fn modint_inverse_is_inverse_for_primes() {
    for x in 1..7 {
        let a = ModInt::<7>::new(x);
        let inv = a.inverse().unwrap();
        assert_eq!(a.mul(inv), ModInt::<7>::identity());
    }
    for x in 1..863 {
        let a = ModInt::<863>::new(x);
        let inv = a.inverse().unwrap();
        assert_eq!(a.mul(inv), ModInt::<863>::identity());
    }
    assert_eq!(ModInt::<7>::new(3).inverse(), Some(ModInt::<7>::new(5)));
}

#[test]
fn modint_inverse_of_zero_is_none() {
    assert_eq!(ModInt::<7>::new(0).inverse(), None);
    assert_eq!(ModInt::<863>::zero().inverse(), None);
}

#[test]
fn modint_inverse_goes_by_the_gcd() {
    // gcd(6, 9) == 3: no inverse
    assert_eq!(ModInt::<9>::new(6).inverse(), None);
    assert_eq!(ModInt::<9>::new(3).inverse(), None);
    // gcd(2, 9) == 1: the power with exponent 7, which is 128 = 14 * 9 + 2
    assert_eq!(ModInt::<9>::new(2).inverse(), Some(ModInt::<9>::new(2)));
    // gcd(4, 9) == 1: 4^7 = 16384 = 1820 * 9 + 4
    assert_eq!(ModInt::<9>::new(4).inverse(), Some(ModInt::<9>::new(4)));
    assert_eq!(ModInt::<8>::new(2).inverse(), None);
    assert_eq!(ModInt::<8>::new(3).inverse(), Some(ModInt::<8>::new(1)));
}

#[test]
fn modint_characteristic_is_the_modulus() {
    assert_eq!(ModInt::<7>::characteristic(), 7);
    assert_eq!(ModInt::<863>::characteristic(), 863);
}

#[test]
fn modint_to_string_is_decimal() {
    assert_eq!(ModInt::<7>::new(5).to_string(), "5");
    assert_eq!(ModInt::<863>::new(862).to_string(), "862");
    assert_eq!(ModInt::<863>::new(0).to_string(), "0");
}

#[test]
fn decimal_string_exact_values() {
    assert_eq!(decimal_string(0), "0");
    assert_eq!(decimal_string(9), "9");
    assert_eq!(decimal_string(10), "10");
    assert_eq!(decimal_string(1234567890), "1234567890");
    assert_eq!(decimal_string(u64::MAX), "18446744073709551615");
}

#[test]
fn modint_ring_laws_on_all_residues() {
    for x in 0..7 {
        for y in 0..7 {
            for z in 0..7 {
                let (a, b, c) = (ModInt::<7>::new(x), ModInt::<7>::new(y), ModInt::<7>::new(z));
                assert_eq!(a.add(b), b.add(a));
                assert_eq!(a.mul(b), b.mul(a));
                assert_eq!(a.add(b).add(c), a.add(b.add(c)));
                assert_eq!(a.mul(b).mul(c), a.mul(b.mul(c)));
                assert_eq!(a.mul(b.add(c)), a.mul(b).add(a.mul(c)));
                assert_eq!(a.sub(b), a.add(b.neg()));
            }
        }
    }
}

#[test]
fn modint_operators_agree_with_the_methods() {
    for x in 0..11 {
        for y in 0..11 {
            let (a, b) = (ModInt::<11>::new(x), ModInt::<11>::new(y));
            assert_eq!(a + b, a.add(b));
            assert_eq!(a - b, a.sub(b));
            assert_eq!(a * b, a.mul(b));
        }
    }
    assert_eq!(ModInt::<7>::new(5) + ModInt::<7>::new(4), ModInt::<7>::new(2));
    assert_eq!(ModInt::<7>::new(4) - ModInt::<7>::new(5), ModInt::<7>::new(6));
    assert_eq!(ModInt::<7>::new(5) * ModInt::<7>::new(4), ModInt::<7>::new(6));
}
