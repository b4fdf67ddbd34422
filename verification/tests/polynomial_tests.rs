use ecdh::complexification::Complex;
use ecdh::identities::{Identity, Zero};
use ecdh::modint::ModInt;
use ecdh::polynomial::Polynomial;
use ecdh::printable::Printable;
use ecdh::ring::Ring;

type F7 = ModInt<7>;

fn poly(coefficients: &[u64]) -> Polynomial<F7> {
    let v: Vec<F7> = coefficients.iter().map(|&c| F7::new(c)).collect();
    Polynomial::new(&v)
}

fn all_small_polynomials() -> Vec<Polynomial<F7>> {
    let mut out = Vec::new();
    for a in [0, 1, 3] {
        for b in [0, 2, 6] {
            for c in [0, 1, 5] {
                out.push(poly(&[a, b, c]));
            }
        }
    }
    out.push(poly(&[4]));
    out.push(poly(&[1, 1]));
    out.push(poly(&[6, 0, 0, 2, 1]));
    out
}

#[test]
fn trailing_zeros_are_trimmed() {
    let f = poly(&[0, 0, 3, 0]);
    assert_eq!(f.deg(), 2);
    assert_eq!(f.strict_deg(), Some(2));
    assert_eq!(f, poly(&[0, 0, 3]));
    assert_eq!(poly(&[1, 2, 0, 0, 0]), poly(&[1, 2]));
}

#[test]
fn zero_polynomial_has_degree_zero_and_no_strict_degree() {
    let zero = poly(&[0]);
    assert_eq!(zero.deg(), 0);
    assert_eq!(zero.strict_deg(), None);
    assert_eq!(poly(&[0, 0, 0]), zero);
    assert_eq!(poly(&[0, 0, 0]).deg(), 0);
    assert_eq!(poly(&[0, 0, 0]).strict_deg(), None);
    assert_eq!(Polynomial::<F7>::zero(), zero);
    assert_eq!(Polynomial::<F7>::zero().strict_deg(), None);
}

#[test]
fn empty_coefficients_give_the_zero_polynomial() {
    let f = poly(&[]);
    assert_eq!(f, poly(&[0]));
    assert_eq!(f.deg(), 0);
    assert_eq!(f.strict_deg(), None);
}

#[test]
fn constants() {
    assert_eq!(poly(&[5]).deg(), 0);
    assert_eq!(poly(&[5]).strict_deg(), Some(0));
    assert_eq!(Polynomial::new_constant(F7::new(5)), poly(&[5]));
    assert_eq!(Polynomial::new_constant(F7::new(0)).strict_deg(), None);
    assert_eq!(Polynomial::<F7>::identity(), poly(&[1]));
    assert_eq!(Polynomial::<F7>::identity().strict_deg(), Some(0));
}

#[test]
fn evaluate_exact_values() {
    // 2 + 3x + x^2 at 4: 2 + 12 + 16 = 30 = 2 modulo 7
    let f = poly(&[2, 3, 1]);
    assert_eq!(Polynomial::evaluate(&f, F7::new(4)), F7::new(2));
    assert_eq!(Polynomial::evaluate(&f, F7::new(0)), F7::new(2));
    assert_eq!(Polynomial::evaluate(&poly(&[0]), F7::new(3)), F7::new(0));
    assert_eq!(Polynomial::evaluate(&poly(&[5]), F7::new(3)), F7::new(5));
    // x^3 + x + 1 at 2: 11 = 4
    assert_eq!(Polynomial::evaluate(&poly(&[1, 1, 0, 1]), F7::new(2)), F7::new(4));
}

#[test]
fn polynomial_addition() {
    assert_eq!(poly(&[1, 2, 3]).add(poly(&[4, 5])), poly(&[5, 0, 3]));
    assert_eq!(poly(&[4, 5]).add(poly(&[1, 2, 3])), poly(&[5, 0, 3]));
    // the leading terms cancel
    assert_eq!(poly(&[1, 2, 3]).add(poly(&[1, 2, 4])), poly(&[2, 4]));
    assert_eq!(poly(&[1, 2, 3]).add(poly(&[6, 5, 4])), poly(&[0]));
    let mut f = poly(&[1, 2, 3]);
    f.add_assign(poly(&[4, 5]));
    assert_eq!(f, poly(&[5, 0, 3]));
}

#[test]
fn polynomial_subtraction() {
    assert_eq!(poly(&[1, 2, 3]).sub(poly(&[4, 5])), poly(&[4, 4, 3]));
    assert_eq!(poly(&[4, 5]).sub(poly(&[1, 2, 3])), poly(&[3, 3, 4]));
    assert_eq!(poly(&[1, 2, 3]).sub(poly(&[1, 2, 3])), poly(&[0]));
    assert_eq!(poly(&[1, 2, 3]).sub(poly(&[0, 0, 3])), poly(&[1, 2]));
    let mut f = poly(&[4, 5]);
    f.sub_assign(poly(&[1, 2, 3]));
    assert_eq!(f, poly(&[3, 3, 4]));
}

#[test]
fn polynomial_multiplication_is_the_full_convolution() {
    // (1 + x)(1 + x) = 1 + 2x + x^2
    assert_eq!(poly(&[1, 1]).mul(poly(&[1, 1])), poly(&[1, 2, 1]));
    // 3 (1 + 2x + 3x^2 + x^3)
    assert_eq!(poly(&[3]).mul(poly(&[1, 2, 3, 1])), poly(&[3, 6, 2, 3]));
    assert_eq!(poly(&[1, 2, 3, 1]).mul(poly(&[3])), poly(&[3, 6, 2, 3]));
    // (1 + 2x + 3x^2)(4 + 5x + 6x^2) = 4 + 13x + 28x^2 + 27x^3 + 18x^4
    assert_eq!(poly(&[1, 2, 3]).mul(poly(&[4, 5, 6])), poly(&[4, 6, 0, 6, 4]));
    assert_eq!(poly(&[1, 2, 3]).mul(poly(&[0])), poly(&[0]));
    assert_eq!(poly(&[0]).mul(poly(&[1, 2, 3])), poly(&[0]));
    assert_eq!(poly(&[1, 2, 3]).mul(poly(&[1])), poly(&[1, 2, 3]));
    let mut f = poly(&[1, 1]);
    f.mul_assign(poly(&[6, 1]));
    assert_eq!(f, poly(&[6, 0, 1]));
    assert_eq!(f.deg(), 2);
}

#[test]
fn polynomial_negation() {
    assert_eq!(poly(&[1, 2, 3]).neg(), poly(&[6, 5, 4]));
    assert_eq!(poly(&[0]).neg(), poly(&[0]));
    assert_eq!(poly(&[0, 0, 1]).neg(), poly(&[0, 0, 6]));
}

#[test]
fn evaluation_respects_sums_and_products() {
    let polys = all_small_polynomials();
    for f in &polys {
        for g in &polys {
            let sum = f.clone().add(g.clone());
            let product = f.clone().mul(g.clone());
            for t in 0..7 {
                let t = F7::new(t);
                let (ef, eg) = (Polynomial::evaluate(f, t), Polynomial::evaluate(g, t));
                assert_eq!(Polynomial::evaluate(&sum, t), ef.add(eg));
                assert_eq!(Polynomial::evaluate(&product, t), ef.mul(eg));
            }
        }
    }
}

#[test]
fn evaluation_respects_sums_and_products_over_the_extension() {
    let c = |a: u64, b: u64| Complex::new(F7::new(a), F7::new(b));
    let f = Polynomial::new(&vec![c(1, 2), c(0, 3), c(4, 0)]);
    let g = Polynomial::new(&vec![c(5, 5), c(6, 1)]);
    let sum = f.clone().add(g.clone());
    let product = f.clone().mul(g.clone());
    for a in 0..7 {
        for b in 0..7 {
            let t = c(a, b);
            let (ef, eg) = (Polynomial::evaluate(&f, t), Polynomial::evaluate(&g, t));
            assert_eq!(Polynomial::evaluate(&sum, t), ef.add(eg));
            assert_eq!(Polynomial::evaluate(&product, t), ef.mul(eg));
        }
    }
}

#[test]
fn polynomial_written_form() {
    assert_eq!(poly(&[1, 1, 3]).print_f_of_x('x'), "1 + x + 3x^2");
    assert_eq!(poly(&[1, 1, 3]).to_string(), "1 + x + 3x^2");
    assert_eq!(poly(&[0, 0, 3]).print_f_of_x('t'), "3t^2");
    assert_eq!(poly(&[0, 1]).print_f_of_x('x'), "x");
    assert_eq!(poly(&[0, 2]).print_f_of_x('x'), "2x");
    assert_eq!(poly(&[0]).print_f_of_x('x'), "0");
    assert_eq!(poly(&[5]).print_f_of_x('x'), "5");
    assert_eq!(poly(&[2, 0, 0, 1]).print_f_of_x('y'), "2 + y^3");
    assert_eq!(poly(&[1, 1, 0, 1]).to_string(), "1 + x + x^3");
    // a negative coefficient is written as its residue, after a plus sign
    assert_eq!(poly(&[6, 6]).to_string(), "6 + 6x");
    let mut long = vec![0u64; 13];
    long[12] = 4;
    long[10] = 1;
    assert_eq!(poly(&long).to_string(), "x^10 + 4x^12");
}

#[test]
fn polynomial_written_form_over_the_extension() {
    let c = |a: u64, b: u64| Complex::new(F7::new(a), F7::new(b));
    let f = Polynomial::new(&vec![c(1, 2), c(1, 0), c(0, 3)]);
    assert_eq!(f.to_string(), "(1 + 2i) + x + 3ix^2");
}

#[test]
fn evaluation_respects_differences_and_negatives() {
    let polys = all_small_polynomials();
    for f in &polys {
        for g in &polys {
            let difference = f.clone().sub(g.clone());
            let negative = f.clone().neg();
            for t in 0..7 {
                let t = F7::new(t);
                let (ef, eg) = (Polynomial::evaluate(f, t), Polynomial::evaluate(g, t));
                assert_eq!(Polynomial::evaluate(&difference, t), ef.sub(eg));
                assert_eq!(Polynomial::evaluate(&negative, t), ef.neg());
            }
        }
    }
}
