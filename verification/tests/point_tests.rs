use ecdh::complexification::Complex;
use ecdh::curve::{curve_polynomial, embed, is_on_curve};
use ecdh::modint::ModInt;
use ecdh::printable::Printable;
use ecdh::rational_point::{OrderSearch, RationalPoint};

type K = Complex<ModInt<7>>;
type Point = RationalPoint<K>;

fn k(a: u64, b: u64) -> K {
    Complex::new(ModInt::<7>::new(a), ModInt::<7>::new(b))
}

fn pt(x: u64, y: u64) -> Point {
    RationalPoint::new(k(x, 0), k(y, 0))
}

/// The points of `y^2 = x^3 + x + 1` over the field of 49 elements.
fn curve_points() -> Vec<Point> {
    let f = curve_polynomial::<7>(1, 1);
    let mut points = vec![RationalPoint::O];
    for a in 0..7 {
        for b in 0..7 {
            for c in 0..7 {
                for d in 0..7 {
                    if is_on_curve(&f, k(a, b), k(c, d)) {
                        points.push(RationalPoint::new(k(a, b), k(c, d)));
                    }
                }
            }
        }
    }
    points
}

fn add_n_times(p: &Point, a: K, n: u64) -> Point {
    let mut acc = RationalPoint::O;
    for _ in 0..n {
        acc = acc.add_rational_points(p, a);
    }
    acc
}

#[test]
fn new_makes_an_affine_point() {
    assert_eq!(RationalPoint::new(k(1, 2), k(3, 4)), RationalPoint::Point(k(1, 2), k(3, 4)));
}

#[test]
fn the_curve_has_the_expected_points() {
    let points = curve_points();
    for p in [pt(0, 1), pt(0, 6), pt(2, 2), pt(2, 5)] {
        assert!(points.contains(&p));
    }
    assert!(!points.contains(&pt(1, 1)));
    // the order of the group of a curve over 49 elements lies in Hasse's interval
    assert!(36 <= points.len() && points.len() <= 64);
}

#[test]
fn addition_exact_values() {
    let a = embed::<7>(1);
    // doubling (0, 1): m = 1 / 2 = 4, x3 = 16 = 2, y3 = 4 (0 - 2) - 1 = -9 = 5
    assert_eq!(pt(0, 1).add_rational_points(&pt(0, 1), a), pt(2, 5));
    // chord through (0, 1) and (2, 5): m = 4 / 2 = 2, x3 = 4 - 0 - 2 = 2, y3 = 2 (0 - 2) - 1 = 2
    assert_eq!(pt(0, 1).add_rational_points(&pt(2, 5), a), pt(2, 2));
    // a point and its mirror image
    assert_eq!(pt(0, 1).add_rational_points(&pt(0, 6), a), RationalPoint::O);
    assert_eq!(pt(2, 2).add_rational_points(&pt(2, 5), a), RationalPoint::O);
}

#[test]
fn infinity_is_neutral() {
    let a = embed::<7>(1);
    for p in curve_points() {
        assert_eq!(p.add_rational_points(&RationalPoint::O, a), p);
        assert_eq!(RationalPoint::O.add_rational_points(&p, a), p);
    }
}

#[test]
fn addition_is_commutative_on_the_curve() {
    let a = embed::<7>(1);
    let points = curve_points();
    for p in &points {
        for q in &points {
            assert_eq!(p.add_rational_points(q, a), q.add_rational_points(p, a));
        }
    }
}

#[test]
fn addition_is_associative_on_the_curve() {
    let a = embed::<7>(1);
    let points = curve_points();
    let sample: Vec<Point> = points.iter().step_by(3).copied().collect();
    for p in &sample {
        for q in &sample {
            for r in &sample {
                let left = p.add_rational_points(q, a).add_rational_points(r, a);
                let right = p.add_rational_points(&q.add_rational_points(r, a), a);
                assert_eq!(left, right);
            }
        }
    }
}

#[test]
fn sums_stay_on_the_curve() {
    let a = embed::<7>(1);
    let f = curve_polynomial::<7>(1, 1);
    let points = curve_points();
    for p in &points {
        for q in &points {
            match p.add_rational_points(q, a) {
                RationalPoint::O => {}
                RationalPoint::Point(x, y) => assert!(is_on_curve(&f, x, y)),
            }
        }
    }
}

#[test]
fn try_add_agrees_with_add_on_the_curve() {
    let a = embed::<7>(1);
    let points = curve_points();
    for p in &points {
        for q in &points {
            assert_eq!(p.try_add_rational_points(q, a), Some(p.add_rational_points(q, a)));
        }
    }
}

#[test]
fn try_add_reports_a_missing_inverse() {
    let a = embed::<7>(1);
    // equal abscissas, ordinates 0 and 1: the tangent's denominator 2 * 0 has no inverse
    assert_eq!(pt(3, 0).try_add_rational_points(&pt(3, 1), a), None);
    assert_eq!(pt(3, 0).try_multiply_rational_point(a, 0), Some(RationalPoint::O));
    // (3, 0) is its own mirror image: doubling gives the point at infinity
    assert_eq!(pt(3, 0).try_add_rational_points(&pt(3, 0), a), Some(RationalPoint::O));
    // 3 * (3, 1) needs (3, 1) + 2 * (3, 1); off the curve the sums still exist here
    assert!(pt(3, 1).try_multiply_rational_point(a, 3).is_some());
}

#[test]
fn scalar_multiple_is_repeated_addition() {
    let a = embed::<7>(1);
    for p in curve_points() {
        for n in 0..=20 {
            assert_eq!(p.multiply_rational_point(a, n), add_n_times(&p, a, n));
            assert_eq!(p.try_multiply_rational_point(a, n), Some(add_n_times(&p, a, n)));
        }
    }
}

#[test]
fn scalar_multiple_trivial_cases() {
    let a = embed::<7>(1);
    assert_eq!(pt(0, 1).multiply_rational_point(a, 0), RationalPoint::O);
    assert_eq!(pt(0, 1).multiply_rational_point(a, 1), pt(0, 1));
    assert_eq!(pt(0, 1).multiply_rational_point(a, 2), pt(2, 5));
    let o: Point = RationalPoint::O;
    for n in [0, 1, 2, 17, u64::MAX] {
        assert_eq!(o.multiply_rational_point(a, n), RationalPoint::O);
    }
}

#[test]
fn order_of_a_point() {
    let a = embed::<7>(1);
    // the points over the field of seven elements form a group of order five
    assert_eq!(pt(0, 1).order(a, 100), OrderSearch::Found(5));
    assert_eq!(pt(2, 2).order(a, 5), OrderSearch::Found(5));
    assert_eq!(pt(0, 1).order(a, 4), OrderSearch::NotFound);
    assert_eq!(pt(0, 1).order(a, 0), OrderSearch::NotFound);
    assert_eq!(pt(0, 1).order(a, 1), OrderSearch::NotFound);
    let o: Point = RationalPoint::O;
    assert_eq!(o.order(a, 10), OrderSearch::Found(2));
    for p in curve_points() {
        if let OrderSearch::Found(n) = p.order(a, 100) {
            assert_eq!(p.multiply_rational_point(a, n), RationalPoint::O);
        } else {
            panic!("no order found");
        }
    }
}

#[test]
fn order_search_reports_a_missing_sum() {
    // modulo 9 the tangent's denominator 2 * 3 has no inverse
    let a = ModInt::<9>::new(1);
    let p = RationalPoint::new(ModInt::<9>::new(1), ModInt::<9>::new(3));
    assert_eq!(p.try_add_rational_points(&p, a), None);
    assert_eq!(p.order(a, 10), OrderSearch::Undefined);
    assert_eq!(p.order(a, 1), OrderSearch::NotFound);
    // double-and-add doubles once for every bit of the factor
    assert_eq!(p.try_multiply_rational_point(a, 0), Some(RationalPoint::O));
    assert_eq!(p.try_multiply_rational_point(a, 1), None);
    assert_eq!(p.try_multiply_rational_point(a, 2), None);
    // a point with ordinate zero and another with the same abscissa
    let a = embed::<7>(1);
    let q = RationalPoint::Point(k(3, 0), k(0, 0));
    assert_eq!(q.try_add_rational_points(&pt(3, 1), a), None);
}

#[test]
fn key_exchange_on_a_small_curve() {
    let a = embed::<7>(1);
    let g = curve_points().into_iter().find(|p| match p.order(a, 100) {
        OrderSearch::Found(n) => n > 5,
        _ => false,
    }).unwrap();
    let n = match g.order(a, 100) {
        OrderSearch::Found(n) => n,
        _ => unreachable!(),
    };
    let (d_a, d_b) = (3, 5);
    let q_a = g.multiply_rational_point(a, d_a);
    let q_b = g.multiply_rational_point(a, d_b);
    let shared_by_alice = q_b.multiply_rational_point(a, d_a);
    let shared_by_bob = q_a.multiply_rational_point(a, d_b);
    assert_eq!(shared_by_alice, shared_by_bob);
    assert_eq!(shared_by_alice, g.multiply_rational_point(a, (d_a * d_b) % n));
}

#[test]
fn key_exchange_over_the_field_of_seven_elements() {
    let a = embed::<7>(1);
    let g = pt(0, 1);
    assert_eq!(g.order(a, 100), OrderSearch::Found(5));
    let q_a = g.multiply_rational_point(a, 3);
    let q_b = g.multiply_rational_point(a, 5);
    assert_eq!(q_b, RationalPoint::O);
    assert_eq!(q_a.multiply_rational_point(a, 5), q_b.multiply_rational_point(a, 3));
    assert_eq!(q_a.multiply_rational_point(a, 5), g.multiply_rational_point(a, 15 % 5));
    assert_eq!(q_a.multiply_rational_point(a, 5), RationalPoint::O);
}

#[test]
fn point_to_string_forms() {
    let o: Point = RationalPoint::O;
    assert_eq!(o.to_string(), "O");
    assert_eq!(pt(2, 5).to_string(), "(2, 5)");
    assert_eq!(RationalPoint::new(k(1, 2), k(0, 3)).to_string(), "((1 + 2i), 3i)");
}
