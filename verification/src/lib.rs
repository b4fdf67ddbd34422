//! Exact arithmetic over a tower of algebraic structures, and the pieces of a
//! Diffie-Hellman key exchange built on it.
//!
//! - [`ring`], [`identities`], [`inverse`], [`characteristic`]: what an
//!   element type of a commutative ring offers, with the laws of a ring.
//! - [`modint`]: the integers modulo a fixed number, a field for a prime.
//! - [`complexification`]: pairs `a + bi` with `i^2 = -1` over a ring.
//! - [`polynomial`]: polynomials in one variable over a ring.
//! - [`rational_point`]: the points of a curve `y^2 = x^3 + a x + b`, their
//!   addition and their multiples.
//! - [`curve`], [`primality`]: the choice of a modulus and of a curve.
//! - [`printable`]: the written form of all of these.
//!
//! The remaining modules hold theorems: [`homomorphism`] (evaluation of
//! polynomials respects the operations), [`number_theory`],
//! [`finite_domain`], [`extension_field`] (Fermat's little theorem and the
//! inverses of a finite field), [`cubic`], [`group_law`] and [`multiples`]
//! (the addition of points: sums of points of a curve exist, lie on the
//! curve and do not depend on the order of the summands).

pub mod characteristic;
pub mod complexification;
pub mod cubic;
pub mod curve;
pub mod extension_field;
pub mod finite_domain;
pub mod group_law;
pub mod homomorphism;
pub mod identities;
pub mod inverse;
pub mod modint;
pub mod multiples;
pub mod number_theory;
pub mod polynomial;
pub mod primality;
pub mod printable;
pub mod rational_point;
pub mod ring;
