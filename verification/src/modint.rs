use crate::characteristic::Characteristic;
use crate::identities::{Identity, Zero};
use crate::inverse::Inverse;
use crate::finite_domain::{is_domain, lemma_power_of_order, lists_nonzero};
use crate::printable::{decimal, decimal_string, Printable};
use crate::number_theory::lemma_euclid;
use crate::primality::prime;
use crate::ring::{ring_pow, Ring};
use vstd::arithmetic::div_mod::*;
use vstd::arithmetic::mul::*;
use vstd::arithmetic::power::*;
use vstd::prelude::*;

verus! {

/// Elements of `Z / (MOD)Z`.
#[derive(Debug, Clone, Copy, Eq, PartialEq, Hash)]
pub struct ModInt<const MOD: u64> {
    /// The representative; below `MOD` in every well-formed element.
    pub representative: u64,
}

impl<const MOD: u64> View for ModInt<MOD> {
    type V = int;

    /// The representative, an integer.
    open spec fn view(&self) -> int {
        self.representative as int
    }
}

impl<const MOD: u64> ModInt<MOD> {
    /// Largest modulus whose products of two residues fit in 64 bits.
    pub open spec fn modulus_ok() -> bool {
        0 < MOD <= 0x1_0000_0000
    }

    /// The element with a given representative.
    pub open spec fn residue(n: int) -> Self {
        ModInt { representative: n as u64 }
    }

    /// Constructor.
    pub fn new(n: u64) -> (r: Self)
        requires
            MOD > 0,
        ensures
            r@ == n as int % MOD as int,
            r == Self::residue(n as int % MOD as int),
            Self::modulus_ok() ==> r.wf(),
    {
        ModInt { representative: n % MOD }
    }

    /// Calculate exponentiation by repeated squaring: the `n`-th power of the
    /// representative, reduced.
    pub fn power(&self, n: u64) -> (r: Self)
        requires
            self.wf(),
        ensures
            r@ == pow(self@, n as nat) % MOD as int,
            r == ring_pow(*self, n as nat),
            r.wf(),
    {
        proof {
            lemma_pow_view(*self, n as nat);
        }
        let mut res: u64 = 1 % MOD;
        let mut a: u64 = self.representative;
        let mut m: u64 = n;
        proof {
            lemma_mul_mod_noop_left(1, pow(self@, n as nat), MOD as int);
        }
        while m != 0
            invariant
                Self::modulus_ok(),
                res < MOD,
                a < MOD,
                (res * pow(a as int, m as nat)) % MOD as int == pow(self@, n as nat) % MOD as int,
            decreases m,
        {
            let ghost k: nat = (m / 2) as nat;
            let ghost md: int = MOD as int;
            let ghost a0: int = a as int;
            let ghost r0: int = res as int;
            proof {
                lemma_mul_upper_bound(r0, md - 1, a0, md - 1);
                lemma_mul_upper_bound(a0, md - 1, a0, md - 1);
                assert((md - 1) * (md - 1) <= u64::MAX) by (nonlinear_arith)
                    requires
                        0 < md <= 0x1_0000_0000,
                ;
                // a0^(2k) == (a0 * a0)^k, and reducing the base keeps the residue
                lemma_pow_multiplies(a0, 2, k);
                lemma_square_is_pow2(a0);
                lemma_pow_mod_noop(a0 * a0, k, md);
            }
            if m % 2 == 1 {
                proof {
                    // r0 * a0^(2k+1) == (r0 * a0) * a0^(2k)
                    assert(pow(a0, m as nat) == a0 * pow(a0, (m - 1) as nat)) by {
                        reveal(pow);
                    }
                    lemma_mul_is_associative(r0, a0, pow(a0, 2 * k));
                    lemma_mul_mod_noop_left(r0 * a0, pow(a0, 2 * k), md);
                    lemma_mul_mod_noop_right((r0 * a0) % md, pow(a0 * a0, k), md);
                    lemma_mul_mod_noop_right((r0 * a0) % md, pow((a0 * a0) % md, k), md);
                    lemma_mul_mod_noop_right((r0 * a0) % md, pow(a0, 2 * k), md);
                }
                res = (res * a) % MOD;
            } else {
                proof {
                    lemma_mul_mod_noop_right(r0, pow(a0 * a0, k), md);
                    lemma_mul_mod_noop_right(r0, pow((a0 * a0) % md, k), md);
                    lemma_mul_mod_noop_right(r0, pow(a0, 2 * k), md);
                }
            }
            a = (a * a) % MOD;
            m = m / 2;
        }
        proof {
            reveal(pow);
            lemma_small_mod(res as nat, MOD as nat);
        }
        ModInt { representative: res }
    }

    /// Make it `u64` type.
    pub fn to_int(&self) -> (n: u64)
        ensures
            n as int == self@,
    {
        self.representative
    }
}

impl<const MOD: u64> Zero for ModInt<MOD> {
    open spec fn zero_spec() -> Self {
        Self::residue(0)
    }

    open spec fn has_zero() -> bool {
        Self::modulus_ok()
    }

    /// The element `0` of `Z / (MOD)Z`.
    fn zero() -> (z: Self) {
        ModInt::new(0)
    }
}

impl<const MOD: u64> Identity for ModInt<MOD> {
    open spec fn identity_spec() -> Self {
        Self::residue(1int % MOD as int)
    }

    open spec fn has_identity() -> bool {
        Self::modulus_ok()
    }

    /// The element `1` of `Z / (MOD)Z`.
    fn identity() -> (e: Self) {
        ModInt::new(1)
    }
}

impl<const MOD: u64> Characteristic for ModInt<MOD> {
    open spec fn characteristic_spec() -> nat {
        MOD as nat
    }

    /// The characteristic of `Z / (MOD)Z`, which is `MOD`.
    fn characteristic() -> (c: u64) {
        MOD
    }
}

impl<const MOD: u64> Ring for ModInt<MOD> {
    open spec fn wf(self) -> bool {
        Self::modulus_ok() && 0 <= self@ < MOD
    }

    open spec fn add_spec(self, rhs: Self) -> Self {
        Self::residue((self@ + rhs@) % MOD as int)
    }

    open spec fn sub_spec(self, rhs: Self) -> Self {
        Self::residue((self@ + MOD - rhs@) % MOD as int)
    }

    open spec fn mul_spec(self, rhs: Self) -> Self {
        Self::residue((self@ * rhs@) % MOD as int)
    }

    open spec fn neg_spec(self) -> Self {
        Self::residue((MOD - self@) % MOD as int)
    }

    fn add(self, rhs: Self) -> (r: Self) {
        ModInt { representative: (self.representative + rhs.representative) % MOD }
    }

    fn sub(self, rhs: Self) -> (r: Self) {
        ModInt { representative: (self.representative + MOD - rhs.representative) % MOD }
    }

    fn mul(self, rhs: Self) -> (r: Self) {
        proof {
            lemma_mul_upper_bound(self@, MOD - 1, rhs@, MOD - 1);
            assert((MOD - 1) * (MOD - 1) <= u64::MAX) by (nonlinear_arith)
                requires
                    0 < MOD <= 0x1_0000_0000,
            ;
        }
        ModInt { representative: (self.representative * rhs.representative) % MOD }
    }

    fn neg(self) -> (r: Self) {
        ModInt::<MOD>::new(MOD - self.representative)
    }

    fn add_assign(&mut self, rhs: Self) {
        *self = Self { representative: (self.representative + rhs.representative) % MOD };
    }

    fn sub_assign(&mut self, rhs: Self) {
        *self = Self { representative: (self.representative + MOD - rhs.representative) % MOD };
    }

    fn mul_assign(&mut self, rhs: Self) {
        proof {
            lemma_mul_upper_bound(self@, MOD - 1, rhs@, MOD - 1);
            assert((MOD - 1) * (MOD - 1) <= u64::MAX) by (nonlinear_arith)
                requires
                    0 < MOD <= 0x1_0000_0000,
            ;
        }
        *self = Self { representative: (self.representative * rhs.representative) % MOD };
    }

    fn equals(&self, rhs: &Self) -> (b: bool) {
        self.representative == rhs.representative
    }

    proof fn lemma_wf_has_constants(x: Self) {
    }

    proof fn lemma_constants() {
    }

    proof fn lemma_closed(a: Self, b: Self) {
        lemma_mul_nonnegative(a@, b@);
    }

    proof fn lemma_add_comm(a: Self, b: Self) {
    }

    proof fn lemma_add_assoc(a: Self, b: Self, c: Self) {
        let m = MOD as int;
        lemma_add_mod_noop_left_eq(a@ + b@, c@, m);
        lemma_add_mod_noop_right(a@, b@ + c@, m);
        assert((a@ + b@) + c@ == a@ + (b@ + c@));
    }

    proof fn lemma_add_zero(a: Self) {
        lemma_small_mod(a@ as nat, MOD as nat);
    }

    proof fn lemma_add_neg(a: Self) {
        let m = MOD as int;
        lemma_add_mod_noop_right(a@, m - a@, m);
        lemma_mod_self_0(m);
    }

    proof fn lemma_sub_def(a: Self, b: Self) {
        let m = MOD as int;
        lemma_add_mod_noop_right(a@, m - b@, m);
    }

    proof fn lemma_mul_comm(a: Self, b: Self) {
        lemma_mul_is_commutative(a@, b@);
    }

    proof fn lemma_mul_assoc(a: Self, b: Self, c: Self) {
        let m = MOD as int;
        lemma_mul_nonnegative(a@, b@);
        lemma_mul_nonnegative(b@, c@);
        lemma_mul_mod_noop_left(a@ * b@, c@, m);
        lemma_mul_mod_noop_right(a@, b@ * c@, m);
        lemma_mul_is_associative(a@, b@, c@);
    }

    proof fn lemma_mul_one(a: Self) {
        let m = MOD as int;
        lemma_mul_mod_noop_right(a@, 1, m);
        lemma_small_mod(a@ as nat, MOD as nat);
    }

    proof fn lemma_distrib(a: Self, b: Self, c: Self) {
        let m = MOD as int;
        lemma_mul_nonnegative(a@, b@);
        lemma_mul_nonnegative(a@, c@);
        lemma_mul_mod_noop_right(a@, b@ + c@, m);
        lemma_mul_is_distributive_add(a@, b@, c@);
        lemma_add_mod_noop(a@ * b@, a@ * c@, m);
    }
}

impl<const MOD: u64> Inverse for ModInt<MOD> {
    /// Defined for the residues coprime to the modulus, as the power with
    /// exponent `MOD - 2`; that power is the inverse where `MOD` is prime.
    open spec fn inverse_spec(self) -> Option<Self> {
        if coprime(self@ as nat, MOD as nat) {
            Some(Self::residue(pow(self@, (MOD - 2) as nat) % MOD as int))
        } else {
            None
        }
    }

    open spec fn can_invert(self) -> bool {
        self.wf() && MOD >= 2
    }

    /// The element `x^(-1)` of `Z / (MOD)Z`, for a prime `MOD`.
    fn inverse(self) -> (r: Option<Self>) {
        let n = self.to_int();
        let g = gcd(n, MOD);
        proof {
            lemma_gcd_one_iff_coprime(n as nat, MOD as nat, g as nat);
        }
        if g != 1 {
            None
        } else {
            let ret = self.power(MOD - 2);
            Some(ret)
        }
    }

    proof fn lemma_inverse_wf(x: Self) {
        lemma_mod_bound(pow(x@, (MOD - 2) as nat), MOD as int);
    }
}

/// `(x % m + y) % m` is `(x + y) % m`.
proof fn lemma_add_mod_noop_left_eq(x: int, y: int, m: int)
    requires
        0 < m,
    ensures
        ((x % m) + y) % m == (x + y) % m,
{
    lemma_add_mod_noop_right(y, x, m);
}

impl<const MOD: u64> Printable for ModInt<MOD> {
    /// The representative in decimal digits.
    open spec fn text(&self) -> Seq<char> {
        decimal(self@ as nat)
    }

    open spec fn printable(&self) -> bool {
        true
    }

    fn to_string(&self) -> (s: String) {
        decimal_string(self.representative)
    }
}

/// The operator `+`: addition in `Z / (MOD)Z`.
impl<const MOD: u64> std::ops::Add for ModInt<MOD> {
    type Output = Self;

    fn add(self, rhs: Self) -> (r: Self) {
        Ring::add(self, rhs)
    }
}

impl<const MOD: u64> vstd::std_specs::ops::AddSpecImpl for ModInt<MOD> {
    open spec fn obeys_add_spec() -> bool {
        true
    }

    open spec fn add_req(self, rhs: Self) -> bool {
        self.wf() && rhs.wf()
    }

    open spec fn add_spec(self, rhs: Self) -> Self {
        Ring::add_spec(self, rhs)
    }
}

/// The operator `-`: subtraction in `Z / (MOD)Z`.
impl<const MOD: u64> std::ops::Sub for ModInt<MOD> {
    type Output = Self;

    fn sub(self, rhs: Self) -> (r: Self) {
        Ring::sub(self, rhs)
    }
}

impl<const MOD: u64> vstd::std_specs::ops::SubSpecImpl for ModInt<MOD> {
    open spec fn obeys_sub_spec() -> bool {
        true
    }

    open spec fn sub_req(self, rhs: Self) -> bool {
        self.wf() && rhs.wf()
    }

    open spec fn sub_spec(self, rhs: Self) -> Self {
        Ring::sub_spec(self, rhs)
    }
}

/// The operator `*`: multiplication in `Z / (MOD)Z`.
impl<const MOD: u64> std::ops::Mul for ModInt<MOD> {
    type Output = Self;

    fn mul(self, rhs: Self) -> (r: Self) {
        Ring::mul(self, rhs)
    }
}

impl<const MOD: u64> vstd::std_specs::ops::MulSpecImpl for ModInt<MOD> {
    open spec fn obeys_mul_spec() -> bool {
        true
    }

    open spec fn mul_req(self, rhs: Self) -> bool {
        self.wf() && rhs.wf()
    }

    open spec fn mul_spec(self, rhs: Self) -> Self {
        Ring::mul_spec(self, rhs)
    }
}

/// Whether `d` divides `n`; zero divides only zero.
pub open spec fn divides(d: nat, n: nat) -> bool {
    if d == 0 {
        n == 0
    } else {
        n % d == 0
    }
}

/// Whether `g` is the greatest common divisor of `a` and `b`: a common
/// divisor that every common divisor divides.
pub open spec fn is_gcd(a: nat, b: nat, g: nat) -> bool {
    &&& divides(g, a)
    &&& divides(g, b)
    &&& forall|d: nat| #[trigger] divides(d, a) && divides(d, b) ==> divides(d, g)
}

/// Whether `a` and `b` have no common divisor but one.
pub open spec fn coprime(a: nat, b: nat) -> bool {
    forall|d: nat| #[trigger] divides(d, a) && divides(d, b) ==> d == 1
}

/// A greatest common divisor is one exactly for coprime numbers.
pub proof fn lemma_gcd_one_iff_coprime(a: nat, b: nat, g: nat)
    requires
        is_gcd(a, b, g),
    ensures
        g == 1 <==> coprime(a, b),
{
    if g == 1 {
        assert forall|d: nat| #[trigger] divides(d, a) && divides(d, b) implies d == 1 by {
            assert(divides(d, g));
            if d > 1 {
                lemma_small_mod(1, d);
            }
        }
    }
    if coprime(a, b) {
        assert(divides(g, a) && divides(g, b));
    }
}

/// Calls `num::Integer::gcd` on two `u64` values. Trusted: what comes back
/// is the greatest common divisor of the two arguments, which is the other
/// argument where one of them is zero.
#[verifier::external_body]
fn gcd(a: u64, b: u64) -> (g: u64)
    ensures
        is_gcd(a as nat, b as nat, g as nat),
{
    num::Integer::gcd(&a, &b)
}

/// The nonzero elements of `Z / (m)Z`, in increasing order.
pub open spec fn nonzero_residues<const MOD: u64>() -> Seq<ModInt<MOD>> {
    Seq::new((MOD - 1) as nat, |i: int| ModInt::<MOD>::residue(i + 1))
}

/// A power in `Z / (MOD)Z` is the power of the representative, reduced.
pub proof fn lemma_pow_view<const MOD: u64>(x: ModInt<MOD>, n: nat)
    requires
        x.wf(),
    ensures
        ring_pow(x, n)@ == pow(x@, n) % MOD as int,
        ring_pow(x, n) == ModInt::<MOD>::residue(pow(x@, n) % MOD as int),
    decreases n,
{
    reveal(pow);
    if n > 0 {
        lemma_pow_view(x, (n - 1) as nat);
        lemma_mul_mod_noop_right(x@, pow(x@, (n - 1) as nat), MOD as int);
    }
}

/// Modulo a prime there are no zero divisors, and one is not zero.
pub proof fn lemma_prime_field_is_domain<const MOD: u64>()
    requires
        prime(MOD as nat),
        ModInt::<MOD>::modulus_ok(),
    ensures
        is_domain::<ModInt<MOD>>(),
        ModInt::<MOD>::identity_spec() != ModInt::<MOD>::zero_spec(),
{
    let m = MOD as int;
    assert forall|a: ModInt<MOD>, b: ModInt<MOD>|
        a.wf() && b.wf() && #[trigger] a.mul_spec(b) == ModInt::<MOD>::zero_spec() implies a
        == ModInt::<MOD>::zero_spec() || b == ModInt::<MOD>::zero_spec() by {
        lemma_mul_nonnegative(a@, b@);
        lemma_mod_bound(a@ * b@, m);
        assert((a@ * b@) % m == 0);
        lemma_euclid(a@, b@, MOD as nat);
        lemma_small_mod(a@ as nat, MOD as nat);
        lemma_small_mod(b@ as nat, MOD as nat);
    }
    lemma_small_mod(1, MOD as nat);
}

/// The residues `1, ..., MOD - 1` are the nonzero elements, each once.
pub proof fn lemma_nonzero_residues<const MOD: u64>()
    requires
        ModInt::<MOD>::modulus_ok(),
    ensures
        lists_nonzero(nonzero_residues::<MOD>()),
        nonzero_residues::<MOD>().len() == MOD - 1,
{
    let elems = nonzero_residues::<MOD>();
    assert forall|y: ModInt<MOD>|
        y.wf() && y != ModInt::<MOD>::zero_spec() implies #[trigger] elems.contains(y) by {
        assert(y@ != 0);
        assert(elems[y@ - 1] == y);
    }
}

/// Fermat's little theorem: modulo a prime `p`, the power with exponent
/// `p - 1` of a nonzero element is one.
pub proof fn lemma_fermat<const MOD: u64>(x: ModInt<MOD>)
    requires
        prime(MOD as nat),
        x.wf(),
        x != ModInt::<MOD>::zero_spec(),
    ensures
        ring_pow(x, (MOD - 1) as nat) == ModInt::<MOD>::identity_spec(),
        pow(x@, (MOD - 1) as nat) % MOD as int == 1,
{
    lemma_prime_field_is_domain::<MOD>();
    lemma_nonzero_residues::<MOD>();
    lemma_power_of_order(nonzero_residues::<MOD>(), x);
    lemma_pow_view(x, (MOD - 1) as nat);
    lemma_small_mod(1, MOD as nat);
}

/// A nonzero residue modulo a prime is coprime to it.
pub proof fn lemma_coprime_to_prime(a: nat, p: nat)
    requires
        prime(p),
        0 < a < p,
    ensures
        coprime(a, p),
{
    assert forall|d: nat| #[trigger] divides(d, a) && divides(d, p) implies d == 1 by {
        if d > p {
            lemma_small_mod(p, d);
        }
        if d == p {
            lemma_small_mod(a, p);
        }
    }
}

/// Modulo a prime every nonzero element has an inverse, and `inverse` gives
/// it: the product of the element and what `inverse` returns is one.
pub proof fn lemma_inverse_in_prime_field<const MOD: u64>(x: ModInt<MOD>)
    requires
        prime(MOD as nat),
        x.wf(),
        x != ModInt::<MOD>::zero_spec(),
    ensures
        x.can_invert(),
        x.inverse_spec() is Some,
        x.mul_spec(x.inverse_spec().unwrap()) == ModInt::<MOD>::identity_spec(),
{
    assert(x@ != 0);
    lemma_coprime_to_prime(x@ as nat, MOD as nat);
    lemma_fermat(x);
    lemma_pow_view(x, (MOD - 2) as nat);
    assert(ring_pow(x, (MOD - 1) as nat) == x.mul_spec(ring_pow(x, (MOD - 2) as nat)));
}

/// Zero has no inverse modulo a number greater than one.
pub proof fn lemma_zero_not_invertible<const MOD: u64>()
    requires
        MOD >= 2,
    ensures
        ModInt::<MOD>::zero_spec().inverse_spec() is None,
{
    assert(divides(MOD as nat, 0) && divides(MOD as nat, MOD as nat)) by {
        lemma_mod_self_0(MOD as int);
    }
}

/// Modulo a number greater than two, one plus one is not zero.
pub proof fn lemma_two_is_not_zero<const MOD: u64>()
    requires
        MOD >= 3,
        ModInt::<MOD>::modulus_ok(),
    ensures
        ModInt::<MOD>::identity_spec().add_spec(ModInt::<MOD>::identity_spec())
            != ModInt::<MOD>::zero_spec(),
{
    lemma_small_mod(1, MOD as nat);
    lemma_small_mod(2, MOD as nat);
}

} // verus!
