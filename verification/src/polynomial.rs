use crate::printable::{
    append_plus, decimal, decimal_string, plus_text, push_char, Printable,
};
use crate::ring::{all_wf, lemma_closure, ring_pow, Ring};
use vstd::prelude::*;
use vstd::string::StringExecFns;

verus! {

/// Polynomials (in 1 variable).
///
/// `coefficients` is an array of coefficients starting with 0-th coefficient.
#[derive(Debug, Eq, PartialEq, Hash)]
pub struct Polynomial<T> {
    coefficients: Vec<T>,
    degree: usize,
}

impl<T> View for Polynomial<T> {
    type V = Seq<T>;

    /// The coefficients, the one of the lowest power first.
    closed spec fn view(&self) -> Seq<T> {
        self.coefficients@
    }
}

/// Dropping the zero coefficients of the highest powers, down to one
/// coefficient.
pub open spec fn trim<T: Ring>(s: Seq<T>) -> Seq<T>
    decreases s.len(),
{
    if s.len() > 1 && s.last() == T::zero_spec() {
        trim(s.drop_last())
    } else {
        s
    }
}

/// The coefficients that a polynomial keeps of those it is made from: `[0]`
/// for none at all, and else all but the zeros of the highest powers.
pub open spec fn normalize<T: Ring>(s: Seq<T>) -> Seq<T> {
    if s.len() == 0 {
        seq![T::zero_spec()]
    } else {
        trim(s)
    }
}

/// Whether a sequence of coefficients is one that `normalize` leaves as it
/// is: not empty and, if longer than one, without a zero at its end.
pub open spec fn is_normal<T: Ring>(s: Seq<T>) -> bool {
    s.len() >= 1 && (s.len() == 1 || s.last() != T::zero_spec())
}

/// The value of the polynomial with coefficients `s` at `t`: the sum of the
/// terms `s[i] * t^i`.
pub open spec fn eval_spec<T: Ring>(s: Seq<T>, t: T) -> T
    decreases s.len(),
{
    if s.len() == 0 {
        T::zero_spec()
    } else {
        eval_spec(s.drop_last(), t).add_spec(
            s.last().mul_spec(ring_pow(t, (s.len() - 1) as nat)),
        )
    }
}

/// Trimming gives a normal sequence which is a prefix of the given one.
pub proof fn lemma_trim<T: Ring>(s: Seq<T>)
    requires
        s.len() >= 1,
    ensures
        is_normal(trim(s)),
        trim(s).len() <= s.len(),
        trim(s) == s.take(trim(s).len() as int),
        forall|i: int| trim(s).len() <= i < s.len() ==> #[trigger] s[i] == T::zero_spec(),
        is_normal(s) ==> trim(s) == s,
    decreases s.len(),
{
    if s.len() > 1 && s.last() == T::zero_spec() {
        lemma_trim(s.drop_last());
        let n = trim(s).len() as int;
        assert(s.drop_last().take(n) == s.take(n));
        assert forall|i: int| trim(s).len() <= i < s.len() implies s[i] == T::zero_spec() by {
            if i < s.len() - 1 {
                assert(s.drop_last()[i] == s[i]);
            }
        }
    } else {
        assert(s.take(s.len() as int) == s);
    }
}

/// Normalizing gives a normal sequence, keeps well-formed coefficients well
/// formed, and changes nothing when it is done again.
pub proof fn lemma_normalize<T: Ring>(s: Seq<T>)
    requires
        T::has_zero(),
        all_wf(s),
    ensures
        is_normal(normalize(s)),
        all_wf(normalize(s)),
        normalize(normalize(s)) == normalize(s),
{
    T::lemma_constants();
    if s.len() > 0 {
        lemma_trim(s);
        lemma_trim(trim(s));
    }
}

/// The coefficient of the power `i` in the sum of two polynomials.
pub open spec fn add_coeff<T: Ring>(f: Seq<T>, g: Seq<T>, i: int) -> T {
    if i < f.len() && i < g.len() {
        f[i].add_spec(g[i])
    } else if i < f.len() {
        f[i]
    } else {
        g[i]
    }
}

/// The coefficient of the power `i` in the difference of two polynomials.
pub open spec fn sub_coeff<T: Ring>(f: Seq<T>, g: Seq<T>, i: int) -> T {
    if i < f.len() && i < g.len() {
        f[i].sub_spec(g[i])
    } else if i < f.len() {
        f[i]
    } else {
        T::zero_spec().sub_spec(g[i])
    }
}

/// The larger of two lengths.
pub open spec fn longer(m: nat, n: nat) -> nat {
    if m >= n {
        m
    } else {
        n
    }
}

/// The sum, coefficient by coefficient, the shorter operand continued with
/// zeros; not yet normalized.
pub open spec fn add_raw<T: Ring>(f: Seq<T>, g: Seq<T>) -> Seq<T> {
    Seq::new(longer(f.len(), g.len()), |i: int| add_coeff(f, g, i))
}

/// The difference, coefficient by coefficient, the shorter operand continued
/// with zeros; not yet normalized.
pub open spec fn sub_raw<T: Ring>(f: Seq<T>, g: Seq<T>) -> Seq<T> {
    Seq::new(longer(f.len(), g.len()), |i: int| sub_coeff(f, g, i))
}

/// The negatives of the coefficients.
pub open spec fn neg_raw<T: Ring>(f: Seq<T>) -> Seq<T> {
    Seq::new(f.len(), |i: int| f[i].neg_spec())
}

/// Whether the product `f[j] * g[k - j]` belongs to the coefficient of the
/// power `k` in a product: both coefficients exist.
pub open spec fn in_range<T>(f: Seq<T>, g: Seq<T>, k: int, j: int) -> bool {
    j < f.len() && 0 <= k - j < g.len()
}

/// The sum of the products `f[j] * g[k - j]` over the `j` below `n` for which
/// both coefficients exist, smallest `j` first.
pub open spec fn conv_sum<T: Ring>(f: Seq<T>, g: Seq<T>, k: int, n: nat) -> T
    decreases n,
{
    if n == 0 {
        T::zero_spec()
    } else {
        let j = n - 1;
        let prev = conv_sum(f, g, k, j as nat);
        if in_range(f, g, k, j) {
            prev.add_spec(f[j].mul_spec(g[k - j]))
        } else {
            prev
        }
    }
}

/// The product of two polynomials: the convolution of their coefficients,
/// not yet normalized.
pub open spec fn mul_raw<T: Ring>(f: Seq<T>, g: Seq<T>) -> Seq<T> {
    Seq::new((f.len() + g.len() - 1) as nat, |k: int| conv_sum(f, g, k, (k + 1) as nat))
}

/// The sums in a convolution are well formed.
pub proof fn lemma_conv_sum_wf<T: Ring>(f: Seq<T>, g: Seq<T>, k: int, n: nat)
    requires
        T::has_zero(),
        all_wf(f),
        all_wf(g),
    ensures
        conv_sum(f, g, k, n).wf(),
    decreases n,
{
    T::lemma_constants();
    if n > 0 {
        lemma_conv_sum_wf(f, g, k, (n - 1) as nat);
        lemma_closure::<T>();
    }
}

impl<T> Polynomial<T> {
    /// The recorded degree is one less than the number of coefficients, of
    /// which there is at least one.
    #[verifier::type_invariant]
    spec fn degree_recorded(&self) -> bool {
        self.coefficients@.len() == self.degree + 1
    }

    /// Return the degree of a polynomial. In this function, set deg 0 = 0.
    pub fn deg(&self) -> (d: usize)
        ensures
            self@.len() >= 1,
            d == self@.len() - 1,
    {
        proof {
            use_type_invariant(self);
        }
        self.degree
    }

    /// Make constant from an element in the coefficient ring.
    pub fn new_constant(t: T) -> (p: Self)
        ensures
            p@ == seq![t],
    {
        let mut f: Vec<T> = Vec::new();
        f.push(t);
        Self { coefficients: f, degree: 0 }
    }
}

impl<T: Copy> Clone for Polynomial<T> {
    /// A polynomial with the same coefficients.
    fn clone(&self) -> (p: Self)
        ensures
            p@ == self@,
    {
        proof {
            use_type_invariant(self);
        }
        let mut f: Vec<T> = Vec::new();
        let mut i: usize = 0;
        while i < self.coefficients.len()
            invariant
                i <= self.coefficients@.len(),
                f@ == self.coefficients@.take(i as int),
            decreases self.coefficients@.len() - i,
        {
            f.push(self.coefficients[i]);
            i += 1;
            assert(f@ =~= self.coefficients@.take(i as int));
        }
        assert(f@ =~= self.coefficients@);
        Self { coefficients: f, degree: self.degree }
    }
}

impl<T: Ring> Polynomial<T> {
    /// Whether the polynomial is in normal form, with well-formed
    /// coefficients.
    pub open spec fn wf(&self) -> bool {
        is_normal(self@) && all_wf(self@)
    }

    /// Degree of a polynomial. If f(x) != 0, it returns `Some(deg f)`,
    /// otherwise `None`.
    pub fn strict_deg(&self) -> (d: Option<usize>)
        requires
            T::has_zero(),
        ensures
            d == if self@ == seq![T::zero_spec()] {
                None
            } else {
                Some((self@.len() - 1) as usize)
            },
    {
        proof {
            use_type_invariant(self);
        }
        if self.coefficients.len() == 1 && self.coefficients[0].equals(&T::zero()) {
            assert(self@ =~= seq![T::zero_spec()]);
            None
        } else {
            Some(self.degree)
        }
    }

    /// Constructor.
    ///
    /// If the coefficient of highest degree is equal to zero, remove it
    /// recursively.
    pub fn new(v: &Vec<T>) -> (p: Self)
        requires
            T::has_zero(),
        ensures
            p@ == normalize(v@),
            all_wf(v@) ==> p.wf(),
    {
        let mut f: Vec<T> = Vec::new();
        if v.len() == 0 {
            f.push(T::zero());
            proof {
                T::lemma_constants();
                assert(f@ =~= seq![T::zero_spec()]);
            }
            Self { coefficients: f, degree: 0 }
        } else {
            f.push(v[0]);
            let mut i: usize = 1;
            while i < v.len()
                invariant
                    1 <= i <= v.len(),
                    f@ == v@.take(i as int),
                decreases v.len() - i,
            {
                f.push(v[i]);
                i += 1;
                assert(f@ =~= v@.take(i as int));
            }
            assert(f@ =~= v@);
            let zero = T::zero();
            while f.len() > 1
                invariant
                    f.len() >= 1,
                    zero == T::zero_spec(),
                    trim(f@) == trim(v@),
                ensures
                    f.len() >= 1,
                    f@ == trim(v@),
                decreases f.len(),
            {
                let t = f[f.len() - 1];
                if t.equals(&zero) {
                    f.pop();
                } else {
                    break ;
                }
            }
            proof {
                lemma_trim(v@);
            }
            let d = f.len() - 1;
            Self { coefficients: f, degree: d }
        }
    }

    /// The evaluate function.
    pub fn evaluate(f: &Self, t: T) -> (r: T)
        requires
            f.wf(),
            t.wf(),
        ensures
            r == eval_spec(f@, t),
            r.wf(),
    {
        proof {
            use_type_invariant(f);
            t.lemma_constants_exist();
        }
        let mut t_pow = T::identity();
        let mut ans = T::zero();
        let mut i: usize = 0;
        while i < f.coefficients.len()
            invariant
                i <= f@.len(),
                f.wf(),
                t.wf(),
                t_pow.wf(),
                ans.wf(),
                t_pow == ring_pow(t, i as nat),
                ans == eval_spec(f@.take(i as int), t),
            decreases f@.len() - i,
        {
            let c = f.coefficients[i];
            proof {
                lemma_closure::<T>();
                assert(f@.take(i + 1).drop_last() == f@.take(i as int));
                T::lemma_mul_comm(t_pow, t);
            }
            ans.add_assign(c.mul(t_pow));
            t_pow.mul_assign(t);
            i += 1;
        }
        assert(f@.take(i as int) == f@);
        ans
    }
}

impl<T: Ring> Polynomial<T> {
    /// The sum of two polynomials.
    fn sum(f: &Self, g: &Self) -> (p: Self)
        requires
            f.wf(),
            g.wf(),
        ensures
            p@ == normalize(add_raw(f@, g@)),
            p.wf(),
    {
        proof {
            use_type_invariant(f);
            use_type_invariant(g);
            f@[0].lemma_constants_exist();
            lemma_closure::<T>();
        }
        let mut v: Vec<T> = Vec::new();
        v.push(f.coefficients[0].add(g.coefficients[0]));
        let common = if f.degree < g.degree {
            f.degree
        } else {
            g.degree
        };
        assert(f.degree < f.coefficients.len() && g.degree < g.coefficients.len());
        let ghost raw = add_raw(f@, g@);
        let mut i: usize = 1;
        while i <= common
            invariant
                1 <= i <= common + 1,
                common < usize::MAX,
                common + 1 <= f@.len(),
                common + 1 <= g@.len(),
                f.wf(),
                g.wf(),
                raw == add_raw(f@, g@),
                v@ == raw.take(i as int),
            decreases common + 1 - i,
        {
            v.push(f.coefficients[i].add(g.coefficients[i]));
            i += 1;
            assert(v@ =~= raw.take(i as int));
        }
        if f.degree < g.degree {
            while i <= g.degree
                invariant
                    f@.len() <= i <= g@.len(),
                    g@.len() == g.degree + 1,
                    g.degree < usize::MAX,
                    raw == add_raw(f@, g@),
                    v@ == raw.take(i as int),
                decreases g.degree + 1 - i,
            {
                v.push(g.coefficients[i]);
                i += 1;
                assert(v@ =~= raw.take(i as int));
            }
        } else {
            while i <= f.degree
                invariant
                    g@.len() <= i <= f@.len(),
                    f@.len() == f.degree + 1,
                    f.degree < usize::MAX,
                    raw == add_raw(f@, g@),
                    v@ == raw.take(i as int),
                decreases f.degree + 1 - i,
            {
                v.push(f.coefficients[i]);
                i += 1;
                assert(v@ =~= raw.take(i as int));
            }
        }
        assert(v@ =~= raw);
        Polynomial::new(&v)
    }

    /// The difference of two polynomials.
    fn difference(f: &Self, g: &Self) -> (p: Self)
        requires
            f.wf(),
            g.wf(),
        ensures
            p@ == normalize(sub_raw(f@, g@)),
            p.wf(),
    {
        proof {
            use_type_invariant(f);
            use_type_invariant(g);
            f@[0].lemma_constants_exist();
            lemma_closure::<T>();
        }
        let mut v: Vec<T> = Vec::new();
        v.push(f.coefficients[0].sub(g.coefficients[0]));
        let common = if f.degree < g.degree {
            f.degree
        } else {
            g.degree
        };
        assert(f.degree < f.coefficients.len() && g.degree < g.coefficients.len());
        let ghost raw = sub_raw(f@, g@);
        let mut i: usize = 1;
        while i <= common
            invariant
                1 <= i <= common + 1,
                common < usize::MAX,
                common + 1 <= f@.len(),
                common + 1 <= g@.len(),
                f.wf(),
                g.wf(),
                raw == sub_raw(f@, g@),
                v@ == raw.take(i as int),
            decreases common + 1 - i,
        {
            v.push(f.coefficients[i].sub(g.coefficients[i]));
            i += 1;
            assert(v@ =~= raw.take(i as int));
        }
        if f.degree < g.degree {
            while i <= g.degree
                invariant
                    f@.len() <= i <= g@.len(),
                    g@.len() == g.degree + 1,
                    g.degree < usize::MAX,
                    g.wf(),
                    T::has_zero(),
                    raw == sub_raw(f@, g@),
                    v@ == raw.take(i as int),
                decreases g.degree + 1 - i,
            {
                proof {
                    T::lemma_constants();
                }
                v.push(T::zero().sub(g.coefficients[i]));
                i += 1;
                assert(v@ =~= raw.take(i as int));
            }
        } else {
            while i <= f.degree
                invariant
                    g@.len() <= i <= f@.len(),
                    f@.len() == f.degree + 1,
                    f.degree < usize::MAX,
                    raw == sub_raw(f@, g@),
                    v@ == raw.take(i as int),
                decreases f.degree + 1 - i,
            {
                v.push(f.coefficients[i]);
                i += 1;
                assert(v@ =~= raw.take(i as int));
            }
        }
        assert(v@ =~= raw);
        Polynomial::new(&v)
    }

    /// The product of two polynomials.
    fn product(f: &Self, g: &Self) -> (p: Self)
        requires
            f.wf(),
            g.wf(),
            f@.len() + g@.len() - 1 <= usize::MAX,
        ensures
            p@ == normalize(mul_raw(f@, g@)),
            p.wf(),
    {
        proof {
            use_type_invariant(f);
            use_type_invariant(g);
            f@[0].lemma_constants_exist();
        }
        let n = f.degree + g.degree + 1;
        let zero = T::zero();
        let mut v: Vec<T> = Vec::new();
        while v.len() < n
            invariant
                v@.len() <= n,
                zero == T::zero_spec(),
                forall|k: int| 0 <= k < v@.len() ==> v@[k] == T::zero_spec(),
            decreases n - v@.len(),
        {
            v.push(zero);
        }
        let mut i: usize = 0;
        while i < n
            invariant
                i <= n,
                n == f@.len() + g@.len() - 1,
                f@.len() == f.degree + 1,
                g@.len() == g.degree + 1,
                v@.len() == n,
                f.wf(),
                g.wf(),
                T::has_zero(),
                forall|k: int| 0 <= k < i ==> v@[k] == conv_sum(f@, g@, k, (k + 1) as nat),
                forall|k: int| i <= k < n ==> v@[k] == T::zero_spec(),
            decreases n - i,
        {
            let mut j: usize = 0;
            while j <= i
                invariant
                    j <= i + 1,
                    i < n,
                    n == f@.len() + g@.len() - 1,
                    f@.len() == f.degree + 1,
                    g@.len() == g.degree + 1,
                    v@.len() == n,
                    f.wf(),
                    g.wf(),
                    T::has_zero(),
                    forall|k: int| 0 <= k < i ==> v@[k] == conv_sum(f@, g@, k, (k + 1) as nat),
                    forall|k: int| i < k < n ==> v@[k] == T::zero_spec(),
                    v@[i as int] == conv_sum(f@, g@, i as int, j as nat),
                decreases i + 1 - j,
            {
                proof {
                    lemma_conv_sum_wf(f@, g@, i as int, j as nat);
                    lemma_closure::<T>();
                }
                if i - j <= g.degree && j <= f.degree {
                    let term = f.coefficients[j].mul(g.coefficients[i - j]);
                    let entry = v[i].add(term);
                    v.set(i, entry);
                }
                j += 1;
            }
            i += 1;
        }
        proof {
            assert(v@ =~= mul_raw(f@, g@));
            assert forall|k: int| 0 <= k < v@.len() implies (#[trigger] v@[k]).wf() by {
                lemma_conv_sum_wf(f@, g@, k, (k + 1) as nat);
            }
        }
        Polynomial::new(&v)
    }

    /// The polynomial with the negatives of the coefficients.
    pub fn neg(self) -> (p: Self)
        requires
            self.wf(),
        ensures
            p@ == normalize(neg_raw(self@)),
            p.wf(),
    {
        proof {
            use_type_invariant(&self);
            self@[0].lemma_constants_exist();
            lemma_closure::<T>();
        }
        let mut v: Vec<T> = Vec::new();
        let mut i: usize = 0;
        while i < self.coefficients.len()
            invariant
                i <= self@.len(),
                self.wf(),
                v@ == neg_raw(self@).take(i as int),
            decreases self@.len() - i,
        {
            v.push(self.coefficients[i].neg());
            i += 1;
            assert(v@ =~= neg_raw(self@).take(i as int));
        }
        assert(v@ =~= neg_raw(self@));
        Polynomial::new(&v)
    }

    /// The sum of two polynomials: the sums of the coefficients, normalized.
    pub fn add(self, rhs: Self) -> (p: Self)
        requires
            self.wf(),
            rhs.wf(),
        ensures
            p@ == normalize(add_raw(self@, rhs@)),
            p.wf(),
    {
        Self::sum(&self, &rhs)
    }

    /// Adds a polynomial to this one.
    pub fn add_assign(&mut self, rhs: Self)
        requires
            old(self).wf(),
            rhs.wf(),
        ensures
            final(self)@ == normalize(add_raw(old(self)@, rhs@)),
            final(self).wf(),
    {
        let p = Self::sum(self, &rhs);
        *self = p;
    }

    /// The difference of two polynomials: the differences of the
    /// coefficients, normalized.
    pub fn sub(self, rhs: Self) -> (p: Self)
        requires
            self.wf(),
            rhs.wf(),
        ensures
            p@ == normalize(sub_raw(self@, rhs@)),
            p.wf(),
    {
        Self::difference(&self, &rhs)
    }

    /// Subtracts a polynomial from this one.
    pub fn sub_assign(&mut self, rhs: Self)
        requires
            old(self).wf(),
            rhs.wf(),
        ensures
            final(self)@ == normalize(sub_raw(old(self)@, rhs@)),
            final(self).wf(),
    {
        let p = Self::difference(self, &rhs);
        *self = p;
    }

    /// The product of two polynomials: the convolution of the coefficients,
    /// normalized.
    pub fn mul(self, rhs: Self) -> (p: Self)
        requires
            self.wf(),
            rhs.wf(),
            self@.len() + rhs@.len() - 1 <= usize::MAX,
        ensures
            p@ == normalize(mul_raw(self@, rhs@)),
            p.wf(),
    {
        Self::product(&self, &rhs)
    }

    /// Multiplies this polynomial by another.
    pub fn mul_assign(&mut self, rhs: Self)
        requires
            old(self).wf(),
            rhs.wf(),
            old(self)@.len() + rhs@.len() - 1 <= usize::MAX,
        ensures
            final(self)@ == normalize(mul_raw(old(self)@, rhs@)),
            final(self).wf(),
    {
        let p = Self::product(self, &rhs);
        *self = p;
    }

    /// The polynomial `0`.
    pub fn zero() -> (p: Self)
        requires
            T::has_zero(),
        ensures
            p@ == seq![T::zero_spec()],
            p.wf(),
    {
        proof {
            T::lemma_constants();
        }
        Polynomial::new_constant(T::zero())
    }

    /// The polynomial `1`.
    pub fn identity() -> (p: Self)
        requires
            T::has_identity(),
        ensures
            p@ == seq![T::identity_spec()],
            p.wf(),
    {
        proof {
            T::lemma_constants();
        }
        Polynomial::new_constant(T::identity())
    }
}

/// Whether the term of the power `i` is written: the constant term where it
/// is the only one or is not zero, the others where they are not zero.
pub open spec fn term_shown<T: Ring>(s: Seq<T>, i: int) -> bool {
    if i == 0 {
        s.len() == 1 || s[0] != T::zero_spec()
    } else {
        s[i] != T::zero_spec()
    }
}

/// Whether one of the terms below the power `n` is written.
pub open spec fn any_shown<T: Ring>(s: Seq<T>, n: nat) -> bool
    decreases n,
{
    n > 0 && (term_shown(s, n - 1) || any_shown(s, (n - 1) as nat))
}

/// The written form of the term `c x^i`: the coefficient, left out before a
/// power of the variable where it is one; the variable from the first power
/// on; `^` and the exponent from the second.
pub open spec fn term_text<T: Ring + Printable>(c: T, i: nat, x: char) -> Seq<char> {
    if i == 0 {
        c.text()
    } else {
        let coefficient = if c == T::identity_spec() {
            Seq::empty()
        } else {
            c.text()
        };
        if i == 1 {
            coefficient.push(x)
        } else {
            coefficient.push(x).push('^') + decimal(i)
        }
    }
}

/// The written form of the terms below the power `n`, joined by ` + `.
pub open spec fn terms_text<T: Ring + Printable>(s: Seq<T>, x: char, n: nat) -> Seq<char>
    decreases n,
{
    if n == 0 {
        Seq::empty()
    } else {
        let i = (n - 1) as nat;
        let prev = terms_text(s, x, i);
        if !term_shown(s, i as int) {
            prev
        } else if any_shown(s, i) {
            prev + plus_text() + term_text(s[i as int], i, x)
        } else {
            prev + term_text(s[i as int], i, x)
        }
    }
}

/// The written form of a polynomial in the variable `x`: its terms in
/// increasing power, those with a zero coefficient left out.
pub open spec fn poly_text<T: Ring + Printable>(s: Seq<T>, x: char) -> Seq<char> {
    terms_text(s, x, s.len())
}

/// Whether all elements of a sequence can be written.
pub open spec fn all_printable<T: Printable>(s: Seq<T>) -> bool {
    forall|i: int| 0 <= i < s.len() ==> (#[trigger] s[i]).printable()
}

impl<T: Ring + Printable> Polynomial<T> {
    /// Display as a function of `x`.
    pub fn print_f_of_x(&self, x: char) -> (s: String)
        requires
            T::has_zero(),
            all_printable(self@),
        ensures
            s@ == poly_text(self@, x),
    {
        proof {
            use_type_invariant(self);
            T::lemma_constants();
        }
        let zero = T::zero();
        let one = T::identity();
        let mut s: String = String::new();
        let mut flag = false;
        if self.degree == 0 || !self.coefficients[0].equals(&zero) {
            s.append(self.coefficients[0].to_string().as_str());
        } else {
            flag = true;
        }
        assert(s@ =~= terms_text(self@, x, 1)) by {
            assert(terms_text(self@, x, 0) =~= Seq::<char>::empty());
        }
        assert(flag == !any_shown(self@, 1)) by {
            assert(!any_shown(self@, 0));
        }
        if self.degree > 0 && !self.coefficients[1].equals(&zero) {
            let ghost before = s@;
            if !flag {
                append_plus(&mut s);
            } else {
                flag = false;
            }
            if !self.coefficients[1].equals(&one) {
                s.append(self.coefficients[1].to_string().as_str());
            }
            push_char(&mut s, x);
            assert(s@ =~= terms_text(self@, x, 2));
        }
        if self.degree > 1 {
            let mut i: usize = 2;
            while i <= self.degree
                invariant
                    2 <= i <= self.degree + 1,
                    self@.len() == self.degree + 1,
                    all_printable(self@),
                    zero == T::zero_spec(),
                    one == T::identity_spec(),
                    s@ == terms_text(self@, x, i as nat),
                    flag == !any_shown(self@, i as nat),
                decreases self.degree + 1 - i,
            {
                assert(self.degree < self.coefficients.len());
                if !self.coefficients[i].equals(&zero) {
                    if !flag {
                        append_plus(&mut s);
                    } else {
                        flag = false;
                    }
                    if !self.coefficients[i].equals(&one) {
                        s.append(self.coefficients[i].to_string().as_str());
                    }
                    push_char(&mut s, x);
                    push_char(&mut s, '^');
                    s.append(decimal_string(i as u64).as_str());
                    assert(s@ =~= terms_text(self@, x, (i + 1) as nat));
                }
                i += 1;
            }
        }
        s
    }
}

impl<T: Ring + Printable> Printable for Polynomial<T> {
    /// The written form in the variable `x`.
    open spec fn text(&self) -> Seq<char> {
        poly_text(self@, 'x')
    }

    open spec fn printable(&self) -> bool {
        T::has_zero() && all_printable(self@)
    }

    fn to_string(&self) -> (s: String) {
        self.print_f_of_x('x')
    }
}

} // verus!
