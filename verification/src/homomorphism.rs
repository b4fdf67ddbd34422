use crate::polynomial::{
    add_coeff, add_raw, conv_sum, eval_spec, in_range, lemma_conv_sum_wf, longer, mul_raw, neg_raw,
    normalize, sub_coeff, sub_raw, trim, Polynomial,
};
use crate::ring::{
    all_wf, lemma_add_interchange, lemma_closure, lemma_distrib_right,
    lemma_mul_interchange, lemma_mul_neg, lemma_mul_zero, lemma_neg_add, lemma_neg_zero,
    lemma_pow_add, lemma_pow_wf, lemma_sub_interchange, lemma_sub_zero, lemma_zero_add, ring_pow,
    Ring,
};
use vstd::prelude::*;

verus! {

/// The value of a polynomial with well-formed coefficients at a well-formed
/// element is well formed.
pub proof fn lemma_eval_wf<T: Ring>(s: Seq<T>, t: T)
    requires
        all_wf(s),
        t.wf(),
    ensures
        eval_spec(s, t).wf(),
    decreases s.len(),
{
    t.lemma_constants_exist();
    if s.len() > 0 {
        lemma_eval_wf(s.drop_last(), t);
        lemma_pow_wf(t, (s.len() - 1) as nat);
        lemma_closure::<T>();
    }
}

/// A polynomial whose coefficients are all zero has the value zero.
pub proof fn lemma_eval_zeros<T: Ring>(s: Seq<T>, t: T)
    requires
        t.wf(),
        forall|i: int| 0 <= i < s.len() ==> #[trigger] s[i] == T::zero_spec(),
    ensures
        eval_spec(s, t) == T::zero_spec(),
    decreases s.len(),
{
    t.lemma_constants_exist();
    if s.len() > 0 {
        lemma_eval_zeros(s.drop_last(), t);
        lemma_pow_wf(t, (s.len() - 1) as nat);
        lemma_mul_zero(ring_pow(t, (s.len() - 1) as nat));
        T::lemma_add_zero(T::zero_spec());
    }
}

/// Dropping zero coefficients of the highest powers keeps the value.
pub proof fn lemma_eval_trim<T: Ring>(s: Seq<T>, t: T)
    requires
        all_wf(s),
        t.wf(),
    ensures
        eval_spec(trim(s), t) == eval_spec(s, t),
    decreases s.len(),
{
    if s.len() > 1 && s.last() == T::zero_spec() {
        lemma_eval_trim(s.drop_last(), t);
        lemma_eval_wf(s.drop_last(), t);
        lemma_pow_wf(t, (s.len() - 1) as nat);
        lemma_mul_zero(ring_pow(t, (s.len() - 1) as nat));
        T::lemma_add_zero(eval_spec(s.drop_last(), t));
    }
}

/// Normalizing keeps the value.
pub proof fn lemma_eval_normalize<T: Ring>(s: Seq<T>, t: T)
    requires
        all_wf(s),
        t.wf(),
    ensures
        eval_spec(normalize(s), t) == eval_spec(s, t),
{
    if s.len() == 0 {
        lemma_eval_zeros(normalize(s), t);
    } else {
        lemma_eval_trim(s, t);
    }
}

/// The value of the sum of the coefficients is the sum of the values.
pub proof fn lemma_eval_add_raw<T: Ring>(f: Seq<T>, g: Seq<T>, t: T)
    requires
        all_wf(f),
        all_wf(g),
        t.wf(),
    ensures
        eval_spec(add_raw(f, g), t) == eval_spec(f, t).add_spec(eval_spec(g, t)),
    decreases longer(f.len(), g.len()),
{
    t.lemma_constants_exist();
    lemma_closure::<T>();
    let n = longer(f.len(), g.len());
    let r = add_raw(f, g);
    if n == 0 {
        T::lemma_add_zero(T::zero_spec());
    } else {
        let f1 = if f.len() == n {
            f.drop_last()
        } else {
            f
        };
        let g1 = if g.len() == n {
            g.drop_last()
        } else {
            g
        };
        assert(r.drop_last() =~= add_raw(f1, g1));
        lemma_eval_add_raw(f1, g1, t);
        lemma_eval_wf(f1, t);
        lemma_eval_wf(g1, t);
        let p = ring_pow(t, (n - 1) as nat);
        lemma_pow_wf(t, (n - 1) as nat);
        let (ef, eg) = (eval_spec(f1, t), eval_spec(g1, t));
        assert(r.last() == add_coeff(f, g, n - 1));
        if f.len() == n && g.len() == n {
            let (a, b) = (f.last().mul_spec(p), g.last().mul_spec(p));
            lemma_distrib_right(f.last(), g.last(), p);
            lemma_add_interchange(ef, eg, a, b);
        } else if f.len() == n {
            let a = f.last().mul_spec(p);
            // (ef + eg) + a == (ef + a) + eg
            T::lemma_add_assoc(ef, eg, a);
            T::lemma_add_comm(eg, a);
            T::lemma_add_assoc(ef, a, eg);
        } else {
            let b = g.last().mul_spec(p);
            T::lemma_add_assoc(ef, eg, b);
        }
    }
}

/// The value of the negatives of the coefficients is the negative of the
/// value.
pub proof fn lemma_eval_neg_raw<T: Ring>(f: Seq<T>, t: T)
    requires
        all_wf(f),
        t.wf(),
    ensures
        all_wf(neg_raw(f)),
        eval_spec(neg_raw(f), t) == eval_spec(f, t).neg_spec(),
    decreases f.len(),
{
    t.lemma_constants_exist();
    lemma_closure::<T>();
    if f.len() == 0 {
        lemma_neg_zero::<T>();
    } else {
        let f1 = f.drop_last();
        assert(neg_raw(f).drop_last() =~= neg_raw(f1));
        lemma_eval_neg_raw(f1, t);
        lemma_eval_wf(f1, t);
        let p = ring_pow(t, (f.len() - 1) as nat);
        lemma_pow_wf(t, (f.len() - 1) as nat);
        lemma_mul_neg(f.last(), p);
        lemma_neg_add(eval_spec(f1, t), f.last().mul_spec(p));
    }
}

/// The rearrangements of sums and differences that the value of a difference
/// of polynomials needs.
proof fn lemma_difference_rearranged<T: Ring>(a: T, b: T, c: T, d: T)
    requires
        a.wf(),
        b.wf(),
        c.wf(),
        d.wf(),
    ensures
        a.sub_spec(b).add_spec(c.sub_spec(d)) == a.add_spec(c).sub_spec(b.add_spec(d)),
        a.sub_spec(b).add_spec(c) == a.add_spec(c).sub_spec(b),
        a.sub_spec(b).add_spec(d.neg_spec()) == a.sub_spec(b.add_spec(d)),
        T::zero_spec().sub_spec(d) == d.neg_spec(),
{
    a.lemma_constants_exist();
    lemma_closure::<T>();
    let o = T::zero_spec();
    lemma_sub_interchange(a, c, b, d);
    lemma_sub_interchange(a, c, b, o);
    lemma_sub_zero(c);
    T::lemma_add_zero(b);
    lemma_sub_interchange(a, o, b, d);
    T::lemma_add_zero(a);
    T::lemma_sub_def(o, d);
    lemma_zero_add(d.neg_spec());
}

/// The value of the difference of the coefficients is the difference of the
/// values.
pub proof fn lemma_eval_sub_raw<T: Ring>(f: Seq<T>, g: Seq<T>, t: T)
    requires
        all_wf(f),
        all_wf(g),
        t.wf(),
    ensures
        all_wf(sub_raw(f, g)),
        eval_spec(sub_raw(f, g), t) == eval_spec(f, t).sub_spec(eval_spec(g, t)),
    decreases longer(f.len(), g.len()),
{
    t.lemma_constants_exist();
    lemma_closure::<T>();
    let o = T::zero_spec();
    let n = longer(f.len(), g.len());
    let r = sub_raw(f, g);
    if n == 0 {
        lemma_sub_zero(o);
    } else {
        let f1 = if f.len() == n {
            f.drop_last()
        } else {
            f
        };
        let g1 = if g.len() == n {
            g.drop_last()
        } else {
            g
        };
        assert(r.drop_last() =~= sub_raw(f1, g1));
        lemma_eval_sub_raw(f1, g1, t);
        lemma_eval_wf(f1, t);
        lemma_eval_wf(g1, t);
        let p = ring_pow(t, (n - 1) as nat);
        lemma_pow_wf(t, (n - 1) as nat);
        let (ef, eg) = (eval_spec(f1, t), eval_spec(g1, t));
        assert(r.last() == sub_coeff(f, g, n - 1));
        if f.len() == n && g.len() == n {
            lemma_distrib_right(f.last(), g.last(), p);
            lemma_difference_rearranged(ef, eg, f.last().mul_spec(p), g.last().mul_spec(p));
        } else if f.len() == n {
            lemma_difference_rearranged(ef, eg, f.last().mul_spec(p), o);
        } else {
            let b = g.last().mul_spec(p);
            lemma_difference_rearranged(ef, eg, o, g.last());
            lemma_mul_neg(g.last(), p);
            lemma_difference_rearranged(ef, eg, o, b);
        }
    }
}

/// The coefficients of `c x^n` times the polynomial `g`.
pub open spec fn shifted<T: Ring>(c: T, n: nat, g: Seq<T>) -> Seq<T> {
    Seq::new(
        n + g.len(),
        |k: int|
            if k >= n {
                c.mul_spec(g[k - n])
            } else {
                T::zero_spec()
            },
    )
}

/// The value of `c x^n` times `g` is `c t^n` times the value of `g`.
proof fn lemma_eval_shifted<T: Ring>(c: T, n: nat, g: Seq<T>, t: T)
    requires
        c.wf(),
        all_wf(g),
        t.wf(),
    ensures
        eval_spec(shifted(c, n, g), t) == c.mul_spec(ring_pow(t, n)).mul_spec(eval_spec(g, t)),
    decreases g.len(),
{
    t.lemma_constants_exist();
    lemma_closure::<T>();
    lemma_pow_wf(t, n);
    let ct = c.mul_spec(ring_pow(t, n));
    if g.len() == 0 {
        lemma_eval_zeros(shifted(c, n, g), t);
        lemma_mul_zero(ct);
    } else {
        let g1 = g.drop_last();
        let m = g1.len();
        let d = g.last();
        assert(shifted(c, n, g).drop_last() =~= shifted(c, n, g1));
        lemma_eval_shifted(c, n, g1, t);
        lemma_eval_wf(g1, t);
        lemma_pow_wf(t, m);
        // (c d) t^(n+m) == (c t^n)(d t^m)
        lemma_pow_add(t, n, m);
        lemma_mul_interchange(c, d, ring_pow(t, n), ring_pow(t, m));
        T::lemma_distrib(ct, eval_spec(g1, t), d.mul_spec(ring_pow(t, m)));
    }
}

/// Summands whose coefficients do not exist add nothing to a convolution.
proof fn lemma_conv_sum_skip<T: Ring>(f: Seq<T>, g: Seq<T>, k: int, m: nat, n: nat)
    requires
        m <= n,
        forall|j: int| m <= j < n ==> !#[trigger] in_range(f, g, k, j),
    ensures
        conv_sum(f, g, k, n) == conv_sum(f, g, k, m),
    decreases n,
{
    if m < n {
        lemma_conv_sum_skip(f, g, k, m, (n - 1) as nat);
    }
}

/// A convolution reads only the coefficients below its bound.
proof fn lemma_conv_sum_prefix<T: Ring>(f: Seq<T>, f1: Seq<T>, g: Seq<T>, k: int, n: nat)
    requires
        n <= f1.len() <= f.len(),
        forall|j: int| 0 <= j < n ==> f1[j] == f[j],
    ensures
        conv_sum(f, g, k, n) == conv_sum(f1, g, k, n),
    decreases n,
{
    if n > 0 {
        lemma_conv_sum_prefix(f, f1, g, k, (n - 1) as nat);
    }
}

/// The product with one more coefficient `c` of the power `n` is the product
/// without it, plus `c x^n` times `g`.
proof fn lemma_mul_raw_step<T: Ring>(f: Seq<T>, g: Seq<T>)
    requires
        f.len() >= 1,
        g.len() >= 1,
        all_wf(f),
        all_wf(g),
        T::has_zero(),
    ensures
        mul_raw(f, g) == add_raw(
            mul_raw(f.drop_last(), g).push(T::zero_spec()),
            shifted(f.last(), (f.len() - 1) as nat, g),
        ),
{
    T::lemma_constants();
    let f1 = f.drop_last();
    let n = f1.len();
    let c = f.last();
    let left = mul_raw(f1, g).push(T::zero_spec());
    let right = shifted(c, n, g);
    let total = mul_raw(f, g);
    assert(left.len() == n + g.len());
    assert forall|k: int| 0 <= k < total.len() implies total[k] == add_coeff(left, right, k) by {
        lemma_conv_sum_wf(f1, g, k, n);
        if k >= n {
            lemma_conv_sum_skip(f, g, k, n + 1, (k + 1) as nat);
            lemma_conv_sum_prefix(f, f1, g, k, n);
            if k < n + g.len() - 1 {
                lemma_conv_sum_skip(f1, g, k, n, (k + 1) as nat);
                assert(left[k] == mul_raw(f1, g)[k]);
            } else {
                lemma_conv_sum_skip(f1, g, k, 0, n);
            }
            assert(conv_sum(f, g, k, n + 1) == conv_sum(f, g, k, n).add_spec(
                c.mul_spec(g[k - n]),
            ));
        } else {
            lemma_conv_sum_prefix(f, f1, g, k, (k + 1) as nat);
            lemma_conv_sum_wf(f1, g, k, (k + 1) as nat);
            assert(left[k] == mul_raw(f1, g)[k]);
            T::lemma_add_zero(left[k]);
        }
    }
    assert(total =~= add_raw(left, right));
}

/// The value of the convolution of the coefficients is the product of the
/// values.
pub proof fn lemma_eval_mul_raw<T: Ring>(f: Seq<T>, g: Seq<T>, t: T)
    requires
        g.len() >= 1,
        all_wf(f),
        all_wf(g),
        t.wf(),
    ensures
        all_wf(mul_raw(f, g)),
        eval_spec(mul_raw(f, g), t) == eval_spec(f, t).mul_spec(eval_spec(g, t)),
    decreases f.len(),
{
    t.lemma_constants_exist();
    lemma_closure::<T>();
    lemma_eval_wf(g, t);
    assert forall|k: int| 0 <= k < mul_raw(f, g).len() implies (#[trigger] mul_raw(
        f,
        g,
    )[k]).wf() by {
        lemma_conv_sum_wf(f, g, k, (k + 1) as nat);
    }
    if f.len() == 0 {
        assert forall|k: int| 0 <= k < mul_raw(f, g).len() implies #[trigger] mul_raw(f, g)[k]
            == T::zero_spec() by {
            lemma_conv_sum_skip(f, g, k, 0, (k + 1) as nat);
        }
        lemma_eval_zeros(mul_raw(f, g), t);
        lemma_mul_zero(eval_spec(g, t));
    } else {
        let f1 = f.drop_last();
        let n = f1.len();
        let c = f.last();
        let left = mul_raw(f1, g).push(T::zero_spec());
        let right = shifted(c, n, g);
        lemma_mul_raw_step(f, g);
        lemma_eval_mul_raw(f1, g, t);
        lemma_eval_add_raw(left, right, t);
        // the value of `left` is that of the shorter product
        assert(left.drop_last() =~= mul_raw(f1, g));
        lemma_eval_wf(mul_raw(f1, g), t);
        lemma_pow_wf(t, (left.len() - 1) as nat);
        lemma_mul_zero(ring_pow(t, (left.len() - 1) as nat));
        T::lemma_add_zero(eval_spec(mul_raw(f1, g), t));
        lemma_eval_shifted(c, n, g, t);
        lemma_eval_wf(f1, t);
        lemma_pow_wf(t, n);
        lemma_distrib_right(eval_spec(f1, t), c.mul_spec(ring_pow(t, n)), eval_spec(g, t));
    }
}

/// Evaluation respects sums: the value of the sum of two polynomials at `t`
/// is the sum of their values at `t`.
pub proof fn lemma_evaluate_sum<T: Ring>(f: Polynomial<T>, g: Polynomial<T>, t: T)
    requires
        f.wf(),
        g.wf(),
        t.wf(),
    ensures
        eval_spec(normalize(add_raw(f@, g@)), t) == eval_spec(f@, t).add_spec(eval_spec(g@, t)),
{
    lemma_closure::<T>();
    lemma_eval_normalize(add_raw(f@, g@), t);
    lemma_eval_add_raw(f@, g@, t);
}

/// Evaluation respects differences: the value of the difference of two
/// polynomials at `t` is the difference of their values at `t`.
pub proof fn lemma_evaluate_difference<T: Ring>(f: Polynomial<T>, g: Polynomial<T>, t: T)
    requires
        f.wf(),
        g.wf(),
        t.wf(),
    ensures
        eval_spec(normalize(sub_raw(f@, g@)), t) == eval_spec(f@, t).sub_spec(eval_spec(g@, t)),
{
    lemma_eval_sub_raw(f@, g@, t);
    lemma_eval_normalize(sub_raw(f@, g@), t);
}

/// Evaluation respects negatives: the value of the negative of a
/// polynomial at `t` is the negative of its value at `t`.
pub proof fn lemma_evaluate_negative<T: Ring>(f: Polynomial<T>, t: T)
    requires
        f.wf(),
        t.wf(),
    ensures
        eval_spec(normalize(neg_raw(f@)), t) == eval_spec(f@, t).neg_spec(),
{
    lemma_eval_neg_raw(f@, t);
    lemma_eval_normalize(neg_raw(f@), t);
}

/// Evaluation respects products: the value of the product of two polynomials
/// at `t` is the product of their values at `t`.
pub proof fn lemma_evaluate_product<T: Ring>(f: Polynomial<T>, g: Polynomial<T>, t: T)
    requires
        f.wf(),
        g.wf(),
        t.wf(),
    ensures
        eval_spec(normalize(mul_raw(f@, g@)), t) == eval_spec(f@, t).mul_spec(eval_spec(g@, t)),
{
    lemma_eval_mul_raw(f@, g@, t);
    lemma_eval_normalize(mul_raw(f@, g@), t);
}

} // verus!
