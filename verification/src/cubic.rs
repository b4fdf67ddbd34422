use crate::finite_domain::{is_domain, lemma_cancel, lemma_sub_laws};
use crate::polynomial::eval_spec;
use crate::rational_point::{chord_spec, three, two, RationalPoint};
use crate::ring::{
    lemma_closure, lemma_distrib_right, lemma_mul_interchange, lemma_mul_neg, lemma_mul_zero,
    lemma_neg_add, lemma_neg_neg, lemma_one_mul, lemma_pow_one, lemma_zero_add, ring_pow, Ring,
};
use vstd::prelude::*;

verus! {

/// Commutativity and associativity of the addition for all elements at once.
proof fn lemma_add_ac<T: Ring>()
    ensures
        forall|a: T, b: T| a.wf() && b.wf() ==> (#[trigger] a.add_spec(b)).wf(),
        forall|a: T, b: T| a.wf() && b.wf() ==> #[trigger] a.add_spec(b) == b.add_spec(a),
        forall|a: T, b: T, c: T|
            a.wf() && b.wf() && c.wf() ==> #[trigger] a.add_spec(b).add_spec(c) == a.add_spec(
                b.add_spec(c),
            ),
{
    lemma_closure::<T>();
    assert forall|a: T, b: T| a.wf() && b.wf() implies #[trigger] a.add_spec(b) == b.add_spec(
        a,
    ) by {
        T::lemma_add_comm(a, b);
    }
    assert forall|a: T, b: T, c: T| a.wf() && b.wf() && c.wf() implies #[trigger] a.add_spec(
        b,
    ).add_spec(c) == a.add_spec(b.add_spec(c)) by {
        T::lemma_add_assoc(a, b, c);
    }
}

/// The cube `t t t + a t + b` of the curve's equation.
pub open spec fn cubic<T: Ring>(t: T, a: T, b: T) -> T {
    t.mul_spec(t).mul_spec(t).add_spec(a.mul_spec(t)).add_spec(b)
}

/// `1 + 1 + 1` times `x` is `x + x + x`.
pub proof fn lemma_three_times<T: Ring>(x: T)
    requires
        x.wf(),
    ensures
        three::<T>().mul_spec(x) == x.add_spec(x).add_spec(x),
        two::<T>().mul_spec(x) == x.add_spec(x),
{
    x.lemma_constants_exist();
    lemma_closure::<T>();
    let e = T::identity_spec();
    lemma_distrib_right(e.add_spec(e), e, x);
    lemma_distrib_right(e, e, x);
    lemma_one_mul(x);
}

/// `(y + w)(y + w) == y y + ((y + y) + w) w`.
proof fn lemma_square_of_sum<T: Ring>(y: T, w: T)
    requires
        y.wf(),
        w.wf(),
    ensures
        y.add_spec(w).mul_spec(y.add_spec(w)) == y.mul_spec(y).add_spec(
            y.add_spec(y).add_spec(w).mul_spec(w),
        ),
{
    lemma_closure::<T>();
    let s = y.add_spec(w);
    T::lemma_distrib(s, y, w);
    lemma_distrib_right(y, w, y);
    lemma_distrib_right(y, w, w);
    T::lemma_mul_comm(w, y);
    lemma_distrib_right(y.add_spec(y), w, w);
    lemma_distrib_right(y, y, w);
    let (yy, yw, ww) = (y.mul_spec(y), y.mul_spec(w), w.mul_spec(w));
    assert(yy.add_spec(yw).add_spec(yw.add_spec(ww)) == yy.add_spec(
        yw.add_spec(yw).add_spec(ww),
    )) by {
        T::lemma_add_assoc(yy, yw, yw.add_spec(ww));
        T::lemma_add_assoc(yw, yw, ww);
    }
}

/// `(v + m d)(m d) == (v m + (m m) d) d`.
proof fn lemma_line_times_step<T: Ring>(v: T, m: T, d: T)
    requires
        v.wf(),
        m.wf(),
        d.wf(),
    ensures
        v.add_spec(m.mul_spec(d)).mul_spec(m.mul_spec(d)) == v.mul_spec(m).add_spec(
            m.mul_spec(m).mul_spec(d),
        ).mul_spec(d),
{
    lemma_closure::<T>();
    let w = m.mul_spec(d);
    lemma_distrib_right(v, w, w);
    T::lemma_mul_assoc(v, m, d);
    lemma_mul_interchange(m, d, m, d);
    T::lemma_mul_assoc(m.mul_spec(m), d, d);
    lemma_distrib_right(v.mul_spec(m), m.mul_spec(m).mul_spec(d), d);
}

/// A rearrangement of the eleven terms of `(x + d)^3 + a (x + d) + b`.
proof fn lemma_cubic_terms<T: Ring>(c: T, p: T, q: T, r: T, s: T, t: T, b: T)
    requires
        c.wf(),
        p.wf(),
        q.wf(),
        r.wf(),
        s.wf(),
        t.wf(),
        b.wf(),
    ensures
        c.add_spec(p).add_spec(p.add_spec(q)).add_spec(p.add_spec(q).add_spec(q.add_spec(r)))
            .add_spec(s.add_spec(t)).add_spec(b) == c.add_spec(s).add_spec(b).add_spec(
            p.add_spec(p).add_spec(p).add_spec(t).add_spec(r.add_spec(q.add_spec(q).add_spec(q))),
        ),
{
    lemma_add_ac::<T>();
}

/// The cubic at `x + d` is the cubic at `x` plus
/// `((3 x x + a) + (d d + 3 x d)) d`.
proof fn lemma_cubic_shifted<T: Ring>(x: T, d: T, a: T, b: T)
    requires
        x.wf(),
        d.wf(),
        a.wf(),
        b.wf(),
    ensures
        cubic(x.add_spec(d), a, b) == cubic(x, a, b).add_spec(
            three::<T>().mul_spec(x).mul_spec(x).add_spec(a).add_spec(
                d.mul_spec(d).add_spec(three::<T>().mul_spec(x).mul_spec(d)),
            ).mul_spec(d),
        ),
{
    x.lemma_constants_exist();
    lemma_closure::<T>();
    let u = x.add_spec(d);
    let (p, q, r) = (x.mul_spec(x), x.mul_spec(d), d.mul_spec(d));
    // u u == (x x + x d) + (x d + d d)
    T::lemma_distrib(u, x, d);
    lemma_distrib_right(x, d, x);
    lemma_distrib_right(x, d, d);
    T::lemma_mul_comm(d, x);
    let uu = u.mul_spec(u);
    assert(uu == p.add_spec(q).add_spec(q.add_spec(r)));
    // (u u) u, term by term
    T::lemma_distrib(uu, x, d);
    lemma_distrib_right(p.add_spec(q), q.add_spec(r), x);
    lemma_distrib_right(p, q, x);
    lemma_distrib_right(q, r, x);
    lemma_distrib_right(p.add_spec(q), q.add_spec(r), d);
    lemma_distrib_right(p, q, d);
    lemma_distrib_right(q, r, d);
    let c3 = p.mul_spec(x);
    let (pd, qd, rd) = (p.mul_spec(d), q.mul_spec(d), r.mul_spec(d));
    // (x d) x == (x x) d and (d d) x == (x d) d
    T::lemma_mul_assoc(x, d, x);
    T::lemma_mul_assoc(x, x, d);
    T::lemma_mul_assoc(d, d, x);
    T::lemma_mul_assoc(x, d, d);
    T::lemma_mul_comm(d, q);
    assert(q.mul_spec(x) == pd);
    assert(r.mul_spec(x) == qd);
    assert(uu.mul_spec(u) == c3.add_spec(pd).add_spec(pd.add_spec(qd)).add_spec(
        pd.add_spec(qd).add_spec(qd.add_spec(rd)),
    ));
    T::lemma_distrib(a, x, d);
    // the other side, term by term
    lemma_three_times(x);
    let x3 = three::<T>().mul_spec(x);
    lemma_distrib_right(x.add_spec(x), x, x);
    lemma_distrib_right(x, x, x);
    let n = x3.mul_spec(x);
    assert(n == p.add_spec(p).add_spec(p));
    lemma_distrib_right(p.add_spec(p), p, d);
    lemma_distrib_right(p, p, d);
    lemma_distrib_right(x.add_spec(x), x, d);
    lemma_distrib_right(x, x, d);
    let x3d = x3.mul_spec(d);
    assert(x3d == q.add_spec(q).add_spec(q));
    lemma_distrib_right(q.add_spec(q), q, d);
    lemma_distrib_right(q, q, d);
    lemma_distrib_right(n.add_spec(a), r.add_spec(x3d), d);
    lemma_distrib_right(n, a, d);
    lemma_distrib_right(r, x3d, d);
    lemma_cubic_terms(c3, pd, qd, rd, a.mul_spec(x), a.mul_spec(d), b);
}

/// Where a line of slope `m` through the point `(x, y)` of the curve has
/// `m m == (d + 3 x) + e` and `(y + y) m + e d == 3 x x + a`, the point
/// `(x + d, y + m d)` of the line lies on the curve too.
proof fn lemma_line_meets_curve<T: Ring>(x: T, y: T, m: T, d: T, e: T, a: T, b: T)
    requires
        x.wf(),
        y.wf(),
        m.wf(),
        d.wf(),
        e.wf(),
        a.wf(),
        b.wf(),
        y.mul_spec(y) == cubic(x, a, b),
        m.mul_spec(m) == d.add_spec(three::<T>().mul_spec(x)).add_spec(e),
        y.add_spec(y).mul_spec(m).add_spec(e.mul_spec(d)) == three::<T>().mul_spec(x).mul_spec(
            x,
        ).add_spec(a),
    ensures
        y.add_spec(m.mul_spec(d)).mul_spec(y.add_spec(m.mul_spec(d))) == cubic(
            x.add_spec(d),
            a,
            b,
        ),
{
    x.lemma_constants_exist();
    lemma_closure::<T>();
    let w = m.mul_spec(d);
    let v = y.add_spec(y);
    let x3 = three::<T>().mul_spec(x);
    lemma_square_of_sum(y, w);
    lemma_line_times_step(v, m, d);
    // (m m) d == (d d + 3 x d) + e d
    lemma_distrib_right(d.add_spec(x3), e, d);
    lemma_distrib_right(d, x3, d);
    let rest = d.mul_spec(d).add_spec(x3.mul_spec(d));
    let ed = e.mul_spec(d);
    let vm = v.mul_spec(m);
    // v m + (rest + e d) == (v m + e d) + rest
    T::lemma_add_comm(rest, ed);
    T::lemma_add_assoc(vm, ed, rest);
    lemma_cubic_shifted(x, d, a, b);
}

/// The laws of addition, subtraction and negatives for all elements at once.
proof fn lemma_add_group<T: Ring>()
    ensures
        forall|a: T, b: T| a.wf() && b.wf() ==> (#[trigger] a.add_spec(b)).wf(),
        forall|a: T, b: T| a.wf() && b.wf() ==> (#[trigger] a.sub_spec(b)).wf(),
        forall|a: T| a.wf() ==> (#[trigger] a.neg_spec()).wf(),
        forall|a: T, b: T| a.wf() && b.wf() ==> #[trigger] a.add_spec(b) == b.add_spec(a),
        forall|a: T, b: T, c: T|
            a.wf() && b.wf() && c.wf() ==> #[trigger] a.add_spec(b).add_spec(c) == a.add_spec(
                b.add_spec(c),
            ),
        forall|a: T| a.wf() ==> #[trigger] a.add_spec(T::zero_spec()) == a,
        forall|a: T| a.wf() ==> a.add_spec(#[trigger] a.neg_spec()) == T::zero_spec(),
        forall|a: T, b: T|
            a.wf() && b.wf() ==> #[trigger] a.sub_spec(b) == a.add_spec(b.neg_spec()),
        forall|a: T, b: T|
            a.wf() && b.wf() ==> #[trigger] a.add_spec(b).neg_spec() == a.neg_spec().add_spec(
                b.neg_spec(),
            ),
        forall|a: T| a.wf() ==> #[trigger] a.neg_spec().neg_spec() == a,
{
    lemma_add_ac::<T>();
    lemma_closure::<T>();
    assert forall|a: T| a.wf() implies #[trigger] a.add_spec(T::zero_spec()) == a by {
        T::lemma_add_zero(a);
    }
    assert forall|a: T| a.wf() implies a.add_spec(#[trigger] a.neg_spec()) == T::zero_spec() by {
        T::lemma_add_neg(a);
    }
    assert forall|a: T, b: T| a.wf() && b.wf() implies #[trigger] a.sub_spec(b) == a.add_spec(
        b.neg_spec(),
    ) by {
        T::lemma_sub_def(a, b);
    }
    assert forall|a: T, b: T| a.wf() && b.wf() implies #[trigger] a.add_spec(b).neg_spec()
        == a.neg_spec().add_spec(b.neg_spec()) by {
        lemma_neg_add(a, b);
    }
    assert forall|a: T| a.wf() implies #[trigger] a.neg_spec().neg_spec() == a by {
        lemma_neg_neg(a);
    }
}

/// With `x3 = s - x1 - x2`, `d = x3 - x1` and `e = x2 - x1`: the sum
/// `(d + 3 x1) + e` is `s`.
pub proof fn lemma_slope_square<T: Ring>(s: T, x1: T, x2: T)
    requires
        s.wf(),
        x1.wf(),
        x2.wf(),
    ensures
        s == s.sub_spec(x1).sub_spec(x2).sub_spec(x1).add_spec(
            x1.add_spec(x1).add_spec(x1),
        ).add_spec(x2.sub_spec(x1)),
{
    lemma_add_group::<T>();
    s.lemma_constants_exist();
}

/// With `x3 = s - x1 - x2`: `x1 - s + x1 + x2` is `-(x3 - x1)`.
proof fn lemma_abscissa_difference<T: Ring>(s: T, x1: T, x2: T)
    requires
        s.wf(),
        x1.wf(),
        x2.wf(),
    ensures
        x1.sub_spec(s).add_spec(x1).add_spec(x2) == s.sub_spec(x1).sub_spec(x2).sub_spec(
            x1,
        ).neg_spec(),
{
    lemma_add_group::<T>();
    s.lemma_constants_exist();
}

/// The point that `chord_spec` gives for the slope `m` lies on the curve
/// where `(x1, y1)` does and the slope has
/// `(y1 + y1) m + (x2 - x1) (x3 - x1) == 3 x1 x1 + a`.
pub proof fn lemma_chord_point_on_curve<T: Ring>(m: T, x1: T, y1: T, x2: T, a: T, b: T)
    requires
        m.wf(),
        x1.wf(),
        y1.wf(),
        x2.wf(),
        a.wf(),
        b.wf(),
        y1.mul_spec(y1) == cubic(x1, a, b),
        y1.add_spec(y1).mul_spec(m).add_spec(
            x2.sub_spec(x1).mul_spec(m.mul_spec(m).sub_spec(x1).sub_spec(x2).sub_spec(x1)),
        ) == three::<T>().mul_spec(x1).mul_spec(x1).add_spec(a),
    ensures
        chord_spec(m, x1, y1, x2) matches RationalPoint::Point(x3, y3) && y3.mul_spec(y3) == cubic(
            x3,
            a,
            b,
        ),
{
    x1.lemma_constants_exist();
    lemma_closure::<T>();
    let mm = m.mul_spec(m);
    let x3 = mm.sub_spec(x1).sub_spec(x2);
    let d = x3.sub_spec(x1);
    let e = x2.sub_spec(x1);
    let w = m.mul_spec(d);
    let s = y1.add_spec(w);
    lemma_three_times(x1);
    lemma_slope_square(mm, x1, x2);
    lemma_line_meets_curve(x1, y1, m, d, e, a, b);
    // x1 + d == x3
    lemma_sub_laws(x3, x1);
    T::lemma_add_comm(d, x1);
    // the ordinate is -(y1 + m d)
    lemma_abscissa_difference(mm, x1, x2);
    lemma_mul_neg(m, d);
    T::lemma_sub_def(w.neg_spec(), y1);
    lemma_neg_add(w, y1);
    T::lemma_add_comm(w, y1);
    // and its square is that of y1 + m d
    lemma_mul_neg(s.neg_spec(), s);
    lemma_mul_neg(s, s);
    lemma_neg_neg(s.mul_spec(s));
}

/// Terms equal after the same element is added to them are equal.
proof fn lemma_add_cancel<T: Ring>(p: T, q: T, r: T)
    requires
        p.wf(),
        q.wf(),
        r.wf(),
        p.add_spec(q) == p.add_spec(r),
    ensures
        q == r,
{
    lemma_closure::<T>();
    let n = p.neg_spec();
    // q == (-p + p) + q == -p + (p + q)
    T::lemma_add_assoc(n, p, q);
    T::lemma_add_assoc(n, p, r);
    T::lemma_add_comm(n, p);
    T::lemma_add_neg(p);
    lemma_zero_add(q);
    lemma_zero_add(r);
}

/// The tangent: where `m` is `3 x x + a` times an inverse of `y + y`, the
/// product `(y + y) m` is `3 x x + a`.
pub proof fn lemma_tangent_slope<T: Ring>(v: T, num: T, inv: T)
    requires
        v.wf(),
        num.wf(),
        inv.wf(),
        v.mul_spec(inv) == T::identity_spec(),
    ensures
        v.mul_spec(num.mul_spec(inv)) == num,
{
    lemma_closure::<T>();
    T::lemma_mul_comm(num, inv);
    T::lemma_mul_assoc(v, inv, num);
    lemma_one_mul(num);
}

/// The chord: where the line of slope `m` through the point `(x, y)` of the
/// curve passes through another point `(x + e, y + m e)` of the curve, with
/// `e` not zero, and `m m == (d + 3 x) + e`, the slope has
/// `(y + y) m + e d == 3 x x + a`.
pub proof fn lemma_chord_slope<T: Ring>(x: T, y: T, m: T, d: T, e: T, a: T, b: T)
    requires
        is_domain::<T>(),
        x.wf(),
        y.wf(),
        m.wf(),
        d.wf(),
        e.wf(),
        a.wf(),
        b.wf(),
        e != T::zero_spec(),
        y.mul_spec(y) == cubic(x, a, b),
        y.add_spec(m.mul_spec(e)).mul_spec(y.add_spec(m.mul_spec(e))) == cubic(
            x.add_spec(e),
            a,
            b,
        ),
        m.mul_spec(m) == d.add_spec(three::<T>().mul_spec(x)).add_spec(e),
    ensures
        y.add_spec(y).mul_spec(m).add_spec(e.mul_spec(d)) == three::<T>().mul_spec(x).mul_spec(
            x,
        ).add_spec(a),
{
    x.lemma_constants_exist();
    lemma_closure::<T>();
    let v = y.add_spec(y);
    let w = m.mul_spec(e);
    let x3 = three::<T>().mul_spec(x);
    let na = x3.mul_spec(x).add_spec(a);
    let vm = v.mul_spec(m);
    let mm = m.mul_spec(m);
    // both sides of the second point's equation, as y y plus a multiple of e
    lemma_square_of_sum(y, w);
    lemma_line_times_step(v, m, e);
    lemma_cubic_shifted(x, e, a, b);
    let left = vm.add_spec(mm.mul_spec(e));
    let tail = e.mul_spec(e).add_spec(x3.mul_spec(e));
    let right = na.add_spec(tail);
    lemma_add_cancel(y.mul_spec(y), left.mul_spec(e), right.mul_spec(e));
    lemma_cancel(left, right, e);
    // (m m) e == (d e + 3 x e) + e e
    lemma_distrib_right(d.add_spec(x3), e, e);
    lemma_distrib_right(d, x3, e);
    T::lemma_mul_comm(d, e);
    let ed = e.mul_spec(d);
    // v m + ((e d + 3 x e) + e e) == tail + (v m + e d)
    lemma_chord_terms(vm, ed, x3.mul_spec(e), e.mul_spec(e));
    T::lemma_add_comm(na, tail);
    lemma_add_cancel(tail, vm.add_spec(ed), na);
}

/// `p + ((q + r) + s) == (s + r) + (p + q)`.
proof fn lemma_chord_terms<T: Ring>(p: T, q: T, r: T, s: T)
    requires
        p.wf(),
        q.wf(),
        r.wf(),
        s.wf(),
    ensures
        p.add_spec(q.add_spec(r).add_spec(s)) == s.add_spec(r).add_spec(p.add_spec(q)),
{
    lemma_add_ac::<T>();
}

/// The coefficients `b, a, 0, 1` of the polynomial `x^3 + a x + b`.
pub open spec fn weierstrass<T: Ring>(a: T, b: T) -> Seq<T> {
    seq![b, a, T::zero_spec(), T::identity_spec()]
}

/// `(s + t) + c == (c + t) + s`.
proof fn lemma_three_terms<T: Ring>(s: T, t: T, c: T)
    requires
        s.wf(),
        t.wf(),
        c.wf(),
    ensures
        s.add_spec(t).add_spec(c) == c.add_spec(t).add_spec(s),
{
    lemma_add_ac::<T>();
}

/// The value of the polynomial with the coefficients `b, a, 0, 1` at `x` is
/// `x x x + a x + b`.
pub proof fn lemma_cubic_value<T: Ring>(x: T, a: T, b: T)
    requires
        x.wf(),
        a.wf(),
        b.wf(),
    ensures
        eval_spec(weierstrass(a, b), x) == cubic(x, a, b),
{
    x.lemma_constants_exist();
    lemma_closure::<T>();
    let (o, e) = (T::zero_spec(), T::identity_spec());
    let f = weierstrass(a, b);
    let f3 = f.drop_last();
    let f2 = f3.drop_last();
    let f1 = f2.drop_last();
    assert(f1.drop_last().len() == 0);
    assert(f.last() == e && f3.last() == o && f2.last() == a && f1.last() == b);
    // the powers of x
    assert(ring_pow(x, 0) == e);
    lemma_pow_one(x);
    assert(ring_pow(x, 2) == x.mul_spec(ring_pow(x, 1)));
    assert(ring_pow(x, 3) == x.mul_spec(ring_pow(x, 2)));
    let xx = x.mul_spec(x);
    T::lemma_mul_comm(x, xx);
    // the terms
    T::lemma_mul_one(b);
    lemma_zero_add(b);
    lemma_mul_zero(xx);
    lemma_one_mul(xx.mul_spec(x));
    assert(eval_spec(f1.drop_last(), x) == o);
    assert(eval_spec(f1, x) == b);
    assert(f2.drop_last() == f1 && f3.drop_last() == f2);
    assert(eval_spec(f2, x) == b.add_spec(a.mul_spec(x)));
    T::lemma_add_zero(b.add_spec(a.mul_spec(x)));
    assert(eval_spec(f3, x) == b.add_spec(a.mul_spec(x)));
    lemma_three_terms(xx.mul_spec(x), a.mul_spec(x), b);
}

} // verus!
