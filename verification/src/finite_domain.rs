use crate::ring::{
    all_wf, lemma_closure, lemma_distrib_right, lemma_mul_interchange, lemma_one_mul,
    lemma_pow_wf, lemma_zero_add, ring_pow, Ring,
};
use vstd::prelude::*;

verus! {

/// Whether the ring has no zero divisors: a product of well-formed elements
/// is zero only where a factor is.
pub open spec fn is_domain<R: Ring>() -> bool {
    forall|a: R, b: R|
        a.wf() && b.wf() && #[trigger] a.mul_spec(b) == R::zero_spec() ==> a == R::zero_spec() || b
            == R::zero_spec()
}

/// Whether a sequence lists the nonzero elements of the ring, each once.
pub open spec fn lists_nonzero<R: Ring>(elems: Seq<R>) -> bool {
    &&& elems.no_duplicates()
    &&& all_wf(elems)
    &&& forall|i: int| 0 <= i < elems.len() ==> #[trigger] elems[i] != R::zero_spec()
    &&& forall|y: R| y.wf() && y != R::zero_spec() ==> #[trigger] elems.contains(y)
}

/// The product of the elements of a sequence.
pub open spec fn seq_product<R: Ring>(s: Seq<R>) -> R
    decreases s.len(),
{
    if s.len() == 0 {
        R::identity_spec()
    } else {
        seq_product(s.drop_last()).mul_spec(s.last())
    }
}

/// An element minus itself is zero, and a difference added to what was
/// subtracted gives back the first element.
pub proof fn lemma_sub_laws<R: Ring>(a: R, b: R)
    requires
        a.wf(),
        b.wf(),
    ensures
        a.sub_spec(a) == R::zero_spec(),
        a.sub_spec(b).add_spec(b) == a,
{
    lemma_closure::<R>();
    R::lemma_sub_def(a, a);
    R::lemma_add_neg(a);
    R::lemma_sub_def(a, b);
    R::lemma_add_assoc(a, b.neg_spec(), b);
    R::lemma_add_comm(b.neg_spec(), b);
    R::lemma_add_neg(b);
    R::lemma_add_zero(a);
}

/// In a domain a nonzero factor can be cancelled.
pub proof fn lemma_cancel<R: Ring>(y: R, z: R, c: R)
    requires
        is_domain::<R>(),
        y.wf(),
        z.wf(),
        c.wf(),
        c != R::zero_spec(),
        y.mul_spec(c) == z.mul_spec(c),
    ensures
        y == z,
{
    lemma_closure::<R>();
    lemma_distrib_right(y, z, c);
    lemma_sub_laws(y.mul_spec(c), y.mul_spec(c));
    let d = y.sub_spec(z);
    assert(d.mul_spec(c) == R::zero_spec());
    assert(d == R::zero_spec());
    lemma_sub_laws(y, z);
    lemma_zero_add(z);
}

/// The product of well-formed elements is well formed, and in a domain the
/// product of nonzero elements is not zero unless one is zero.
pub proof fn lemma_product_wf<R: Ring>(s: Seq<R>)
    requires
        R::has_identity(),
        all_wf(s),
    ensures
        seq_product(s).wf(),
        is_domain::<R>() && R::identity_spec() != R::zero_spec() && (forall|i: int|
            0 <= i < s.len() ==> #[trigger] s[i] != R::zero_spec()) ==> seq_product(s)
            != R::zero_spec(),
    decreases s.len(),
{
    R::lemma_constants();
    if s.len() > 0 {
        lemma_product_wf(s.drop_last());
        lemma_closure::<R>();
        if is_domain::<R>() && R::identity_spec() != R::zero_spec() && (forall|i: int|
            0 <= i < s.len() ==> #[trigger] s[i] != R::zero_spec()) {
            assert forall|i: int| 0 <= i < s.drop_last().len() implies #[trigger] s.drop_last()[i]
                != R::zero_spec() by {
                assert(s.drop_last()[i] == s[i]);
            }
            assert(s.last() == s[s.len() - 1]);
        }
    }
}

/// The product of a sequence is the product without one element, times that
/// element.
pub proof fn lemma_product_remove<R: Ring>(s: Seq<R>, j: int)
    requires
        R::has_identity(),
        all_wf(s),
        0 <= j < s.len(),
    ensures
        all_wf(s.remove(j)),
        seq_product(s) == seq_product(s.remove(j)).mul_spec(s[j]),
    decreases s.len(),
{
    lemma_closure::<R>();
    let n = s.len() as int;
    if j == n - 1 {
        assert(s.remove(j) =~= s.drop_last());
    } else {
        let s1 = s.drop_last();
        lemma_product_remove(s1, j);
        assert(s.remove(j).drop_last() =~= s1.remove(j));
        assert(s.remove(j).last() == s.last());
        let a = seq_product(s1.remove(j));
        lemma_product_wf(s1.remove(j));
        // (a * s[j]) * last == (a * last) * s[j]
        R::lemma_mul_assoc(a, s[j], s.last());
        R::lemma_mul_comm(s[j], s.last());
        R::lemma_mul_assoc(a, s.last(), s[j]);
        assert(s1[j] == s[j]);
    }
}

/// Two sequences without repetitions, of one length, the elements of the
/// first all among those of the second, have the same product.
pub proof fn lemma_product_rearranged<R: Ring>(s1: Seq<R>, s2: Seq<R>)
    requires
        R::has_identity(),
        all_wf(s1),
        all_wf(s2),
        s1.len() == s2.len(),
        s1.no_duplicates(),
        s2.no_duplicates(),
        forall|i: int| 0 <= i < s1.len() ==> s2.contains(#[trigger] s1[i]),
    ensures
        seq_product(s1) == seq_product(s2),
    decreases s1.len(),
{
    let n = s1.len() as int;
    if n > 0 {
        let e = s1.last();
        assert(s2.contains(s1[n - 1]));
        let j = choose|j: int| 0 <= j < s2.len() && s2[j] == e;
        let t1 = s1.drop_last();
        let t2 = s2.remove(j);
        lemma_product_remove(s2, j);
        assert forall|i: int| 0 <= i < t1.len() implies t2.contains(#[trigger] t1[i]) by {
            assert(s2.contains(s1[i]));
            let m = choose|m: int| 0 <= m < s2.len() && s2[m] == s1[i];
            assert(m != j);
            if m < j {
                assert(t2[m] == s2[m]);
            } else {
                assert(t2[m - 1] == s2[m]);
            }
        }
        assert(t2.no_duplicates()) by {
            assert forall|a: int, b: int|
                0 <= a < t2.len() && 0 <= b < t2.len() && a != b implies t2[a] != t2[b] by {
                let a2 = if a < j {
                    a
                } else {
                    a + 1
                };
                let b2 = if b < j {
                    b
                } else {
                    b + 1
                };
                assert(t2[a] == s2[a2] && t2[b] == s2[b2]);
            }
        }
        lemma_product_rearranged(t1, t2);
    }
}

/// The elements of a sequence, each multiplied by `x`.
pub open spec fn scaled<R: Ring>(x: R, s: Seq<R>) -> Seq<R> {
    Seq::new(s.len(), |i: int| x.mul_spec(s[i]))
}

/// The product of the multiples by `x` is the product times the power of `x`
/// whose exponent is the number of elements.
pub proof fn lemma_product_scaled<R: Ring>(x: R, s: Seq<R>)
    requires
        x.wf(),
        all_wf(s),
    ensures
        all_wf(scaled(x, s)),
        seq_product(scaled(x, s)) == ring_pow(x, s.len()).mul_spec(seq_product(s)),
    decreases s.len(),
{
    x.lemma_constants_exist();
    lemma_closure::<R>();
    if s.len() == 0 {
        lemma_one_mul(R::identity_spec());
    } else {
        let s1 = s.drop_last();
        let n1 = s1.len();
        lemma_product_scaled(x, s1);
        lemma_product_wf(s1);
        lemma_pow_wf(x, n1);
        assert(scaled(x, s).drop_last() =~= scaled(x, s1));
        // (x^k * q) * (x * l) == (x^k * x) * (q * l), and x^k * x == x^(k + 1)
        lemma_mul_interchange(ring_pow(x, n1), seq_product(s1), x, s.last());
        R::lemma_mul_comm(ring_pow(x, n1), x);
    }
}

/// In a finite domain, every nonzero element raised to the number of nonzero
/// elements is one.
pub proof fn lemma_power_of_order<R: Ring>(elems: Seq<R>, x: R)
    requires
        is_domain::<R>(),
        R::identity_spec() != R::zero_spec(),
        lists_nonzero(elems),
        x.wf(),
        x != R::zero_spec(),
    ensures
        ring_pow(x, elems.len()) == R::identity_spec(),
{
    x.lemma_constants_exist();
    lemma_closure::<R>();
    let n = elems.len();
    let images = scaled(x, elems);
    lemma_product_scaled(x, elems);
    assert forall|i: int| 0 <= i < images.len() implies elems.contains(#[trigger] images[i]) by {
        assert(elems[i].wf() && elems[i] != R::zero_spec());
        assert(x.mul_spec(elems[i]) != R::zero_spec());
    }
    assert(images.no_duplicates()) by {
        assert forall|a: int, b: int|
            0 <= a < images.len() && 0 <= b < images.len() && a != b implies images[a]
            != images[b] by {
            if images[a] == images[b] {
                R::lemma_mul_comm(x, elems[a]);
                R::lemma_mul_comm(x, elems[b]);
                lemma_cancel(elems[a], elems[b], x);
            }
        }
    }
    lemma_product_rearranged(images, elems);
    let p = seq_product(elems);
    lemma_product_wf(elems);
    lemma_pow_wf(x, n);
    lemma_one_mul(p);
    lemma_cancel(ring_pow(x, n), R::identity_spec(), p);
}

} // verus!
