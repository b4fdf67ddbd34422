use crate::inverse::{inversion_ready, Inverse};
use crate::printable::{push_char, Printable};
use crate::ring::{lemma_closure, Ring};
use vstd::prelude::*;
use vstd::string::StringExecFns;

verus! {

/// This type is intended to be treated as the type representing the rational
/// points on some plane curves.
///
/// More precisely, let S be the set of objects of type `T` (S may be a field);
/// then `RationalPoint::Point(x, y)` is the point (x, y) of S^2 and
/// `RationalPoint::O` is the unique point at infinity.
#[derive(Debug, Clone, Copy, Eq, PartialEq, Hash)]
pub enum RationalPoint<T> {
    Point(T, T),
    O,
}

impl<T> RationalPoint<T> {
    /// Constructor.
    pub fn new(x: T, y: T) -> (p: Self)
        ensures
            p == RationalPoint::Point(x, y),
    {
        RationalPoint::Point(x, y)
    }
}

impl<T: Printable> Printable for RationalPoint<T> {
    /// `O` for the point at infinity and `(x, y)` for the others.
    open spec fn text(&self) -> Seq<char> {
        match self {
            RationalPoint::O => seq!['O'],
            RationalPoint::Point(x, y) => seq!['('] + x.text() + seq![',', ' '] + y.text() + seq![
                ')',
            ],
        }
    }

    open spec fn printable(&self) -> bool {
        match self {
            RationalPoint::O => true,
            RationalPoint::Point(x, y) => x.printable() && y.printable(),
        }
    }

    fn to_string(&self) -> (s: String) {
        let mut s = String::new();
        match self {
            RationalPoint::O => {
                push_char(&mut s, 'O');
            },
            RationalPoint::Point(x, y) => {
                push_char(&mut s, '(');
                s.append(x.to_string().as_str());
                push_char(&mut s, ',');
                push_char(&mut s, ' ');
                s.append(y.to_string().as_str());
                push_char(&mut s, ')');
            },
        }
        assert(s@ =~= self.text());
        s
    }
}

/// `1 + 1` in the ring.
pub open spec fn two<T: Ring>() -> T {
    T::identity_spec().add_spec(T::identity_spec())
}

/// `1 + 1 + 1` in the ring.
pub open spec fn three<T: Ring>() -> T {
    two::<T>().add_spec(T::identity_spec())
}

/// The third point of the curve on the line of slope `m` through the points
/// with abscissas `x1` and `x2`, mirrored: `x3 = m^2 - x1 - x2` and
/// `y3 = m (2 x1 + x2 - m^2) - y1`. For the tangent, where `x2` is `x1`, this
/// is `x3 = m^2 - 2 x1` and `y3 = m (3 x1 - m^2) - y1`.
pub open spec fn chord_spec<T: Ring>(m: T, x1: T, y1: T, x2: T) -> RationalPoint<T> {
    let mm = m.mul_spec(m);
    RationalPoint::Point(
        mm.sub_spec(x1).sub_spec(x2),
        m.mul_spec(x1.sub_spec(mm).add_spec(x1).add_spec(x2)).sub_spec(y1),
    )
}

impl<T: Inverse> RationalPoint<T> {
    /// Whether the coordinates are well-formed elements.
    pub open spec fn wf(self) -> bool {
        match self {
            RationalPoint::Point(x, y) => x.wf() && y.wf(),
            RationalPoint::O => true,
        }
    }

    /// The element that the sum of two affine points divides by: `2 y1` for
    /// the tangent, where the abscissas agree, and `x2 - x1` for the chord.
    pub open spec fn denominator_spec(x1: T, y1: T, x2: T) -> T {
        if x1 == x2 {
            two::<T>().mul_spec(y1)
        } else {
            x2.sub_spec(x1)
        }
    }

    /// The element that the inverse of the denominator is multiplied by:
    /// `3 x1^2 + a` for the tangent and `y2 - y1` for the chord.
    pub open spec fn numerator_spec(x1: T, y1: T, x2: T, y2: T, a: T) -> T {
        if x1 == x2 {
            three::<T>().mul_spec(x1).mul_spec(x1).add_spec(a)
        } else {
            y2.sub_spec(y1)
        }
    }

    /// Whether the sum of two points exists: where a slope is needed, its
    /// denominator has an inverse.
    pub open spec fn add_defined(self, rhs: Self, a: T) -> bool {
        match (self, rhs) {
            (RationalPoint::Point(x1, y1), RationalPoint::Point(x2, y2)) => {
                (x1 == x2 && y1 == y2.neg_spec()) || Self::denominator_spec(
                    x1,
                    y1,
                    x2,
                ).inverse_spec() is Some
            },
            _ => true,
        }
    }

    /// The sum of two points of the curve `y^2 = x^3 + a x + b`: the point at
    /// infinity is neutral, a point and its mirror image add up to it, and
    /// otherwise the sum lies on the tangent or the chord.
    pub open spec fn add_spec(self, rhs: Self, a: T) -> Self {
        match (self, rhs) {
            (RationalPoint::O, _) => rhs,
            (_, RationalPoint::O) => self,
            (RationalPoint::Point(x1, y1), RationalPoint::Point(x2, y2)) => {
                if x1 == x2 && y1 == y2.neg_spec() {
                    RationalPoint::O
                } else {
                    let inv = Self::denominator_spec(x1, y1, x2).inverse_spec().unwrap();
                    let m = Self::numerator_spec(x1, y1, x2, y2, a).mul_spec(inv);
                    chord_spec(m, x1, y1, x2)
                }
            },
        }
    }

    /// Sums of well-formed points are well formed.
    pub proof fn lemma_add_wf(self, rhs: Self, a: T)
        requires
            self.wf(),
            rhs.wf(),
            a.wf(),
            self.add_defined(rhs, a),
        ensures
            self.add_spec(rhs, a).wf(),
    {
        lemma_closure::<T>();
        a.lemma_constants_exist();
        if let (RationalPoint::Point(x1, y1), RationalPoint::Point(x2, y2)) = (self, rhs) {
            T::lemma_inverse_wf(Self::denominator_spec(x1, y1, x2));
        }
    }
}

impl<T: Inverse> RationalPoint<T> {
    /// The point `(m^2 - x1 - x2, m (2 x1 + x2 - m^2) - y1)`.
    fn chord(m: T, x1: T, y1: T, x2: T) -> (p: Self)
        requires
            m.wf(),
            x1.wf(),
            y1.wf(),
            x2.wf(),
        ensures
            p == chord_spec(m, x1, y1, x2),
            p.wf(),
    {
        let mm = m.mul(m);
        RationalPoint::Point(mm.sub(x1).sub(x2), m.mul(x1.sub(mm).add(x1).add(x2)).sub(y1))
    }

    /// An addition of rational points on an elliptic curve.
    ///
    /// The points are not held to the curve. Where the slope's denominator
    /// has no inverse, which does not happen for two points of one curve over
    /// a field, there is no sum: `requires` leaves those arguments out.
    pub fn add_rational_points(&self, rhs: &Self, a: T) -> (r: Self)
        requires
            self.wf(),
            rhs.wf(),
            a.wf(),
            inversion_ready::<T>(),
            self.add_defined(*rhs, a),
        ensures
            r == self.add_spec(*rhs, a),
            r.wf(),
    {
        proof {
            lemma_closure::<T>();
            a.lemma_constants_exist();
        }
        match *self {
            RationalPoint::O => *rhs,
            RationalPoint::Point(x1, y1) => match *rhs {
                RationalPoint::O => RationalPoint::Point(x1, y1),
                RationalPoint::Point(x2, y2) => {
                    if x1.equals(&x2) {
                        if y1.equals(&y2.neg()) {
                            RationalPoint::O
                        } else {
                            let id = T::identity();
                            let den = id.add(id).mul(y1);
                            proof {
                                T::lemma_inverse_wf(den);
                            }
                            let m = id.add(id).add(id).mul(x1).mul(x1).add(a).mul(
                                den.inverse().unwrap(),
                            );
                            Self::chord(m, x1, y1, x1)
                        }
                    } else {
                        let den = x2.sub(x1);
                        proof {
                            T::lemma_inverse_wf(den);
                        }
                        let m = y2.sub(y1).mul(den.inverse().unwrap());
                        Self::chord(m, x1, y1, x2)
                    }
                },
            },
        }
    }

    /// The sum of two points where it exists, and `None` where the slope's
    /// denominator has no inverse.
    pub fn try_add_rational_points(&self, rhs: &Self, a: T) -> (r: Option<Self>)
        requires
            self.wf(),
            rhs.wf(),
            a.wf(),
            inversion_ready::<T>(),
        ensures
            r == if self.add_defined(*rhs, a) {
                Some(self.add_spec(*rhs, a))
            } else {
                None
            },
            r matches Some(p) ==> p.wf(),
    {
        proof {
            lemma_closure::<T>();
            a.lemma_constants_exist();
        }
        match (*self, *rhs) {
            (RationalPoint::Point(x1, y1), RationalPoint::Point(x2, y2)) => {
                let tangent = x1.equals(&x2);
                if tangent && y1.equals(&y2.neg()) {
                    return Some(RationalPoint::O);
                }
                let id = T::identity();
                let den = if tangent {
                    id.add(id).mul(y1)
                } else {
                    x2.sub(x1)
                };
                proof {
                    T::lemma_inverse_wf(den);
                }
                match den.inverse() {
                    None => None,
                    Some(inv) => {
                        let num = if tangent {
                            id.add(id).add(id).mul(x1).mul(x1).add(a)
                        } else {
                            y2.sub(y1)
                        };
                        Some(Self::chord(num.mul(inv), x1, y1, x2))
                    },
                }
            },
            _ => Some(self.add_rational_points(rhs, a)),
        }
    }
}

impl<T: Inverse> RationalPoint<T> {
    /// Whether double-and-add runs through: every sum it forms exists. The
    /// sums are those of `acc` with the doubled points at the one bits of `m`,
    /// lowest bit first, and one doubling of `now` for each bit of `m`.
    pub open spec fn ladder_defined(acc: Self, now: Self, a: T, m: nat) -> bool
        decreases m,
    {
        if m == 0 {
            true
        } else {
            &&& m % 2 == 1 ==> acc.add_defined(now, a)
            &&& now.add_defined(now, a)
            &&& Self::ladder_defined(
                if m % 2 == 1 {
                    acc.add_spec(now, a)
                } else {
                    acc
                },
                now.add_spec(now, a),
                a,
                m / 2,
            )
        }
    }

    /// What double-and-add computes: `acc` plus, for every one bit of `m`
    /// from the lowest, the point `now` doubled as often as the bit's place
    /// says.
    pub open spec fn ladder_spec(acc: Self, now: Self, a: T, m: nat) -> Self
        decreases m,
    {
        if m == 0 {
            acc
        } else {
            Self::ladder_spec(
                if m % 2 == 1 {
                    acc.add_spec(now, a)
                } else {
                    acc
                },
                now.add_spec(now, a),
                a,
                m / 2,
            )
        }
    }

    /// Whether the multiple of a point exists.
    pub open spec fn multiply_defined(self, a: T, n: nat) -> bool {
        self is O || Self::ladder_defined(RationalPoint::O, self, a, n)
    }

    /// The `n`-fold multiple of a point: the point at infinity for the point
    /// at infinity and for `n == 0`, and else what double-and-add gives.
    pub open spec fn multiply_spec(self, a: T, n: nat) -> Self {
        match self {
            RationalPoint::O => RationalPoint::O,
            RationalPoint::Point(_, _) => Self::ladder_spec(RationalPoint::O, self, a, n),
        }
    }

    /// Calculate nP by repeated doubling
    /// where n is a non-negative integer and P is a rational point on an
    /// elliptic curve.
    pub fn multiply_rational_point(&self, a: T, n: u64) -> (r: Self)
        requires
            self.wf(),
            a.wf(),
            inversion_ready::<T>(),
            self.multiply_defined(a, n as nat),
        ensures
            r == self.multiply_spec(a, n as nat),
            r.wf(),
    {
        match *self {
            RationalPoint::O => RationalPoint::O,
            RationalPoint::Point(_, _) => {
                let mut res = RationalPoint::O;
                let mut now = *self;
                let mut m = n;
                while m != 0
                    invariant
                        res.wf(),
                        now.wf(),
                        a.wf(),
                        inversion_ready::<T>(),
                        Self::ladder_defined(res, now, a, m as nat),
                        Self::ladder_spec(res, now, a, m as nat) == Self::ladder_spec(
                            RationalPoint::O,
                            *self,
                            a,
                            n as nat,
                        ),
                    decreases m,
                {
                    if m % 2 == 1 {
                        res = res.add_rational_points(&now, a);
                    }
                    now = now.add_rational_points(&now, a);
                    m = m / 2;
                }
                res
            },
        }
    }

    /// The multiple of a point where it exists, and `None` where one of the
    /// sums that double-and-add forms does not.
    pub fn try_multiply_rational_point(&self, a: T, n: u64) -> (r: Option<Self>)
        requires
            self.wf(),
            a.wf(),
            inversion_ready::<T>(),
        ensures
            r == if self.multiply_defined(a, n as nat) {
                Some(self.multiply_spec(a, n as nat))
            } else {
                None
            },
            r matches Some(p) ==> p.wf(),
    {
        match *self {
            RationalPoint::O => Some(RationalPoint::O),
            RationalPoint::Point(_, _) => {
                let mut res = RationalPoint::O;
                let mut now = *self;
                let mut m = n;
                while m != 0
                    invariant
                        res.wf(),
                        now.wf(),
                        a.wf(),
                        inversion_ready::<T>(),
                        *self is Point,
                        Self::ladder_defined(res, now, a, m as nat) == Self::ladder_defined(
                            RationalPoint::O,
                            *self,
                            a,
                            n as nat,
                        ),
                        Self::ladder_defined(res, now, a, m as nat) ==> Self::ladder_spec(
                            res,
                            now,
                            a,
                            m as nat,
                        ) == Self::ladder_spec(RationalPoint::O, *self, a, n as nat),
                    decreases m,
                {
                    if m % 2 == 1 {
                        match res.try_add_rational_points(&now, a) {
                            None => {
                                return None;
                            },
                            Some(sum) => {
                                res = sum;
                            },
                        }
                    }
                    match now.try_add_rational_points(&now, a) {
                        None => {
                            return None;
                        },
                        Some(double) => {
                            now = double;
                        },
                    }
                    m = m / 2;
                }
                Some(res)
            },
        }
    }
}

/// How the search for the order of a point ended.
#[derive(Debug, Clone, Copy, Eq, PartialEq, Hash)]
pub enum OrderSearch {
    /// The least number of summands, from two on, whose sum is the point at
    /// infinity.
    Found(u64),
    /// No sum up to the bound is the point at infinity.
    NotFound,
    /// A sum that the search had to form does not exist.
    Undefined,
}

impl<T: Inverse> RationalPoint<T> {
    /// The sum of `i` summands `self`, added one by one: the point at
    /// infinity for none, and `self` for one.
    pub open spec fn repeated_sum(self, a: T, i: nat) -> Self
        decreases i,
    {
        if i == 0 {
            RationalPoint::O
        } else {
            self.repeated_sum(a, (i - 1) as nat).add_spec(self, a)
        }
    }

    /// Whether the sum of `i` summands `self` exists.
    pub open spec fn repeated_defined(self, a: T, i: nat) -> bool
        decreases i,
    {
        i == 0 || (self.repeated_defined(a, (i - 1) as nat) && self.repeated_sum(
            a,
            (i - 1) as nat,
        ).add_defined(self, a))
    }

    /// Searches the order of a point by adding it to itself: the least `i`
    /// from `2` to `max` for which the sum of `i` summands is the point at
    /// infinity.
    pub fn order(&self, a: T, max: u64) -> (r: OrderSearch)
        requires
            self.wf(),
            a.wf(),
            inversion_ready::<T>(),
        ensures
            match r {
                OrderSearch::Found(i) => {
                    &&& 2 <= i <= max
                    &&& self.repeated_defined(a, i as nat)
                    &&& self.repeated_sum(a, i as nat) is O
                    &&& forall|k: nat| 2 <= k < i ==> !(#[trigger] self.repeated_sum(a, k) is O)
                },
                OrderSearch::NotFound => {
                    &&& self.repeated_defined(a, max as nat)
                    &&& forall|k: nat| 2 <= k <= max ==> !(#[trigger] self.repeated_sum(a, k) is O)
                },
                OrderSearch::Undefined => {
                    exists|i: nat|
                        {
                            &&& 2 <= i <= max
                            &&& !#[trigger] self.repeated_defined(a, i)
                            &&& self.repeated_defined(a, (i - 1) as nat)
                            &&& forall|k: nat|
                                2 <= k < i ==> !(#[trigger] self.repeated_sum(a, k) is O)
                        }
                },
            },
    {
        let mut point_tmp = *self;
        let mut i: u64 = 1;
        proof {
            assert(self.repeated_sum(a, 0) is O);
            assert(self.repeated_defined(a, 0));
        }
        while i < max
            invariant
                1 <= i,
                i <= max || max == 0,
                self.wf(),
                a.wf(),
                point_tmp.wf(),
                inversion_ready::<T>(),
                self.repeated_defined(a, i as nat),
                point_tmp == self.repeated_sum(a, i as nat),
                forall|k: nat| 2 <= k <= i ==> !(#[trigger] self.repeated_sum(a, k) is O),
            decreases max - i,
        {
            i += 1;
            match point_tmp.try_add_rational_points(self, a) {
                None => {
                    assert(!self.repeated_defined(a, i as nat));
                    return OrderSearch::Undefined;
                },
                Some(next) => {
                    point_tmp = next;
                },
            }
            match point_tmp {
                RationalPoint::O => {
                    return OrderSearch::Found(i);
                },
                _ => {},
            }
        }
        proof {
            if max == 0 {
                assert(self.repeated_defined(a, 0));
            }
        }
        OrderSearch::NotFound
    }

    /// The point at infinity is neutral: `P + O == P` and `O + P == P`, and
    /// both sums exist.
    pub proof fn lemma_infinity_is_neutral(self, a: T)
        ensures
            self.add_spec(RationalPoint::O, a) == self,
            RationalPoint::<T>::O.add_spec(self, a) == self,
            self.add_defined(RationalPoint::O, a),
            RationalPoint::<T>::O.add_defined(self, a),
    {
    }

    /// The multiple with the factor zero, and every multiple of the point at
    /// infinity, is the point at infinity.
    pub proof fn lemma_trivial_multiples(self, a: T, n: nat)
        ensures
            self.multiply_spec(a, 0) is O,
            self.multiply_defined(a, 0),
            RationalPoint::<T>::O.multiply_spec(a, n) is O,
            RationalPoint::<T>::O.multiply_defined(a, n),
    {
    }
}

} // verus!
