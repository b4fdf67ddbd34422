use vstd::prelude::*;

verus! {

/// Zero element, i.e. `0` in the ring of integers.
pub trait Zero: Sized {
    /// The zero element as a mathematical value.
    spec fn zero_spec() -> Self;

    /// Whether the parameters of the type allow `zero` to be computed.
    spec fn has_zero() -> bool;

    /// The zero element.
    fn zero() -> (z: Self)
        requires
            Self::has_zero(),
        ensures
            z == Self::zero_spec(),
    ;
}

/// Identity element, i.e. `1` in the ring of integers.
pub trait Identity: Sized {
    /// The identity element as a mathematical value.
    spec fn identity_spec() -> Self;

    /// Whether the parameters of the type allow `identity` to be computed.
    spec fn has_identity() -> bool;

    /// The identity element.
    fn identity() -> (e: Self)
        requires
            Self::has_identity(),
        ensures
            e == Self::identity_spec(),
    ;
}

} // verus!
