use crate::ring::Ring;
use vstd::prelude::*;

verus! {

/// Inverse element. If `x` has an inverse, `inverse` returns `Some(x^(-1))`,
/// otherwise `None`.
pub trait Inverse: Ring {
    /// What `inverse` returns, as a mathematical value.
    spec fn inverse_spec(self) -> Option<Self>;

    /// Whether `inverse` may be called on this value: the value is well formed
    /// and the computation stays within machine integers.
    spec fn can_invert(self) -> bool;

    /// The inverse, where there is one.
    fn inverse(self) -> (r: Option<Self>)
        requires
            self.can_invert(),
        ensures
            r == self.inverse_spec(),
    ;

    /// What `inverse` returns for a well-formed element is well formed.
    proof fn lemma_inverse_wf(x: Self)
        requires
            x.wf(),
        ensures
            x.inverse_spec() matches Some(y) ==> y.wf(),
    ;
}

/// Whether every well-formed element of the type may be handed to `inverse`.
pub open spec fn inversion_ready<T: Inverse>() -> bool {
    forall|x: T| x.wf() ==> #[trigger] x.can_invert()
}

} // verus!
