use vstd::prelude::*;

verus! {

/// Characteristic of the ring an element type belongs to. For an extension of
/// a field this is the characteristic of the base field, not the number of
/// elements of the extension.
pub trait Characteristic {
    /// The characteristic as a mathematical value.
    spec fn characteristic_spec() -> nat;

    /// The characteristic.
    fn characteristic() -> (c: u64)
        ensures
            c == Self::characteristic_spec(),
    ;
}

} // verus!
