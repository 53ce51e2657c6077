use vstd::prelude::*;

verus! {

/// An identity of a value, shared by the handles that refer to the same value.
pub trait Id {
    fn id(&self) -> usize;
}

} // verus!
