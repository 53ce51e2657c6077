use vstd::prelude::*;
use std::ops::ControlFlow;

verus! {

/// Whether a handler's result asks to go on (for example, to submit or present
/// what the handler recorded).
pub trait ImplicitControlFlow {
    spec fn continues(&self) -> bool;

    fn should_continue(&self) -> (b: bool)
        ensures
            b == self.continues(),
    ;
}

impl ImplicitControlFlow for () {
    open spec fn continues(&self) -> bool {
        true
    }

    fn should_continue(&self) -> (b: bool) {
        true
    }
}

impl<B, C> ImplicitControlFlow for ControlFlow<B, C> {
    open spec fn continues(&self) -> bool {
        self is Continue
    }

    fn should_continue(&self) -> (b: bool) {
        match self {
            ControlFlow::Continue(_) => true,
            ControlFlow::Break(_) => false,
        }
    }
}

} // verus!
