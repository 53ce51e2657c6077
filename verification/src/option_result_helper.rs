use vstd::prelude::*;

verus! {

/// The error for a value that was `None`.
#[derive(Debug, Clone, Copy, PartialEq, Eq, Structural)]
pub struct NoneValueError {}

impl NoneValueError {
    /// The description of the error (also its message).
    pub fn description(&self) -> (d: &'static str)
        ensures
            d@ == "NoneValueError"@,
    {
        proof {
            reveal_strlit("NoneValueError");
        }
        "NoneValueError"
    }
}

/// An option as a result: `None` becomes a `NoneValueError`.
pub trait OptionToResultErr<T>: Sized {
    spec fn value(&self) -> Option<T>;

    fn to_res_err(self) -> (r: Result<T, NoneValueError>)
        ensures
            self.value() matches Some(v) ==> r == Ok::<T, NoneValueError>(v),
            self.value() is None ==> r == Err::<T, NoneValueError>(NoneValueError {  }),
    ;
}

impl<T> OptionToResultErr<T> for Option<T> {
    open spec fn value(&self) -> Option<T> {
        *self
    }

    fn to_res_err(self) -> (r: Result<T, NoneValueError>) {
        match self {
            Some(value) => Ok(value),
            None => Err(NoneValueError {  }),
        }
    }
}

} // verus!
