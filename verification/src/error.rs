use vstd::prelude::*;
use vstd::string::to_string_from_display_ensures;

verus! {

/// Errors are messages.
pub type Error = String;

pub type Res<T> = Result<T, Error>;

/// The message of anything that can be displayed.
pub fn error<T: core::fmt::Display>(err: T) -> (e: Error)
    ensures
        to_string_from_display_ensures::<T>(&err, e),
{
    err.to_string()
}

/// Turns the error of a result into its message.
pub trait ConvertResult<T, E: core::fmt::Display>: Sized {
    spec fn outcome(&self) -> Result<T, E>;

    fn convert(self) -> (r: Res<T>)
        ensures
            self.outcome() matches Ok(v) ==> r == Ok::<T, Error>(v),
            self.outcome() matches Err(x) ==> (r matches Err(m)
                && to_string_from_display_ensures::<E>(&x, m)),
    ;
}

impl<T, E: core::fmt::Display> ConvertResult<T, E> for Result<T, E> {
    open spec fn outcome(&self) -> Result<T, E> {
        *self
    }

    fn convert(self) -> (r: Res<T>) {
        match self {
            Ok(v) => Ok(v),
            Err(x) => Err(error(x)),
        }
    }
}

} // verus!
