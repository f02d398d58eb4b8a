//! Reading an optional error as a result.

use vstd::prelude::*;

mod private;

verus! {

/// Turns an optional error into a result: an error that is there fails, and
/// no error succeeds.
pub trait NotOk<E>: private::Sealed {
    /// What `not_ok` gives.
    spec fn spec_not_ok(self) -> Result<(), E>;

    fn not_ok(self) -> (result: Result<(), E>)
        ensures
            result == self.spec_not_ok(),
    ;
}

impl<E> private::Sealed for Option<E> {

}

impl<E> NotOk<E> for Option<E> {
    open spec fn spec_not_ok(self) -> Result<(), E> {
        match self {
            Some(err) => Err(err),
            None => Ok(()),
        }
    }

    fn not_ok(self) -> (result: Result<(), E>) {
        match self {
            Some(err) => Err(err),
            None => Ok(()),
        }
    }
}

} // verus!
