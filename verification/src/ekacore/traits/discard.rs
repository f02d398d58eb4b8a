//! Dropping a value on purpose.

use vstd::prelude::*;

verus! {

/// Says that a value, most often the result of a call, is dropped on purpose.
pub trait Discard {
    fn discard(self);
}

impl<T: Sized> Discard for T {
    fn discard(self) -> () {
    }
}

} // verus!
