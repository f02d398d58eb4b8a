//! Keeps the traits of this crate from being implemented elsewhere.

use vstd::prelude::*;

verus! {

pub trait Sealed {

}

} // verus!
