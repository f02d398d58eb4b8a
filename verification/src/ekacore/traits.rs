//! Traits that make common turns of phrase shorter.

pub mod discard;
pub mod not_ok;

pub use crate::ekacore::traits::discard::Discard;
pub use crate::ekacore::traits::not_ok::NotOk;
