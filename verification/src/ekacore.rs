//! Small helpers that the engines share.

pub mod traits;
