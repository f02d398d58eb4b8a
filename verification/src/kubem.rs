//! The address reconciliation engine: which address list is a node to have?

pub mod manager;

pub use crate::kubem::manager::{AddrStatus, ApplyError, Manager, NodeAddress, Plan, RawAddress, State};
