//! Keeps a cluster node's advertised external addresses in step with what
//! independent outside observers report.
//!
//! Two engines cooperate. [`ndhcp`] reaches a trust-weighted quorum over the
//! answers of the observers: which addresses do enough of them agree on?
//! [`kubem`] turns the confirmed addresses into the address list that the
//! node is to have, and says whether that list has to be sent.
//!
//! Neither engine talks to the network. What was read from it is handed in
//! as plain values, and what is to be sent is handed back.

pub mod args;
pub mod build_info;
pub mod cmd_run;
pub mod ekacore;
pub mod ip;
pub mod ipmap;
pub mod ipset;
pub mod kubem;
pub mod ndhcp;
