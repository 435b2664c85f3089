//! Builds `ssh` invocations that tunnel local ports to a cloud host whose
//! public address is given as dotted-decimal text.
//!
//! The pipeline has four steps: parse the address, parse the port-forwarding
//! specifications, derive the host's canonical DNS name, and assemble the
//! argument vector for the `ssh` process.

pub mod address;
pub mod command;
pub mod decimal;
pub mod host;
pub mod ports;
