//! Reconciliation engine for the IP address configuration of network
//! interfaces.
//!
//! Given the addresses a kernel currently reports for an interface and the
//! addresses a caller wants, the library computes the exact sequence of
//! delete and add operations that brings the interface to the desired state,
//! honouring the retention rules for IPv6 unicast link-local addresses and
//! the exclusion of transient (finite-lifetime) addresses.  Executing the
//! operations against a kernel channel is left to the (unverified) caller.

pub mod addr;
pub mod conf;
pub mod laws;
pub mod observed;
pub mod parse;
pub mod plan;
