//! Topology-translation core of a protocol gateway: exposes collections of an
//! append-only log service as fixed-partition, integer-offset topics with a
//! content-addressed schema registry.
//!
//! The verified library holds the rules themselves: stable partition ordering,
//! timestamp/sentinel to fragment-offset translation, content-addressed schema
//! registration, and assembly of a per-request topology snapshot. The network
//! exchanges that feed these rules live outside the library and hand in plain
//! values.

pub mod errors;
pub mod partition;
pub mod pointer;
pub mod registry;
pub mod topology;
pub mod offset;
