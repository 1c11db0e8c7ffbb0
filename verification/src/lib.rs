//! A verified core for a concurrent TCP port scanner.
//!
//! The scanner partitions the 16-bit port space across a fixed number of
//! workers, probes each candidate port with a bounded-timeout connection
//! attempt, and aggregates the open ports into a strictly ascending report.
//! This crate holds the partitioning, coordination and aggregation logic,
//! all of it verified; the actual socket probes and thread plumbing live in
//! the surrounding application, which feeds their outcomes back in as plain
//! values.

pub mod coordinator;
pub mod partition;
pub mod report;
pub mod target;
