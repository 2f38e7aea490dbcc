//! The throughput benchmarks for streams and datagrams.

pub mod counters;
pub mod flood;
pub mod names;
pub mod options;
pub mod sizes;
pub mod stats;
pub mod streams;
pub mod suites;
