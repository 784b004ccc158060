//! Verified core of a sequential ICMP latency probe.
//!
//! The library covers the measurement and reporting pipeline: building an
//! echo-request datagram with a correct one's-complement checksum, recording
//! one result per sequence number, deriving statistics from the successful
//! round-trip times, projecting the results into bar, line-graph and
//! histogram views, and rendering the tabular export text.
//!
//! Round-trip times are carried as integers counting hundredths of a
//! millisecond, so every reported value (two decimal places) is exact.
//! The surrounding binary does the raw-socket I/O, timestamping and ANSI
//! colouring, and hands this library plain values.

pub mod codec;
pub mod export;
pub mod probe;
pub mod render;
pub mod report;
pub mod stats;
pub mod textfmt;
