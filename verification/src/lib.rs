//! Verified core of a periodic PHP-FPM listen-queue monitor.
//!
//! The library holds the sampling pipeline's logic: parsing the container
//! runtime's enumeration output, classifying a container's launch command
//! against the workload marker, extracting a backlog length from a socket
//! listing, aggregating per-container samples into one value per tick, and
//! deciding whether that value is emitted. The surrounding process (command
//! invocation, the timer loop, the metrics client) lives outside and hands
//! this library plain text and plain values.

pub mod aggregate;
pub mod classify;
pub mod enumerate;
pub mod report;
pub mod sample;
pub mod text;
