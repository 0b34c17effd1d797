//! Capture of a streaming market-data feed into hourly append-only logs.
//!
//! The library holds the decisions of the capture process: how the symbol
//! universe is split across connections, what each connection sends and does
//! on every transport event, and how the shared log writer routes records
//! into hour-bucketed files. The transport, the clock and the file system are
//! driven by the caller, which feeds events in and carries actions out.

pub mod clock;
pub mod feed;
pub mod sharder;
pub mod supervisor;
pub mod writer;
