//! Metrics and history engine for a network-adapter port dashboard.
//!
//! The library turns sequences of raw, monotonically increasing counter
//! snapshots into per-second rates and bounded historical series. Rates are
//! integer quantities (bytes, packets or errors per second) and timestamps
//! are integer milliseconds supplied by the caller; rendering and counter
//! acquisition live outside the library.

pub mod discovery;
pub mod history;
pub mod metrics;
pub mod portmap;
pub mod simulation;
pub mod text;
pub mod types;
pub mod ui;
