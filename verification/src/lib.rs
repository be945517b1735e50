//! Verified core of a segmented, multi-source HTTP download engine.
//!
//! The crate models the transfer pipeline — probe, plan, dispatch, fetch,
//! write, aggregate — as plain data and verified functions.  Network and file
//! I/O live outside the library; the library decides how a resource is split
//! into byte ranges, how slow segments are rebalanced, which mirror serves a
//! segment, how progress and rate limits are accounted, and what events a
//! transfer emits.

pub mod coalesce;
pub mod controller;
pub mod error;
pub mod hasher;
pub mod http;
pub mod integrity;
pub mod limiter;
pub mod manager;
pub mod mirror;
pub mod monitor;
pub mod multi_source;
pub mod orchestrator;
pub mod output;
pub mod pool;
pub mod progress;
pub mod range;
pub mod rebalancer;
pub mod scheduler;
pub mod types;
pub mod worker;
