//! Request routing for an HTTP gateway: virtual-host buckets, location
//! matching, chained URL rewriting and health-aware fallback between sources.

pub mod config;
pub mod fallback;
pub mod gateway;
pub mod util;
