//! Percent-encoding and decoding of request targets.

pub mod dec;
pub mod enc;
