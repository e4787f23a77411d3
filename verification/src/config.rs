//! The gateway's configuration: sources, their match and rewrite rules, and
//! the conversion from the raw, freshly parsed form.

pub mod config;
pub mod error;
pub mod import_able;
pub mod pattern;
pub mod location;
pub mod rewrite;
pub mod proxy;
pub mod static_server;
pub mod source;
