//! Path, MIME and URL helpers used by the routing engine.

pub mod file_err;
pub mod mime;
pub mod path;
pub mod route;
pub mod table;
pub mod text;
pub mod url;
