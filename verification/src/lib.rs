//! An incremental log-tailing library: tolerant line-to-record parsing,
//! offset-based incremental reads with truncation detection, and an
//! append-only record store with an error counter.

pub mod file_watcher;
pub mod json;
pub mod log_parser;
pub mod log_store;
pub mod text;
