//! Bulk loading of delimited text into a clustered key-value store.
//!
//! The crate holds the decisions of the loader and none of its input or
//! output: text is turned into rows, rows into records, and records into the
//! commands of an import that follows cluster redirects. Whoever drives it
//! reads the files, owns the connection and reports back what the store said.

pub mod config;
pub mod eval_args;
pub mod importcsv;
pub mod importredis;
pub mod record;
pub mod run;
pub mod text;
