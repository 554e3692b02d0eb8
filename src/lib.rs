//! A fleet log-tailing gateway library: an online ordered merge of
//! per-source timestamped line streams, the endpoint directory and request
//! construction of the fan-out client, and a bounded line channel for
//! tailing local files.

pub mod cfg;
pub mod log_merge;
pub mod merge_laws;
pub mod server;
pub mod tail;
pub mod tentacle;
