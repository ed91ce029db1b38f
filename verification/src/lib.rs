//! A small in-memory key-value store: a verified store engine mapping string
//! keys to string values, the request handler that translates text-protocol
//! requests into store operations and responses, the console command parser,
//! and the formatting of durability-log records and log lines.

pub mod console;
pub mod durability;
pub mod logging;
pub mod protocol;
pub mod store;
pub mod text;
