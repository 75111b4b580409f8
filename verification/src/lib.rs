//! Decisions of a command line benchmark for language model engines.
//!
//! The library plans the benchmark and never performs it: it reads the device
//! layer arguments, chooses the key/value cache and scheduler configuration,
//! says which request to send or reply to await next, and lays out the result
//! table. A thin program around it talks to the engine and the terminal.

pub mod attention;
pub mod bench;
pub mod cache;
pub mod cells;
pub mod device_map;
pub mod report;
pub mod request;
pub mod run;
pub mod scheduler;
pub mod session;
pub mod text;
